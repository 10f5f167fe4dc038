use vstd::prelude::*;
use vstd::utf8::{valid_utf8, decode_utf8};
use crate::json::{Json, JsonView, fields_view, lookup, object_get, str_in};

verus! {

/// A tool call requested by the model: its call id, the tool's name and
/// the JSON text of its arguments.
#[derive(Debug)]
pub struct Tool {
    pub id: String,
    pub name: String,
    pub arguments: String,
}

pub struct ToolView {
    pub id: Seq<char>,
    pub name: Seq<char>,
    pub arguments: Seq<char>,
}

impl View for Tool {
    type V = ToolView;

    open spec fn view(&self) -> ToolView {
        ToolView { id: self.id@, name: self.name@, arguments: self.arguments@ }
    }
}

impl Tool {
    pub fn new(id: String, name: String, arguments: String) -> (r: Tool)
        ensures
            r@ == (ToolView { id: id@, name: name@, arguments: arguments@ }),
    {
        Tool { id, name, arguments }
    }
}

impl Clone for Tool {
    fn clone(&self) -> (r: Tool)
        ensures
            r@ == self@,
    {
        Tool { id: self.id.clone(), name: self.name.clone(), arguments: self.arguments.clone() }
    }
}

/// The string member `key` of a tool's argument object, if it is there and is a string.
pub open spec fn string_arg(input: Seq<(Seq<char>, JsonView)>, key: Seq<char>) -> Option<Seq<char>> {
    str_in(lookup(input, key))
}

fn string_member(input: &Vec<(String, Json)>, key: &str) -> (r: Option<String>)
    ensures
        match r {
            Some(s) => string_arg(fields_view(input@), key@) == Some(s@),
            None => string_arg(fields_view(input@), key@) is None,
        },
{
    match object_get(input, key) {
        Some(v) => match v.as_str() {
            Some(s) => Some(s.clone()),
            None => None,
        },
        None => None,
    }
}

/// The path that the Read tool is asked to read.
pub fn read_file_args(input: &Vec<(String, Json)>) -> (r: Result<String, String>)
    ensures
        match r {
            Ok(path) => string_arg(fields_view(input@), "file_path"@) == Some(path@),
            Err(e) => string_arg(fields_view(input@), "file_path"@) is None && e@
                == "file_input missing or not a string"@,
        },
{
    match string_member(input, "file_path") {
        Some(path) => Ok(path),
        None => Err(String::from_str("file_input missing or not a string")),
    }
}

/// The path and the content that the Write tool is asked to write.
/// A missing path is reported before a missing content.
pub fn write_file_args(input: &Vec<(String, Json)>) -> (r: Result<(String, String), String>)
    ensures
        ({
            let path = string_arg(fields_view(input@), "file_path"@);
            let content = string_arg(fields_view(input@), "content"@);
            match r {
                Ok((p, c)) => path == Some(p@) && content == Some(c@),
                Err(e) => if path is None {
                    e@ == "file_input missing or not a string"@
                } else {
                    content is None && e@ == "content missing or not a string"@
                },
            }
        }),
{
    let path = string_member(input, "file_path");
    let content = string_member(input, "content");
    match path {
        None => Err(String::from_str("file_input missing or not a string")),
        Some(p) => match content {
            None => Err(String::from_str("content missing or not a string")),
            Some(c) => Ok((p, c)),
        },
    }
}

/// The shell command that the Bash tool is asked to run.
pub fn bash_args(input: &Vec<(String, Json)>) -> (r: Result<String, String>)
    ensures
        match r {
            Ok(cmd) => string_arg(fields_view(input@), "command"@) == Some(cmd@),
            Err(e) => string_arg(fields_view(input@), "command"@) is None && e@
                == "Command attribute missing!"@,
        },
{
    match string_member(input, "command") {
        Some(cmd) => Ok(cmd),
        None => Err(String::from_str("Command attribute missing!")),
    }
}

/// What the Bash tool answers, given how the command ran: not at all
/// (`None`), or with its exit success, its standard output and its
/// standard error (both as text).
pub fn command_outcome(ran: Option<(bool, String, String)>) -> (r: Result<String, String>)
    ensures
        match ran {
            None => r is Err && r->Err_0@ == "Failed to execute command!"@,
            Some((success, out, err)) => if success {
                r is Ok && r->Ok_0@ == out@
            } else {
                r is Err && r->Err_0@ == err@
            },
        },
{
    match ran {
        None => Err(String::from_str("Failed to execute command!")),
        Some((success, out, err)) => if success {
            Ok(out)
        } else {
            Err(err)
        },
    }
}

/// Calls `String::from_utf8`: the text the bytes encode when they are valid
/// UTF-8; otherwise an error, here given by its message (the message's
/// wording is not stated).
#[verifier::external_body]
fn string_from_utf8(bytes: Vec<u8>) -> (r: Result<String, String>)
    ensures
        r is Ok <==> valid_utf8(bytes@),
        r is Ok ==> r->Ok_0@ == decode_utf8(bytes@),
{
    match String::from_utf8(bytes) {
        Ok(s) => Ok(s),
        Err(e) => Err(e.to_string()),
    }
}

/// What the Read tool answers for the bytes of the file it read: their
/// text, or an error when they are not valid UTF-8.
pub fn read_file_reply(bytes: Vec<u8>) -> (r: Result<String, String>)
    ensures
        r is Ok <==> valid_utf8(bytes@),
        r is Ok ==> r->Ok_0@ == decode_utf8(bytes@),
{
    string_from_utf8(bytes)
}

/// What the Write tool answers once the file is written.
pub fn write_file_reply() -> (r: String)
    ensures
        r@ == "Created the file"@,
{
    String::from_str("Created the file")
}

} // verus!
