use coding_agent::json::Json;
use coding_agent::specs::{bash_tool_spec, read_tool_spec, write_tool_spec};
use coding_agent::tools::{
    bash_args, command_outcome, read_file_args, read_file_reply, write_file_args, write_file_reply,
};

fn s(t: &str) -> Json {
    Json::Str(t.to_string())
}

fn args(fields: Vec<(&str, Json)>) -> Vec<(String, Json)> {
    fields.into_iter().map(|(k, v)| (k.to_string(), v)).collect()
}

fn obj(fields: Vec<(&str, Json)>) -> Json {
    Json::Object(args(fields))
}

#[test]
fn read_file_needs_a_string_path() {
    assert_eq!(read_file_args(&args(vec![("file_path", s("a.txt"))])), Ok("a.txt".to_string()));
    assert_eq!(
        read_file_args(&args(vec![("file_path", Json::Null)])),
        Err("file_input missing or not a string".to_string())
    );
    assert_eq!(read_file_args(&args(vec![])), Err("file_input missing or not a string".to_string()));
}

#[test]
fn write_file_reports_the_path_first() {
    assert_eq!(
        write_file_args(&args(vec![("file_path", s("p")), ("content", s("c"))])),
        Ok(("p".to_string(), "c".to_string()))
    );
    assert_eq!(write_file_args(&args(vec![])), Err("file_input missing or not a string".to_string()));
    assert_eq!(
        write_file_args(&args(vec![("file_path", s("p"))])),
        Err("content missing or not a string".to_string())
    );
}

#[test]
fn bash_needs_a_command() {
    assert_eq!(bash_args(&args(vec![("command", s("ls"))])), Ok("ls".to_string()));
    assert_eq!(bash_args(&args(vec![("cmd", s("ls"))])), Err("Command attribute missing!".to_string()));
}

#[test]
fn command_outcomes() {
    assert_eq!(command_outcome(None), Err("Failed to execute command!".to_string()));
    assert_eq!(command_outcome(Some((true, "out".to_string(), "err".to_string()))), Ok("out".to_string()));
    assert_eq!(command_outcome(Some((false, "out".to_string(), "err".to_string()))), Err("err".to_string()));
}

fn string_param(d: &str) -> Json {
    obj(vec![("type", s("string")), ("description", s(d))])
}

fn function(name: &str, description: &str, parameters: Json) -> Json {
    obj(vec![
        ("type", s("function")),
        ("function", obj(vec![("name", s(name)), ("description", s(description)), ("parameters", parameters)])),
    ])
}

#[test]
fn read_spec() {
    assert_eq!(
        read_tool_spec(),
        function(
            "Read",
            "Read and return the contents of a file",
            obj(vec![
                ("type", s("object")),
                ("properties", obj(vec![("file_path", string_param("The path to the file to read"))])),
                ("required", Json::Array(vec![s("file_path")])),
            ]),
        )
    );
}

#[test]
fn write_spec() {
    assert_eq!(
        write_tool_spec(),
        function(
            "Write",
            "Write contents to a file and return success string",
            obj(vec![
                ("type", s("object")),
                (
                    "properties",
                    obj(vec![
                        ("file_path", string_param("The path to the file to write")),
                        ("content", string_param("The content to write to the file")),
                    ]),
                ),
                ("required", Json::Array(vec![s("file_path"), s("content")])),
            ]),
        )
    );
}

#[test]
fn bash_spec() {
    assert_eq!(
        bash_tool_spec(),
        function(
            "Bash",
            "Execute a shell command",
            obj(vec![
                ("type", s("object")),
                ("required", Json::Array(vec![s("command")])),
                ("properties", obj(vec![("command", string_param("The command to execute"))])),
            ]),
        )
    );
}

#[test]
fn file_replies() {
    assert_eq!(read_file_reply("h\u{e9}".as_bytes().to_vec()), Ok("h\u{e9}".to_string()));
    assert!(read_file_reply(vec![0xff, 0xfe]).is_err());
    assert_eq!(write_file_reply(), "Created the file");
}
