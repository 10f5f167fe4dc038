use vstd::prelude::*;
use crate::json::{Json, JsonView, lemma_fields_view_eq, lemma_items_view_eq, member, member_of};

verus! {

/// A string parameter with its description.
pub open spec fn string_param_json(description: Seq<char>) -> JsonView {
    JsonView::Object(
        seq![member("type", JsonView::Str("string"@)), member("description", JsonView::Str(description))],
    )
}

/// A function tool with its name, description and parameter schema.
pub open spec fn function_json(name: Seq<char>, description: Seq<char>, parameters: JsonView) -> JsonView {
    JsonView::Object(
        seq![
            member("type", JsonView::Str("function"@)),
            member(
                "function",
                JsonView::Object(
                    seq![
                        member("name", JsonView::Str(name)),
                        member("description", JsonView::Str(description)),
                        member("parameters", parameters),
                    ],
                ),
            ),
        ],
    )
}

/// The description of the Read tool.
pub open spec fn read_tool_json() -> JsonView {
    function_json(
        "Read"@,
        "Read and return the contents of a file"@,
        JsonView::Object(
            seq![
                member("type", JsonView::Str("object"@)),
                member(
                    "properties",
                    JsonView::Object(
                        seq![member("file_path", string_param_json("The path to the file to read"@))],
                    ),
                ),
                member("required", JsonView::Array(seq![JsonView::Str("file_path"@)])),
            ],
        ),
    )
}

/// The description of the Write tool.
pub open spec fn write_tool_json() -> JsonView {
    function_json(
        "Write"@,
        "Write contents to a file and return success string"@,
        JsonView::Object(
            seq![
                member("type", JsonView::Str("object"@)),
                member(
                    "properties",
                    JsonView::Object(
                        seq![
                            member("file_path", string_param_json("The path to the file to write"@)),
                            member("content", string_param_json("The content to write to the file"@)),
                        ],
                    ),
                ),
                member(
                    "required",
                    JsonView::Array(seq![JsonView::Str("file_path"@), JsonView::Str("content"@)]),
                ),
            ],
        ),
    )
}

/// The description of the Bash tool.
pub open spec fn bash_tool_json() -> JsonView {
    function_json(
        "Bash"@,
        "Execute a shell command"@,
        JsonView::Object(
            seq![
                member("type", JsonView::Str("object"@)),
                member("required", JsonView::Array(seq![JsonView::Str("command"@)])),
                member(
                    "properties",
                    JsonView::Object(
                        seq![member("command", string_param_json("The command to execute"@))],
                    ),
                ),
            ],
        ),
    )
}

fn string_param(description: &str) -> (r: Json)
    ensures
        r@ == string_param_json(description@),
{
    let fields = vec![member_of("type", Json::string("string")), member_of("description", Json::string(description))];
    proof {
        lemma_fields_view_eq(
            fields@,
            seq![member("type", JsonView::Str("string"@)), member("description", JsonView::Str(description@))],
        );
    }
    Json::object(fields)
}

fn function_tool(name: &str, description: &str, parameters: Json) -> (r: Json)
    ensures
        r@ == function_json(name@, description@, parameters@),
{
    let ghost p = parameters@;
    let inner = vec![
        member_of("name", Json::string(name)),
        member_of("description", Json::string(description)),
        member_of("parameters", parameters),
    ];
    proof {
        lemma_fields_view_eq(
            inner@,
            seq![
                member("name", JsonView::Str(name@)),
                member("description", JsonView::Str(description@)),
                member("parameters", p),
            ],
        );
    }
    let fields = vec![member_of("type", Json::string("function")), member_of("function", Json::object(inner))];
    proof {
        lemma_fields_view_eq(
            fields@,
            seq![
                member("type", JsonView::Str("function"@)),
                member(
                    "function",
                    JsonView::Object(
                        seq![
                            member("name", JsonView::Str(name@)),
                            member("description", JsonView::Str(description@)),
                            member("parameters", p),
                        ],
                    ),
                ),
            ],
        );
    }
    Json::object(fields)
}

/// The description of the Read tool offered to the model.
pub fn read_tool_spec() -> (r: Json)
    ensures
        r@ == read_tool_json(),
{
    let props = vec![member_of("file_path", string_param("The path to the file to read"))];
    proof {
        lemma_fields_view_eq(props@, seq![member("file_path", string_param_json("The path to the file to read"@))]);
    }
    let required = vec![Json::string("file_path")];
    proof {
        lemma_items_view_eq(required@, seq![JsonView::Str("file_path"@)]);
    }
    let params = vec![
        member_of("type", Json::string("object")),
        member_of("properties", Json::object(props)),
        member_of("required", Json::array(required)),
    ];
    proof {
        lemma_fields_view_eq(
            params@,
            seq![
                member("type", JsonView::Str("object"@)),
                member(
                    "properties",
                    JsonView::Object(
                        seq![member("file_path", string_param_json("The path to the file to read"@))],
                    ),
                ),
                member("required", JsonView::Array(seq![JsonView::Str("file_path"@)])),
            ],
        );
    }
    function_tool("Read", "Read and return the contents of a file", Json::object(params))
}

/// The description of the Write tool offered to the model.
pub fn write_tool_spec() -> (r: Json)
    ensures
        r@ == write_tool_json(),
{
    let props = vec![
        member_of("file_path", string_param("The path to the file to write")),
        member_of("content", string_param("The content to write to the file")),
    ];
    proof {
        lemma_fields_view_eq(
            props@,
            seq![
                member("file_path", string_param_json("The path to the file to write"@)),
                member("content", string_param_json("The content to write to the file"@)),
            ],
        );
    }
    let required = vec![Json::string("file_path"), Json::string("content")];
    proof {
        lemma_items_view_eq(required@, seq![JsonView::Str("file_path"@), JsonView::Str("content"@)]);
    }
    let params = vec![
        member_of("type", Json::string("object")),
        member_of("properties", Json::object(props)),
        member_of("required", Json::array(required)),
    ];
    proof {
        lemma_fields_view_eq(
            params@,
            seq![
                member("type", JsonView::Str("object"@)),
                member(
                    "properties",
                    JsonView::Object(
                        seq![
                            member("file_path", string_param_json("The path to the file to write"@)),
                            member("content", string_param_json("The content to write to the file"@)),
                        ],
                    ),
                ),
                member(
                    "required",
                    JsonView::Array(seq![JsonView::Str("file_path"@), JsonView::Str("content"@)]),
                ),
            ],
        );
    }
    function_tool("Write", "Write contents to a file and return success string", Json::object(params))
}

/// The description of the Bash tool offered to the model.
pub fn bash_tool_spec() -> (r: Json)
    ensures
        r@ == bash_tool_json(),
{
    let required = vec![Json::string("command")];
    proof {
        lemma_items_view_eq(required@, seq![JsonView::Str("command"@)]);
    }
    let props = vec![member_of("command", string_param("The command to execute"))];
    proof {
        lemma_fields_view_eq(props@, seq![member("command", string_param_json("The command to execute"@))]);
    }
    let params = vec![
        member_of("type", Json::string("object")),
        member_of("required", Json::array(required)),
        member_of("properties", Json::object(props)),
    ];
    proof {
        lemma_fields_view_eq(
            params@,
            seq![
                member("type", JsonView::Str("object"@)),
                member("required", JsonView::Array(seq![JsonView::Str("command"@)])),
                member(
                    "properties",
                    JsonView::Object(
                        seq![member("command", string_param_json("The command to execute"@))],
                    ),
                ),
            ],
        );
    }
    function_tool("Bash", "Execute a shell command", Json::object(params))
}

} // verus!
