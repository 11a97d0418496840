//! The method registry's data: server identity, the tool catalog, and the
//! result shapes of the listing and invocation methods, each with its JSON
//! form.

use vstd::prelude::*;

verus! {

use crate::json::{Json, JsonV, js_str, obj_new, obj_add, arr_new, arr_add, clone_chars};

/// The version literal reported by the `initialize` result.
pub open spec fn server_protocol_version() -> Seq<char> {
    "2024-11-05"@
}

/// The name of the one registered tool.
pub open spec fn tool_name() -> Seq<char> {
    "touch-mcp"@
}

/// The JSON form of an optional string: the string, or null.
pub open spec fn opt_str_json(s: Option<Seq<char>>) -> JsonV {
    match s {
        Some(t) => JsonV::Str(t),
        None => JsonV::Null,
    }
}

/// Identity of this server, reported by `initialize`.
pub struct ServerInfo {
    pub name: String,
    pub version: String,
}

/// The JSON form of the server identity.
pub open spec fn server_info_json(name: Seq<char>, version: Seq<char>) -> JsonV {
    JsonV::Obj(seq![("name"@, JsonV::Str(name)), ("version"@, JsonV::Str(version))])
}

/// The `initialize` result: protocol version, server identity, and a
/// capability map announcing the tool capability with no options.
pub open spec fn init_json(pv: Seq<char>, name: Seq<char>, version: Seq<char>) -> JsonV {
    JsonV::Obj(
        seq![
            ("protocolVersion"@, JsonV::Str(pv)),
            ("serverInfo"@, server_info_json(name, version)),
            ("capabilities"@, JsonV::Obj(seq![("tools"@, JsonV::Obj(Seq::empty()))])),
        ],
    )
}

/// The `initialize` result this server always reports.
pub open spec fn init_result_json() -> JsonV {
    init_json(server_protocol_version(), "touch-mcp-server"@, "1.0.0"@)
}

/// The result of the `initialize` method.
pub struct InitializeResult {
    pub protocol_version: String,
    pub server_info: ServerInfo,
}

impl InitializeResult {
    /// The fixed identity this server reports.
    pub fn new() -> (r: InitializeResult)
        ensures
            r.protocol_version@ == server_protocol_version(),
            r.server_info.name@ == "touch-mcp-server"@,
            r.server_info.version@ == "1.0.0"@,
    {
        InitializeResult {
            protocol_version: "2024-11-05".to_owned(),
            server_info: ServerInfo { name: "touch-mcp-server".to_owned(), version: "1.0.0".to_owned() },
        }
    }

    /// The JSON form of the result.
    pub fn to_json(&self) -> (j: Json)
        ensures
            j@ == init_json(self.protocol_version@, self.server_info.name@, self.server_info.version@),
    {
        let si = obj_new();
        let si = obj_add(si, "name", js_str(self.server_info.name.as_str()));
        let si = obj_add(si, "version", js_str(self.server_info.version.as_str()));
        proof {
            assert(si@->Obj_0 =~= server_info_json(self.server_info.name@, self.server_info.version@)->Obj_0);
        }
        let tools = obj_new();
        let caps = obj_new();
        let caps = obj_add(caps, "tools", tools);
        let j = obj_new();
        let j = obj_add(j, "protocolVersion", js_str(self.protocol_version.as_str()));
        let j = obj_add(j, "serverInfo", si);
        let j = obj_add(j, "capabilities", caps);
        proof {
            assert(caps@->Obj_0 =~= seq![("tools"@, JsonV::Obj(Seq::<(Seq<char>, JsonV)>::empty()))]);
            assert(j@->Obj_0 =~= init_json(
                self.protocol_version@,
                self.server_info.name@,
                self.server_info.version@,
            )->Obj_0);
        }
        j
    }
}

/// The input schema of the file-creation tool: an object with a required
/// string `file` and an optional string `destPath`.
pub open spec fn schema_json() -> JsonV {
    JsonV::Obj(
        seq![
            ("type"@, JsonV::Str("object"@)),
            (
                "properties"@,
                JsonV::Obj(
                    seq![
                        (
                            "file"@,
                            JsonV::Obj(
                                seq![
                                    ("type"@, JsonV::Str("string"@)),
                                    ("description"@, JsonV::Str("Filename"@)),
                                ],
                            ),
                        ),
                        (
                            "destPath"@,
                            JsonV::Obj(
                                seq![
                                    ("type"@, JsonV::Str("string"@)),
                                    ("description"@, JsonV::Str("Destination path"@)),
                                ],
                            ),
                        ),
                    ],
                ),
            ),
            ("required"@, JsonV::Arr(seq![JsonV::Str("file"@)])),
        ],
    )
}

/// The JSON form of one tool descriptor.
pub open spec fn tool_json(name: Seq<char>, description: Seq<char>, schema: JsonV) -> JsonV {
    JsonV::Obj(
        seq![
            ("name"@, JsonV::Str(name)),
            ("description"@, JsonV::Str(description)),
            ("inputSchema"@, schema),
        ],
    )
}

/// One entry of the tool catalog.
pub struct Tool {
    pub name: String,
    pub description: String,
    pub input_schema: Json,
}

impl Tool {
    /// The one registered tool: the file-creation tool and its schema.
    pub fn touch_tool() -> (t: Tool)
        ensures
            t.name@ == tool_name(),
            t.description@ == "Create file tool"@,
            t.input_schema@ == schema_json(),
    {
        let fileprop = obj_new();
        let fileprop = obj_add(fileprop, "type", js_str("string"));
        let fileprop = obj_add(fileprop, "description", js_str("Filename"));
        let destprop = obj_new();
        let destprop = obj_add(destprop, "type", js_str("string"));
        let destprop = obj_add(destprop, "description", js_str("Destination path"));
        let props = obj_new();
        let props = obj_add(props, "file", fileprop);
        let props = obj_add(props, "destPath", destprop);
        let required = arr_add(arr_new(), js_str("file"));
        let schema = obj_new();
        let schema = obj_add(schema, "type", js_str("object"));
        let schema = obj_add(schema, "properties", props);
        let schema = obj_add(schema, "required", required);
        proof {
            assert(fileprop@->Obj_0 =~= seq![
                ("type"@, JsonV::Str("string"@)),
                ("description"@, JsonV::Str("Filename"@)),
            ]);
            assert(destprop@->Obj_0 =~= seq![
                ("type"@, JsonV::Str("string"@)),
                ("description"@, JsonV::Str("Destination path"@)),
            ]);
            assert(props@->Obj_0 =~= schema_json()->Obj_0[1].1->Obj_0);
            assert(required@->Arr_0 =~= seq![JsonV::Str("file"@)]);
            assert(schema@->Obj_0 =~= schema_json()->Obj_0);
        }
        Tool { name: "touch-mcp".to_owned(), description: "Create file tool".to_owned(), input_schema: schema }
    }

    /// The JSON form of this descriptor.
    pub fn to_json(&self) -> (j: Json)
        ensures
            j@ == tool_json(self.name@, self.description@, self.input_schema@),
    {
        let j = obj_new();
        let j = obj_add(j, "name", js_str(self.name.as_str()));
        let j = obj_add(j, "description", js_str(self.description.as_str()));
        let j = obj_add(j, "inputSchema", crate::json::clone_json(&self.input_schema));
        proof {
            assert(j@->Obj_0 =~= tool_json(self.name@, self.description@, self.input_schema@)->Obj_0);
        }
        j
    }
}

/// The `tools/list` result this server always reports: exactly the one
/// registered tool.
pub open spec fn tools_list_json() -> JsonV {
    JsonV::Obj(
        seq![
            (
                "tools"@,
                JsonV::Arr(seq![tool_json(tool_name(), "Create file tool"@, schema_json())]),
            ),
        ],
    )
}

/// The result of `tools/list`.
pub struct ListToolsResult {
    pub tools: Vec<Tool>,
}

impl ListToolsResult {
    /// Wraps a tool catalog.
    pub fn new(tools: Vec<Tool>) -> (r: ListToolsResult)
        ensures
            r.tools == tools,
    {
        ListToolsResult { tools }
    }

    /// The JSON form: `{"tools": [...]}` in catalog order.
    pub fn to_json(&self) -> (j: Json)
        ensures
            j@ == JsonV::Obj(seq![("tools"@, JsonV::Arr(tools_json_items(self.tools@)))]),
    {
        let mut arr = arr_new();
        let mut i: usize = 0;
        while i < self.tools.len()
            invariant
                0 <= i <= self.tools@.len(),
                arr@ is Arr,
                arr@->Arr_0 == tools_json_items(self.tools@.take(i as int)),
            decreases self.tools@.len() - i,
        {
            arr = arr_add(arr, self.tools[i].to_json());
            proof {
                lemma_tools_json_items_push(self.tools@, i as int);
            }
            i = i + 1;
        }
        proof {
            assert(self.tools@.take(self.tools@.len() as int) =~= self.tools@);
        }
        let j = obj_add(obj_new(), "tools", arr);
        proof {
            assert(j@->Obj_0 =~= seq![("tools"@, JsonV::Arr(tools_json_items(self.tools@)))]);
        }
        j
    }
}

/// The JSON descriptors of a tool catalog, in order.
pub open spec fn tools_json_items(tools: Seq<Tool>) -> Seq<JsonV> {
    tools.map(|i: int, t: Tool| tool_json(t.name@, t.description@, t.input_schema@))
}

proof fn lemma_tools_json_items_push(tools: Seq<Tool>, i: int)
    requires
        0 <= i < tools.len(),
    ensures
        tools_json_items(tools.take(i + 1)) == tools_json_items(tools.take(i)).push(
            tool_json(tools[i].name@, tools[i].description@, tools[i].input_schema@),
        ),
{
    assert(tools_json_items(tools.take(i + 1)) =~= tools_json_items(tools.take(i)).push(
        tool_json(tools[i].name@, tools[i].description@, tools[i].input_schema@),
    ));
}

/// One piece of tool output: a typed content block.
pub struct ToolContent {
    pub content_type: String,
    pub text: Vec<char>,
}

impl ToolContent {
    /// A text content block.
    pub fn text_content(text: Vec<char>) -> (r: ToolContent)
        ensures
            r.content_type@ == "text"@,
            r.text == text,
    {
        ToolContent { content_type: "text".to_owned(), text }
    }
}

/// The JSON form of one content block.
pub open spec fn content_json(content_type: Seq<char>, text: Seq<char>) -> JsonV {
    JsonV::Obj(seq![("type"@, JsonV::Str(content_type)), ("text"@, JsonV::Str(text))])
}

/// The JSON content blocks of a `tools/call` result, in order.
pub open spec fn contents_json_items(content: Seq<ToolContent>) -> Seq<JsonV> {
    content.map(|i: int, c: ToolContent| content_json(c.content_type@, c.text@))
}

/// The result of `tools/call`.
pub struct CallToolsResult {
    pub content: Vec<ToolContent>,
}

impl CallToolsResult {
    /// Wraps the content blocks a tool produced.
    pub fn new(content: Vec<ToolContent>) -> (r: CallToolsResult)
        ensures
            r.content == content,
    {
        CallToolsResult { content }
    }

    /// The JSON form: `{"content": [...]}` in block order.
    pub fn to_json(&self) -> (j: Json)
        ensures
            j@ == JsonV::Obj(seq![("content"@, JsonV::Arr(contents_json_items(self.content@)))]),
    {
        let mut arr = arr_new();
        let mut i: usize = 0;
        while i < self.content.len()
            invariant
                0 <= i <= self.content@.len(),
                arr@ is Arr,
                arr@->Arr_0 == contents_json_items(self.content@.take(i as int)),
            decreases self.content@.len() - i,
        {
            let c = &self.content[i];
            let cj = obj_add(obj_new(), "type", js_str(c.content_type.as_str()));
            let cj = obj_add(cj, "text", Json::Str(clone_chars(&c.text)));
            proof {
                assert(cj@->Obj_0 =~= content_json(c.content_type@, c.text@)->Obj_0);
                assert(contents_json_items(self.content@.take(i as int + 1))
                    =~= contents_json_items(self.content@.take(i as int)).push(
                    content_json(c.content_type@, c.text@),
                ));
            }
            arr = arr_add(arr, cj);
            i = i + 1;
        }
        proof {
            assert(self.content@.take(self.content@.len() as int) =~= self.content@);
        }
        let j = obj_add(obj_new(), "content", arr);
        proof {
            assert(j@->Obj_0 =~= seq![
                ("content"@, JsonV::Arr(contents_json_items(self.content@))),
            ]);
        }
        j
    }
}

/// A listable resource. This server registers none; the shape exists for the
/// `resources/list` result.
pub struct Resource {
    pub uri: String,
    pub name: String,
    pub description: Option<String>,
    pub mime_type: Option<String>,
}

/// The JSON form of one resource.
pub open spec fn resource_json(
    uri: Seq<char>,
    name: Seq<char>,
    description: Option<Seq<char>>,
    mime_type: Option<Seq<char>>,
) -> JsonV {
    JsonV::Obj(
        seq![
            ("uri"@, JsonV::Str(uri)),
            ("name"@, JsonV::Str(name)),
            ("description"@, opt_str_json(description)),
            ("mimeType"@, opt_str_json(mime_type)),
        ],
    )
}

/// The view of an optional string field.
pub open spec fn opt_string_view(s: Option<String>) -> Option<Seq<char>> {
    match s {
        Some(t) => Some(t@),
        None => None,
    }
}

/// The JSON forms of a resource list, in order.
pub open spec fn resources_json_items(rs: Seq<Resource>) -> Seq<JsonV> {
    rs.map(
        |i: int, r: Resource|
            resource_json(r.uri@, r.name@, opt_string_view(r.description), opt_string_view(r.mime_type)),
    )
}

/// The result of `resources/list`.
pub struct ListResourcesResult {
    pub resources: Vec<Resource>,
}

/// The JSON form of an optional string field.
fn opt_str_to_json(s: &Option<String>) -> (j: Json)
    ensures
        j@ == opt_str_json(opt_string_view(*s)),
{
    match s {
        Some(t) => js_str(t.as_str()),
        None => Json::Null,
    }
}

impl ListResourcesResult {
    /// Wraps a resource list.
    pub fn new(resources: Vec<Resource>) -> (r: ListResourcesResult)
        ensures
            r.resources == resources,
    {
        ListResourcesResult { resources }
    }

    /// The JSON form: `{"resources": [...]}` in list order.
    pub fn to_json(&self) -> (j: Json)
        ensures
            j@ == JsonV::Obj(
                seq![("resources"@, JsonV::Arr(resources_json_items(self.resources@)))],
            ),
    {
        let mut arr = arr_new();
        let mut i: usize = 0;
        while i < self.resources.len()
            invariant
                0 <= i <= self.resources@.len(),
                arr@ is Arr,
                arr@->Arr_0 == resources_json_items(self.resources@.take(i as int)),
            decreases self.resources@.len() - i,
        {
            let r = &self.resources[i];
            let rj = obj_add(obj_new(), "uri", js_str(r.uri.as_str()));
            let rj = obj_add(rj, "name", js_str(r.name.as_str()));
            let rj = obj_add(rj, "description", opt_str_to_json(&r.description));
            let rj = obj_add(rj, "mimeType", opt_str_to_json(&r.mime_type));
            proof {
                assert(rj@->Obj_0 =~= resource_json(
                    r.uri@,
                    r.name@,
                    opt_string_view(r.description),
                    opt_string_view(r.mime_type),
                )->Obj_0);
                assert(resources_json_items(self.resources@.take(i as int + 1))
                    =~= resources_json_items(self.resources@.take(i as int)).push(
                    resource_json(
                        r.uri@,
                        r.name@,
                        opt_string_view(r.description),
                        opt_string_view(r.mime_type),
                    ),
                ));
            }
            arr = arr_add(arr, rj);
            i = i + 1;
        }
        proof {
            assert(self.resources@.take(self.resources@.len() as int) =~= self.resources@);
        }
        let j = obj_add(obj_new(), "resources", arr);
        proof {
            assert(j@->Obj_0 =~= seq![
                ("resources"@, JsonV::Arr(resources_json_items(self.resources@))),
            ]);
        }
        j
    }
}

/// One argument of a prompt. This server registers no prompts; the shape
/// exists for the `prompts/list` result.
pub struct PromptArgument {
    pub name: String,
    pub description: Option<String>,
    pub required: Option<bool>,
}

/// The JSON form of an optional boolean field.
pub open spec fn opt_bool_json(b: Option<bool>) -> JsonV {
    match b {
        Some(x) => JsonV::Bool(x),
        None => JsonV::Null,
    }
}

/// The JSON form of one prompt argument.
pub open spec fn prompt_arg_json(
    name: Seq<char>,
    description: Option<Seq<char>>,
    required: Option<bool>,
) -> JsonV {
    JsonV::Obj(
        seq![
            ("name"@, JsonV::Str(name)),
            ("description"@, opt_str_json(description)),
            ("required"@, opt_bool_json(required)),
        ],
    )
}

/// A listable prompt.
pub struct Prompt {
    pub name: String,
    pub description: Option<String>,
    pub arguments: Option<Vec<PromptArgument>>,
}

/// The JSON forms of a prompt-argument list, in order.
pub open spec fn prompt_args_json_items(args: Seq<PromptArgument>) -> Seq<JsonV> {
    args.map(
        |i: int, a: PromptArgument|
            prompt_arg_json(a.name@, opt_string_view(a.description), a.required),
    )
}

/// The JSON form of one prompt.
pub open spec fn prompt_json(
    name: Seq<char>,
    description: Option<Seq<char>>,
    arguments: Option<Seq<PromptArgument>>,
) -> JsonV {
    JsonV::Obj(
        seq![
            ("name"@, JsonV::Str(name)),
            ("description"@, opt_str_json(description)),
            (
                "arguments"@,
                match arguments {
                    Some(args) => JsonV::Arr(prompt_args_json_items(args)),
                    None => JsonV::Null,
                },
            ),
        ],
    )
}

/// The JSON forms of a prompt list, in order.
pub open spec fn prompts_json_items(ps: Seq<Prompt>) -> Seq<JsonV> {
    ps.map(
        |i: int, p: Prompt|
            prompt_json(
                p.name@,
                opt_string_view(p.description),
                match p.arguments {
                    Some(args) => Some(args@),
                    None => None,
                },
            ),
    )
}

/// The result of `prompts/list`.
pub struct ListPromptsResult {
    pub prompts: Vec<Prompt>,
}

impl ListPromptsResult {
    /// Wraps a prompt list.
    pub fn new(prompts: Vec<Prompt>) -> (r: ListPromptsResult)
        ensures
            r.prompts == prompts,
    {
        ListPromptsResult { prompts }
    }

    /// The JSON form: `{"prompts": [...]}` in list order.
    pub fn to_json(&self) -> (j: Json)
        ensures
            j@ == JsonV::Obj(seq![("prompts"@, JsonV::Arr(prompts_json_items(self.prompts@)))]),
    {
        let mut arr = arr_new();
        let mut i: usize = 0;
        while i < self.prompts.len()
            invariant
                0 <= i <= self.prompts@.len(),
                arr@ is Arr,
                arr@->Arr_0 == prompts_json_items(self.prompts@.take(i as int)),
            decreases self.prompts@.len() - i,
        {
            let p = &self.prompts[i];
            let pj = obj_add(obj_new(), "name", js_str(p.name.as_str()));
            let pj = obj_add(pj, "description", opt_str_to_json(&p.description));
            let argsj: Json = match &p.arguments {
                None => Json::Null,
                Some(args) => {
                    let mut aarr = arr_new();
                    let mut k: usize = 0;
                    while k < args.len()
                        invariant
                            0 <= k <= args@.len(),
                            aarr@ is Arr,
                            aarr@->Arr_0 == prompt_args_json_items(args@.take(k as int)),
                        decreases args@.len() - k,
                    {
                        let a = &args[k];
                        let aj = obj_add(obj_new(), "name", js_str(a.name.as_str()));
                        let aj = obj_add(aj, "description", opt_str_to_json(&a.description));
                        let req: Json = match a.required {
                            Some(b) => Json::Bool(b),
                            None => Json::Null,
                        };
                        let aj = obj_add(aj, "required", req);
                        proof {
                            assert(aj@->Obj_0 =~= prompt_arg_json(
                                a.name@,
                                opt_string_view(a.description),
                                a.required,
                            )->Obj_0);
                            assert(prompt_args_json_items(args@.take(k as int + 1))
                                =~= prompt_args_json_items(args@.take(k as int)).push(
                                prompt_arg_json(a.name@, opt_string_view(a.description), a.required),
                            ));
                        }
                        aarr = arr_add(aarr, aj);
                        k = k + 1;
                    }
                    proof {
                        assert(args@.take(args@.len() as int) =~= args@);
                    }
                    aarr
                },
            };
            let pj = obj_add(pj, "arguments", argsj);
            proof {
                assert(pj@->Obj_0 =~= prompt_json(
                    p.name@,
                    opt_string_view(p.description),
                    match p.arguments {
                        Some(args) => Some(args@),
                        None => None,
                    },
                )->Obj_0);
                assert(prompts_json_items(self.prompts@.take(i as int + 1))
                    =~= prompts_json_items(self.prompts@.take(i as int)).push(
                    prompt_json(
                        p.name@,
                        opt_string_view(p.description),
                        match p.arguments {
                            Some(args) => Some(args@),
                            None => None,
                        },
                    ),
                ));
            }
            arr = arr_add(arr, pj);
            i = i + 1;
        }
        proof {
            assert(self.prompts@.take(self.prompts@.len() as int) =~= self.prompts@);
        }
        let j = obj_add(obj_new(), "prompts", arr);
        proof {
            assert(j@->Obj_0 =~= seq![
                ("prompts"@, JsonV::Arr(prompts_json_items(self.prompts@))),
            ]);
        }
        j
    }
}

} // verus!
