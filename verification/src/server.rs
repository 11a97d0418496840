//! The dispatcher and the session step: how one input line becomes either
//! silence, one response, or a file-creation action followed by one response.
//!
//! The surrounding binary owns the channel and the filesystem: it reads a
//! line, calls [`process_line`] with the resolved environment, performs the
//! [`TouchAction`] if one is asked for, turns the outcome into the final
//! response through [`touch_reply`], and writes the encoded response.

use vstd::prelude::*;

verus! {

use crate::json::{Json, JsonV, str_to_chars, clone_chars, decode_chars, skip_ws};
use crate::rpc::{ReqId, ReqIdV, Response, RespV, RespBodyV, Request, RequestV, Decoded,
    validate_envelope, obj_lookup, duplicate_opt_id, opt_id_view, resp_json};
use crate::mcp::{InitializeResult, Tool, ListToolsResult, ListResourcesResult, ListPromptsResult,
    CallToolsResult, ToolContent, opt_string_view, init_result_json, tools_list_json, tool_name,
    tool_json, schema_json, tools_json_items, resources_json_items, prompts_json_items,
    contents_json_items, content_json};
use crate::{PARSE_ERROR, INVALID_REQUEST, METHOD_NOT_FOUND, INVALID_PARAMS, INTERNAL_ERROR};

// ---------------------------------------------------------------------------
// Messages
// ---------------------------------------------------------------------------
pub open spec fn msg_parse() -> Seq<char> {
    "Failed to decode request"@
}

pub open spec fn msg_version() -> Seq<char> {
    "Invalid protocol version"@
}

pub open spec fn msg_bad_id() -> Seq<char> {
    "Invalid request id"@
}

pub open spec fn msg_missing_params() -> Seq<char> {
    "Missing 'params' for 'tools/call'"@
}

pub open spec fn msg_bad_params() -> Seq<char> {
    "Failed to parse 'tools/call' params"@
}

pub open spec fn msg_missing_args() -> Seq<char> {
    "Missing 'arguments' for 'touch-mcp'"@
}

pub open spec fn msg_bad_args() -> Seq<char> {
    "Failed to parse 'touch-mcp' arguments"@
}

pub open spec fn msg_empty_file() -> Seq<char> {
    "Missing or empty file name"@
}

pub open spec fn msg_method_not_found(m: Seq<char>) -> Seq<char> {
    "Method '"@ + m + "' not found"@
}

pub open spec fn msg_tool_not_found(t: Seq<char>) -> Seq<char> {
    "Tool '"@ + t + "' not found"@
}

/// The confirmation text of a successful file creation: it names the file
/// and the resolved destination (not the joined path).
pub open spec fn confirmation(file: Seq<char>, dest: Seq<char>) -> Seq<char> {
    "File "@ + file + " created successfully at "@ + dest
}

pub open spec fn msg_create_failed(path: Seq<char>, err: Seq<char>) -> Seq<char> {
    "Failed to create file '"@ + path + "': "@ + err
}

// ---------------------------------------------------------------------------
// The step type
// ---------------------------------------------------------------------------
/// A file-creation action the session must perform before it can answer: the
/// caller creates (or truncates) the file at `path` and reports the outcome
/// to [`touch_reply`].
pub struct TouchAction {
    pub id: Option<ReqId>,
    pub file: Vec<char>,
    pub dest: Vec<char>,
    pub path: Vec<char>,
}

/// Spec-level step.
pub enum StepV {
    /// No response is owed (a blank line or a notification).
    Silent,
    /// Exactly one response, to be encoded and written.
    Reply(RespV),
    /// A file creation, whose outcome decides the response.
    Touch { id: Option<ReqIdV>, file: Seq<char>, dest: Seq<char>, path: Seq<char> },
}

/// What the session does with one input line.
pub enum Step {
    Silent,
    Reply(Response),
    Touch(TouchAction),
}

impl View for Step {
    type V = StepV;

    open spec fn view(&self) -> StepV {
        match self {
            Step::Silent => StepV::Silent,
            Step::Reply(r) => StepV::Reply(r@),
            Step::Touch(a) => StepV::Touch {
                id: opt_id_view(a.id),
                file: a.file@,
                dest: a.dest@,
                path: a.path@,
            },
        }
    }
}

/// An error reply for a call, and silence for a notification: a failure
/// while processing a notification is never reported to the client.
pub open spec fn err_or_silent(id: Option<ReqIdV>, code: int, msg: Seq<char>) -> StepV {
    match id {
        Some(i) => StepV::Reply(RespV { id: Some(i), body: RespBodyV::Failure(code, msg) }),
        None => StepV::Silent,
    }
}

/// A reply for a call, and silence for a notification.
pub open spec fn reply_or_silent(id: Option<ReqIdV>, body: RespBodyV) -> StepV {
    match id {
        Some(i) => StepV::Reply(RespV { id: Some(i), body }),
        None => StepV::Silent,
    }
}

// ---------------------------------------------------------------------------
// Destination resolution
// ---------------------------------------------------------------------------
/// The destination directory, by the fixed precedence: the explicit
/// `destPath` argument, then the `DEFAULT_TOUCH_PATH` environment variable,
/// then the home directory, then the current directory.
pub open spec fn resolve_dest_spec(
    arg: Option<Seq<char>>,
    env_default: Option<Seq<char>>,
    home: Option<Seq<char>>,
) -> Seq<char> {
    match arg {
        Some(d) => d,
        None => match env_default {
            Some(e) => e,
            None => match home {
                Some(h) => h,
                None => "."@,
            },
        },
    }
}

/// The target path: the destination joined with the file name by a single
/// separator (an empty destination leaves the bare file name).
pub open spec fn join_path_spec(dest: Seq<char>, file: Seq<char>) -> Seq<char> {
    if dest.len() == 0 {
        file
    } else if dest.last() == '/' {
        dest + file
    } else {
        dest + seq!['/'] + file
    }
}

/// The view of an optional character vector.
pub open spec fn opt_chars_view(v: Option<Vec<char>>) -> Option<Seq<char>> {
    match v {
        Some(c) => Some(c@),
        None => None,
    }
}

/// Resolves the destination directory by the fixed precedence.
pub fn resolve_dest(
    arg: Option<Vec<char>>,
    env_default: &Option<String>,
    home: &Option<String>,
) -> (d: Vec<char>)
    ensures
        d@ == resolve_dest_spec(
            opt_chars_view(arg),
            opt_string_view(*env_default),
            opt_string_view(*home),
        ),
{
    match arg {
        Some(d) => d,
        None => match env_default {
            Some(e) => str_to_chars(e.as_str()),
            None => match home {
                Some(h) => str_to_chars(h.as_str()),
                None => str_to_chars("."),
            },
        },
    }
}

/// Appends the characters of `s`.
fn push_chars(out: &mut Vec<char>, s: &Vec<char>)
    ensures
        final(out)@ == old(out)@ + s@,
{
    let mut i: usize = 0;
    while i < s.len()
        invariant
            0 <= i <= s@.len(),
            out@ == old(out)@ + s@.take(i as int),
        decreases s@.len() - i,
    {
        out.push(s[i]);
        assert(out@ =~= old(out)@ + s@.take(i as int + 1));
        i = i + 1;
    }
    assert(out@ =~= old(out)@ + s@);
}

/// Appends the characters of a string slice.
fn push_str_chars(out: &mut Vec<char>, s: &str)
    ensures
        final(out)@ == old(out)@ + s@,
{
    let n = s.unicode_len();
    let mut i: usize = 0;
    while i < n
        invariant
            0 <= i <= n,
            n == s@.len(),
            out@ == old(out)@ + s@.take(i as int),
        decreases n - i,
    {
        out.push(s.get_char(i));
        assert(out@ =~= old(out)@ + s@.take(i as int + 1));
        i = i + 1;
    }
    assert(out@ =~= old(out)@ + s@);
}

/// Joins the destination directory and the file name.
pub fn join_path(dest: &Vec<char>, file: &Vec<char>) -> (p: Vec<char>)
    ensures
        p@ == join_path_spec(dest@, file@),
{
    if dest.len() == 0 {
        clone_chars(file)
    } else {
        let mut p = clone_chars(dest);
        if dest[dest.len() - 1] != '/' {
            p.push('/');
            assert(p@ =~= dest@ + seq!['/']);
        }
        push_chars(&mut p, file);
        proof {
            if dest@.last() != '/' {
                assert(p@ =~= dest@ + seq!['/'] + file@);
            }
        }
        p
    }
}

// ---------------------------------------------------------------------------
// The tools/call path
// ---------------------------------------------------------------------------
/// The tool invocation inside `params`: the required `name` string and the
/// optional `arguments` value (an explicit null counts as absent).
pub open spec fn tool_invocation(p: JsonV) -> Option<(Seq<char>, Option<JsonV>)> {
    match obj_lookup(p, "name"@) {
        Some(JsonV::Str(n)) => Some(
            (
                n,
                match obj_lookup(p, "arguments"@) {
                    None => None,
                    Some(JsonV::Null) => None,
                    Some(a) => Some(a),
                },
            ),
        ),
        _ => None,
    }
}

/// The file-creation arguments: the required `file` string and the optional
/// `destPath` string (an explicit null counts as absent; any other shape is
/// malformed).
pub open spec fn file_args(a: JsonV) -> Option<(Seq<char>, Option<Seq<char>>)> {
    match obj_lookup(a, "file"@) {
        Some(JsonV::Str(f)) => match obj_lookup(a, "destPath"@) {
            None => Some((f, None)),
            Some(JsonV::Null) => Some((f, None)),
            Some(JsonV::Str(d)) => Some((f, Some(d))),
            Some(_) => None,
        },
        _ => None,
    }
}

/// The step for a `tools/call` request: validation of the invocation and the
/// arguments, then the file-creation action with the resolved destination.
pub open spec fn tools_call_step_spec(
    id: Option<ReqIdV>,
    params: Option<JsonV>,
    env_default: Option<Seq<char>>,
    home: Option<Seq<char>>,
) -> StepV {
    match params {
        None => err_or_silent(id, INVALID_PARAMS as int, msg_missing_params()),
        Some(p) => match tool_invocation(p) {
            None => err_or_silent(id, INVALID_PARAMS as int, msg_bad_params()),
            Some((name, args)) => if name != tool_name() {
                err_or_silent(id, METHOD_NOT_FOUND as int, msg_tool_not_found(name))
            } else {
                match args {
                    None => err_or_silent(id, INVALID_PARAMS as int, msg_missing_args()),
                    Some(a) => match file_args(a) {
                        None => err_or_silent(id, INVALID_PARAMS as int, msg_bad_args()),
                        Some((file, destopt)) => if file.len() == 0 {
                            err_or_silent(id, INVALID_PARAMS as int, msg_empty_file())
                        } else {
                            let dest = resolve_dest_spec(destopt, env_default, home);
                            StepV::Touch { id, file, dest, path: join_path_spec(dest, file) }
                        },
                    },
                }
            },
        },
    }
}

// ---------------------------------------------------------------------------
// Dispatch
// ---------------------------------------------------------------------------
/// The reserved lifecycle notifications, silently absorbed even when they
/// carry a stray identifier.
pub open spec fn is_lifecycle(m: Seq<char>) -> bool {
    m == "initialized"@ || m == "notifications/initialized"@ || m == "cancelled"@
        || m == "notifications/cancelled"@
}

/// The `resources/list` result: no resources.
pub open spec fn resources_list_json() -> JsonV {
    JsonV::Obj(seq![("resources"@, JsonV::Arr(Seq::empty()))])
}

/// The `prompts/list` result: no prompts.
pub open spec fn prompts_list_json() -> JsonV {
    JsonV::Obj(seq![("prompts"@, JsonV::Arr(Seq::empty()))])
}

/// The step for a validated request: lifecycle signals are absorbed first;
/// then the method decides; a call to an unknown method is answered with
/// Method Not Found, an unknown notification is discarded.
pub open spec fn dispatch_spec(
    r: RequestV,
    env_default: Option<Seq<char>>,
    home: Option<Seq<char>>,
) -> StepV {
    if is_lifecycle(r.method) {
        StepV::Silent
    } else if r.method == "initialize"@ {
        reply_or_silent(r.id, RespBodyV::Success(init_result_json()))
    } else if r.method == "tools/list"@ {
        reply_or_silent(r.id, RespBodyV::Success(tools_list_json()))
    } else if r.method == "resources/list"@ {
        reply_or_silent(r.id, RespBodyV::Success(resources_list_json()))
    } else if r.method == "prompts/list"@ {
        reply_or_silent(r.id, RespBodyV::Success(prompts_list_json()))
    } else if r.method == "tools/call"@ {
        tools_call_step_spec(r.id, r.params, env_default, home)
    } else {
        err_or_silent(r.id, METHOD_NOT_FOUND as int, msg_method_not_found(r.method))
    }
}

/// An error reply for a call, silence for a notification.
fn err_step(id: Option<ReqId>, code: i64, msg: &str) -> (r: Step)
    ensures
        r@ == err_or_silent(opt_id_view(id), code as int, msg@),
{
    match id {
        Some(i) => Step::Reply(Response::new_error(Some(i), code, str_to_chars(msg))),
        None => Step::Silent,
    }
}

/// An error reply for a call with an interpolated message, silence for a
/// notification.
fn err_step_mid(id: Option<ReqId>, code: i64, pre: &str, mid: &Vec<char>, post: &str) -> (r: Step)
    ensures
        r@ == err_or_silent(opt_id_view(id), code as int, pre@ + mid@ + post@),
{
    match id {
        Some(i) => {
            let mut msg = str_to_chars(pre);
            push_chars(&mut msg, mid);
            push_str_chars(&mut msg, post);
            Step::Reply(Response::new_error(Some(i), code, msg))
        },
        None => Step::Silent,
    }
}

/// A success reply for a call, silence for a notification.
fn result_step(id: Option<ReqId>, result: Json) -> (r: Step)
    ensures
        r@ == reply_or_silent(opt_id_view(id), RespBodyV::Success(result@)),
{
    match id {
        Some(i) => Step::Reply(Response::new_result(Some(i), result)),
        None => Step::Silent,
    }
}

/// Routes a validated request to its method handler.
pub fn dispatch(req: &Request, env_default: &Option<String>, home: &Option<String>) -> (r: Step)
    ensures
        r@ == dispatch_spec(req@, opt_string_view(*env_default), opt_string_view(*home)),
{
    let m = &req.method;
    if crate::rpc::chars_eq_str(m, "initialized") || crate::rpc::chars_eq_str(
        m,
        "notifications/initialized",
    ) || crate::rpc::chars_eq_str(m, "cancelled") || crate::rpc::chars_eq_str(
        m,
        "notifications/cancelled",
    ) {
        Step::Silent
    } else if crate::rpc::chars_eq_str(m, "initialize") {
        result_step(duplicate_opt_id(&req.id), InitializeResult::new().to_json())
    } else if crate::rpc::chars_eq_str(m, "tools/list") {
        let list = ListToolsResult::new(vec![Tool::touch_tool()]);
        let j = list.to_json();
        proof {
            assert(tools_json_items(list.tools@) =~= seq![
                tool_json(tool_name(), "Create file tool"@, schema_json()),
            ]);
        }
        result_step(duplicate_opt_id(&req.id), j)
    } else if crate::rpc::chars_eq_str(m, "resources/list") {
        let list = ListResourcesResult::new(Vec::new());
        let j = list.to_json();
        proof {
            assert(resources_json_items(list.resources@) =~= Seq::<JsonV>::empty());
        }
        result_step(duplicate_opt_id(&req.id), j)
    } else if crate::rpc::chars_eq_str(m, "prompts/list") {
        let list = ListPromptsResult::new(Vec::new());
        let j = list.to_json();
        proof {
            assert(prompts_json_items(list.prompts@) =~= Seq::<JsonV>::empty());
        }
        result_step(duplicate_opt_id(&req.id), j)
    } else if crate::rpc::chars_eq_str(m, "tools/call") {
        tools_call(duplicate_opt_id(&req.id), &req.params, env_default, home)
    } else {
        err_step_mid(
            duplicate_opt_id(&req.id),
            METHOD_NOT_FOUND,
            "Method '",
            m,
            "' not found",
        )
    }
}

/// Handles a `tools/call` request.
fn tools_call(
    id: Option<ReqId>,
    params: &Option<Json>,
    env_default: &Option<String>,
    home: &Option<String>,
) -> (r: Step)
    ensures
        r@ == tools_call_step_spec(
            opt_id_view(id),
            match *params {
                Some(p) => Some(p@),
                None => None,
            },
            opt_string_view(*env_default),
            opt_string_view(*home),
        ),
{
    let p = match params {
        None => {
            return err_step(id, INVALID_PARAMS, "Missing 'params' for 'tools/call'");
        },
        Some(p) => p,
    };
    let name: &Vec<char> = match crate::rpc::get_field(p, "name") {
        Some(Json::Str(n)) => n,
        _ => {
            return err_step(id, INVALID_PARAMS, "Failed to parse 'tools/call' params");
        },
    };
    let args: Option<&Json> = match crate::rpc::get_field(p, "arguments") {
        None => None,
        Some(Json::Null) => None,
        Some(a) => Some(a),
    };
    if !crate::rpc::chars_eq_str(name, "touch-mcp") {
        return err_step_mid(id, METHOD_NOT_FOUND, "Tool '", name, "' not found");
    }
    let a = match args {
        None => {
            return err_step(id, INVALID_PARAMS, "Missing 'arguments' for 'touch-mcp'");
        },
        Some(a) => a,
    };
    let file: Vec<char> = match crate::rpc::get_field(a, "file") {
        Some(Json::Str(f)) => clone_chars(f),
        _ => {
            return err_step(id, INVALID_PARAMS, "Failed to parse 'touch-mcp' arguments");
        },
    };
    let destopt: Option<Vec<char>> = match crate::rpc::get_field(a, "destPath") {
        None => None,
        Some(Json::Null) => None,
        Some(Json::Str(d)) => Some(clone_chars(d)),
        Some(_) => {
            return err_step(id, INVALID_PARAMS, "Failed to parse 'touch-mcp' arguments");
        },
    };
    if file.len() == 0 {
        return err_step(id, INVALID_PARAMS, "Missing or empty file name");
    }
    let dest = resolve_dest(destopt, env_default, home);
    let path = join_path(&dest, &file);
    Step::Touch(TouchAction { id, file, dest, path })
}

// ---------------------------------------------------------------------------
// The session step
// ---------------------------------------------------------------------------
/// A line with nothing but whitespace is discarded without a response.
pub open spec fn is_blank(s: Seq<char>) -> bool {
    skip_ws(s, 0) == s.len()
}

/// The step for one raw input line: blank lines are discarded; an undecodable
/// line is answered with Parse Error and a null identifier; a bad envelope
/// with Invalid Request; a valid request is dispatched.
pub open spec fn process_line_spec(
    line: Seq<char>,
    env_default: Option<Seq<char>>,
    home: Option<Seq<char>>,
) -> StepV {
    if is_blank(line) {
        StepV::Silent
    } else {
        match crate::json::sp_decode(line) {
            None => StepV::Reply(
                RespV { id: None, body: RespBodyV::Failure(PARSE_ERROR as int, msg_parse()) },
            ),
            Some(d) => match crate::rpc::validate_envelope_spec(d) {
                crate::rpc::DecodedV::NotARequest => StepV::Reply(
                    RespV { id: None, body: RespBodyV::Failure(PARSE_ERROR as int, msg_parse()) },
                ),
                crate::rpc::DecodedV::BadVersion(id) => StepV::Reply(
                    RespV { id, body: RespBodyV::Failure(INVALID_REQUEST as int, msg_version()) },
                ),
                crate::rpc::DecodedV::BadId => StepV::Reply(
                    RespV {
                        id: None,
                        body: RespBodyV::Failure(INVALID_REQUEST as int, msg_bad_id()),
                    },
                ),
                crate::rpc::DecodedV::Req(r) => dispatch_spec(r, env_default, home),
            },
        }
    }
}

/// Processes one raw input line.
pub fn process_line(line: &str, env_default: &Option<String>, home: &Option<String>) -> (r: Step)
    ensures
        r@ == process_line_spec(line@, opt_string_view(*env_default), opt_string_view(*home)),
{
    let chars = str_to_chars(line);
    let ws_end = crate::json::skip_ws_exec(&chars, 0);
    if ws_end == chars.len() {
        return Step::Silent;
    }
    let d = match decode_chars(&chars) {
        None => {
            return Step::Reply(
                Response::new_error(None, PARSE_ERROR, str_to_chars("Failed to decode request")),
            );
        },
        Some(d) => d,
    };
    match validate_envelope(&d) {
        Decoded::NotARequest => Step::Reply(
            Response::new_error(None, PARSE_ERROR, str_to_chars("Failed to decode request")),
        ),
        Decoded::BadVersion(id) => Step::Reply(
            Response::new_error(id, INVALID_REQUEST, str_to_chars("Invalid protocol version")),
        ),
        Decoded::BadId => Step::Reply(
            Response::new_error(None, INVALID_REQUEST, str_to_chars("Invalid request id")),
        ),
        Decoded::Req(req) => dispatch(&req, env_default, home),
    }
}

/// The JSON result of a successful file creation.
pub open spec fn call_result_json(file: Seq<char>, dest: Seq<char>) -> JsonV {
    JsonV::Obj(
        seq![("content"@, JsonV::Arr(seq![content_json("text"@, confirmation(file, dest))]))],
    )
}

/// The response owed after the file-creation action: nothing for a
/// notification; for a call, the confirmation result on success and an
/// Internal Error carrying the attempted path on failure.
pub open spec fn touch_reply_spec(
    id: Option<ReqIdV>,
    error: Option<Seq<char>>,
    file: Seq<char>,
    dest: Seq<char>,
    path: Seq<char>,
) -> Option<RespV> {
    match id {
        None => None,
        Some(i) => Some(
            match error {
                None => RespV {
                    id: Some(i),
                    body: RespBodyV::Success(call_result_json(file, dest)),
                },
                Some(em) => RespV {
                    id: Some(i),
                    body: RespBodyV::Failure(INTERNAL_ERROR as int, msg_create_failed(path, em)),
                },
            },
        ),
    }
}

/// The view of an optional response.
pub open spec fn opt_resp_view(r: Option<Response>) -> Option<RespV> {
    match r {
        Some(resp) => Some(resp@),
        None => None,
    }
}

/// Turns the outcome of the file-creation action into the owed response;
/// `error` carries the underlying failure message, if the creation failed.
pub fn touch_reply(action: TouchAction, error: &Option<String>) -> (r: Option<Response>)
    ensures
        opt_resp_view(r) == touch_reply_spec(
            opt_id_view(action.id),
            opt_string_view(*error),
            action.file@,
            action.dest@,
            action.path@,
        ),
{
    let i = match action.id {
        None => {
            return None;
        },
        Some(i) => i,
    };
    match error {
        None => {
            let mut text = str_to_chars("File ");
            push_chars(&mut text, &action.file);
            push_str_chars(&mut text, " created successfully at ");
            push_chars(&mut text, &action.dest);
            let result = CallToolsResult::new(vec![ToolContent::text_content(text)]);
            let j = result.to_json();
            proof {
                assert(contents_json_items(result.content@) =~= seq![
                    content_json("text"@, confirmation(action.file@, action.dest@)),
                ]);
            }
            Some(Response::new_result(Some(i), j))
        },
        Some(em) => {
            let mut msg = str_to_chars("Failed to create file '");
            push_chars(&mut msg, &action.path);
            push_str_chars(&mut msg, "': ");
            push_str_chars(&mut msg, em.as_str());
            Some(Response::new_error(Some(i), INTERNAL_ERROR, msg))
        },
    }
}

/// Encodes a response as one line of JSON text.
pub fn encode_response(r: &Response) -> (line: String)
    ensures
        line@ == crate::json::ser(resp_json(r@)),
{
    let j = crate::rpc::response_to_json(r);
    let chars = crate::json::encode(&j);
    crate::json::chars_to_string(&chars)
}


// ---------------------------------------------------------------------------
// Protocol laws
// ---------------------------------------------------------------------------
/// Law: dispatching a call is never silent — it either replies at once, with
/// the call's identifier echoed, or starts a file-creation action that keeps
/// that identifier (whose reply, by [`lemma_touch_reply_call`], echoes it).
pub proof fn lemma_call_one_response(
    r: RequestV,
    env_default: Option<Seq<char>>,
    home: Option<Seq<char>>,
)
    requires
        r.id is Some,
        !is_lifecycle(r.method),
    ensures
        match dispatch_spec(r, env_default, home) {
            StepV::Silent => false,
            StepV::Reply(resp) => resp.id == r.id,
            StepV::Touch { id, file, dest, path } => id == r.id,
        },
{
}

/// Law: after a file creation on behalf of a call, exactly one reply is owed
/// and it echoes the call's identifier, whether the creation succeeded or
/// failed.
pub proof fn lemma_touch_reply_call(
    id: ReqIdV,
    error: Option<Seq<char>>,
    file: Seq<char>,
    dest: Seq<char>,
    path: Seq<char>,
)
    ensures
        match touch_reply_spec(Some(id), error, file, dest, path) {
            Some(resp) => resp.id == Some(id),
            None => false,
        },
{
}

/// Law: a recognized lifecycle notification is absorbed without a response,
/// whatever identifier accompanies it.
pub proof fn lemma_lifecycle_silent(
    r: RequestV,
    env_default: Option<Seq<char>>,
    home: Option<Seq<char>>,
)
    requires
        is_lifecycle(r.method),
    ensures
        dispatch_spec(r, env_default, home) == StepV::Silent,
{
}

/// Law: no notification is ever answered — a request without an identifier
/// produces no reply, and a file-creation action it starts carries no
/// identifier, so by [`lemma_touch_reply_notification`] its reply is nothing.
pub proof fn lemma_notification_silent(
    r: RequestV,
    env_default: Option<Seq<char>>,
    home: Option<Seq<char>>,
)
    requires
        r.id is None,
    ensures
        match dispatch_spec(r, env_default, home) {
            StepV::Reply(resp) => false,
            StepV::Touch { id, file, dest, path } => id is None,
            StepV::Silent => true,
        },
{
}

/// Law: after a file creation on behalf of a notification, no reply is owed.
pub proof fn lemma_touch_reply_notification(
    error: Option<Seq<char>>,
    file: Seq<char>,
    dest: Seq<char>,
    path: Seq<char>,
)
    ensures
        touch_reply_spec(None, error, file, dest, path) is None,
{
}

/// Law: an unknown method is answered with Method Not Found when called, and
/// silently discarded when notified.
pub proof fn lemma_unknown_method(
    r: RequestV,
    env_default: Option<Seq<char>>,
    home: Option<Seq<char>>,
)
    requires
        !is_lifecycle(r.method),
        r.method != "initialize"@,
        r.method != "tools/list"@,
        r.method != "resources/list"@,
        r.method != "prompts/list"@,
        r.method != "tools/call"@,
    ensures
        dispatch_spec(r, env_default, home) == err_or_silent(
            r.id,
            METHOD_NOT_FOUND as int,
            msg_method_not_found(r.method),
        ),
{
}

/// Law: a non-blank line that does not parse as JSON is answered with Parse
/// Error and a null identifier.
pub proof fn lemma_parse_error_reply(
    line: Seq<char>,
    env_default: Option<Seq<char>>,
    home: Option<Seq<char>>,
)
    requires
        !is_blank(line),
        crate::json::sp_decode(line) is None,
    ensures
        process_line_spec(line, env_default, home) == StepV::Reply(
            RespV { id: None, body: RespBodyV::Failure(PARSE_ERROR as int, msg_parse()) },
        ),
{
}

/// Law: destination precedence — the explicit argument wins; otherwise the
/// environment default; otherwise the home directory; otherwise the current
/// directory.
pub proof fn lemma_dest_precedence(
    arg: Option<Seq<char>>,
    env_default: Option<Seq<char>>,
    home: Option<Seq<char>>,
)
    ensures
        arg is Some ==> resolve_dest_spec(arg, env_default, home) == arg->0,
        arg is None && env_default is Some ==> resolve_dest_spec(arg, env_default, home)
            == env_default->0,
        arg is None && env_default is None && home is Some ==> resolve_dest_spec(
            arg,
            env_default,
            home,
        ) == home->0,
        arg is None && env_default is None && home is None ==> resolve_dest_spec(
            arg,
            env_default,
            home,
        ) == "."@,
{
}


/// Law: a line carrying a valid call envelope gets exactly one response — at
/// once, echoing its identifier, or through a file-creation action that
/// keeps that identifier for [`touch_reply`].
pub proof fn lemma_line_call_response(
    line: Seq<char>,
    d: JsonV,
    r: RequestV,
    env_default: Option<Seq<char>>,
    home: Option<Seq<char>>,
)
    requires
        !is_blank(line),
        crate::json::sp_decode(line) == Some(d),
        crate::rpc::validate_envelope_spec(d) == crate::rpc::DecodedV::Req(r),
        r.id is Some,
        !is_lifecycle(r.method),
    ensures
        match process_line_spec(line, env_default, home) {
            StepV::Silent => false,
            StepV::Reply(resp) => resp.id == r.id,
            StepV::Touch { id, file, dest, path } => id == r.id,
        },
{
    lemma_call_one_response(r, env_default, home);
}

/// Law: a line carrying a recognized lifecycle notification is absorbed
/// without a response, whatever identifier accompanies it.
pub proof fn lemma_line_lifecycle_silent(
    line: Seq<char>,
    d: JsonV,
    r: RequestV,
    env_default: Option<Seq<char>>,
    home: Option<Seq<char>>,
)
    requires
        !is_blank(line),
        crate::json::sp_decode(line) == Some(d),
        crate::rpc::validate_envelope_spec(d) == crate::rpc::DecodedV::Req(r),
        is_lifecycle(r.method),
    ensures
        process_line_spec(line, env_default, home) == StepV::Silent,
{
    lemma_lifecycle_silent(r, env_default, home);
}


/// The fixed results of the listing methods are well-formed JSON values.
proof fn lemma_results_wf()
    ensures
        crate::json::wf_json(init_result_json()),
        crate::json::wf_json(tools_list_json()),
        crate::json::wf_json(resources_list_json()),
        crate::json::wf_json(prompts_list_json()),
{
    let init = init_result_json()->Obj_0;
    let si = init[1].1->Obj_0;
    assert(crate::json::wf_json(si[0].1));
    assert(crate::json::wf_json(si[1].1));
    assert(crate::json::wf_members(si, 2));
    assert(crate::json::wf_members(si, 1));
    assert(crate::json::wf_members(si, 0));
    let caps = init[2].1->Obj_0;
    assert(crate::json::wf_members(caps[0].1->Obj_0, 0));
    assert(crate::json::wf_json(caps[0].1));
    assert(crate::json::wf_members(caps, 1));
    assert(crate::json::wf_members(caps, 0));
    assert(crate::json::wf_json(init[0].1));
    assert(crate::json::wf_json(init[1].1));
    assert(crate::json::wf_json(init[2].1));
    assert(crate::json::wf_members(init, 3));
    assert(crate::json::wf_members(init, 2));
    assert(crate::json::wf_members(init, 1));
    assert(crate::json::wf_members(init, 0));

    let schema = schema_json()->Obj_0;
    let props = schema[1].1->Obj_0;
    let fp = props[0].1->Obj_0;
    let dp = props[1].1->Obj_0;
    assert(crate::json::wf_json(fp[0].1));
    assert(crate::json::wf_json(fp[1].1));
    assert(crate::json::wf_members(fp, 2));
    assert(crate::json::wf_members(fp, 1));
    assert(crate::json::wf_members(fp, 0));
    assert(crate::json::wf_json(dp[0].1));
    assert(crate::json::wf_json(dp[1].1));
    assert(crate::json::wf_members(dp, 2));
    assert(crate::json::wf_members(dp, 1));
    assert(crate::json::wf_members(dp, 0));
    assert(crate::json::wf_json(props[0].1));
    assert(crate::json::wf_json(props[1].1));
    assert(crate::json::wf_members(props, 2));
    assert(crate::json::wf_members(props, 1));
    assert(crate::json::wf_members(props, 0));
    let req = schema[2].1->Arr_0;
    assert(crate::json::wf_json(req[0]));
    assert(crate::json::wf_items(req, 1));
    assert(crate::json::wf_items(req, 0));
    assert(crate::json::wf_json(schema[0].1));
    assert(crate::json::wf_json(schema[1].1));
    assert(crate::json::wf_json(schema[2].1));
    assert(crate::json::wf_members(schema, 3));
    assert(crate::json::wf_members(schema, 2));
    assert(crate::json::wf_members(schema, 1));
    assert(crate::json::wf_members(schema, 0));
    assert(crate::json::wf_json(schema_json()));

    let tool = tool_json(tool_name(), "Create file tool"@, schema_json())->Obj_0;
    assert(crate::json::wf_json(tool[0].1));
    assert(crate::json::wf_json(tool[1].1));
    assert(crate::json::wf_json(tool[2].1));
    assert(crate::json::wf_members(tool, 3));
    assert(crate::json::wf_members(tool, 2));
    assert(crate::json::wf_members(tool, 1));
    assert(crate::json::wf_members(tool, 0));
    let tl = tools_list_json()->Obj_0;
    let tools = tl[0].1->Arr_0;
    assert(crate::json::wf_json(tools[0]));
    assert(crate::json::wf_items(tools, 1));
    assert(crate::json::wf_items(tools, 0));
    assert(crate::json::wf_json(tl[0].1));
    assert(crate::json::wf_members(tl, 1));
    assert(crate::json::wf_members(tl, 0));

    let rl = resources_list_json()->Obj_0;
    assert(crate::json::wf_items(rl[0].1->Arr_0, 0));
    assert(crate::json::wf_json(rl[0].1));
    assert(crate::json::wf_members(rl, 1));
    assert(crate::json::wf_members(rl, 0));
    let pl = prompts_list_json()->Obj_0;
    assert(crate::json::wf_items(pl[0].1->Arr_0, 0));
    assert(crate::json::wf_json(pl[0].1));
    assert(crate::json::wf_members(pl, 1));
    assert(crate::json::wf_members(pl, 0));
}

/// Law: every response the dispatcher or the file-creation reply produces is
/// well-formed, so by the codec laws its encoded line holds no newline and
/// decodes back to the same JSON object.
pub proof fn lemma_step_responses_wf(
    r: RequestV,
    env_default: Option<Seq<char>>,
    home: Option<Seq<char>>,
)
    requires
        match r.id {
            Some(ReqIdV::Num(n)) => -0x8000000000000000 <= n <= 0x7fffffffffffffff,
            _ => true,
        },
    ensures
        match dispatch_spec(r, env_default, home) {
            StepV::Reply(resp) => crate::rpc::wf_resp(resp),
            _ => true,
        },
{
    lemma_results_wf();
}

/// Law: the reply after a file creation is well-formed, so by the codec laws
/// its encoded line holds no newline and decodes back to the same object.
pub proof fn lemma_touch_reply_wf(
    id: Option<ReqIdV>,
    error: Option<Seq<char>>,
    file: Seq<char>,
    dest: Seq<char>,
    path: Seq<char>,
)
    requires
        match id {
            Some(ReqIdV::Num(n)) => -0x8000000000000000 <= n <= 0x7fffffffffffffff,
            _ => true,
        },
    ensures
        match touch_reply_spec(id, error, file, dest, path) {
            Some(resp) => crate::rpc::wf_resp(resp),
            None => true,
        },
{
    match touch_reply_spec(id, error, file, dest, path) {
        Some(resp) => {
            match error {
                None => {
                    let cj = call_result_json(file, dest)->Obj_0;
                    let content = cj[0].1->Arr_0;
                    let block = content[0]->Obj_0;
                    assert(crate::json::wf_json(block[0].1));
                    assert(crate::json::wf_json(block[1].1));
                    assert(crate::json::wf_members(block, 2));
                    assert(crate::json::wf_members(block, 1));
                    assert(crate::json::wf_members(block, 0));
                    assert(crate::json::wf_json(content[0]));
                    assert(crate::json::wf_items(content, 1));
                    assert(crate::json::wf_items(content, 0));
                    assert(crate::json::wf_json(cj[0].1));
                    assert(crate::json::wf_members(cj, 1));
                    assert(crate::json::wf_members(cj, 0));
                },
                Some(em) => {},
            }
        },
        None => {},
    }
}

} // verus!
