use touch_mcp_server::json::{chars_to_string, str_to_chars, Json};
use touch_mcp_server::rpc::{chars_eq_str, get_field, ReqId, RespBody, Response};
use touch_mcp_server::server::{encode_response, process_line, touch_reply, Step, TouchAction};

fn call(line: &str) -> Step {
    process_line(line, &None, &None)
}

fn expect_reply(step: Step) -> Response {
    match step {
        Step::Reply(r) => r,
        _ => panic!("expected a reply"),
    }
}

fn expect_error(resp: &Response) -> (i64, String) {
    match &resp.body {
        RespBody::Failure(code, msg) => (*code, chars_to_string(msg)),
        _ => panic!("expected an error response"),
    }
}

fn expect_result(resp: &Response) -> &Json {
    match &resp.body {
        RespBody::Success(j) => j,
        _ => panic!("expected a success response"),
    }
}

fn field<'a>(j: &'a Json, key: &str) -> &'a Json {
    get_field(j, key).expect("missing field")
}

fn str_field(j: &Json, key: &str) -> String {
    match field(j, key) {
        Json::Str(s) => chars_to_string(s),
        _ => panic!("field is not a string"),
    }
}

#[test]
fn initialize_reports_server_info() {
    let step = call(r#"{"protocolVersion":"2.0","method":"initialize","id":1}"#);
    let resp = expect_reply(step);
    assert!(matches!(resp.id, Some(ReqId::Num(1))));
    let result = expect_result(&resp);
    assert_eq!(str_field(result, "protocolVersion"), "2024-11-05");
    let info = field(result, "serverInfo");
    assert_eq!(str_field(info, "name"), "touch-mcp-server");
    assert_eq!(str_field(info, "version"), "1.0.0");
    let caps = field(result, "capabilities");
    match field(caps, "tools") {
        Json::Obj(members) => assert!(members.is_empty()),
        _ => panic!("tools capability is not a map"),
    }
}

#[test]
fn tools_list_has_exactly_the_touch_tool() {
    let step = call(r#"{"protocolVersion":"2.0","method":"tools/list","id":2}"#);
    let resp = expect_reply(step);
    assert!(matches!(resp.id, Some(ReqId::Num(2))));
    let result = expect_result(&resp);
    let tools = match field(result, "tools") {
        Json::Arr(items) => items,
        _ => panic!("tools is not an array"),
    };
    assert_eq!(tools.len(), 1);
    let tool = &tools[0];
    assert_eq!(str_field(tool, "name"), "touch-mcp");
    let schema = field(tool, "inputSchema");
    assert_eq!(str_field(schema, "type"), "object");
    let required = match field(schema, "required") {
        Json::Arr(items) => items,
        _ => panic!("required is not an array"),
    };
    assert_eq!(required.len(), 1);
    match &required[0] {
        Json::Str(s) => assert!(chars_eq_str(s, "file")),
        _ => panic!("required entry is not a string"),
    }
    let props = field(schema, "properties");
    assert!(get_field(props, "file").is_some());
    assert!(get_field(props, "destPath").is_some());
}

#[test]
fn resources_list_is_empty() {
    let resp = expect_reply(call(r#"{"protocolVersion":"2.0","method":"resources/list","id":3}"#));
    let result = expect_result(&resp);
    match field(result, "resources") {
        Json::Arr(items) => assert!(items.is_empty()),
        _ => panic!("resources is not an array"),
    }
}

#[test]
fn prompts_list_is_empty() {
    let resp = expect_reply(call(r#"{"protocolVersion":"2.0","method":"prompts/list","id":4}"#));
    let result = expect_result(&resp);
    match field(result, "prompts") {
        Json::Arr(items) => assert!(items.is_empty()),
        _ => panic!("prompts is not an array"),
    }
}

#[test]
fn empty_file_name_is_invalid_params_and_no_file_action() {
    let step = call(
        r#"{"protocolVersion":"2.0","method":"tools/call","id":5,"params":{"name":"touch-mcp","arguments":{"file":""}}}"#,
    );
    match &step {
        Step::Touch(_) => panic!("no file action may be started for an empty file name"),
        _ => {}
    }
    let resp = expect_reply(step);
    let (code, msg) = expect_error(&resp);
    assert_eq!(code, -32602);
    assert_eq!(msg, "Missing or empty file name");
}

#[test]
fn tools_call_resolves_dest_path_and_confirms() {
    let step = call(
        r#"{"protocolVersion":"2.0","method":"tools/call","id":6,"params":{"name":"touch-mcp","arguments":{"file":"a.txt","destPath":"/tmp/x"}}}"#,
    );
    let action = match step {
        Step::Touch(a) => a,
        _ => panic!("expected a file action"),
    };
    assert!(matches!(action.id, Some(ReqId::Num(6))));
    assert_eq!(chars_to_string(&action.file), "a.txt");
    assert_eq!(chars_to_string(&action.dest), "/tmp/x");
    assert_eq!(chars_to_string(&action.path), "/tmp/x/a.txt");
    let resp = touch_reply(action, &None).expect("a call is owed a response");
    assert!(matches!(resp.id, Some(ReqId::Num(6))));
    let result = expect_result(&resp);
    let content = match field(result, "content") {
        Json::Arr(items) => items,
        _ => panic!("content is not an array"),
    };
    assert_eq!(content.len(), 1);
    assert_eq!(str_field(&content[0], "type"), "text");
    assert_eq!(
        str_field(&content[0], "text"),
        "File a.txt created successfully at /tmp/x"
    );
}

#[test]
fn failed_creation_is_internal_error_naming_the_path() {
    let step = call(
        r#"{"protocolVersion":"2.0","method":"tools/call","id":7,"params":{"name":"touch-mcp","arguments":{"file":"a.txt","destPath":"/tmp/x"}}}"#,
    );
    let action = match step {
        Step::Touch(a) => a,
        _ => panic!("expected a file action"),
    };
    let resp = touch_reply(action, &Some("permission denied".to_string()))
        .expect("a call is owed a response");
    let (code, msg) = expect_error(&resp);
    assert_eq!(code, -32603);
    assert_eq!(msg, "Failed to create file '/tmp/x/a.txt': permission denied");
}

#[test]
fn unknown_method_with_id_is_method_not_found() {
    let resp = expect_reply(call(r#"{"protocolVersion":"2.0","method":"bogus","id":8}"#));
    assert!(matches!(resp.id, Some(ReqId::Num(8))));
    let (code, msg) = expect_error(&resp);
    assert_eq!(code, -32601);
    assert_eq!(msg, "Method 'bogus' not found");
}

#[test]
fn unknown_method_without_id_is_silent() {
    assert!(matches!(
        call(r#"{"protocolVersion":"2.0","method":"bogus"}"#),
        Step::Silent
    ));
}

#[test]
fn malformed_line_is_parse_error_with_null_id() {
    let resp = expect_reply(call("this is not json"));
    assert!(resp.id.is_none());
    let (code, _) = expect_error(&resp);
    assert_eq!(code, -32700);
    let line = encode_response(&resp);
    let v: serde_json::Value = serde_json::from_str(&line).expect("the response line is JSON");
    assert!(v["id"].is_null());
    assert_eq!(v["error"]["code"], serde_json::Value::from(-32700));
}

#[test]
fn lifecycle_notifications_are_absorbed_even_with_an_id() {
    for line in [
        r#"{"protocolVersion":"2.0","method":"initialized"}"#,
        r#"{"protocolVersion":"2.0","method":"notifications/initialized","id":9}"#,
        r#"{"protocolVersion":"2.0","method":"cancelled","id":10}"#,
        r#"{"protocolVersion":"2.0","method":"notifications/cancelled"}"#,
    ] {
        assert!(matches!(call(line), Step::Silent));
    }
}

#[test]
fn wrong_protocol_version_is_invalid_request_echoing_the_id() {
    let resp = expect_reply(call(r#"{"protocolVersion":"1.0","method":"initialize","id":11}"#));
    assert!(matches!(resp.id, Some(ReqId::Num(11))));
    let (code, _) = expect_error(&resp);
    assert_eq!(code, -32600);
}

#[test]
fn missing_protocol_version_is_invalid_request() {
    let resp = expect_reply(call(r#"{"method":"initialize","id":12}"#));
    assert!(matches!(resp.id, Some(ReqId::Num(12))));
    let (code, _) = expect_error(&resp);
    assert_eq!(code, -32600);
}

#[test]
fn fractional_id_is_invalid_request_with_null_id() {
    let resp = expect_reply(call(r#"{"protocolVersion":"2.0","method":"initialize","id":1.5}"#));
    assert!(resp.id.is_none());
    let (code, _) = expect_error(&resp);
    assert_eq!(code, -32600);
}

#[test]
fn string_id_is_echoed_verbatim() {
    let resp = expect_reply(call(r#"{"protocolVersion":"2.0","method":"initialize","id":"abc"}"#));
    match &resp.id {
        Some(ReqId::Str(s)) => assert!(chars_eq_str(s, "abc")),
        _ => panic!("expected the string identifier back"),
    }
}

#[test]
fn missing_method_is_parse_error() {
    let resp = expect_reply(call(r#"{"protocolVersion":"2.0","id":13}"#));
    assert!(resp.id.is_none());
    let (code, _) = expect_error(&resp);
    assert_eq!(code, -32700);
}

#[test]
fn tools_call_without_params_is_invalid_params() {
    let resp = expect_reply(call(r#"{"protocolVersion":"2.0","method":"tools/call","id":14}"#));
    let (code, msg) = expect_error(&resp);
    assert_eq!(code, -32602);
    assert_eq!(msg, "Missing 'params' for 'tools/call'");
}

#[test]
fn tools_call_with_malformed_params_is_invalid_params() {
    let resp = expect_reply(call(
        r#"{"protocolVersion":"2.0","method":"tools/call","id":15,"params":{"nothing":true}}"#,
    ));
    let (code, msg) = expect_error(&resp);
    assert_eq!(code, -32602);
    assert_eq!(msg, "Failed to parse 'tools/call' params");
}

#[test]
fn unknown_tool_is_method_not_found_naming_it() {
    let resp = expect_reply(call(
        r#"{"protocolVersion":"2.0","method":"tools/call","id":16,"params":{"name":"other","arguments":{"file":"a"}}}"#,
    ));
    let (code, msg) = expect_error(&resp);
    assert_eq!(code, -32601);
    assert_eq!(msg, "Tool 'other' not found");
}

#[test]
fn tools_call_without_arguments_is_invalid_params() {
    let resp = expect_reply(call(
        r#"{"protocolVersion":"2.0","method":"tools/call","id":17,"params":{"name":"touch-mcp"}}"#,
    ));
    let (code, msg) = expect_error(&resp);
    assert_eq!(code, -32602);
    assert_eq!(msg, "Missing 'arguments' for 'touch-mcp'");
}

#[test]
fn tools_call_with_malformed_arguments_is_invalid_params() {
    let resp = expect_reply(call(
        r#"{"protocolVersion":"2.0","method":"tools/call","id":18,"params":{"name":"touch-mcp","arguments":{"file":7}}}"#,
    ));
    let (code, msg) = expect_error(&resp);
    assert_eq!(code, -32602);
    assert_eq!(msg, "Failed to parse 'touch-mcp' arguments");
}

#[test]
fn tools_call_notification_acts_but_stays_silent() {
    let step = call(
        r#"{"protocolVersion":"2.0","method":"tools/call","params":{"name":"touch-mcp","arguments":{"file":"b.txt","destPath":"/tmp/y"}}}"#,
    );
    let action = match step {
        Step::Touch(a) => a,
        _ => panic!("the notification still performs the file action"),
    };
    assert!(action.id.is_none());
    assert!(touch_reply(action, &None).is_none());
}

#[test]
fn blank_lines_are_discarded() {
    assert!(matches!(call(""), Step::Silent));
    assert!(matches!(call("   \t  "), Step::Silent));
}

#[test]
fn dest_precedence_arg_env_home_dot() {
    let line = r#"{"protocolVersion":"2.0","method":"tools/call","id":19,"params":{"name":"touch-mcp","arguments":{"file":"f","destPath":"/arg"}}}"#;
    let env = Some("/envdir".to_string());
    let home = Some("/homedir".to_string());
    // the explicit argument wins over everything
    match process_line(line, &env, &home) {
        Step::Touch(a) => assert_eq!(chars_to_string(&a.dest), "/arg"),
        _ => panic!("expected a file action"),
    }
    let line_no_dest = r#"{"protocolVersion":"2.0","method":"tools/call","id":20,"params":{"name":"touch-mcp","arguments":{"file":"f"}}}"#;
    // then the environment default
    match process_line(line_no_dest, &env, &home) {
        Step::Touch(a) => assert_eq!(chars_to_string(&a.dest), "/envdir"),
        _ => panic!("expected a file action"),
    }
    // then the home directory
    match process_line(line_no_dest, &None, &home) {
        Step::Touch(a) => assert_eq!(chars_to_string(&a.dest), "/homedir"),
        _ => panic!("expected a file action"),
    }
    // and the current directory last
    match process_line(line_no_dest, &None, &None) {
        Step::Touch(a) => {
            assert_eq!(chars_to_string(&a.dest), ".");
            assert_eq!(chars_to_string(&a.path), "./f");
        }
        _ => panic!("expected a file action"),
    }
}

#[test]
fn trailing_slash_in_dest_is_not_doubled() {
    let step = call(
        r#"{"protocolVersion":"2.0","method":"tools/call","id":21,"params":{"name":"touch-mcp","arguments":{"file":"f","destPath":"/tmp/"}}}"#,
    );
    match step {
        Step::Touch(a) => assert_eq!(chars_to_string(&a.path), "/tmp/f"),
        _ => panic!("expected a file action"),
    }
}

#[test]
fn every_call_gets_a_response_with_its_id() {
    for (line, id) in [
        (r#"{"protocolVersion":"2.0","method":"initialize","id":31}"#, 31),
        (r#"{"protocolVersion":"2.0","method":"tools/list","id":32}"#, 32),
        (r#"{"protocolVersion":"2.0","method":"resources/list","id":33}"#, 33),
        (r#"{"protocolVersion":"2.0","method":"prompts/list","id":34}"#, 34),
        (r#"{"protocolVersion":"2.0","method":"nope","id":35}"#, 35),
    ] {
        let resp = expect_reply(call(line));
        match resp.id {
            Some(ReqId::Num(n)) => assert_eq!(n, id),
            _ => panic!("the response must echo the identifier"),
        }
    }
}

#[test]
fn known_method_as_notification_is_silent() {
    assert!(matches!(
        call(r#"{"protocolVersion":"2.0","method":"initialize"}"#),
        Step::Silent
    ));
    assert!(matches!(
        call(r#"{"protocolVersion":"2.0","method":"tools/list"}"#),
        Step::Silent
    ));
}

#[test]
fn response_lines_parse_as_json_with_the_standard_shape() {
    let resp = expect_reply(call(r#"{"protocolVersion":"2.0","method":"initialize","id":41}"#));
    let line = encode_response(&resp);
    assert!(!line.contains('\n'));
    let v: serde_json::Value = serde_json::from_str(&line).expect("the response line is JSON");
    assert_eq!(v["protocolVersion"], "2.0");
    assert_eq!(v["id"], 41);
    assert!(v.get("result").is_some());
    assert!(v.get("error").is_none());
    assert_eq!(v["result"]["serverInfo"]["name"], "touch-mcp-server");
}

#[test]
fn touch_reply_message_built_from_parts() {
    let action = TouchAction {
        id: Some(ReqId::Str(str_to_chars("k"))),
        file: str_to_chars("n.txt"),
        dest: str_to_chars("/d"),
        path: str_to_chars("/d/n.txt"),
    };
    let resp = touch_reply(action, &None).unwrap();
    let result = expect_result(&resp);
    let content = match field(result, "content") {
        Json::Arr(items) => items,
        _ => panic!("content is not an array"),
    };
    assert_eq!(
        str_field(&content[0], "text"),
        "File n.txt created successfully at /d"
    );
}
