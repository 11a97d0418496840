use touch_mcp_server::json::{
    chars_to_string, clone_json, decode, encode, str_to_chars, Json,
};
use touch_mcp_server::mcp::{
    CallToolsResult, ListPromptsResult, ListResourcesResult, Prompt, PromptArgument, Resource,
    ToolContent,
};

fn encode_str(j: &Json) -> String {
    chars_to_string(&encode(j))
}

fn decode_ok(line: &str) -> Json {
    decode(line).expect("the line should decode")
}

#[test]
fn encodes_atoms() {
    assert_eq!(encode_str(&Json::Null), "null");
    assert_eq!(encode_str(&Json::Bool(true)), "true");
    assert_eq!(encode_str(&Json::Bool(false)), "false");
    assert_eq!(encode_str(&Json::Int(0)), "0");
    assert_eq!(encode_str(&Json::Int(42)), "42");
    assert_eq!(encode_str(&Json::Int(-7)), "-7");
    assert_eq!(encode_str(&Json::Int(i64::MAX)), "9223372036854775807");
    assert_eq!(encode_str(&Json::Int(i64::MIN)), "-9223372036854775808");
}

#[test]
fn encodes_strings_with_escapes() {
    let j = Json::Str(str_to_chars("a\"b\\c\nd\te\rf"));
    assert_eq!(encode_str(&j), r#""a\"b\\c\nd\te\rf""#);
    let ctl = Json::Str(vec!['\u{1}', '\u{1f}']);
    assert_eq!(encode_str(&ctl), r#""\u0001\u001f""#);
}

#[test]
fn decodes_numbers() {
    assert!(matches!(decode_ok("42"), Json::Int(42)));
    assert!(matches!(decode_ok("-42"), Json::Int(-42)));
    assert!(matches!(decode_ok("0"), Json::Int(0)));
    assert!(matches!(
        decode_ok("9223372036854775807"),
        Json::Int(9223372036854775807)
    ));
    assert!(matches!(
        decode_ok("-9223372036854775808"),
        Json::Int(-9223372036854775808)
    ));
    // anything else keeps its lexeme
    match decode_ok("3.14") {
        Json::NumLit(s) => assert_eq!(chars_to_string(&s), "3.14"),
        _ => panic!("a fraction stays a raw lexeme"),
    }
    match decode_ok("1e10") {
        Json::NumLit(s) => assert_eq!(chars_to_string(&s), "1e10"),
        _ => panic!("an exponent stays a raw lexeme"),
    }
    match decode_ok("9223372036854775808") {
        Json::NumLit(s) => assert_eq!(chars_to_string(&s), "9223372036854775808"),
        _ => panic!("an out-of-range integer stays a raw lexeme"),
    }
}

#[test]
fn decodes_strings_and_escapes() {
    match decode_ok(r#""\u0041\n\t\\\"\/""#) {
        Json::Str(s) => assert_eq!(chars_to_string(&s), "A\n\t\\\"/"),
        _ => panic!("expected a string"),
    }
    match decode_ok("\"héllo\"") {
        Json::Str(s) => assert_eq!(chars_to_string(&s), "héllo"),
        _ => panic!("expected a string"),
    }
}

#[test]
fn tolerates_whitespace_between_tokens() {
    let j = decode_ok(" { \"a\" : [ 1 , 2 ] , \"b\" : null } ");
    assert_eq!(encode_str(&j), r#"{"a":[1,2],"b":null}"#);
}

#[test]
fn rejects_malformed_lines() {
    for line in [
        "",
        "nul",
        "truefalse",
        "{",
        "[1,]",
        "{\"a\":}",
        "\"unterminated",
        "\"bad\\q\"",
        "\"\\u12\"",
        "\"\\ud800\"",
        "1 2",
        "{\"a\":1,}",
        "01",
        "- 1",
        "1.",
        "1e",
        "{\"a\" 1}",
        "[1 2]",
        "\u{1}",
    ] {
        assert!(decode(line).is_none(), "line {:?} must be rejected", line);
    }
}

#[test]
fn round_trips_a_nested_value() {
    let inner = Json::Arr(vec![
        Json::Int(1),
        Json::Str(str_to_chars("two\nlines")),
        Json::Null,
        Json::Bool(false),
        Json::Obj(vec![(str_to_chars("k"), Json::Int(-3))]),
    ]);
    let j = Json::Obj(vec![
        (str_to_chars("items"), inner),
        (str_to_chars("empty"), Json::Arr(vec![])),
        (str_to_chars("none"), Json::Obj(vec![])),
    ]);
    let line = encode_str(&j);
    assert!(!line.contains('\n'));
    let back = decode(&line).expect("the canonical form decodes");
    assert_eq!(encode_str(&back), line);
}

#[test]
fn agrees_with_a_reference_parser() {
    let line = r#"{"a":[1,2,{"b":"x\ny"}],"c":null,"d":true,"e":-5}"#;
    let ours = decode_ok(line);
    let re_encoded = encode_str(&ours);
    let theirs: serde_json::Value = serde_json::from_str(line).unwrap();
    let theirs_again: serde_json::Value = serde_json::from_str(&re_encoded).unwrap();
    assert_eq!(theirs, theirs_again);
}

#[test]
fn string_conversions_round_trip() {
    let text = "héllo wörld\t\"quoted\"";
    let chars = str_to_chars(text);
    assert_eq!(chars_to_string(&chars), text);
    assert_eq!(chars.len(), text.chars().count());
}

#[test]
fn clone_json_copies_exactly() {
    let j = decode_ok(r#"{"a":[1,"x"],"b":{"c":null}}"#);
    let copy = clone_json(&j);
    assert_eq!(encode_str(&copy), encode_str(&j));
}

#[test]
fn registry_results_render_their_entries() {
    let r = Resource {
        uri: "file:///a".to_string(),
        name: "a".to_string(),
        description: Some("d".to_string()),
        mime_type: None,
    };
    let lr = ListResourcesResult::new(vec![r]);
    assert_eq!(
        encode_str(&lr.to_json()),
        r#"{"resources":[{"uri":"file:///a","name":"a","description":"d","mimeType":null}]}"#
    );
    let pa = PromptArgument {
        name: "x".to_string(),
        description: None,
        required: Some(true),
    };
    let p = Prompt {
        name: "p".to_string(),
        description: Some("pd".to_string()),
        arguments: Some(vec![pa]),
    };
    let lp = ListPromptsResult::new(vec![p]);
    assert_eq!(
        encode_str(&lp.to_json()),
        r#"{"prompts":[{"name":"p","description":"pd","arguments":[{"name":"x","description":null,"required":true}]}]}"#
    );
    let c = CallToolsResult::new(vec![ToolContent::text_content(str_to_chars("hi"))]);
    assert_eq!(
        encode_str(&c.to_json()),
        r#"{"content":[{"type":"text","text":"hi"}]}"#
    );
}
