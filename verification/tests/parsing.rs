//! Tool-call parsing: safe streaming boundaries, JSON block isolation,
//! XML formats, and message extraction.

use local_inference::generation::{compact_tools_json, extract_tool_call_messages, extract_xml_tool_call_messages, ToolInfo};
use local_inference::messages::{MessageContent, Role};
use local_inference::tool_parsing::{safe_stream_end, split_content_and_tool_calls, ArgValue};
use local_inference::xml_tool_calls::split_content_and_xml_tool_calls;

const SHELL_TOOL: &str = "developer__shell";

fn arg<'a>(args: &'a [(String, ArgValue)], key: &str) -> Option<&'a ArgValue> {
    args.iter().find(|(k, _)| k == key).map(|(_, v)| v)
}

fn arg_is_text(args: &[(String, ArgValue)], key: &str, expected: &str) -> bool {
    matches!(arg(args, key), Some(ArgValue::Text(t)) if t == expected)
}

#[test]
fn test_parse_xml_tool_call_single() {
    let text = "I'll search for that.\n\n<tool_call>\n<function=search__files>\n<parameter=pattern>local.*inference</parameter>\n</function>\n</tool_call>";
    let result = split_content_and_xml_tool_calls(text);
    assert!(result.is_some());
    let (content, calls) = result.unwrap();
    assert_eq!(content, "I'll search for that.");
    assert_eq!(calls.len(), 1);
    assert_eq!(calls[0].0, "search__files");
    assert!(arg_is_text(&calls[0].1, "pattern", "local.*inference"));
}

#[test]
fn test_parse_xml_tool_call_multiple_params() {
    let text = "<tool_call>\n<function=developer__shell>\n<parameter=command>ls -la</parameter>\n<parameter=timeout>30</parameter>\n</function>\n</tool_call>";
    let result = split_content_and_xml_tool_calls(text);
    assert!(result.is_some());
    let (content, calls) = result.unwrap();
    assert!(content.is_empty());
    assert_eq!(calls.len(), 1);
    assert_eq!(calls[0].0, SHELL_TOOL);
    assert!(arg_is_text(&calls[0].1, "command", "ls -la"));
    // 30 is well-formed JSON, so it is kept as a JSON number
    assert!(matches!(arg(&calls[0].1, "timeout"), Some(ArgValue::Json(j)) if j == "30"));
}

#[test]
fn test_parse_xml_tool_call_no_tool_call() {
    let text = "Just some regular text with no tool calls.";
    assert!(split_content_and_xml_tool_calls(text).is_none());
}

#[test]
fn test_parse_xml_tool_call_multiple_calls() {
    let text = "Doing two things:\n<tool_call>\n<function=foo__bar>\n<parameter=x>1</parameter>\n</function>\n</tool_call>\n<tool_call>\n<function=baz__qux>\n<parameter=y>hello</parameter>\n</function>\n</tool_call>";
    let result = split_content_and_xml_tool_calls(text);
    assert!(result.is_some());
    let (content, calls) = result.unwrap();
    assert_eq!(content, "Doing two things:");
    assert_eq!(calls.len(), 2);
    assert_eq!(calls[0].0, "foo__bar");
    assert_eq!(calls[1].0, "baz__qux");
}

#[test]
fn test_parse_xml_tool_call_multiline_value() {
    let text = "<tool_call>\n<function=developer__write_file>\n<parameter=path>test.py</parameter>\n<parameter=content>def hello():\n    print(\"world\")</parameter>\n</function>\n</tool_call>";
    let result = split_content_and_xml_tool_calls(text);
    assert!(result.is_some());
    let (_content, calls) = result.unwrap();
    assert_eq!(calls[0].0, "developer__write_file");
    assert!(arg_is_text(&calls[0].1, "content", "def hello():\n    print(\"world\")"));
}

#[test]
fn test_safe_stream_end_holds_back_tool_call_tag() {
    let text = "Some text before <tool_call>\n<function=foo>";
    let safe = safe_stream_end(text);
    assert!(safe <= text.find("<tool_call>").unwrap());
}

#[test]
fn test_safe_stream_end_holds_back_partial_tag() {
    let text = "Some text <tool_ca";
    let safe = safe_stream_end(text);
    assert!(safe <= text.find('<').unwrap());
}

#[test]
fn test_parse_glm_style_tool_call() {
    let text = "<tool_call>developer__shell<arg_key>command</arg_key><arg_value>ls -la</arg_value></tool_call>";
    let result = split_content_and_xml_tool_calls(text);
    assert!(result.is_some());
    let (content, calls) = result.unwrap();
    assert!(content.is_empty());
    assert_eq!(calls.len(), 1);
    assert_eq!(calls[0].0, SHELL_TOOL);
    assert!(arg_is_text(&calls[0].1, "command", "ls -la"));
}

#[test]
fn test_parse_glm_style_tool_call_no_args() {
    let text = "Some text\n<tool_call>load</tool_call>";
    let result = split_content_and_xml_tool_calls(text);
    assert!(result.is_some());
    let (content, calls) = result.unwrap();
    assert_eq!(content, "Some text");
    assert_eq!(calls.len(), 1);
    assert_eq!(calls[0].0, "load");
    assert!(calls[0].1.is_empty());
}

#[test]
fn test_parse_glm_style_tool_call_multiple_args() {
    let text = "Let me check.\n<tool_call>execute<arg_key>code</arg_key><arg_value>async function run() { return 1; }</arg_value><arg_key>tool_graph</arg_key><arg_value>[{\"tool\": \"shell\"}]</arg_value></tool_call>";
    let result = split_content_and_xml_tool_calls(text);
    assert!(result.is_some());
    let (content, calls) = result.unwrap();
    assert_eq!(content, "Let me check.");
    assert_eq!(calls.len(), 1);
    assert_eq!(calls[0].0, "execute");
    assert!(arg_is_text(&calls[0].1, "code", "async function run() { return 1; }"));
    // tool_graph is a JSON array
    match arg(&calls[0].1, "tool_graph") {
        Some(ArgValue::Json(j)) => {
            let v: serde_json::Value = serde_json::from_str(j).unwrap();
            assert!(v.is_array());
        }
        other => panic!("expected a JSON value, got {other:?}"),
    }
}

#[test]
fn test_extract_xml_tool_call_messages() {
    let calls = vec![(
        SHELL_TOOL.to_string(),
        vec![("command".to_string(), ArgValue::Text("ls".to_string()))],
    )];
    let msgs = extract_xml_tool_call_messages(calls, "test-id");
    assert_eq!(msgs.len(), 1);
    assert_eq!(msgs[0].id, Some("test-id".to_string()));
    match &msgs[0].content[0] {
        MessageContent::ToolRequest(call) => {
            assert_eq!(call.name, SHELL_TOOL);
            let args = call.arguments.as_ref().unwrap();
            assert!(matches!(&args[0].1, ArgValue::Text(t) if t == "ls"));
        }
        _ => panic!("Expected ToolRequest"),
    }
}

#[test]
fn test_split_content_and_tool_calls_with_tool() {
    let text = "Here is the result.\n{\"tool_calls\": [{\"function\": {\"name\": \"shell\", \"arguments\": \"{}\"}, \"id\": \"abc\"}]}";
    let (content, tc) = split_content_and_tool_calls(text);
    assert_eq!(content, "Here is the result.");
    assert!(tc.is_some());
    let parsed: serde_json::Value = serde_json::from_str(&tc.unwrap()).unwrap();
    assert_eq!(parsed["tool_calls"].as_array().unwrap().len(), 1);
}

#[test]
fn test_split_content_and_tool_calls_no_tool() {
    let text = "Just regular text, no JSON.";
    let (content, tc) = split_content_and_tool_calls(text);
    assert_eq!(content, text);
    assert!(tc.is_none());
}

#[test]
fn test_split_content_and_tool_calls_json_without_tool_calls_key() {
    let text = "{\"key\": \"value\"}";
    let (content, tc) = split_content_and_tool_calls(text);
    assert_eq!(content, text);
    assert!(tc.is_none());
}

#[test]
fn test_extract_tool_call_messages_openai_format() {
    let json_str = r#"{"tool_calls": [{"function": {"name": "developer__shell", "arguments": "{\"command\": \"ls\"}"}, "id": "call-1"}]}"#;
    let msgs = extract_tool_call_messages(json_str, "msg-1");
    assert_eq!(msgs.len(), 1);
    match &msgs[0].content[0] {
        MessageContent::ToolRequest(call) => {
            assert_eq!(call.name, SHELL_TOOL);
            let args = call.arguments.as_ref().unwrap();
            assert!(matches!(arg(args, "command"), Some(ArgValue::Text(t)) if t == "ls"));
        }
        _ => panic!("Expected ToolRequest"),
    }
}

#[test]
fn test_extract_tool_call_messages_native_format() {
    let json_str = r#"{"tool_calls": [{"name": "developer__shell", "arguments": {"command": "ls"}, "id": "call-2"}]}"#;
    let msgs = extract_tool_call_messages(json_str, "msg-2");
    assert_eq!(msgs.len(), 1);
    match &msgs[0].content[0] {
        MessageContent::ToolRequest(call) => {
            assert_eq!(call.name, SHELL_TOOL);
            assert_eq!(call.id, "call-2");
        }
        _ => panic!("Expected ToolRequest"),
    }
}

#[test]
fn test_extract_tool_call_messages_invalid_json() {
    assert!(extract_tool_call_messages("not json", "msg-3").is_empty());
}

#[test]
fn test_extract_tool_call_messages_empty_name_skipped() {
    let json_str = r#"{"tool_calls": [{"name": "", "arguments": {}, "id": "x"}]}"#;
    assert!(extract_tool_call_messages(json_str, "msg-4").is_empty());
}

#[test]
fn test_extract_tool_call_messages_missing_id_gets_fresh_one() {
    let json_str = r#"{"tool_calls": [{"name": "developer__shell", "arguments": {"command": "ls"}}]}"#;
    let msgs = extract_tool_call_messages(json_str, "msg-5");
    assert_eq!(msgs.len(), 1);
    match &msgs[0].content[0] {
        MessageContent::ToolRequest(call) => {
            assert_eq!(call.id.len(), 36);
        }
        _ => panic!("Expected ToolRequest"),
    }
}

#[test]
fn extraction_keeps_entry_order_and_skips_unnamed() {
    let json_str = "{\"tool_calls\": [\
        {\"name\": \"first__tool\", \"arguments\": {\"a\": \"1\"}, \"id\": \"i1\"},\
        {\"name\": \"\", \"arguments\": {}, \"id\": \"skipped\"},\
        {\"function\": {\"name\": \"second__tool\", \"arguments\": \"{\\\"b\\\": \\\"2\\\"}\"}, \"id\": \"i2\"}\
        ]}";
    let msgs = extract_tool_call_messages(json_str, "mid");
    assert_eq!(msgs.len(), 2);
    match (&msgs[0].content[0], &msgs[1].content[0]) {
        (MessageContent::ToolRequest(a), MessageContent::ToolRequest(b)) => {
            assert_eq!(a.name, "first__tool");
            assert_eq!(a.id, "i1");
            assert!(matches!(arg(a.arguments.as_ref().unwrap(), "a"), Some(ArgValue::Text(v)) if v == "1"));
            assert_eq!(b.name, "second__tool");
            assert_eq!(b.id, "i2");
            assert!(matches!(arg(b.arguments.as_ref().unwrap(), "b"), Some(ArgValue::Text(v)) if v == "2"));
        }
        _ => panic!("expected two tool requests"),
    }
}

#[test]
fn test_compact_tools_json_produces_minimal_output() {
    let tools = vec![ToolInfo {
        name: "developer__shell".to_string(),
        description: Some("Run shell commands".to_string()),
    }];
    let result = compact_tools_json(&tools);
    assert!(result.is_some());
    let parsed: Vec<serde_json::Value> = serde_json::from_str(&result.unwrap()).unwrap();
    assert_eq!(parsed.len(), 1);
    let func = &parsed[0]["function"];
    assert_eq!(func["name"], "developer__shell");
    assert_eq!(func["description"], "Run shell commands");
    assert!(func.get("parameters").is_none());
}

#[test]
fn test_compact_tools_json_empty() {
    let result = compact_tools_json(&vec![]);
    assert!(result.is_some());
    let parsed: Vec<serde_json::Value> = serde_json::from_str(&result.unwrap()).unwrap();
    assert!(parsed.is_empty());
}

#[test]
fn test_safe_stream_end_balanced_braces() {
    let text = "Result: {\"key\": \"value\"} done";
    assert_eq!(safe_stream_end(text), text.len());
}

#[test]
fn test_safe_stream_end_unbalanced_open_brace() {
    let text = "Some text {\"tool_calls\": [";
    assert_eq!(safe_stream_end(text), "Some text ".len());
}

#[test]
fn test_safe_stream_end_empty() {
    assert_eq!(safe_stream_end(""), 0);
}

#[test]
fn test_safe_stream_end_no_braces() {
    let text = "plain text here";
    assert_eq!(safe_stream_end(text), text.len());
}

#[test]
fn safe_stream_end_never_shrinks_concrete() {
    // The monotonicity law on a concrete stream: feeding more text never
    // reclassifies an already-safe character.
    let chunks = ["Here is ", "the result ", "{\"tool", "_calls\": []}", " done"];
    let mut text = String::new();
    let mut prev = 0;
    for c in chunks {
        text.push_str(c);
        let safe = safe_stream_end(&text);
        assert!(safe >= prev, "safe end shrank from {prev} to {safe}");
        prev = safe;
    }
}

#[test]
fn split_isolates_block_and_prefix_is_fully_safe() {
    // A text ending in a well-formed tool-call block splits exactly, and
    // the returned content is itself fully streamable.
    let json = "{\"tool_calls\": []}";
    let text = format!("All done.\n{json}");
    let (content, tc) = split_content_and_tool_calls(&text);
    assert_eq!(content, "All done.");
    assert_eq!(tc.as_deref(), Some(json));
    assert_eq!(safe_stream_end(&content), content.len());
}

#[test]
fn native_json_tool_call_end_to_end() {
    let json = r#"{"tool_calls":[{"function":{"name":"developer__shell","arguments":"{\"command\":\"ls\"}"},"id":"c1"}]}"#;
    let text = format!("Here is the result.\n{json}");
    let (content, tc) = split_content_and_tool_calls(&text);
    assert_eq!(content, "Here is the result.");
    let msgs = extract_tool_call_messages(&tc.unwrap(), "m");
    assert_eq!(msgs.len(), 1);
    match &msgs[0].content[0] {
        MessageContent::ToolRequest(call) => {
            assert_eq!(call.name, SHELL_TOOL);
            assert_eq!(call.id, "c1");
            let args = call.arguments.as_ref().unwrap();
            assert!(matches!(arg(args, "command"), Some(ArgValue::Text(t)) if t == "ls"));
            assert_eq!(msgs[0].role, Role::Assistant);
        }
        _ => panic!("Expected ToolRequest"),
    }
}
