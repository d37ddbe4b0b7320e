//! The provider's decision core: path selection, emulator messages,
//! prompt flattening, the tool-description block, and streaming state.

use local_inference::emulator::EmulatorAction;
use local_inference::generation::{
    available_inference_memory_bytes, code_mode_enabled, compact_catalog_needed,
    emulator_action_message, use_emulator, DeviceKind, DeviceMemory, NativeToolStream, ToolInfo,
    wrap_execute_code,
};
use local_inference::messages::{
    extract_text_content, finalize_usage, Message, MessageContent, Role, ToolCall,
};
use local_inference::emulator_prompt::build_emulator_tool_description;
use local_inference::settings::ModelSettings;
use local_inference::tool_parsing::ArgValue;

#[test]
fn emulator_only_when_tools_and_no_native_calling() {
    let mut s = ModelSettings::default();
    assert!(use_emulator(&s, 3));
    assert!(!use_emulator(&s, 0));
    s.native_tool_calling = true;
    assert!(!use_emulator(&s, 3));
}

#[test]
fn code_mode_requires_the_execute_tool() {
    let shell = ToolInfo { name: "developer__shell".into(), description: None };
    let exec = ToolInfo { name: "code_execution__execute".into(), description: None };
    assert!(!code_mode_enabled(&vec![shell.clone()]));
    assert!(code_mode_enabled(&vec![shell, exec]));
}

#[test]
fn wrap_leaves_existing_run_function_alone() {
    let code = "async function run() { return 1; }";
    assert_eq!(wrap_execute_code(code), code);
    assert_eq!(
        wrap_execute_code("console.log(1);"),
        "async function run() {\nconsole.log(1);\n}"
    );
}

#[test]
fn shell_action_becomes_tool_request_and_stops() {
    let (msg, stop) =
        emulator_action_message(&EmulatorAction::ShellCommand("ls".into()), "mid");
    assert!(stop);
    assert_eq!(msg.role, Role::Assistant);
    assert_eq!(msg.id.as_deref(), Some("mid"));
    match &msg.content[0] {
        MessageContent::ToolRequest(tc) => {
            assert_eq!(tc.name, "developer__shell");
            assert_eq!(tc.id.len(), 36);
            let args = tc.arguments.as_ref().unwrap();
            assert!(matches!(&args[0], (k, ArgValue::Text(v)) if k == "command" && v == "ls"));
        }
        _ => panic!("expected a tool request"),
    }
}

#[test]
fn text_action_does_not_stop() {
    let (msg, stop) = emulator_action_message(&EmulatorAction::Text("hi".into()), "mid");
    assert!(!stop);
    assert!(matches!(&msg.content[0], MessageContent::Text(t) if t == "hi"));
}

#[test]
fn device_memory_prefers_accelerators() {
    let devices = vec![
        DeviceMemory { kind: DeviceKind::Cpu, free_bytes: 64 },
        DeviceMemory { kind: DeviceKind::Gpu, free_bytes: 16 },
        DeviceMemory { kind: DeviceKind::IntegratedGpu, free_bytes: 24 },
    ];
    assert_eq!(available_inference_memory_bytes(&devices), 24);
    let cpu_only = vec![
        DeviceMemory { kind: DeviceKind::Cpu, free_bytes: 64 },
        DeviceMemory { kind: DeviceKind::Gpu, free_bytes: 0 },
    ];
    assert_eq!(available_inference_memory_bytes(&cpu_only), 64);
    assert_eq!(available_inference_memory_bytes(&Vec::new()), 0);
}

#[test]
fn flattening_reconstructs_emulator_syntax() {
    let msg = Message {
        role: Role::Assistant,
        content: vec![
            MessageContent::Text("Let me look.".into()),
            MessageContent::ToolRequest(ToolCall {
                id: "t1".into(),
                name: "developer__shell".into(),
                arguments: Some(vec![("command".into(), ArgValue::Text("ls".into()))]),
            }),
        ],
        id: None,
    };
    assert_eq!(extract_text_content(&msg), "Let me look.\n$ ls");

    let code_msg = Message {
        role: Role::Assistant,
        content: vec![MessageContent::ToolRequest(ToolCall {
            id: "t2".into(),
            name: "code_execution__execute".into(),
            arguments: Some(vec![("code".into(), ArgValue::Text("run()".into()))]),
        })],
        id: None,
    };
    assert_eq!(extract_text_content(&code_msg), "```execute\nrun()\n```");
}

#[test]
fn tool_description_plain_list() {
    let tools = vec![
        ToolInfo { name: "developer__shell".into(), description: Some("Run commands".into()) },
        ToolInfo { name: "other".into(), description: None },
    ];
    let desc = build_emulator_tool_description(&tools, false);
    assert!(desc.starts_with("\n\n# Tools\n\n"));
    assert!(desc.contains("- developer__shell: Run commands\n"));
    assert!(desc.contains("- other: No description\n"));
}

#[test]
fn tool_description_code_mode_camel_cases() {
    let tools = vec![
        ToolInfo { name: "code_execution__execute".into(), description: Some("runs".into()) },
        ToolInfo { name: "developer__run_shell_cmd".into(), description: Some("Shell".into()) },
        ToolInfo { name: "noseparator".into(), description: None },
    ];
    let desc = build_emulator_tool_description(&tools, true);
    assert!(desc.contains("# Running Code"));
    assert!(desc.contains("- Developer.runShellCmd(): Shell\n"));
    // the code-execution tool itself and names without `__` are omitted
    assert!(!desc.contains("code_execution"));
    assert!(!desc.contains("noseparator"));
}

#[test]
fn native_stream_holds_back_tool_call_block() {
    let mut st = NativeToolStream::new();
    let first = st.push_piece("Here is text. ");
    assert_eq!(first.as_deref(), Some("Here is text. "));
    // An opening brace is held back until it closes.
    assert_eq!(st.push_piece("{\"tool_calls\""), None);
    let after = st.push_piece(": []} tail");
    assert_eq!(after.as_deref(), Some("{\"tool_calls\": []} tail"));
    assert_eq!(st.generated_text(), "Here is text. {\"tool_calls\": []} tail");
}

#[test]
fn native_stream_stops_before_json_block_content() {
    let mut st = NativeToolStream::new();
    let json = "{\"tool_calls\": []}";
    let out = st.push_piece("Answer.\n");
    assert_eq!(out.as_deref(), Some("Answer.\n"));
    // Once the block parses, only the isolated content may stream, and
    // it was already sent.
    assert_eq!(st.push_piece(json), None);
}

#[test]
fn compact_catalog_kicks_in_over_budget() {
    // budget is the cap less the 512-token generation headroom
    assert!(!compact_catalog_needed(3584, 4096));
    assert!(compact_catalog_needed(3585, 4096));
    assert!(compact_catalog_needed(1, 100));
    assert!(!compact_catalog_needed(0, 100));
}

#[test]
fn finalize_emits_rest_then_tool_messages() {
    let mut st = NativeToolStream::new();
    let first = st.push_piece("Here is the result.\n");
    assert_eq!(first.as_deref(), Some("Here is the result.\n"));
    let json = "{\"tool_calls\":[{\"function\":{\"name\":\"developer__shell\",\"arguments\":\"{\\\"command\\\":\\\"ls\\\"}\"},\"id\":\"c1\"}]}";
    assert_eq!(st.push_piece(json), None);
    let msgs = st.finalize("mid");
    // nothing of the content remains (it was fully streamed), so only
    // the tool message is emitted
    assert_eq!(msgs.len(), 1);
    match &msgs[0].content[0] {
        MessageContent::ToolRequest(tc) => {
            assert_eq!(tc.name, "developer__shell");
            assert_eq!(tc.id, "c1");
        }
        _ => panic!("expected a tool request"),
    }
    assert_eq!(msgs[0].id.as_deref(), Some("mid"));
}

#[test]
fn finalize_emits_held_content_before_tools() {
    let mut st = NativeToolStream::new();
    // The whole text arrives as one piece: the brace holds everything
    // after "Answer. " back, so nothing streams yet.
    let json = r#"{"tool_calls":[{"name":"developer__shell","arguments":{"command":"ls"},"id":"c2"}]}"#;
    let text = format!("Answer.\n{json}");
    let first = st.push_piece(&text);
    assert_eq!(first.as_deref(), Some("Answer."));
    let msgs = st.finalize("mid");
    assert_eq!(msgs.len(), 1);
    assert!(matches!(&msgs[0].content[0], MessageContent::ToolRequest(tc) if tc.id == "c2"));
}

#[test]
fn finalize_falls_back_to_whole_text() {
    // An unclosed brace swallows the whole output: no content, no tool
    // calls, so the fallback emits the full text.
    let mut st = NativeToolStream::new();
    assert_eq!(st.push_piece("{oops"), None);
    let msgs = st.finalize("mid");
    assert_eq!(msgs.len(), 1);
    assert!(matches!(&msgs[0].content[0], MessageContent::Text(t) if t == "{oops"));
}

#[test]
fn finalize_xml_takes_precedence() {
    let mut st = NativeToolStream::new();
    let _ = st.push_piece("Some text\n<tool_call>load</tool_call>");
    let msgs = st.finalize("mid");
    let tools: Vec<_> = msgs
        .iter()
        .filter(|m| matches!(m.content[0], MessageContent::ToolRequest(_)))
        .collect();
    assert_eq!(tools.len(), 1);
    match &tools[0].content[0] {
        MessageContent::ToolRequest(tc) => {
            assert_eq!(tc.name, "load");
            assert!(tc.arguments.is_none());
            assert_eq!(tc.id.len(), 36);
        }
        _ => unreachable!(),
    }
}

#[test]
fn usage_totals_add_up() {
    let usage = finalize_usage("m1".to_string(), 100, 25);
    assert_eq!(usage.model, "m1");
    assert_eq!(usage.usage.input_tokens, 100);
    assert_eq!(usage.usage.output_tokens, 25);
    assert_eq!(usage.usage.total_tokens, 125);
}
