//! The emulator's streaming parser and the markdown hold-back buffer.

use local_inference::emulator::{EmulatorAction, StreamingEmulatorParser};
use local_inference::markdown::MarkdownBuffer;

/// Collect all actions from feeding chunks through the parser, then flushing.
fn parse_chunks(chunks: &[&str], code_mode: bool) -> Vec<EmulatorAction> {
    let mut parser = StreamingEmulatorParser::new(code_mode);
    let mut actions = Vec::new();
    for chunk in chunks {
        actions.extend(parser.process_chunk(chunk));
    }
    actions.extend(parser.flush());
    actions
}

fn parse_all(input: &str, code_mode: bool) -> Vec<EmulatorAction> {
    parse_chunks(&[input], code_mode)
}

fn assert_text(action: &EmulatorAction, expected: &str) {
    match action {
        EmulatorAction::Text(t) => assert_eq!(t.trim(), expected.trim(), "text mismatch"),
        other => panic!("expected Text, got {other:?}"),
    }
}

fn assert_shell(action: &EmulatorAction, expected: &str) {
    match action {
        EmulatorAction::ShellCommand(cmd) => {
            assert_eq!(cmd, expected, "shell command mismatch")
        }
        other => panic!("expected ShellCommand, got {other:?}"),
    }
}

fn assert_execute(action: &EmulatorAction, expected: &str) {
    match action {
        EmulatorAction::ExecuteCode(code) => {
            assert_eq!(code.trim(), expected.trim(), "execute code mismatch")
        }
        other => panic!("expected ExecuteCode, got {other:?}"),
    }
}

#[test]
fn plain_text_no_tools() {
    let actions = parse_all("Hello, world!", false);
    let all_text: String = actions
        .iter()
        .map(|a| match a {
            EmulatorAction::Text(t) => t.as_str(),
            _ => panic!("expected only Text actions"),
        })
        .collect();
    assert_eq!(all_text.trim(), "Hello, world!");
}

#[test]
fn single_shell_command() {
    let actions = parse_all("$ ls -la\n", false);
    assert_eq!(actions.len(), 1);
    assert_shell(&actions[0], "ls -la");
}

#[test]
fn text_then_shell_command() {
    let actions = parse_all("Let me check:\n$ ls -la\n", false);
    assert!(actions.len() >= 2);
    assert_text(&actions[0], "Let me check:");
    assert_shell(&actions[actions.len() - 1], "ls -la");
}

#[test]
fn shell_command_at_start_of_output() {
    let actions = parse_all("$ whoami\n", false);
    assert_eq!(actions.len(), 1);
    assert_shell(&actions[0], "whoami");
}

#[test]
fn shell_command_without_trailing_newline() {
    let actions = parse_all("$ whoami", false);
    assert_eq!(actions.len(), 1);
    assert_shell(&actions[0], "whoami");
}

#[test]
fn dollar_sign_mid_sentence_is_not_command() {
    let actions = parse_all("It costs $50 per month", false);
    for action in &actions {
        assert!(
            matches!(action, EmulatorAction::Text(_)),
            "mid-sentence $ should not trigger a shell command"
        );
    }
    let all_text: String = actions
        .iter()
        .filter_map(|a| match a {
            EmulatorAction::Text(t) => Some(t.as_str()),
            _ => None,
        })
        .collect();
    assert_eq!(all_text.trim(), "It costs $50 per month");
}

#[test]
fn execute_block() {
    let input = "Here's the code:\n```execute\nconsole.log('hi');\n```\n";
    let actions = parse_all(input, true);
    assert!(actions.len() >= 2);
    assert_text(&actions[0], "Here's the code:");
    assert_execute(&actions[actions.len() - 1], "console.log('hi');");
}

#[test]
fn execute_block_not_detected_without_code_mode() {
    let input = "```execute\nconsole.log('hi');\n```\n";
    let actions = parse_all(input, false);
    for action in &actions {
        assert!(matches!(action, EmulatorAction::Text(_)));
    }
}

#[test]
fn dollar_split_across_chunks() {
    // The \n and $ arrive in separate chunks
    let actions = parse_chunks(&["Let me check\n", "$ ls -la\n"], false);
    let shells: Vec<_> = actions
        .iter()
        .filter(|a| matches!(a, EmulatorAction::ShellCommand(_)))
        .collect();
    assert_eq!(shells.len(), 1);
    assert_shell(shells[0], "ls -la");
}

#[test]
fn execute_fence_split_across_chunks() {
    let actions = parse_chunks(&["Here:\n```ex", "ecute\nlet x = 1;\n", "```\n"], true);
    let executes: Vec<_> = actions
        .iter()
        .filter(|a| matches!(a, EmulatorAction::ExecuteCode(_)))
        .collect();
    assert_eq!(executes.len(), 1);
    assert_execute(executes[0], "let x = 1;");
}

#[test]
fn multiple_commands_on_separate_lines() {
    // In practice, generation stops after the first tool call. But the
    // parser should detect commands separated by \n$ when fed as chunks.
    let actions = parse_chunks(&["Here:\n$ cd /tmp\n", "Done.\n$ ls\n"], false);
    let shells: Vec<_> = actions
        .iter()
        .filter(|a| matches!(a, EmulatorAction::ShellCommand(_)))
        .collect();
    assert_eq!(shells.len(), 2);
    assert_shell(shells[0], "cd /tmp");
    assert_shell(shells[1], "ls");
}

#[test]
fn regular_code_fence_not_treated_as_execute() {
    let input = "```python\nprint('hi')\n```\n";
    let actions = parse_all(input, true);
    for action in &actions {
        assert!(
            matches!(action, EmulatorAction::Text(_)),
            "regular code fence should be text"
        );
    }
}

#[test]
fn empty_command_ignored() {
    let actions = parse_all("$\n", false);
    let shells: Vec<_> = actions
        .iter()
        .filter(|a| matches!(a, EmulatorAction::ShellCommand(_)))
        .collect();
    assert_eq!(shells.len(), 0);
}

#[test]
fn token_by_token_streaming() {
    // Simulate the model generating one character at a time
    let input = "$ echo hello\n";
    let chars: Vec<String> = input.chars().map(|c| c.to_string()).collect();
    let chunks: Vec<&str> = chars.iter().map(|s| s.as_str()).collect();
    let actions = parse_chunks(&chunks, false);
    let shells: Vec<_> = actions
        .iter()
        .filter(|a| matches!(a, EmulatorAction::ShellCommand(_)))
        .collect();
    assert_eq!(shells.len(), 1);
    assert_shell(shells[0], "echo hello");
}

#[test]
fn execute_block_with_multiline_code() {
    let input = "```execute\nasync function run() {\n  const r = await Developer.shell({ command: \"ls\" });\n  return r;\n}\n```\n";
    let actions = parse_all(input, true);
    let executes: Vec<_> = actions
        .iter()
        .filter(|a| matches!(a, EmulatorAction::ExecuteCode(_)))
        .collect();
    assert_eq!(executes.len(), 1);
    match executes[0] {
        EmulatorAction::ExecuteCode(code) => {
            assert!(code.contains("async function run()"));
            assert!(code.contains("Developer.shell"));
        }
        _ => unreachable!(),
    }
}

#[test]
fn unclosed_execute_block_flushed() {
    // Model stops generating mid-block
    let input = "```execute\nlet x = 1;";
    let actions = parse_all(input, true);
    let executes: Vec<_> = actions
        .iter()
        .filter(|a| matches!(a, EmulatorAction::ExecuteCode(_)))
        .collect();
    assert_eq!(executes.len(), 1);
    assert_execute(executes[0], "let x = 1;");
}

#[test]
fn chunking_does_not_change_the_command() {
    // The same single-command stream, fed whole, in two chunks, and one
    // character at a time, yields the same shell command.
    let input = "Checking now\n$ cargo test\n";
    for chunks in [
        vec![input],
        vec!["Checking now\n", "$ cargo test\n"],
        input.split_inclusive(' ').collect::<Vec<_>>(),
    ] {
        let actions = parse_chunks(&chunks, false);
        let shells: Vec<_> = actions
            .iter()
            .filter(|a| matches!(a, EmulatorAction::ShellCommand(_)))
            .collect();
        assert_eq!(shells.len(), 1);
        assert_shell(shells[0], "cargo test");
    }
}

/// Process chunks through the buffer and return all outputs (skipping
/// held-back pushes, including the final flush).
fn stream_markdown(chunks: &[&str]) -> Vec<String> {
    let mut buf = MarkdownBuffer::new();
    let mut results: Vec<String> = chunks.iter().filter_map(|chunk| buf.push(chunk)).collect();
    let remaining = buf.flush();
    if !remaining.is_empty() {
        results.push(remaining);
    }
    results
}

#[test]
fn markdown_bold_across_chunks() {
    assert_eq!(
        stream_markdown(&["Here's the **important", "** part."]),
        vec!["Here's the ", "**important** part."]
    );
}

#[test]
fn markdown_code_fence_across_chunks() {
    assert_eq!(
        stream_markdown(&["```rust\n", "fn main() {\n", "    println!(\"hello\");\n", "}\n", "```\n"]),
        vec!["```rust\nfn main() {\n    println!(\"hello\");\n}\n```\n"]
    );
}

#[test]
fn markdown_inline_code_split() {
    assert_eq!(
        stream_markdown(&["Use the `println!", "` macro."]),
        vec!["Use the ", "`println!` macro."]
    );
}

#[test]
fn markdown_link_split() {
    assert_eq!(
        stream_markdown(&["Check [the docs](https://doc", "s.rs) for more."]),
        vec!["Check ", "[the docs](https://docs.rs) for more."]
    );
}

#[test]
fn markdown_heading_split() {
    assert_eq!(
        stream_markdown(&["# Getting St", "arted\n\nFirst, install..."]),
        vec!["# Getting Started\n\nFirst, install..."]
    );
}

#[test]
fn markdown_table_rows() {
    assert_eq!(
        stream_markdown(&["| Name | Value |\n", "|------|-------|\n", "| foo  | 42    |\n", "\nMore text"]),
        vec!["| Name | Value |\n|------|-------|\n| foo  | 42    |\n\nMore text"]
    );
}

#[test]
fn markdown_unclosed_bold_flushes() {
    assert_eq!(
        stream_markdown(&["This is **incomplete bold"]),
        vec!["This is ", "**incomplete bold"]
    );
}

#[test]
fn markdown_stream_conserves_text() {
    // The conservation law on a concrete stream: outputs plus flush
    // reassemble the input byte for byte.
    let chunks = ["Some **bo", "ld** and `co", "de` and\n```rust\nlet x = 1;", "\n```\na | table?"];
    let mut buf = MarkdownBuffer::new();
    let mut collected = String::new();
    for c in chunks {
        if let Some(out) = buf.push(c) {
            collected.push_str(&out);
        }
    }
    collected.push_str(&buf.flush());
    assert_eq!(collected, chunks.concat());
}

#[test]
fn markdown_strikethrough_and_bold() {
    assert_eq!(
        stream_markdown(&["~~stri", "ke~~ and **bo", "ld**"]),
        vec!["~~strike~~ and ", "**bold**"]
    );
}
