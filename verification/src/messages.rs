//! The conversation model the provider works over: messages with text,
//! tool requests, and tool responses as plain values, and the
//! flattening the emulator path applies to prior turns.

use vstd::prelude::*;

use crate::text::{
    all_ws, chars_to_string, contains_sub, extend_chars, str_to_chars, trim_spec,
};
use crate::tool_parsing::ArgValue;

verus! {

/// Who speaks.
#[derive(Debug, Clone, Copy, PartialEq, Eq, Structural)]
pub enum Role {
    User,
    Assistant,
}

/// A tool invocation requested by the assistant. Arguments are a pair
/// list in parse order; unlike a JSON object, the list keeps duplicate
/// keys rather than collapsing them.
#[derive(Debug, Clone, PartialEq)]
pub struct ToolCall {
    pub id: String,
    pub name: String,
    pub arguments: Option<Vec<(String, ArgValue)>>,
}

/// What a tool handed back: its text on success, the error otherwise.
#[derive(Debug, Clone, PartialEq)]
pub struct ToolOutput {
    pub success: bool,
    pub text: String,
}

/// One part of a message.
#[derive(Debug, Clone, PartialEq)]
pub enum MessageContent {
    Text(String),
    ToolRequest(ToolCall),
    ToolResponse(ToolOutput),
    Thinking(String),
    Image(String),
}

/// A message of the conversation.
#[derive(Debug, Clone, PartialEq)]
pub struct Message {
    pub role: Role,
    pub content: Vec<MessageContent>,
    pub id: Option<String>,
}

impl Message {
    /// An empty assistant message.
    pub fn assistant() -> (r: Message)
        ensures
            r.role == Role::Assistant,
            r.content@ =~= Seq::<MessageContent>::empty(),
            r.id is None,
    {
        Message { role: Role::Assistant, content: Vec::new(), id: None }
    }

    /// An assistant message holding one text part.
    pub fn assistant_text(text: String, id: Option<String>) -> (r: Message)
        ensures
            r.role == Role::Assistant,
            r.content@ =~= seq![MessageContent::Text(text)],
            r.id == id,
    {
        let mut content: Vec<MessageContent> = Vec::new();
        content.push(MessageContent::Text(text));
        Message { role: Role::Assistant, content, id }
    }
}

/// The string value of the first argument named `key`, when it is one.
pub open spec fn arg_text_spec(args: Seq<(String, ArgValue)>, key: Seq<char>) -> Option<
    Seq<char>,
>
    decreases args.len(),
{
    if args.len() == 0 {
        None
    } else if args[0].0@ == key {
        match args[0].1 {
            ArgValue::Text(t) => Some(t@),
            ArgValue::Json(_) => None,
        }
    } else {
        arg_text_spec(args.drop_first(), key)
    }
}

/// What one content part contributes to the emulator's flattened text:
/// text as itself; a tool request as `$ command` or an
/// ```` ```execute ```` block; a tool response as its output or error;
/// thinking and images nothing.
pub open spec fn part_text_spec(c: MessageContent) -> Option<Seq<char>> {
    match c {
        MessageContent::Text(t) => Some(t@),
        MessageContent::ToolRequest(tc) => {
            match tc.arguments {
                Some(args) => {
                    match arg_text_spec(args@, "command"@) {
                        Some(cmd) => Some("$ "@ + cmd),
                        None => match arg_text_spec(args@, "code"@) {
                            Some(code) => Some("```execute\n"@ + code + "\n```"@),
                            None => None,
                        },
                    }
                },
                None => None,
            }
        },
        MessageContent::ToolResponse(out) => {
            if out.success {
                if out.text@.len() > 0 {
                    Some("Command output:\n"@ + out.text@)
                } else {
                    None
                }
            } else {
                Some("Command error: "@ + out.text@)
            }
        },
        MessageContent::Thinking(_) => None,
        MessageContent::Image(_) => None,
    }
}

/// The parts of a message joined with newlines.
pub open spec fn message_text_spec(content: Seq<MessageContent>) -> Seq<char>
    decreases content.len(),
{
    if content.len() == 0 {
        Seq::empty()
    } else {
        let rest = message_text_spec(content.drop_last());
        match part_text_spec(content.last()) {
            Some(t) => if rest.len() == 0 {
                t
            } else {
                rest + "\n"@ + t
            },
            None => rest,
        }
    }
}

fn arg_text(args: &Vec<(String, ArgValue)>, key: &str) -> (r: Option<String>)
    ensures
        match r {
            Some(t) => arg_text_spec(args@, key@) == Some(t@),
            None => arg_text_spec(args@, key@) is None,
        },
{
    let mut i: usize = 0;
    proof {
        assert(args@.subrange(0, args@.len() as int) =~= args@);
    }
    while i < args.len()
        invariant
            i <= args@.len(),
            arg_text_spec(args@, key@) == arg_text_spec(
                args@.subrange(i as int, args@.len() as int),
                key@,
            ),
        decreases args@.len() - i,
    {
        let ghost pre = args@.subrange(i as int, args@.len() as int);
        proof {
            assert(pre[0] == args@[i as int]);
            assert(pre.drop_first() =~= args@.subrange(i + 1, args@.len() as int));
        }
        if crate::text::str_eq(args[i].0.as_str(), key) {
            match &args[i].1 {
                ArgValue::Text(t) => {
                    return Some(crate::text::clone_str(t));
                },
                ArgValue::Json(_) => {
                    return None;
                },
            }
        }
        i += 1;
    }
    proof {
        assert(args@.subrange(args@.len() as int, args@.len() as int) =~= Seq::<
            (String, ArgValue),
        >::empty());
    }
    None
}

/// Flatten a message to the plain text the emulator path shows the
/// model: tool requests become the `$`/```` ```execute ```` syntax they
/// were parsed from, tool responses their output.
pub fn extract_text_content(msg: &Message) -> (r: String)
    ensures
        r@ == message_text_spec(msg.content@),
{
    let mut out: Vec<char> = Vec::new();
    let mut i: usize = 0;
    proof {
        assert(msg.content@.subrange(0, 0) =~= Seq::<MessageContent>::empty());
    }
    while i < msg.content.len()
        invariant
            i <= msg.content@.len(),
            out@ == message_text_spec(msg.content@.subrange(0, i as int)),
        decreases msg.content@.len() - i,
    {
        let ghost prefix = msg.content@.subrange(0, i + 1);
        proof {
            assert(prefix.drop_last() =~= msg.content@.subrange(0, i as int));
            assert(prefix.last() == msg.content@[i as int]);
        }
        let part: Option<Vec<char>> = match &msg.content[i] {
            MessageContent::Text(t) => Some(str_to_chars(t.as_str())),
            MessageContent::ToolRequest(tc) => {
                match &tc.arguments {
                    Some(args) => {
                        match arg_text(args, "command") {
                            Some(cmd) => {
                                let mut p = str_to_chars("$ ");
                                let c = str_to_chars(cmd.as_str());
                                extend_chars(&mut p, &c);
                                Some(p)
                            },
                            None => {
                                match arg_text(args, "code") {
                                    Some(code) => {
                                        let mut p = str_to_chars("```execute\n");
                                        let c = str_to_chars(code.as_str());
                                        let close = str_to_chars("\n```");
                                        extend_chars(&mut p, &c);
                                        extend_chars(&mut p, &close);
                                        Some(p)
                                    },
                                    None => None,
                                }
                            },
                        }
                    },
                    None => None,
                }
            },
            MessageContent::ToolResponse(o) => {
                if o.success {
                    if o.text.as_str().is_empty() {
                        None
                    } else {
                        let mut p = str_to_chars("Command output:\n");
                        let t = str_to_chars(o.text.as_str());
                        extend_chars(&mut p, &t);
                        Some(p)
                    }
                } else {
                    let mut p = str_to_chars("Command error: ");
                    let t = str_to_chars(o.text.as_str());
                    extend_chars(&mut p, &t);
                    Some(p)
                }
            },
            MessageContent::Thinking(_) => None,
            MessageContent::Image(_) => None,
        };
        match part {
            Some(p) => {
                if out.len() == 0 {
                    out = p;
                } else {
                    let nl = str_to_chars("\n");
                    extend_chars(&mut out, &nl);
                    extend_chars(&mut out, &p);
                }
            },
            None => {},
        }
        i += 1;
    }
    proof {
        assert(msg.content@.subrange(0, msg.content@.len() as int) =~= msg.content@);
    }
    chars_to_string(&out)
}

/// Relies on uuid::Uuid::new_v4 and its Display: a fresh random v4
/// UUID in hyphenated form, which is 36 characters long.
#[verifier::external_body]
pub fn fresh_request_id() -> (r: String)
    ensures
        r@.len() == 36,
{
    uuid::Uuid::new_v4().to_string()
}

/// Token accounting of one generation.
#[derive(Debug, Clone, Copy, PartialEq, Eq, Structural)]
pub struct Usage {
    pub input_tokens: i32,
    pub output_tokens: i32,
    pub total_tokens: i32,
}

/// What a finished stream reports: the model that ran and its usage.
#[derive(Debug, Clone, PartialEq)]
pub struct ProviderUsage {
    pub model: String,
    pub usage: Usage,
}

/// Build the usage record of a finished generation.
pub fn finalize_usage(model_name: String, prompt_token_count: usize, output_token_count: i32) -> (r:
    ProviderUsage)
    requires
        prompt_token_count <= i32::MAX,
        output_token_count >= 0,
        prompt_token_count + output_token_count <= i32::MAX,
    ensures
        r.model == model_name,
        r.usage.input_tokens == prompt_token_count,
        r.usage.output_tokens == output_token_count,
        r.usage.total_tokens == prompt_token_count + output_token_count,
{
    let input = prompt_token_count as i32;
    ProviderUsage {
        model: model_name,
        usage: Usage {
            input_tokens: input,
            output_tokens: output_token_count,
            total_tokens: input + output_token_count,
        },
    }
}

} // verus!
