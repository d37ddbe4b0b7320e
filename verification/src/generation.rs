//! The decision core of a generation: memory probing, prompt planning,
//! safe streaming of the native tool path, emulator actions as
//! messages, and tool-call extraction at end of stream.
//!
//! The embedding program runs the native library's load, prefill, and
//! sampling loop; every choice of what to send, hold back, or emit is
//! made here.

use vstd::prelude::*;

use crate::emulator::EmulatorAction;
use crate::errors::ProviderError;
use crate::messages::{fresh_request_id, Message, MessageContent, Role, ToolCall};
use crate::registry::{first_with_id, has_id, LocalModelRegistry};
use crate::settings::ModelSettings;
use crate::text::{
    chars_to_string, clone_str, contains_sub, extend_chars, str_eq, str_to_chars, subrange_chars,
    trim_spec,
};
use crate::tool_parsing::{
    decode_tool_calls, has_tool_calls, json_object_entries, object_entries_of, parses_as_object,
    tool_call_entries_of, ArgValue, RawToolCall, safe_stream_end_spec,
    split_content_and_tool_calls, split_tool_calls_spec,
};
use crate::xml_tool_calls::{split_content_and_xml_tool_calls, xml_split_spec};

verus! {

/// The kind of device a backend reports.
#[derive(Debug, Clone, Copy, PartialEq, Eq, Structural)]
pub enum DeviceKind {
    Gpu,
    IntegratedGpu,
    Accelerator,
    Cpu,
    Other,
}

/// One device and its free memory.
#[derive(Debug, Clone, Copy, PartialEq, Eq, Structural)]
pub struct DeviceMemory {
    pub kind: DeviceKind,
    pub free_bytes: u64,
}

/// Whether the device is an accelerator.
pub open spec fn is_accel(k: DeviceKind) -> bool {
    k == DeviceKind::Gpu || k == DeviceKind::IntegratedGpu || k == DeviceKind::Accelerator
}

/// The largest free-byte figure among matching devices.
pub open spec fn max_free(devs: Seq<DeviceMemory>, accel: bool) -> u64
    decreases devs.len(),
{
    if devs.len() == 0 {
        0u64
    } else {
        let rest = max_free(devs.drop_last(), accel);
        let d = devs.last();
        let matches_kind = if accel {
            is_accel(d.kind)
        } else {
            d.kind == DeviceKind::Cpu
        };
        if matches_kind && d.free_bytes > rest {
            d.free_bytes
        } else {
            rest
        }
    }
}

/// Memory available for inference: the best accelerator figure, or the
/// best CPU figure when no accelerator reports free memory.
pub open spec fn available_memory_spec(devs: Seq<DeviceMemory>) -> u64 {
    if max_free(devs, true) > 0 {
        max_free(devs, true)
    } else {
        max_free(devs, false)
    }
}

/// Free memory usable for inference, from the reported devices.
pub fn available_inference_memory_bytes(devices: &Vec<DeviceMemory>) -> (r: u64)
    ensures
        r == available_memory_spec(devices@),
{
    let mut accel: u64 = 0;
    let mut cpu: u64 = 0;
    let mut i: usize = 0;
    proof {
        assert(devices@.subrange(0, 0) =~= Seq::<DeviceMemory>::empty());
    }
    while i < devices.len()
        invariant
            i <= devices@.len(),
            accel == max_free(devices@.subrange(0, i as int), true),
            cpu == max_free(devices@.subrange(0, i as int), false),
        decreases devices@.len() - i,
    {
        proof {
            assert(devices@.subrange(0, i + 1).drop_last() =~= devices@.subrange(0, i as int));
            assert(devices@.subrange(0, i + 1).last() == devices@[i as int]);
        }
        let d = devices[i];
        match d.kind {
            DeviceKind::Gpu | DeviceKind::IntegratedGpu | DeviceKind::Accelerator => {
                if d.free_bytes > accel {
                    accel = d.free_bytes;
                }
            },
            DeviceKind::Cpu => {
                if d.free_bytes > cpu {
                    cpu = d.free_bytes;
                }
            },
            DeviceKind::Other => {},
        }
        i += 1;
    }
    proof {
        assert(devices@.subrange(0, devices@.len() as int) =~= devices@);
    }
    if accel > 0 {
        accel
    } else {
        cpu
    }
}

/// Resolve a model id against the registry: its file path, its
/// configured context size (zero when unset), and its settings.
pub fn resolve_model_path(registry: &LocalModelRegistry, model_id: &str) -> (r: Option<
    (String, usize, ModelSettings),
>)
    ensures
        match r {
            Some((path, ctx, settings)) => ({
                &&& first_with_id(registry.models@, model_id@) matches Some(i) && ({
                    let e = registry.models@[i];
                    &&& path@ == e.local_path@
                    &&& ctx == (match e.settings.context_size {
                        Some(c) => c as usize,
                        None => 0usize,
                    })
                    &&& settings == e.settings
                })
            }),
            None => !has_id(registry.models@, model_id@),
        },
{
    match registry.get_model(model_id) {
        Some(entry) => {
            let ctx: usize = match entry.settings.context_size {
                Some(c) => c as usize,
                None => 0,
            };
            Some((clone_str(&entry.local_path), ctx, crate::registry::clone_settings_pub(
                &entry.settings,
            )))
        },
        None => None,
    }
}

/// Whether a generation uses the emulator path: the model lacks native
/// tool calling and tools are actually present.
pub open spec fn use_emulator_spec(settings: ModelSettings, n_tools: int) -> bool {
    !settings.native_tool_calling && n_tools > 0
}

/// Decide the tool path for this request.
pub fn use_emulator(settings: &ModelSettings, n_tools: usize) -> (r: bool)
    ensures
        r == use_emulator_spec(*settings, n_tools as int),
{
    !settings.native_tool_calling && n_tools > 0
}

/// A tool as the provider sees it: its name and description.
#[derive(Debug, Clone, PartialEq)]
pub struct ToolInfo {
    pub name: String,
    pub description: Option<String>,
}

/// Whether some tool is the code-execution tool, which switches the
/// emulator into code mode.
pub open spec fn code_mode_spec(tools: Seq<ToolInfo>) -> bool {
    exists|i: int|
        0 <= i < tools.len() && (#[trigger] tools[i]).name@ == "code_execution__execute"@
}

/// Whether code mode is on for these tools.
pub fn code_mode_enabled(tools: &Vec<ToolInfo>) -> (r: bool)
    ensures
        r == code_mode_spec(tools@),
{
    let mut i: usize = 0;
    while i < tools.len()
        invariant
            i <= tools@.len(),
            forall|j: int|
                0 <= j < i ==> (#[trigger] tools@[j]).name@ != "code_execution__execute"@,
        decreases tools@.len() - i,
    {
        if str_eq(tools[i].name.as_str(), "code_execution__execute") {
            proof {
                assert(tools@[i as int].name@ == "code_execution__execute"@);
            }
            return true;
        }
        i += 1;
    }
    proof {
        if code_mode_spec(tools@) {
            let w = choose|j: int|
                0 <= j < tools@.len() && (#[trigger] tools@[j]).name@
                    == "code_execution__execute"@;
            assert(tools@[w].name@ != "code_execution__execute"@);
        }
    }
    false
}

/// Code handed to the code-execution tool, wrapped in
/// `async function run()` unless it already defines one.
pub open spec fn wrap_code_spec(code: Seq<char>) -> Seq<char> {
    if contains_sub(code, "async function run()"@) {
        code
    } else {
        "async function run() {\n"@ + code + "\n}"@
    }
}

/// Wrap execute-block code for the code-execution tool.
pub fn wrap_execute_code(code: &str) -> (r: String)
    ensures
        r@ == wrap_code_spec(code@),
{
    proof {
        reveal_strlit("async function run()");
    }
    let chars = str_to_chars(code);
    let needle = str_to_chars("async function run()");
    match crate::text::find_sub(&chars, &needle) {
        Some(i) => {
            proof {
                assert(crate::text::contains_at(chars@, i as int, "async function run()"@));
            }
            code.to_owned()
        },
        None => {
            let mut out = str_to_chars("async function run() {\n");
            let close = str_to_chars("\n}");
            extend_chars(&mut out, &chars);
            extend_chars(&mut out, &close);
            chars_to_string(&out)
        },
    }
}

/// Turn one emulator action into the message to send, and whether it is
/// a tool request (after which generation must stop). Tool requests get
/// a fresh id; every message carries the stream's message id.
pub fn emulator_action_message(action: &EmulatorAction, message_id: &str) -> (r: (Message, bool))
    ensures
        r.0.role == Role::Assistant,
        r.0.id matches Some(mid) && mid@ == message_id@,
        match action {
            EmulatorAction::Text(t) => ({
                &&& !r.1
                &&& r.0.content@.len() == 1
                &&& r.0.content@[0] matches MessageContent::Text(s) && s@ == t@
            }),
            EmulatorAction::ShellCommand(cmd) => ({
                &&& r.1
                &&& r.0.content@.len() == 1
                &&& r.0.content@[0] matches MessageContent::ToolRequest(tc) && ({
                    &&& tc.name@ == "developer__shell"@
                    &&& tc.id@.len() == 36
                    &&& tc.arguments matches Some(args) && ({
                        &&& args@.len() == 1
                        &&& args@[0].0@ == "command"@
                        &&& args@[0].1 matches ArgValue::Text(c) && c@ == cmd@
                    })
                })
            }),
            EmulatorAction::ExecuteCode(code) => ({
                &&& r.1
                &&& r.0.content@.len() == 1
                &&& r.0.content@[0] matches MessageContent::ToolRequest(tc) && ({
                    &&& tc.name@ == "code_execution__execute"@
                    &&& tc.id@.len() == 36
                    &&& tc.arguments matches Some(args) && ({
                        &&& args@.len() == 1
                        &&& args@[0].0@ == "code"@
                        &&& args@[0].1 matches ArgValue::Text(c) && c@ == wrap_code_spec(code@)
                    })
                })
            }),
        },
{
    match action {
        EmulatorAction::Text(t) => {
            let msg = Message::assistant_text(clone_str(t), Some(message_id.to_owned()));
            (msg, false)
        },
        EmulatorAction::ShellCommand(cmd) => {
            let mut args: Vec<(String, ArgValue)> = Vec::new();
            args.push(("command".to_owned(), ArgValue::Text(clone_str(cmd))));
            let tc = ToolCall {
                id: fresh_request_id(),
                name: "developer__shell".to_owned(),
                arguments: Some(args),
            };
            let mut content: Vec<MessageContent> = Vec::new();
            content.push(MessageContent::ToolRequest(tc));
            (
                Message { role: Role::Assistant, content, id: Some(message_id.to_owned()) },
                true,
            )
        },
        EmulatorAction::ExecuteCode(code) => {
            let wrapped = wrap_execute_code(code.as_str());
            let mut args: Vec<(String, ArgValue)> = Vec::new();
            args.push(("code".to_owned(), ArgValue::Text(wrapped)));
            let tc = ToolCall {
                id: fresh_request_id(),
                name: "code_execution__execute".to_owned(),
                arguments: Some(args),
            };
            let mut content: Vec<MessageContent> = Vec::new();
            content.push(MessageContent::ToolRequest(tc));
            (
                Message { role: Role::Assistant, content, id: Some(message_id.to_owned()) },
                true,
            )
        },
    }
}

/// The disambiguated tool name of a raw entry: the OpenAI shape's
/// nested name when `function` is present, the top-level name otherwise.
pub open spec fn raw_name_spec(e: RawToolCall) -> Seq<char> {
    if e.has_function {
        match e.function_name {
            Some(n) => n@,
            None => Seq::empty(),
        }
    } else {
        match e.name {
            Some(n) => n@,
            None => Seq::empty(),
        }
    }
}

/// The arguments a raw entry yields: the OpenAI shape JSON-parses its
/// stringified arguments (an absent string counts as the empty object
/// `{}`); the native shape takes an object directly (re-parsed from its
/// JSON text) or a stringified object. `None` when nothing parses.
pub open spec fn raw_args_spec(e: RawToolCall) -> Option<Seq<(String, ArgValue)>> {
    if e.has_function {
        let s = match e.function_arguments {
            Some(x) => x@,
            None => "{}"@,
        };
        if parses_as_object(s) {
            Some(object_entries_of(s))
        } else {
            None
        }
    } else {
        match e.arguments_object {
            Some(o) => if parses_as_object(o@) {
                Some(object_entries_of(o@))
            } else {
                Some(Seq::empty())
            },
            None => match e.arguments_str {
                Some(x) => if parses_as_object(x@) {
                    Some(object_entries_of(x@))
                } else {
                    None
                },
                None => None,
            },
        }
    }
}

/// `m` is exactly the tool-request message of the decoded entry `e`:
/// an assistant message carrying the stream's id, whose single tool
/// request holds the entry's disambiguated name, its parsed arguments,
/// and the entry's id (or a fresh 36-character one when absent).
pub open spec fn message_matches_entry(m: Message, e: RawToolCall, mid: Seq<char>) -> bool {
    &&& m.role == Role::Assistant
    &&& m.id matches Some(i) && i@ == mid
    &&& m.content@.len() == 1
    &&& m.content@[0] matches MessageContent::ToolRequest(tc) && ({
        &&& tc.name@ == raw_name_spec(e)
        &&& (match raw_args_spec(e) {
            Some(a) => tc.arguments matches Some(v) && v@ == a,
            None => tc.arguments is None,
        })
        &&& (match e.id {
            Some(id) => tc.id@ == id@,
            None => tc.id@.len() == 36,
        })
    })
}

/// The entries that produce a message: those with a non-empty name, in
/// array order.
pub open spec fn kept_entries(entries: Seq<RawToolCall>) -> Seq<RawToolCall>
    decreases entries.len(),
{
    if entries.len() == 0 {
        Seq::empty()
    } else {
        let rest = kept_entries(entries.drop_last());
        if raw_name_spec(entries.last()).len() > 0 {
            rest.push(entries.last())
        } else {
            rest
        }
    }
}

/// Build the tool-request message of one decoded entry: entries without
/// a name are skipped; an entry without an id gets a fresh one.
pub fn tool_request_from_raw(e: &RawToolCall, message_id: &str) -> (r: Option<Message>)
    ensures
        match r {
            Some(msg) => raw_name_spec(*e).len() > 0 && message_matches_entry(
                msg,
                *e,
                message_id@,
            ),
            None => raw_name_spec(*e).len() == 0,
        },
{
    let name: String = if e.has_function {
        match &e.function_name {
            Some(n) => clone_str(n),
            None => String::new(),
        }
    } else {
        match &e.name {
            Some(n) => clone_str(n),
            None => String::new(),
        }
    };
    if name.as_str().is_empty() {
        return None;
    }
    let arguments: Option<Vec<(String, ArgValue)>> = if e.has_function {
        let src: String = match &e.function_arguments {
            Some(s) => clone_str(s),
            None => "{}".to_owned(),
        };
        json_object_entries(src.as_str())
    } else {
        match &e.arguments_object {
            Some(o) => {
                match json_object_entries(o.as_str()) {
                    Some(entries) => Some(entries),
                    None => Some(Vec::new()),
                }
            },
            None => match &e.arguments_str {
                Some(s) => json_object_entries(s.as_str()),
                None => None,
            },
        }
    };
    let id: String = match &e.id {
        Some(i) => clone_str(i),
        None => fresh_request_id(),
    };
    let tc = ToolCall { id, name, arguments };
    let mut content: Vec<MessageContent> = Vec::new();
    content.push(MessageContent::ToolRequest(tc));
    Some(Message { role: Role::Assistant, content, id: Some(message_id.to_owned()) })
}

/// Extract tool-request messages from a `tool_calls` JSON object: one
/// message per decoded entry with a non-empty name, in array order,
/// each holding exactly that entry's name, arguments and id. Text that
/// serde_json does not accept as such an object yields no messages.
pub fn extract_tool_call_messages(tool_calls_json: &str, message_id: &str) -> (r: Vec<Message>)
    ensures
        !has_tool_calls(tool_calls_json@) ==> r@.len() == 0,
        has_tool_calls(tool_calls_json@) ==> ({
            let kept = kept_entries(tool_call_entries_of(tool_calls_json@));
            &&& r@.len() == kept.len()
            &&& forall|k: int|
                0 <= k < r@.len() ==> message_matches_entry(
                    #[trigger] r@[k],
                    kept[k],
                    message_id@,
                )
        }),
{
    let mut out: Vec<Message> = Vec::new();
    match decode_tool_calls(tool_calls_json) {
        Some(entries) => {
            let ghost all = entries@;
            let mut i: usize = 0;
            proof {
                assert(all.subrange(0, 0) =~= Seq::<RawToolCall>::empty());
            }
            while i < entries.len()
                invariant
                    i <= entries@.len(),
                    entries@ == all,
                    out@.len() == kept_entries(all.subrange(0, i as int)).len(),
                    forall|k: int|
                        0 <= k < out@.len() ==> message_matches_entry(
                            #[trigger] out@[k],
                            kept_entries(all.subrange(0, i as int))[k],
                            message_id@,
                        ),
                decreases entries@.len() - i,
            {
                let ghost pre = all.subrange(0, i + 1);
                proof {
                    assert(pre.drop_last() =~= all.subrange(0, i as int));
                    assert(pre.last() == all[i as int]);
                }
                match tool_request_from_raw(&entries[i], message_id) {
                    Some(msg) => {
                        out.push(msg);
                    },
                    None => {},
                }
                i += 1;
            }
            proof {
                assert(all.subrange(0, all.len() as int) =~= all);
            }
            out
        },
        None => out,
    }
}

/// Whether the full tool catalog overflowed the token budget, so the
/// prompt must be rebuilt with the compact catalog: the tokenized
/// prompt exceeds the cap less the generation headroom.
pub fn compact_catalog_needed(prompt_token_count: usize, cap: usize) -> (r: bool)
    ensures
        r == (prompt_token_count > (if cap >= crate::context_size::GENERATION_HEADROOM {
            (cap - crate::context_size::GENERATION_HEADROOM) as int
        } else {
            0int
        })),
{
    let budget: usize = if cap >= crate::context_size::GENERATION_HEADROOM {
        cap - crate::context_size::GENERATION_HEADROOM
    } else {
        0
    };
    prompt_token_count > budget
}

/// How much of the generated text may stream now: the isolated content
/// when a tool-call JSON block is already present, the XML content when
/// an XML block is being built, the brace-and-tag-safe prefix otherwise.
pub open spec fn stream_cutoff_spec(t: Seq<char>) -> int {
    let sp = split_tool_calls_spec(t);
    if sp.1 is Some {
        sp.0.len() as int
    } else if xml_split_spec(t) is Some {
        xml_split_spec(t)->Some_0.0.len() as int
    } else {
        safe_stream_end_spec(t)
    }
}

/// The native path's streaming state: the text generated so far and how
/// much of it has been sent.
pub struct NativeToolStream {
    generated: Vec<char>,
    streamed: usize,
}

impl View for NativeToolStream {
    type V = (Seq<char>, int);

    closed spec fn view(&self) -> (Seq<char>, int) {
        (self.generated@, self.streamed as int)
    }
}

impl NativeToolStream {
    /// A fresh stream with nothing generated.
    pub fn new() -> (r: Self)
        ensures
            r@ == (Seq::<char>::empty(), 0int),
    {
        NativeToolStream { generated: Vec::new(), streamed: 0 }
    }

    /// The full generated text.
    pub fn generated_text(&self) -> (r: String)
        ensures
            r@ == self@.0,
    {
        chars_to_string(&self.generated)
    }

    /// How many characters have been streamed.
    pub fn streamed_len(&self) -> (r: usize)
        ensures
            r as int == self@.1,
    {
        self.streamed
    }

    /// Append one generated piece and return the newly streamable text,
    /// if the safe cutoff advanced past what was already sent.
    pub fn push_piece(&mut self, piece: &str) -> (r: Option<String>)
        requires
            0 <= old(self)@.1 <= old(self)@.0.len(),
        ensures
            final(self)@.0 == old(self)@.0 + piece@,
            ({
                let cutoff = stream_cutoff_spec(final(self)@.0);
                match r {
                    Some(out) => ({
                        &&& cutoff > old(self)@.1
                        &&& out@ == final(self)@.0.subrange(old(self)@.1, cutoff)
                        &&& final(self)@.1 == cutoff
                    }),
                    None => cutoff <= old(self)@.1 && final(self)@.1 == old(self)@.1,
                }
            }),
            0 <= final(self)@.1 <= final(self)@.0.len(),
    {
        let piece_chars = str_to_chars(piece);
        extend_chars(&mut self.generated, &piece_chars);
        let text = chars_to_string(&self.generated);
        let has_xml = split_content_and_xml_tool_calls(text.as_str()).is_some();
        let (content, tc) = split_content_and_tool_calls(text.as_str());
        let cutoff: usize = if tc.is_some() {
            let c = str_to_chars(content.as_str());
            proof {
                lemma_split_content_le_len(self.generated@);
            }
            c.len()
        } else if has_xml {
            match split_content_and_xml_tool_calls(text.as_str()) {
                Some((xc, _)) => {
                    let c = str_to_chars(xc.as_str());
                    proof {
                        lemma_xml_content_le_len(self.generated@);
                    }
                    c.len()
                },
                None => {
                    proof {
                        assert(false);
                    }
                    0
                },
            }
        } else {
            proof {
                crate::stream_laws::lemma_safe_stream_end_le_len(self.generated@);
            }
            crate::tool_parsing::safe_stream_end_chars(&self.generated)
        };
        if cutoff > self.streamed {
            let out = subrange_chars(&self.generated, self.streamed, cutoff);
            self.streamed = cutoff;
            Some(chars_to_string(&out))
        } else {
            None
        }
    }

    /// The messages emitted when generation ends, in order: any content
    /// not yet streamed, then one tool-request message per extracted
    /// call (the XML form taking precedence over the JSON block), and,
    /// when there are no tool calls and no content at all, the whole
    /// text as a fallback.
    pub fn finalize(&self, message_id: &str) -> (r: Vec<Message>)
        requires
            0 <= self@.1 <= self@.0.len(),
        ensures
            ({
                let t = self@.0;
                let streamed = self@.1;
                let xml = xml_split_spec(t);
                let jsplit = split_tool_calls_spec(t);
                let content = if xml is Some {
                    xml->Some_0.0
                } else {
                    jsplit.0
                };
                let rem_n: int = if content.len() > streamed {
                    1int
                } else {
                    0int
                };
                let tool_n: int = if xml is Some {
                    xml->Some_0.1.len() as int
                } else if jsplit.1 is Some {
                    kept_entries(tool_call_entries_of(jsplit.1->Some_0)).len() as int
                } else {
                    0int
                };
                let fb_n: int = if tool_n == 0 && content.len() == 0 && t.len() > 0 {
                    1int
                } else {
                    0int
                };
                &&& r@.len() == rem_n + tool_n + fb_n
                &&& (rem_n == 1 ==> text_message_matches(
                    r@[0],
                    content.subrange(streamed, content.len() as int),
                    message_id@,
                ))
                &&& (xml is Some ==> forall|k: int|
                    0 <= k < tool_n ==> xml_call_message_matches(
                        #[trigger] r@[rem_n + k],
                        xml->Some_0.1[k].0,
                        xml->Some_0.1[k].1,
                        message_id@,
                    ))
                &&& (xml is None && jsplit.1 is Some ==> forall|k: int|
                    0 <= k < tool_n ==> message_matches_entry(
                        #[trigger] r@[rem_n + k],
                        kept_entries(tool_call_entries_of(jsplit.1->Some_0))[k],
                        message_id@,
                    ))
                &&& (fb_n == 1 ==> text_message_matches(r@[rem_n + tool_n], t, message_id@))
            }),
    {
        let text = chars_to_string(&self.generated);
        match split_content_and_xml_tool_calls(text.as_str()) {
            Some((xc, calls)) => {
                let ghost cv = calls@;
                let msgs = extract_xml_tool_call_messages(calls, message_id);
                let ghost mv = msgs@;
                let content_chars = str_to_chars(xc.as_str());
                let r = assemble_final(&content_chars, self.streamed, msgs, text, message_id);
                proof {
                    let t = self@.0;
                    let streamed = self@.1;
                    let xml = xml_split_spec(t);
                    let spec1 = xml->Some_0.1;
                    assert(mv.len() == cv.len());
                    assert(cv.len() == spec1.len());
                    assert(content_chars@ == xml->Some_0.0);
                    assert forall|k: int|
                        0 <= k < spec1.len() implies xml_call_message_matches(
                        mv[k],
                        spec1[k].0,
                        spec1[k].1,
                        message_id@,
                    ) by {
                        assert(crate::xml_tool_calls::args_match(cv[k].1@, spec1[k].1));
                    }
                    let content = xml->Some_0.0;
                    let rem_n: int = if content.len() > streamed {
                        1int
                    } else {
                        0int
                    };
                    let tool_n: int = spec1.len() as int;
                    let fb_n: int = if tool_n == 0 && content.len() == 0 && t.len() > 0 {
                        1int
                    } else {
                        0int
                    };
                    assert(r@.len() == rem_n + tool_n + fb_n);
                    assert(rem_n == 1 ==> text_message_matches(
                        r@[0],
                        content.subrange(streamed, content.len() as int),
                        message_id@,
                    ));
                    assert forall|k: int|
                        0 <= k < tool_n implies xml_call_message_matches(
                        #[trigger] r@[rem_n + k],
                        spec1[k].0,
                        spec1[k].1,
                        message_id@,
                    ) by {
                        if content.len() > streamed {
                            assert(r@[1 + k] == mv[k]);
                        } else {
                            assert(r@[k] == mv[k]);
                        }
                        assert(r@[rem_n + k] == mv[k]);
                    }
                    assert(fb_n == 1 ==> text_message_matches(r@[rem_n + tool_n], t, message_id@));
                }
                return r;
            },
            None => {
                let (jc, tc) = split_content_and_tool_calls(text.as_str());
                let content_chars = str_to_chars(jc.as_str());
                match tc {
                    Some(block) => {
                        proof {
                            let t = self@.0;
                            assert(split_tool_calls_spec(t).1 == Some(block@));
                            assert(has_tool_calls(block@));
                        }
                        let msgs = extract_tool_call_messages(block.as_str(), message_id);
                        return assemble_final(
                            &content_chars,
                            self.streamed,
                            msgs,
                            text,
                            message_id,
                        );
                    },
                    None => {
                        let none_msgs: Vec<Message> = Vec::new();
                        return assemble_final(
                            &content_chars,
                            self.streamed,
                            none_msgs,
                            text,
                            message_id,
                        );
                    },
                }
            },
        }
    }
}

/// `m` is an assistant text message with this payload and stream id.
pub open spec fn text_message_matches(m: Message, text: Seq<char>, mid: Seq<char>) -> bool {
    &&& m.role == Role::Assistant
    &&& m.id matches Some(i) && i@ == mid
    &&& m.content@.len() == 1
    &&& m.content@[0] matches MessageContent::Text(s) && s@ == text
}

/// `m` is the tool-request message of one XML-style call: the call's
/// name, its arguments when it has any, a fresh 36-character id, and
/// the stream's message id.
pub open spec fn xml_call_message_matches(
    m: Message,
    name: Seq<char>,
    args: Seq<crate::xml_tool_calls::ArgSpec>,
    mid: Seq<char>,
) -> bool {
    &&& m.role == Role::Assistant
    &&& m.id matches Some(i) && i@ == mid
    &&& m.content@.len() == 1
    &&& m.content@[0] matches MessageContent::ToolRequest(tc) && ({
        &&& tc.name@ == name
        &&& tc.id@.len() == 36
        &&& (tc.arguments is Some) == (args.len() > 0)
        &&& (args.len() > 0 ==> (tc.arguments matches Some(v)
            && crate::xml_tool_calls::args_match(v@, args)))
    })
}

/// Assemble the end-of-stream emission: the content past the streamed
/// point (when any), then the tool messages unchanged, then the whole
/// text when there were no tools and no content at all.
fn assemble_final(
    content_chars: &Vec<char>,
    streamed: usize,
    tool_msgs: Vec<Message>,
    whole: String,
    message_id: &str,
) -> (r: Vec<Message>)
    ensures
        ({
            let rem_n: int = if content_chars@.len() > streamed {
                1int
            } else {
                0int
            };
            let tool_n: int = tool_msgs@.len() as int;
            let fb_n: int = if tool_n == 0 && content_chars@.len() == 0 && whole@.len() > 0 {
                1int
            } else {
                0int
            };
            &&& r@.len() == rem_n + tool_n + fb_n
            &&& (rem_n == 1 ==> text_message_matches(
                r@[0],
                content_chars@.subrange(streamed as int, content_chars@.len() as int),
                message_id@,
            ))
            &&& (content_chars@.len() > streamed ==> forall|k: int|
                0 <= k < tool_n ==> #[trigger] r@[1 + k] == tool_msgs@[k])
            &&& (content_chars@.len() <= streamed ==> forall|k: int|
                0 <= k < tool_n ==> #[trigger] r@[k] == tool_msgs@[k])
            &&& (fb_n == 1 ==> text_message_matches(r@[rem_n + tool_n], whole@, message_id@))
        }),
{
    let mut out: Vec<Message> = Vec::new();
    let cl = content_chars.len();
    if cl > streamed {
        let remv = subrange_chars(content_chars, streamed, cl);
        out.push(
            Message::assistant_text(chars_to_string(&remv), Some(message_id.to_owned())),
        );
    }
    let had_tools = tool_msgs.len() > 0;
    let mut tm = tool_msgs;
    out.append(&mut tm);
    if !had_tools && cl == 0 && !whole.as_str().is_empty() {
        out.push(Message::assistant_text(whole, Some(message_id.to_owned())));
    }
    out
}

/// The content isolated beside a tool-call block never exceeds the text.
proof fn lemma_split_content_le_len(t: Seq<char>)
    ensures
        split_tool_calls_spec(t).0.len() <= t.len(),
{
    let tr = crate::text::trim_end_spec(t);
    lemma_trim_le(t);
    if tr.len() == 0 || tr[tr.len() - 1] != '}' {
    } else {
        match crate::tool_parsing::backscan(tr, tr.len() - 1, 0) {
            None => {},
            Some(st) => {
                crate::tool_parsing::lemma_backscan_in_range(tr, tr.len() - 1, 0);
                lemma_trim_le(tr.subrange(0, st));
            },
        }
    }
}

proof fn lemma_trim_le(s: Seq<char>)
    ensures
        crate::text::trim_end_spec(s).len() <= s.len(),
    decreases s.len(),
{
    if s.len() > 0 && crate::text::is_ws_spec(s.last()) {
        lemma_trim_le(s.drop_last());
    }
}

/// The content before the first XML block never exceeds the text.
proof fn lemma_xml_content_le_len(t: Seq<char>)
    ensures
        xml_split_spec(t) matches Some(p) ==> p.0.len() <= t.len(),
{
    match crate::tool_parsing::find_from(t, crate::tool_parsing::tool_call_tag(), 0) {
        None => {},
        Some(p) => {
            crate::xml_tool_calls::lemma_find_from_bounds(
                t,
                crate::tool_parsing::tool_call_tag(),
                0,
            );
            lemma_trim_le(t.subrange(0, p));
        },
    }
}

/// Whether the generated text ends with one of the template's
/// additional stop strings.
pub fn hits_additional_stop(text: &str, stops: &Vec<String>) -> (r: bool)
    ensures
        r == (exists|i: int|
            0 <= i < stops@.len() && ({
                let s = (#[trigger] stops@[i])@;
                s.len() <= text@.len() && text@.subrange(
                    text@.len() - s.len(),
                    text@.len() as int,
                ) == s
            })),
{
    let chars = str_to_chars(text);
    let mut i: usize = 0;
    while i < stops.len()
        invariant
            i <= stops@.len(),
            chars@ == text@,
            forall|j: int|
                0 <= j < i ==> !({
                    let s = (#[trigger] stops@[j])@;
                    s.len() <= text@.len() && text@.subrange(
                        text@.len() - s.len(),
                        text@.len() as int,
                    ) == s
                }),
        decreases stops@.len() - i,
    {
        let stop = str_to_chars(stops[i].as_str());
        if crate::text::ends_with_sub(&chars, &stop) {
            proof {
                let s = stops@[i as int]@;
                assert(s.len() <= text@.len() && text@.subrange(
                    text@.len() - s.len(),
                    text@.len() as int,
                ) == s);
            }
            return true;
        }
        i += 1;
    }
    proof {
        if exists|j: int|
            0 <= j < stops@.len() && ({
                let s = (#[trigger] stops@[j])@;
                s.len() <= text@.len() && text@.subrange(
                    text@.len() - s.len(),
                    text@.len() as int,
                ) == s
            }) {
            let w = choose|j: int|
                0 <= j < stops@.len() && ({
                    let s = (#[trigger] stops@[j])@;
                    s.len() <= text@.len() && text@.subrange(
                        text@.len() - s.len(),
                        text@.len() as int,
                    ) == s
                });
        }
    }
    false
}


/// The views of a list of strings.
pub open spec fn views_of(ss: Seq<String>) -> Seq<Seq<char>> {
    ss.map_values(|s: String| s@)
}

/// The names of a tool list.
pub open spec fn names_of(tools: Seq<ToolInfo>) -> Seq<Seq<char>> {
    tools.map_values(|t: ToolInfo| t.name@)
}

/// The descriptions of a tool list, empty when absent.
pub open spec fn descs_of(tools: Seq<ToolInfo>) -> Seq<Seq<char>> {
    tools.map_values(
        |t: ToolInfo|
            match t.description {
                Some(d) => d@,
                None => Seq::<char>::empty(),
            },
    )
}

/// The compact tool catalog serde_json renders for these names and
/// descriptions: one `{"type": "function", "function": {"name": …,
/// "description": …}}` entry each. The text is serde_json's; this name
/// stands for it.
pub uninterp spec fn compact_tools_json_of(names: Seq<Seq<char>>, descs: Seq<Seq<char>>) -> Seq<
    char,
>;

/// Relies on serde_json's Map and Value building: the catalog entry
/// `{"type": "function", "function": {"name": n, "description": d}}`.
#[verifier::external_body]
fn compact_tool_value(n: &str, d: &str) -> serde_json::Value {
    let mut f = serde_json::Map::new();
    f.insert("name".to_string(), n.into());
    f.insert("description".to_string(), d.into());
    let mut o = serde_json::Map::new();
    o.insert("type".to_string(), "function".into());
    o.insert("function".to_string(), serde_json::Value::Object(f));
    serde_json::Value::Object(o)
}

/// Relies on serde_json::to_string: renders the compact catalog of tool
/// names and descriptions as a JSON array.
#[verifier::external_body]
fn tools_to_compact_json(names: &Vec<String>, descs: &Vec<String>) -> (r: String)
    requires
        names@.len() == descs@.len(),
    ensures
        r@ == compact_tools_json_of(views_of(names@), views_of(descs@)),
{
    let arr: Vec<serde_json::Value> =
        names.iter().zip(descs.iter()).map(|(n, d)| compact_tool_value(n, d)).collect();
    serde_json::to_string(&arr).unwrap_or_default()
}

/// The compact catalog of a tool list: names with their descriptions
/// (empty when absent), rendered by serde_json.
pub fn compact_tools_json(tools: &Vec<ToolInfo>) -> (r: Option<String>)
    ensures
        r matches Some(s) && s@ == compact_tools_json_of(
            names_of(tools@),
            descs_of(tools@),
        ),
{
    let mut names: Vec<String> = Vec::new();
    let mut descs: Vec<String> = Vec::new();
    let mut i: usize = 0;
    while i < tools.len()
        invariant
            i <= tools@.len(),
            views_of(names@) == names_of(tools@.subrange(0, i as int)),
            views_of(descs@) == descs_of(tools@.subrange(0, i as int)),
            names@.len() == i,
            descs@.len() == i,
        decreases tools@.len() - i,
    {
        let ghost names_pre = names@;
        let ghost descs_pre = descs@;
        names.push(clone_str(&tools[i].name));
        match &tools[i].description {
            Some(d) => {
                descs.push(clone_str(d));
            },
            None => {
                descs.push(String::new());
            },
        }
        proof {
            assert forall|k: int|
                0 <= k < i + 1 implies views_of(names@)[k] == names_of(
                tools@.subrange(0, i + 1),
            )[k] by {
                assert(views_of(names@)[k] == names@[k]@);
                assert(names_of(tools@.subrange(0, i + 1))[k] == tools@.subrange(
                    0,
                    i + 1,
                )[k].name@);
                if k < i {
                    assert(views_of(names_pre)[k] == names_pre[k]@);
                    assert(names_of(tools@.subrange(0, i as int))[k] == tools@.subrange(
                        0,
                        i as int,
                    )[k].name@);
                }
            }
            assert(views_of(names@) =~= names_of(tools@.subrange(0, i + 1)));
            assert forall|k: int|
                0 <= k < i + 1 implies views_of(descs@)[k] == descs_of(
                tools@.subrange(0, i + 1),
            )[k] by {
                assert(views_of(descs@)[k] == descs@[k]@);
                assert(descs_of(tools@.subrange(0, i + 1))[k] == descs_of(
                    tools@.subrange(0, i + 1),
                )[k]);
                if k < i {
                    assert(views_of(descs_pre)[k] == descs_pre[k]@);
                    assert(descs_of(tools@.subrange(0, i as int))[k] == descs_of(
                        tools@.subrange(0, i as int),
                    )[k]);
                }
            }
            assert(views_of(descs@) =~= descs_of(tools@.subrange(0, i + 1)));
        }
        i += 1;
    }
    proof {
        assert(tools@.subrange(0, tools@.len() as int) =~= tools@);
    }
    Some(tools_to_compact_json(&names, &descs))
}


/// The pre-flight failure message, naming the prompt's token count and
/// the memory estimate it exceeds.
pub open spec fn context_exceeded_message(prompt: int, mem_max: int) -> Seq<char> {
    "Prompt ("@ + crate::text::dec_str(prompt) + " tokens) exceeds estimated memory capacity ("@
        + crate::text::dec_str(mem_max)
        + " tokens). Try a smaller model or reduce conversation length."@
}

/// Pre-flight and sizing for one generation: when the memory estimate
/// says the prompt alone cannot fit, fail with `ContextLengthExceeded`
/// (its message naming both token counts) before any allocation;
/// otherwise hand back the prompt length and the effective context
/// size.
pub fn validate_and_compute_context(
    prompt_token_count: usize,
    settings: &ModelSettings,
    context_limit: usize,
    n_ctx_train: usize,
    memory_max_ctx: Option<usize>,
) -> (r: Result<(usize, usize), ProviderError>)
    requires
        prompt_token_count + crate::context_size::GENERATION_HEADROOM <= usize::MAX,
    ensures
        match r {
            Ok((p, eff)) => ({
                &&& (match memory_max_ctx {
                    Some(m) => prompt_token_count <= m,
                    None => true,
                })
                &&& p == prompt_token_count
                &&& eff == crate::context_size::effective_context_size_spec(
                    prompt_token_count,
                    *settings,
                    context_limit,
                    n_ctx_train,
                    memory_max_ctx,
                )
            }),
            Err(e) => ({
                &&& memory_max_ctx matches Some(m) && prompt_token_count > m && (
                e matches ProviderError::ContextLengthExceeded(msg) && msg@
                    == context_exceeded_message(prompt_token_count as int, m as int))
            }),
        },
{
    let effective = crate::context_size::effective_context_size(
        prompt_token_count,
        settings,
        context_limit,
        n_ctx_train,
        memory_max_ctx,
    );
    if let Some(m) = memory_max_ctx {
        if prompt_token_count > m {
            let mut msg = str_to_chars("Prompt (");
            let p_dec = crate::text::usize_to_chars(prompt_token_count);
            let mid = str_to_chars(" tokens) exceeds estimated memory capacity (");
            let m_dec = crate::text::usize_to_chars(m);
            let tail = str_to_chars(
                " tokens). Try a smaller model or reduce conversation length.",
            );
            extend_chars(&mut msg, &p_dec);
            extend_chars(&mut msg, &mid);
            extend_chars(&mut msg, &m_dec);
            extend_chars(&mut msg, &tail);
            proof {
                assert(msg@ =~= context_exceeded_message(prompt_token_count as int, m as int));
            }
            return Err(ProviderError::ContextLengthExceeded(chars_to_string(&msg)));
        }
    }
    Ok((prompt_token_count, effective))
}

/// Build one tool-request message per XML-style call, in order; each
/// gets a fresh id and carries the stream's message id.
pub fn extract_xml_tool_call_messages(
    tool_calls: Vec<(String, Vec<(String, ArgValue)>)>,
    message_id: &str,
) -> (r: Vec<Message>)
    ensures
        r@.len() == tool_calls@.len(),
        forall|i: int|
            0 <= i < r@.len() ==> ({
                &&& (#[trigger] r@[i]).role == Role::Assistant
                &&& r@[i].id matches Some(mid) && mid@ == message_id@
                &&& r@[i].content@.len() == 1
                &&& r@[i].content@[0] matches MessageContent::ToolRequest(tc) && ({
                    &&& tc.name@ == tool_calls@[i].0@
                    &&& tc.id@.len() == 36
                    &&& (tc.arguments is Some) == (tool_calls@[i].1@.len() > 0)
                    &&& (tool_calls@[i].1@.len() > 0 ==> (tc.arguments matches Some(args)
                        && args@ == tool_calls@[i].1@))
                })
            }),
{
    let mut out: Vec<Message> = Vec::new();
    let mut rest = tool_calls;
    let n0 = rest.len();
    let ghost orig = rest@;
    proof {
        assert(orig.len() == n0);
        assert(rest@ =~= orig.subrange(0, orig.len() as int));
    }
    let mut i: usize = 0;
    while rest.len() > 0
        invariant
            rest@.len() <= orig.len(),
            orig.len() <= usize::MAX,
            i == orig.len() - rest@.len(),
            rest@ == orig.subrange(i as int, orig.len() as int),
            out@.len() == i,
            forall|k: int|
                0 <= k < out@.len() ==> ({
                    &&& (#[trigger] out@[k]).role == Role::Assistant
                    &&& out@[k].id matches Some(mid) && mid@ == message_id@
                    &&& out@[k].content@.len() == 1
                    &&& out@[k].content@[0] matches MessageContent::ToolRequest(tc) && ({
                        &&& tc.name@ == orig[k].0@
                        &&& tc.id@.len() == 36
                        &&& (tc.arguments is Some) == (orig[k].1@.len() > 0)
                        &&& (orig[k].1@.len() > 0 ==> (tc.arguments matches Some(args) && args@
                            == orig[k].1@))
                    })
                }),
        decreases rest@.len(),
    {
        let ghost rpre = rest@;
        let (name, args) = rest.remove(0);
        proof {
            assert(rpre[0] == orig[i as int]);
            assert(rest@ =~= orig.subrange(i + 1, orig.len() as int));
        }
        let arguments: Option<Vec<(String, ArgValue)>> = if args.len() == 0 {
            None
        } else {
            Some(args)
        };
        let tc = ToolCall { id: fresh_request_id(), name, arguments };
        let mut content: Vec<MessageContent> = Vec::new();
        content.push(MessageContent::ToolRequest(tc));
        out.push(
            Message { role: Role::Assistant, content, id: Some(message_id.to_owned()) },
        );
        i += 1;
    }
    proof {
        assert(out@.len() == orig.len());
    }
    out
}

} // verus!
