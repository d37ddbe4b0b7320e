//! Tool-call emulation for models without native tool calling.
//!
//! The model is taught to emit shell commands as `$ command` lines and,
//! in code mode, fenced ```` ```execute ```` blocks. A streaming parser
//! watches the live output for those shapes and turns them into actions.

use vstd::prelude::*;

use crate::text::{
    all_ws, chars_to_string, contains_at, extend_chars, str_to_chars, strip_rep,
    strip_suffix_rep, subrange_chars, trim_chars, trim_spec,
};
use crate::tool_parsing::find_from;
use crate::xml_tool_calls::lemma_find_from_bounds;

verus! {

/// What the emulator parser recognized in the stream.
#[derive(Debug, Clone, PartialEq)]
pub enum EmulatorAction {
    Text(String),
    ShellCommand(String),
    ExecuteCode(String),
}

/// Where the parser stands in the stream.
#[derive(Debug, Clone, Copy, PartialEq, Eq, Structural)]
pub enum ParserState {
    Normal,
    InCommand,
    InExecuteBlock,
}

/// A recognized action, at the specification level.
pub ghost enum ActionSpec {
    Text(Seq<char>),
    Shell(Seq<char>),
    Exec(Seq<char>),
}

/// One parsing outcome: the actions emitted, and the buffer and state
/// left behind.
pub ghost struct EmuStep {
    pub actions: Seq<ActionSpec>,
    pub buffer: Seq<char>,
    pub state: ParserState,
}

pub open spec fn execute_open_seq() -> Seq<char> {
    "```execute\n"@
}

pub open spec fn execute_tag_seq() -> Seq<char> {
    "```execute"@
}

pub open spec fn fence_close_seq() -> Seq<char> {
    "\n```"@
}

pub open spec fn nl_dollar_seq() -> Seq<char> {
    "\n$"@
}

/// Characters the parser holds back so a trigger split across chunk
/// boundaries is still seen: the length of `" ```execute\n"` in code
/// mode, of `"\n$"` otherwise.
pub open spec fn hold_back(code_mode: bool) -> int {
    if code_mode {
        12
    } else {
        2
    }
}

pub open spec fn state_rank(s: ParserState) -> int {
    match s {
        ParserState::Normal => 1,
        ParserState::InCommand => 0,
        ParserState::InExecuteBlock => 0,
    }
}

/// What processing the buffered text does: which actions come out, and
/// what buffer and state remain. `chunk_len` is the length of the chunk
/// just appended; a buffer that is exactly the first chunk and starts
/// with `$` is already a command.
pub open spec fn process_spec(
    buffer: Seq<char>,
    state: ParserState,
    code_mode: bool,
    chunk_len: int,
) -> EmuStep
    decreases buffer.len(), state_rank(state),
    via process_spec_dec
{
    match state {
        ParserState::InCommand => {
            match find_from(buffer, "\n"@, 0) {
                Some(nl) => {
                    let command_line = buffer.subrange(0, nl);
                    let rest = buffer.subrange(nl + 1, buffer.len() as int);
                    let acts: Seq<ActionSpec> = if command_line.len() > 0 && command_line[0]
                        == '$' {
                        let cmd = trim_spec(command_line.drop_first());
                        if cmd.len() > 0 {
                            seq![ActionSpec::Shell(cmd)]
                        } else {
                            Seq::empty()
                        }
                    } else {
                        Seq::empty()
                    };
                    let next = process_spec(rest, ParserState::Normal, code_mode, chunk_len);
                    EmuStep {
                        actions: acts + next.actions,
                        buffer: next.buffer,
                        state: next.state,
                    }
                },
                None => EmuStep { actions: Seq::empty(), buffer, state },
            }
        },
        ParserState::InExecuteBlock => {
            match find_from(buffer, fence_close_seq(), 0) {
                Some(e) => {
                    let code_text = buffer.subrange(0, e);
                    let rest0 = buffer.subrange(e + 4, buffer.len() as int);
                    let rest = if rest0.len() > 0 && rest0[0] == '\n' {
                        rest0.drop_first()
                    } else {
                        rest0
                    };
                    let acts: Seq<ActionSpec> = if !all_ws(code_text) {
                        seq![ActionSpec::Exec(code_text)]
                    } else {
                        Seq::empty()
                    };
                    let next = process_spec(rest, ParserState::Normal, code_mode, chunk_len);
                    EmuStep {
                        actions: acts + next.actions,
                        buffer: next.buffer,
                        state: next.state,
                    }
                },
                None => EmuStep { actions: Seq::empty(), buffer, state },
            }
        },
        ParserState::Normal => {
            if code_mode && find_from(buffer, execute_open_seq(), 0) is Some {
                let p = find_from(buffer, execute_open_seq(), 0)->Some_0;
                let before = buffer.subrange(0, p);
                let after = buffer.subrange(p + execute_open_seq().len(), buffer.len() as int);
                let acts: Seq<ActionSpec> = if !all_ws(before) {
                    seq![ActionSpec::Text(before)]
                } else {
                    Seq::empty()
                };
                let next = process_spec(after, ParserState::InExecuteBlock, code_mode, chunk_len);
                EmuStep { actions: acts + next.actions, buffer: next.buffer, state: next.state }
            } else if code_mode && buffer.len() >= execute_tag_seq().len() && buffer.subrange(
                buffer.len() - execute_tag_seq().len(),
                buffer.len() as int,
            ) == execute_tag_seq() {
                let before = strip_suffix_rep(buffer, execute_tag_seq());
                let acts: Seq<ActionSpec> = if !all_ws(before) {
                    seq![ActionSpec::Text(before)]
                } else {
                    Seq::empty()
                };
                let next = process_spec(
                    Seq::empty(),
                    ParserState::InExecuteBlock,
                    code_mode,
                    chunk_len,
                );
                EmuStep { actions: acts + next.actions, buffer: next.buffer, state: next.state }
            } else if find_from(buffer, nl_dollar_seq(), 0) is Some {
                let d = find_from(buffer, nl_dollar_seq(), 0)->Some_0;
                let text = buffer.subrange(0, d + 1);
                let acts: Seq<ActionSpec> = if !all_ws(text) {
                    seq![ActionSpec::Text(text)]
                } else {
                    Seq::empty()
                };
                let next = process_spec(
                    buffer.subrange(d + 1, buffer.len() as int),
                    ParserState::InCommand,
                    code_mode,
                    chunk_len,
                );
                EmuStep { actions: acts + next.actions, buffer: next.buffer, state: next.state }
            } else if buffer.len() > 0 && buffer[0] == '$' && buffer.len() == chunk_len {
                let next = process_spec(buffer, ParserState::InCommand, code_mode, chunk_len);
                EmuStep { actions: next.actions, buffer: next.buffer, state: next.state }
            } else {
                let hb = hold_back(code_mode);
                if buffer.len() > hb && buffer[buffer.len() - 1] != '\n' {
                    let emit = buffer.subrange(0, buffer.len() - hb);
                    let keep = buffer.subrange(buffer.len() - hb, buffer.len() as int);
                    let acts: Seq<ActionSpec> = if emit.len() > 0 {
                        seq![ActionSpec::Text(emit)]
                    } else {
                        Seq::empty()
                    };
                    EmuStep { actions: acts, buffer: keep, state: ParserState::Normal }
                } else {
                    EmuStep { actions: Seq::empty(), buffer, state: ParserState::Normal }
                }
            }
        },
    }
}

#[via_fn]
proof fn process_spec_dec(buffer: Seq<char>, state: ParserState, code_mode: bool, chunk_len: int) {
    lemma_find_from_bounds(buffer, "\n"@, 0);
    lemma_find_from_bounds(buffer, fence_close_seq(), 0);
    lemma_find_from_bounds(buffer, execute_open_seq(), 0);
    lemma_find_from_bounds(buffer, nl_dollar_seq(), 0);
    assert(fence_close_seq().len() == 4) by {
        reveal_strlit("\n```");
    }
    assert(execute_open_seq().len() == 11) by {
        reveal_strlit("```execute\n");
    }
    assert(nl_dollar_seq().len() == 2) by {
        reveal_strlit("\n$");
    }
    assert(execute_tag_seq().len() == 10) by {
        reveal_strlit("```execute");
    }
}

/// What `flush` emits for the text still buffered at end of stream.
pub open spec fn flush_spec(buffer: Seq<char>, state: ParserState) -> Seq<ActionSpec> {
    if buffer.len() == 0 {
        Seq::empty()
    } else {
        match state {
            ParserState::InCommand => {
                let cl = trim_spec(buffer);
                if cl.len() > 0 && cl[0] == '$' {
                    let cmd = trim_spec(cl.drop_first());
                    if cmd.len() > 0 {
                        seq![ActionSpec::Shell(cmd)]
                    } else {
                        Seq::empty()
                    }
                } else if cl.len() > 0 {
                    seq![ActionSpec::Text(buffer)]
                } else {
                    Seq::empty()
                }
            },
            ParserState::InExecuteBlock => {
                let c = trim_spec(buffer);
                if c.len() > 0 {
                    seq![ActionSpec::Exec(c)]
                } else {
                    Seq::empty()
                }
            },
            ParserState::Normal => seq![ActionSpec::Text(buffer)],
        }
    }
}

/// The executable action equals its specification counterpart.
pub open spec fn action_matches(x: EmulatorAction, y: ActionSpec) -> bool {
    match x {
        EmulatorAction::Text(t) => y is Text && t@ == y->Text_0,
        EmulatorAction::ShellCommand(c) => y is Shell && c@ == y->Shell_0,
        EmulatorAction::ExecuteCode(c) => y is Exec && c@ == y->Exec_0,
    }
}

/// Elementwise match of executable and specification action lists.
pub open spec fn actions_match(a: Seq<EmulatorAction>, s: Seq<ActionSpec>) -> bool {
    a.len() == s.len() && forall|i: int| 0 <= i < a.len() ==> action_matches(#[trigger] a[i], s[i])
}

/// The streaming parser of the emulator path: a hold-back buffer plus
/// the state of the construct being read.
pub struct StreamingEmulatorParser {
    buffer: Vec<char>,
    state: ParserState,
    code_mode_enabled: bool,
}

impl View for StreamingEmulatorParser {
    type V = (Seq<char>, ParserState, bool);

    closed spec fn view(&self) -> (Seq<char>, ParserState, bool) {
        (self.buffer@, self.state, self.code_mode_enabled)
    }
}

fn find_in(hay: &Vec<char>, needle: &str) -> (r: Option<usize>)
    requires
        needle@.len() > 0,
    ensures
        match r {
            Some(u) => find_from(hay@, needle@, 0) == Some(u as int),
            None => find_from(hay@, needle@, 0) is None,
        },
{
    let n = str_to_chars(needle);
    let r = crate::text::find_sub(hay, &n);
    proof {
        crate::tool_parsing::lemma_find_from_characterization(hay@, needle@, 0);
        match r {
            Some(i) => {
                if find_from(hay@, needle@, 0) is None {
                    assert(!contains_at(hay@, i as int, needle@));
                }
                let ip = find_from(hay@, needle@, 0)->Some_0;
                assert(crate::text::is_first_occurrence_from(hay@, needle@, 0, ip));
                assert(crate::text::is_first_occurrence_from(hay@, needle@, 0, i as int));
                assert(ip == i as int);
            },
            None => {
                if find_from(hay@, needle@, 0) is Some {
                    let ip = find_from(hay@, needle@, 0)->Some_0;
                    assert(contains_at(hay@, ip, needle@));
                    assert(exists|q: int| contains_at(hay@, q, needle@));
                }
            },
        }
    }
    r
}

impl StreamingEmulatorParser {
    /// A fresh parser; `code_mode_enabled` turns on the
    /// ```` ```execute ```` block syntax.
    pub fn new(code_mode_enabled: bool) -> (r: Self)
        ensures
            r@ == (Seq::<char>::empty(), ParserState::Normal, code_mode_enabled),
    {
        StreamingEmulatorParser { buffer: Vec::new(), state: ParserState::Normal, code_mode_enabled }
    }

    /// Feed one chunk of generated text; returns the actions that became
    /// definite. The parse is exactly `process_spec` over the buffered
    /// text plus the chunk.
    pub fn process_chunk(&mut self, chunk: &str) -> (r: Vec<EmulatorAction>)
        ensures
            ({
                let st = process_spec(
                    old(self)@.0 + chunk@,
                    old(self)@.1,
                    old(self)@.2,
                    chunk@.len() as int,
                );
                &&& actions_match(r@, st.actions)
                &&& final(self)@ == (st.buffer, st.state, old(self)@.2)
            }),
    {
        let chunk_chars = str_to_chars(chunk);
        let chunk_len = chunk_chars.len();
        extend_chars(&mut self.buffer, &chunk_chars);
        let code_mode = self.code_mode_enabled;
        let ghost b0 = self.buffer@;
        let ghost s0 = self.state;
        let mut results: Vec<EmulatorAction> = Vec::new();
        let ghost mut done: Seq<ActionSpec> = Seq::empty();
        loop
            invariant_except_break
                ({
                    let full = process_spec(b0, s0, code_mode, chunk_len as int);
                    let rem = process_spec(
                        self.buffer@,
                        self.state,
                        code_mode,
                        chunk_len as int,
                    );
                    &&& full.actions == done + rem.actions
                    &&& full.buffer == rem.buffer
                    &&& full.state == rem.state
                }),
            invariant
                self.code_mode_enabled == code_mode,
                actions_match(results@, done),
            ensures
                ({
                    let full = process_spec(b0, s0, code_mode, chunk_len as int);
                    &&& actions_match(results@, full.actions)
                    &&& self.buffer@ == full.buffer
                    &&& self.state == full.state
                    &&& self.code_mode_enabled == code_mode
                }),
            decreases self.buffer@.len(), state_rank(self.state),
        {
            let ghost bpre = self.buffer@;
            let ghost spre = self.state;
            let ghost rem_pre = process_spec(bpre, spre, code_mode, chunk_len as int);
            let ghost done_pre = done;
            match self.state {
                ParserState::InCommand => {
                    proof {
                        reveal_strlit("\n");
                    }
                    match find_in(&self.buffer, "\n") {
                        Some(nl) => {
                            proof {
                                lemma_find_from_bounds(self.buffer@, "\n"@, 0);
                            }
                            let bl = self.buffer.len();
                            let command_line = subrange_chars(&self.buffer, 0, nl);
                            let rest = subrange_chars(&self.buffer, nl + 1, bl);
                            let ghost mut acts: Seq<ActionSpec> = Seq::empty();
                            if command_line.len() > 0 && command_line[0] == '$' {
                                let blen = command_line.len();
                                let after_dollar = subrange_chars(&command_line, 1, blen);
                                let cmd = trim_chars(&after_dollar);
                                proof {
                                    assert(after_dollar@ =~= command_line@.drop_first());
                                }
                                if cmd.len() > 0 {
                                    results.push(
                                        EmulatorAction::ShellCommand(chars_to_string(&cmd)),
                                    );
                                    proof {
                                        acts = seq![ActionSpec::Shell(cmd@)];
                                        done = done + acts;
                                    }
                                }
                            }
                            self.buffer = rest;
                            self.state = ParserState::Normal;
                            proof {
                                let rem_now = process_spec(
                                    self.buffer@,
                                    self.state,
                                    code_mode,
                                    chunk_len as int,
                                );
                                assert(rem_pre.actions == acts + rem_now.actions);
                                assert(done_pre + rem_pre.actions =~= done + rem_now.actions);
                            }
                        },
                        None => {
                            proof {
                                assert(done + rem_pre.actions =~= done);
                            }
                            break ;
                        },
                    }
                },
                ParserState::InExecuteBlock => {
                    proof {
                        reveal_strlit("\n```");
                    }
                    match find_in(&self.buffer, "\n```") {
                        Some(e) => {
                            proof {
                                lemma_find_from_bounds(self.buffer@, fence_close_seq(), 0);
                                assert(fence_close_seq().len() == 4);
                            }
                            let bl = self.buffer.len();
                            let code_text = subrange_chars(&self.buffer, 0, e);
                            let rest0 = subrange_chars(&self.buffer, e + 4, bl);
                            let rest = if rest0.len() > 0 && rest0[0] == '\n' {
                                let r0l = rest0.len();
                                let stripped = subrange_chars(&rest0, 1, r0l);
                                proof {
                                    assert(stripped@ =~= rest0@.drop_first());
                                }
                                stripped
                            } else {
                                rest0
                            };
                            let ghost mut acts: Seq<ActionSpec> = Seq::empty();
                            if !crate::text::all_ws_chars(&code_text) {
                                results.push(
                                    EmulatorAction::ExecuteCode(chars_to_string(&code_text)),
                                );
                                proof {
                                    acts = seq![ActionSpec::Exec(code_text@)];
                                    done = done + acts;
                                }
                            }
                            self.buffer = rest;
                            self.state = ParserState::Normal;
                            proof {
                                let rem_now = process_spec(
                                    self.buffer@,
                                    self.state,
                                    code_mode,
                                    chunk_len as int,
                                );
                                assert(rem_pre.actions == acts + rem_now.actions);
                                assert(done_pre + rem_pre.actions =~= done + rem_now.actions);
                            }
                        },
                        None => {
                            proof {
                                assert(done + rem_pre.actions =~= done);
                            }
                            break ;
                        },
                    }
                },
                ParserState::Normal => {
                    let mut stepped = false;
                    if code_mode {
                        proof {
                            reveal_strlit("```execute\n");
                            reveal_strlit("```execute");
                        }
                        match find_in(&self.buffer, "```execute\n") {
                            Some(p) => {
                                proof {
                                    lemma_find_from_bounds(self.buffer@, execute_open_seq(), 0);
                                    assert(execute_open_seq().len() == 11);
                                }
                                let bl = self.buffer.len();
                                let before = subrange_chars(&self.buffer, 0, p);
                                let after = subrange_chars(&self.buffer, p + 11, bl);
                                let ghost mut acts: Seq<ActionSpec> = Seq::empty();
                                if !crate::text::all_ws_chars(&before) {
                                    results.push(
                                        EmulatorAction::Text(chars_to_string(&before)),
                                    );
                                    proof {
                                        acts = seq![ActionSpec::Text(before@)];
                                        done = done + acts;
                                    }
                                }
                                self.buffer = after;
                                self.state = ParserState::InExecuteBlock;
                                stepped = true;
                                proof {
                                    let rem_now = process_spec(
                                        self.buffer@,
                                        self.state,
                                        code_mode,
                                        chunk_len as int,
                                    );
                                    assert(rem_pre.actions == acts + rem_now.actions);
                                    assert(done_pre + rem_pre.actions =~= done + rem_now.actions);
                                }
                            },
                            None => {
                                let tag = str_to_chars("```execute");
                                if crate::text::ends_with_sub(&self.buffer, &tag) {
                                    let before = strip_rep(&self.buffer, &tag);
                                    let ghost mut acts: Seq<ActionSpec> = Seq::empty();
                                    if !crate::text::all_ws_chars(&before) {
                                        results.push(
                                            EmulatorAction::Text(chars_to_string(&before)),
                                        );
                                        proof {
                                            acts = seq![ActionSpec::Text(before@)];
                                            done = done + acts;
                                        }
                                    }
                                    self.buffer = Vec::new();
                                    self.state = ParserState::InExecuteBlock;
                                    stepped = true;
                                    proof {
                                        let rem_now = process_spec(
                                            self.buffer@,
                                            self.state,
                                            code_mode,
                                            chunk_len as int,
                                        );
                                        assert(rem_pre.actions == acts + rem_now.actions);
                                        assert(done_pre + rem_pre.actions =~= done
                                            + rem_now.actions);
                                    }
                                }
                            },
                        }
                    }
                    if !stepped {
                        proof {
                            reveal_strlit("\n$");
                        }
                        match find_in(&self.buffer, "\n$") {
                            Some(d) => {
                                proof {
                                    lemma_find_from_bounds(self.buffer@, nl_dollar_seq(), 0);
                                    assert(nl_dollar_seq().len() == 2);
                                }
                                let bl = self.buffer.len();
                                let text = subrange_chars(&self.buffer, 0, d + 1);
                                let keep = subrange_chars(&self.buffer, d + 1, bl);
                                let ghost mut acts: Seq<ActionSpec> = Seq::empty();
                                if !crate::text::all_ws_chars(&text) {
                                    results.push(EmulatorAction::Text(chars_to_string(&text)));
                                    proof {
                                        acts = seq![ActionSpec::Text(text@)];
                                        done = done + acts;
                                    }
                                }
                                self.buffer = keep;
                                self.state = ParserState::InCommand;
                                proof {
                                    let rem_now = process_spec(
                                        self.buffer@,
                                        self.state,
                                        code_mode,
                                        chunk_len as int,
                                    );
                                    assert(rem_pre.actions == acts + rem_now.actions);
                                    assert(done_pre + rem_pre.actions =~= done + rem_now.actions);
                                }
                            },
                            None => {
                                if self.buffer.len() > 0 && self.buffer[0] == '$'
                                    && self.buffer.len() == chunk_len {
                                    self.state = ParserState::InCommand;
                                    proof {
                                        let rem_now = process_spec(
                                            self.buffer@,
                                            self.state,
                                            code_mode,
                                            chunk_len as int,
                                        );
                                        assert(rem_pre.actions == rem_now.actions);
                                        assert(done_pre + rem_pre.actions =~= done
                                            + rem_now.actions);
                                    }
                                } else {
                                    let hb: usize = if code_mode {
                                        12
                                    } else {
                                        2
                                    };
                                    let bl = self.buffer.len();
                                    let ghost mut acts: Seq<ActionSpec> = Seq::empty();
                                    if bl > hb && self.buffer[bl - 1] != '\n' {
                                        let emit = subrange_chars(&self.buffer, 0, bl - hb);
                                        let keep = subrange_chars(&self.buffer, bl - hb, bl);
                                        if emit.len() > 0 {
                                            results.push(
                                                EmulatorAction::Text(chars_to_string(&emit)),
                                            );
                                            proof {
                                                acts = seq![ActionSpec::Text(emit@)];
                                                done = done + acts;
                                            }
                                        }
                                        self.buffer = keep;
                                    }
                                    proof {
                                        assert(rem_pre.actions == acts);
                                        assert(done_pre + rem_pre.actions =~= done);
                                    }
                                    break ;
                                }
                            },
                        }
                    }
                },
            }
        }
        results
    }

    /// Emit whatever remains buffered at the end of the stream: an
    /// unterminated command or execute block still counts.
    pub fn flush(&mut self) -> (r: Vec<EmulatorAction>)
        ensures
            actions_match(r@, flush_spec(old(self)@.0, old(self)@.1)),
            final(self)@.0 == Seq::<char>::empty(),
            final(self)@.1 == (if old(self)@.0.len() == 0 {
                old(self)@.1
            } else {
                ParserState::Normal
            }),
            final(self)@.2 == old(self)@.2,
    {
        let mut results: Vec<EmulatorAction> = Vec::new();
        if self.buffer.len() == 0 {
            return results;
        }
        match self.state {
            ParserState::InCommand => {
                let cl = trim_chars(&self.buffer);
                if cl.len() > 0 && cl[0] == '$' {
                    let cll = cl.len();
                    let after_dollar = subrange_chars(&cl, 1, cll);
                    let cmd = trim_chars(&after_dollar);
                    proof {
                        assert(after_dollar@ =~= cl@.drop_first());
                    }
                    if cmd.len() > 0 {
                        results.push(EmulatorAction::ShellCommand(chars_to_string(&cmd)));
                    }
                } else if cl.len() > 0 {
                    results.push(EmulatorAction::Text(chars_to_string(&self.buffer)));
                }
            },
            ParserState::InExecuteBlock => {
                let c = trim_chars(&self.buffer);
                if c.len() > 0 {
                    results.push(EmulatorAction::ExecuteCode(chars_to_string(&c)));
                }
            },
            ParserState::Normal => {
                results.push(EmulatorAction::Text(chars_to_string(&self.buffer)));
            },
        }
        self.buffer = Vec::new();
        self.state = ParserState::Normal;
        results
    }
}

} // verus!
