//! Streaming markdown buffer: accepts incremental chunks and returns
//! only prefixes in which every markdown construct is closed, holding
//! the rest back until the construct completes or the stream ends.

use vstd::prelude::*;

use crate::text::{
    all_ws, chars_to_string, extend_chars, is_ws_spec, str_to_chars, subrange_chars,
    trim_start_spec,
};

verus! {

/// Which markdown constructs are open at a point in the text.
#[derive(Debug, Clone, Copy, PartialEq, Eq, Structural)]
pub struct ParseState {
    pub in_code_block: bool,
    pub code_fence_char: char,
    pub code_fence_len: usize,
    pub in_table: bool,
    pub pending_heading: bool,
    pub in_inline_code: bool,
    pub inline_code_len: usize,
    pub in_bold: bool,
    pub in_italic: bool,
    pub in_strikethrough: bool,
    pub in_link_text: bool,
    pub in_link_url: bool,
    pub in_image_alt: bool,
}

/// The state with nothing open.
pub open spec fn initial_state() -> ParseState {
    ParseState {
        in_code_block: false,
        code_fence_char: '\u{0}',
        code_fence_len: 0,
        in_table: false,
        pending_heading: false,
        in_inline_code: false,
        inline_code_len: 0,
        in_bold: false,
        in_italic: false,
        in_strikethrough: false,
        in_link_text: false,
        in_link_url: false,
        in_image_alt: false,
    }
}

impl ParseState {
    /// No markdown construct is currently open.
    pub open spec fn is_clean_spec(self) -> bool {
        !self.in_code_block && !self.in_table && !self.pending_heading && !self.in_inline_code
            && !self.in_bold && !self.in_italic && !self.in_strikethrough && !self.in_link_text
            && !self.in_link_url && !self.in_image_alt
    }

    /// Whether no construct is open.
    pub fn is_clean(&self) -> (r: bool)
        ensures
            r == self.is_clean_spec(),
    {
        !self.in_code_block && !self.in_table && !self.pending_heading && !self.in_inline_code
            && !self.in_bold && !self.in_italic && !self.in_strikethrough && !self.in_link_text
            && !self.in_link_url && !self.in_image_alt
    }
}

/// Characters with no inline meaning of their own.
pub open spec fn is_plain_char(c: char) -> bool {
    c != '\\' && c != '*' && c != '_' && c != '`' && c != '~' && c != '[' && c != ']' && c != '!'
        && c != '(' && c != ')'
}

/// The end of a run of `c` starting at `i`.
pub open spec fn run_end_spec(line: Seq<char>, i: int, c: char) -> int
    decreases line.len() - i,
{
    if i + 1 < line.len() && line[i + 1] == c {
        run_end_spec(line, i + 1, c)
    } else {
        i + 1
    }
}

/// The end of a run of plain characters starting at `i`.
pub open spec fn plain_run_end_spec(line: Seq<char>, i: int) -> int
    decreases line.len() - i,
{
    if i + 1 < line.len() && is_plain_char(line[i + 1]) {
        plain_run_end_spec(line, i + 1)
    } else {
        i + 1
    }
}

/// Where the inline token starting at `i` ends. Longer markers win:
/// an escape takes two characters, `***` beats `**` beats `*`, and runs
/// of backticks or plain text are taken whole.
pub open spec fn token_end_spec(line: Seq<char>, i: int) -> int {
    let c = line[i];
    if c == '\\' {
        if i + 1 < line.len() && line[i + 1] != '\n' {
            i + 2
        } else {
            i + 1
        }
    } else if c == '`' {
        run_end_spec(line, i, '`')
    } else if c == '*' {
        if i + 2 < line.len() && line[i + 1] == '*' && line[i + 2] == '*' {
            i + 3
        } else if i + 1 < line.len() && line[i + 1] == '*' {
            i + 2
        } else {
            i + 1
        }
    } else if c == '_' {
        if i + 2 < line.len() && line[i + 1] == '_' && line[i + 2] == '_' {
            i + 3
        } else if i + 1 < line.len() && line[i + 1] == '_' {
            i + 2
        } else {
            i + 1
        }
    } else if c == '~' {
        if i + 1 < line.len() && line[i + 1] == '~' {
            i + 2
        } else {
            i + 1
        }
    } else if c == '!' {
        if i + 1 < line.len() && line[i + 1] == '[' {
            i + 2
        } else {
            i + 1
        }
    } else if c == ']' {
        if i + 1 < line.len() && line[i + 1] == '(' {
            i + 2
        } else {
            i + 1
        }
    } else if is_plain_char(c) {
        plain_run_end_spec(line, i)
    } else {
        i + 1
    }
}

/// Runs end after their start and inside the line.
pub proof fn lemma_run_end_bounds(line: Seq<char>, i: int, c: char)
    requires
        0 <= i < line.len(),
    ensures
        i < run_end_spec(line, i, c) <= line.len(),
    decreases line.len() - i,
{
    if i + 1 < line.len() && line[i + 1] == c {
        lemma_run_end_bounds(line, i + 1, c);
    }
}

/// Plain runs end after their start and inside the line.
pub proof fn lemma_plain_run_end_bounds(line: Seq<char>, i: int)
    requires
        0 <= i < line.len(),
    ensures
        i < plain_run_end_spec(line, i) <= line.len(),
    decreases line.len() - i,
{
    if i + 1 < line.len() && is_plain_char(line[i + 1]) {
        lemma_plain_run_end_bounds(line, i + 1);
    }
}

/// Tokens are non-empty and end inside the line.
pub proof fn lemma_token_end_bounds(line: Seq<char>, i: int)
    requires
        0 <= i < line.len(),
    ensures
        i < token_end_spec(line, i) <= line.len(),
{
    let c = line[i];
    if c == '`' {
        lemma_run_end_bounds(line, i, '`');
    } else if c != '\\' && c != '*' && c != '_' && c != '~' && c != '!' && c != ']'
        && is_plain_char(c) {
        lemma_plain_run_end_bounds(line, i);
    }
}

/// `s.len() == n` and every character is `c`.
pub open spec fn tok_is(tok: Seq<char>, c: char, n: int) -> bool {
    tok.len() == n && forall|k: int| 0 <= k < tok.len() ==> tok[k] == c
}

/// How one inline token changes the state: backticks open and close
/// inline code, emphasis markers toggle their flags, bracket tokens
/// track links and images; inside inline code only backticks count.
pub open spec fn inline_step_spec(tok: Seq<char>, st: ParseState) -> ParseState {
    if tok.len() == 2 && tok[0] == '\\' {
        st
    } else if tok.len() > 0 && tok[0] == '`' {
        if st.in_inline_code {
            if tok.len() == st.inline_code_len {
                ParseState { in_inline_code: false, inline_code_len: 0, ..st }
            } else {
                st
            }
        } else {
            ParseState { in_inline_code: true, inline_code_len: tok.len() as usize, ..st }
        }
    } else if st.in_inline_code {
        st
    } else if tok_is(tok, '*', 3) || tok_is(tok, '_', 3) {
        if st.in_bold && st.in_italic {
            ParseState { in_bold: false, in_italic: false, ..st }
        } else if st.in_bold {
            ParseState { in_italic: !st.in_italic, ..st }
        } else if st.in_italic {
            ParseState { in_bold: !st.in_bold, ..st }
        } else {
            ParseState { in_bold: true, in_italic: true, ..st }
        }
    } else if tok_is(tok, '*', 2) || tok_is(tok, '_', 2) {
        ParseState { in_bold: !st.in_bold, ..st }
    } else if tok_is(tok, '*', 1) || tok_is(tok, '_', 1) {
        ParseState { in_italic: !st.in_italic, ..st }
    } else if tok_is(tok, '~', 2) {
        ParseState { in_strikethrough: !st.in_strikethrough, ..st }
    } else if tok.len() == 2 && tok[0] == '!' && tok[1] == '[' {
        ParseState { in_image_alt: true, ..st }
    } else if tok_is(tok, '[', 1) {
        if !st.in_link_text && !st.in_image_alt {
            ParseState { in_link_text: true, ..st }
        } else {
            st
        }
    } else if tok.len() == 2 && tok[0] == ']' && tok[1] == '(' {
        if st.in_link_text {
            ParseState { in_link_text: false, in_link_url: true, ..st }
        } else if st.in_image_alt {
            ParseState { in_image_alt: false, in_link_url: true, ..st }
        } else {
            st
        }
    } else if tok_is(tok, ')', 1) {
        if st.in_link_url {
            ParseState { in_link_url: false, ..st }
        } else {
            st
        }
    } else {
        st
    }
}

/// A code fence at the start of `line` (the whole rest of the buffer):
/// three or more backticks or tildes after optional indentation. Opens
/// a block, or closes one when it matches the opening fence; the
/// position after the fence line is returned.
pub open spec fn fence_step_spec(line: Seq<char>, st: ParseState) -> (ParseState, Option<int>) {
    let trimmed = trim_start_spec(line);
    if trimmed.len() == 0 {
        (st, None::<int>)
    } else {
        let fc = trimmed[0];
        if fc != '`' && fc != '~' {
            (st, None::<int>)
        } else {
            let flen = run_end_spec(trimmed, 0, fc);
            if flen < 3 {
                (st, None::<int>)
            } else {
                let after = trimmed.subrange(flen, trimmed.len() as int);
                let skip = match crate::tool_parsing::find_from(line, "\n"@, 0) {
                    Some(nl) => nl + 1,
                    None => line.len() as int,
                };
                if st.in_code_block {
                    if fc == st.code_fence_char && flen >= st.code_fence_len && (after.len() == 0
                        || after[0] == '\n' || all_ws(after)) {
                        (
                            ParseState {
                                in_code_block: false,
                                code_fence_char: '\u{0}',
                                code_fence_len: 0,
                                ..st
                            },
                            Some(skip),
                        )
                    } else {
                        (st, None::<int>)
                    }
                } else {
                    (
                        ParseState {
                            in_code_block: true,
                            code_fence_char: fc,
                            code_fence_len: flen as usize,
                            ..st
                        },
                        Some(skip),
                    )
                }
            }
        }
    }
}

/// Block-level handling at the start of a line: a pending heading is
/// resolved, fences are processed, headings of one to six `#` set the
/// pending flag, `|` opens a table, and a blank line closes one.
pub open spec fn line_start_step_spec(s: Seq<char>, pos: int, st: ParseState) -> (
    ParseState,
    Option<int>,
) {
    let line = s.subrange(pos, s.len() as int);
    let st0 = ParseState { pending_heading: false, ..st };
    let fr = fence_step_spec(line, st0);
    if fr.1 is Some {
        (fr.0, Some(pos + fr.1->Some_0))
    } else if st0.in_code_block {
        (st0, None::<int>)
    } else {
        let heading = if line.len() > 0 && line[0] == '#' {
            let hashes = run_end_spec(line, 0, '#');
            if hashes <= 6 && (hashes == line.len() || line[hashes] == ' ' || line[hashes]
                == '\n') {
                Some(ParseState { pending_heading: true, ..st0 })
            } else {
                None::<ParseState>
            }
        } else {
            None::<ParseState>
        };
        match heading {
            Some(sth) => (sth, None::<int>),
            None => {
                if line.len() > 0 && line[0] == '|' {
                    (ParseState { in_table: true, ..st0 }, None::<int>)
                } else if (line.len() == 0 || line[0] == '\n') && st0.in_table {
                    (ParseState { in_table: false, ..st0 }, Some(pos + 1))
                } else if st0.in_table {
                    (ParseState { in_table: false, ..st0 }, None::<int>)
                } else {
                    (st0, None::<int>)
                }
            },
        }
    }
}

/// The position just past this line's newline, or the end of the text.
pub open spec fn line_end_spec(s: Seq<char>, pos: int) -> int {
    match crate::tool_parsing::find_from(s, "\n"@, pos) {
        Some(nl) => nl + 1,
        None => s.len() as int,
    }
}

/// Scan the inline tokens of one line, recording the last clean point.
pub open spec fn scan_tokens_spec(
    line: Seq<char>,
    i: int,
    st: ParseState,
    base: int,
    last_safe: int,
) -> (ParseState, int)
    decreases line.len() - i,
    via scan_tokens_spec_dec
{
    if i < 0 || i >= line.len() {
        (st, last_safe)
    } else {
        let te = token_end_spec(line, i);
        let st2 = inline_step_spec(line.subrange(i, te), st);
        scan_tokens_spec(
            line,
            te,
            st2,
            base,
            if st2.is_clean_spec() {
                base + te
            } else {
                last_safe
            },
        )
    }
}

#[via_fn]
proof fn scan_tokens_spec_dec(line: Seq<char>, i: int, st: ParseState, base: int, last_safe: int) {
    if 0 <= i < line.len() {
        lemma_token_end_bounds(line, i);
    }
}

/// The whole scan: the largest position reached in a clean state.
pub open spec fn md_scan_spec(s: Seq<char>, pos: int, st: ParseState, last_safe: int) -> int
    decreases s.len() - pos,
    via md_scan_spec_dec
{
    if pos < 0 || pos >= s.len() {
        last_safe
    } else {
        let at_ls = pos == 0 || s[pos - 1] == '\n';
        let lss = line_start_step_spec(s, pos, st);
        if at_ls && lss.1 is Some {
            let np = lss.1->Some_0;
            md_scan_spec(
                s,
                np,
                lss.0,
                if lss.0.is_clean_spec() {
                    np
                } else {
                    last_safe
                },
            )
        } else {
            let st1 = if at_ls {
                lss.0
            } else {
                st
            };
            let le = line_end_spec(s, pos);
            if st1.in_code_block {
                md_scan_spec(s, le, st1, last_safe)
            } else {
                let tr = scan_tokens_spec(s.subrange(pos, le), 0, st1, pos, last_safe);
                if le > pos && s[le - 1] == '\n' {
                    let st3 = ParseState { pending_heading: false, ..tr.0 };
                    md_scan_spec(
                        s,
                        le,
                        st3,
                        if st3.is_clean_spec() {
                            le
                        } else {
                            tr.1
                        },
                    )
                } else {
                    md_scan_spec(s, le, tr.0, tr.1)
                }
            }
        }
    }
}

#[via_fn]
proof fn md_scan_spec_dec(s: Seq<char>, pos: int, st: ParseState, last_safe: int) {
    if 0 <= pos < s.len() {
        let line = s.subrange(pos, s.len() as int);
        lemma_line_start_advances(s, pos, st);
        crate::xml_tool_calls::lemma_find_from_bounds(s, "\n"@, pos);
        assert("\n"@.len() == 1) by {
            reveal_strlit("\n");
        }
        match crate::tool_parsing::find_from(s, "\n"@, pos) {
            Some(nl) => {},
            None => {},
        }
    }
}

/// A line-start step that returns a position advances past `pos`.
proof fn lemma_line_start_advances(s: Seq<char>, pos: int, st: ParseState)
    requires
        0 <= pos < s.len(),
    ensures
        match line_start_step_spec(s, pos, st).1 {
            Some(np) => pos < np <= s.len(),
            None => true,
        },
{
    let line = s.subrange(pos, s.len() as int);
    let st0 = ParseState { pending_heading: false, ..st };
    let trimmed = trim_start_spec(line);
    lemma_trim_start_len(line);
    if trimmed.len() > 0 {
        let fc = trimmed[0];
        if fc == '`' || fc == '~' {
            lemma_run_end_bounds(trimmed, 0, fc);
        }
    }
    crate::xml_tool_calls::lemma_find_from_bounds(line, "\n"@, 0);
    assert("\n"@.len() == 1) by {
        reveal_strlit("\n");
    }
}

proof fn lemma_trim_start_len(s: Seq<char>)
    ensures
        trim_start_spec(s).len() <= s.len(),
    decreases s.len(),
{
    if s.len() > 0 && is_ws_spec(s[0]) {
        lemma_trim_start_len(s.drop_first());
    }
}

/// Where the safe prefix of `s` ends: the last clean point of the scan.
pub open spec fn find_safe_end_spec(s: Seq<char>) -> int {
    md_scan_spec(s, 0, initial_state(), 0)
}

/// Token scanning never records a safe point past `base` plus the line.
proof fn lemma_scan_tokens_bound(line: Seq<char>, i: int, st: ParseState, base: int, ls: int, n: int)
    requires
        0 <= ls <= n,
        0 <= base,
        base + line.len() <= n,
    ensures
        0 <= scan_tokens_spec(line, i, st, base, ls).1 <= n,
    decreases line.len() - i,
{
    if 0 <= i < line.len() {
        lemma_token_end_bounds(line, i);
        let te = token_end_spec(line, i);
        let st2 = inline_step_spec(line.subrange(i, te), st);
        lemma_scan_tokens_bound(
            line,
            te,
            st2,
            base,
            if st2.is_clean_spec() {
                base + te
            } else {
                ls
            },
            n,
        );
    }
}

/// The scan never records a safe point outside the text.
proof fn lemma_md_scan_bound(s: Seq<char>, pos: int, st: ParseState, ls: int)
    requires
        0 <= ls <= s.len(),
    ensures
        0 <= md_scan_spec(s, pos, st, ls) <= s.len(),
    decreases s.len() - pos,
{
    if 0 <= pos < s.len() {
        let at_ls = pos == 0 || s[pos - 1] == '\n';
        let lss = line_start_step_spec(s, pos, st);
        lemma_line_start_advances(s, pos, st);
        crate::xml_tool_calls::lemma_find_from_bounds(s, "\n"@, pos);
        assert("\n"@.len() == 1) by {
            reveal_strlit("\n");
        }
        if at_ls && lss.1 is Some {
            let np = lss.1->Some_0;
            lemma_md_scan_bound(
                s,
                np,
                lss.0,
                if lss.0.is_clean_spec() {
                    np
                } else {
                    ls
                },
            );
        } else {
            let st1 = if at_ls {
                lss.0
            } else {
                st
            };
            let le = line_end_spec(s, pos);
            assert(pos < le <= s.len());
            if st1.in_code_block {
                lemma_md_scan_bound(s, le, st1, ls);
            } else {
                let line = s.subrange(pos, le);
                lemma_scan_tokens_bound(line, 0, st1, pos, ls, s.len() as int);
                let tr = scan_tokens_spec(line, 0, st1, pos, ls);
                if le > pos && s[le - 1] == '\n' {
                    let st3 = ParseState { pending_heading: false, ..tr.0 };
                    lemma_md_scan_bound(
                        s,
                        le,
                        st3,
                        if st3.is_clean_spec() {
                            le
                        } else {
                            tr.1
                        },
                    );
                } else {
                    lemma_md_scan_bound(s, le, tr.0, tr.1);
                }
            }
        }
    }
}

/// The safe end is a position inside the text, so `push`'s split is
/// always well formed and callers can compose its contract directly.
pub proof fn lemma_find_safe_end_le_len(s: Seq<char>)
    ensures
        0 <= find_safe_end_spec(s) <= s.len(),
{
    lemma_md_scan_bound(s, 0, initial_state(), 0);
}

/// Exec computation of a run end.
fn run_end(line: &Vec<char>, i: usize, c: char) -> (r: usize)
    requires
        i < line@.len(),
    ensures
        r == run_end_spec(line@, i as int, c),
        i < r <= line@.len(),
{
    let n = line.len();
    let mut j = i;
    while j + 1 < n && line[j + 1] == c
        invariant
            i <= j < n,
            n == line@.len(),
            run_end_spec(line@, i as int, c) == run_end_spec(line@, j as int, c),
        decreases line@.len() - j,
    {
        j += 1;
    }
    j + 1
}

/// Exec computation of a plain-text run end.
fn plain_run_end(line: &Vec<char>, i: usize) -> (r: usize)
    requires
        i < line@.len(),
    ensures
        r == plain_run_end_spec(line@, i as int),
        i < r <= line@.len(),
{
    let n = line.len();
    let mut j = i;
    while j + 1 < n && is_plain(line[j + 1])
        invariant
            i <= j < n,
            n == line@.len(),
            plain_run_end_spec(line@, i as int) == plain_run_end_spec(line@, j as int),
        decreases line@.len() - j,
    {
        j += 1;
    }
    j + 1
}

fn is_plain(c: char) -> (r: bool)
    ensures
        r == is_plain_char(c),
{
    c != '\\' && c != '*' && c != '_' && c != '`' && c != '~' && c != '[' && c != ']' && c != '!'
        && c != '(' && c != ')'
}

/// Exec computation of a token end.
fn token_end(line: &Vec<char>, i: usize) -> (r: usize)
    requires
        i < line@.len(),
    ensures
        r == token_end_spec(line@, i as int),
        i < r <= line@.len(),
{
    let c = line[i];
    let n = line.len();
    if c == '\\' {
        if i + 1 < n && line[i + 1] != '\n' {
            i + 2
        } else {
            i + 1
        }
    } else if c == '`' {
        run_end(line, i, '`')
    } else if c == '*' {
        if i + 1 < n && line[i + 1] == '*' {
            if i + 2 < n && line[i + 2] == '*' {
                i + 3
            } else {
                i + 2
            }
        } else {
            i + 1
        }
    } else if c == '_' {
        if i + 1 < n && line[i + 1] == '_' {
            if i + 2 < n && line[i + 2] == '_' {
                i + 3
            } else {
                i + 2
            }
        } else {
            i + 1
        }
    } else if c == '~' {
        if i + 1 < n && line[i + 1] == '~' {
            i + 2
        } else {
            i + 1
        }
    } else if c == '!' {
        if i + 1 < n && line[i + 1] == '[' {
            i + 2
        } else {
            i + 1
        }
    } else if c == ']' {
        if i + 1 < n && line[i + 1] == '(' {
            i + 2
        } else {
            i + 1
        }
    } else if is_plain(c) {
        plain_run_end(line, i)
    } else {
        i + 1
    }
}

/// Exec computation of an inline token's effect.
fn inline_step(tok: &Vec<char>, st: ParseState) -> (r: ParseState)
    ensures
        r == inline_step_spec(tok@, st),
{
    let n = tok.len();
    if n == 2 && tok[0] == '\\' {
        return st;
    }
    if n > 0 && tok[0] == '`' {
        if st.in_inline_code {
            if n == st.inline_code_len {
                return ParseState { in_inline_code: false, inline_code_len: 0, ..st };
            }
            return st;
        }
        return ParseState { in_inline_code: true, inline_code_len: n, ..st };
    }
    if st.in_inline_code {
        return st;
    }
    let run3_star = n == 3 && tok[0] == '*' && tok[1] == '*' && tok[2] == '*';
    let run3_us = n == 3 && tok[0] == '_' && tok[1] == '_' && tok[2] == '_';
    let run2_star = n == 2 && tok[0] == '*' && tok[1] == '*';
    let run2_us = n == 2 && tok[0] == '_' && tok[1] == '_';
    let run2_tilde = n == 2 && tok[0] == '~' && tok[1] == '~';
    proof {
        if n == 3 {
            assert(tok_is(tok@, '*', 3) == (tok@[0] == '*' && tok@[1] == '*' && tok@[2] == '*'))
                by {
                if tok@[0] == '*' && tok@[1] == '*' && tok@[2] == '*' {
                    assert(forall|k: int| 0 <= k < 3 ==> tok@[k] == '*');
                }
            }
            assert(tok_is(tok@, '_', 3) == (tok@[0] == '_' && tok@[1] == '_' && tok@[2] == '_'))
                by {
                if tok@[0] == '_' && tok@[1] == '_' && tok@[2] == '_' {
                    assert(forall|k: int| 0 <= k < 3 ==> tok@[k] == '_');
                }
            }
        }
        if n == 2 {
            assert(tok_is(tok@, '*', 2) == (tok@[0] == '*' && tok@[1] == '*')) by {
                if tok@[0] == '*' && tok@[1] == '*' {
                    assert(forall|k: int| 0 <= k < 2 ==> tok@[k] == '*');
                }
            }
            assert(tok_is(tok@, '_', 2) == (tok@[0] == '_' && tok@[1] == '_')) by {
                if tok@[0] == '_' && tok@[1] == '_' {
                    assert(forall|k: int| 0 <= k < 2 ==> tok@[k] == '_');
                }
            }
            assert(tok_is(tok@, '~', 2) == (tok@[0] == '~' && tok@[1] == '~')) by {
                if tok@[0] == '~' && tok@[1] == '~' {
                    assert(forall|k: int| 0 <= k < 2 ==> tok@[k] == '~');
                }
            }
        }
        if n == 1 {
            assert(tok_is(tok@, '*', 1) == (tok@[0] == '*'));
            assert(tok_is(tok@, '_', 1) == (tok@[0] == '_'));
            assert(tok_is(tok@, '[', 1) == (tok@[0] == '['));
            assert(tok_is(tok@, ')', 1) == (tok@[0] == ')'));
        }
    }
    if run3_star || run3_us {
        if st.in_bold && st.in_italic {
            ParseState { in_bold: false, in_italic: false, ..st }
        } else if st.in_bold {
            ParseState { in_italic: !st.in_italic, ..st }
        } else if st.in_italic {
            ParseState { in_bold: !st.in_bold, ..st }
        } else {
            ParseState { in_bold: true, in_italic: true, ..st }
        }
    } else if run2_star || run2_us {
        ParseState { in_bold: !st.in_bold, ..st }
    } else if n == 1 && (tok[0] == '*' || tok[0] == '_') {
        ParseState { in_italic: !st.in_italic, ..st }
    } else if run2_tilde {
        ParseState { in_strikethrough: !st.in_strikethrough, ..st }
    } else if n == 2 && tok[0] == '!' && tok[1] == '[' {
        ParseState { in_image_alt: true, ..st }
    } else if n == 1 && tok[0] == '[' {
        if !st.in_link_text && !st.in_image_alt {
            ParseState { in_link_text: true, ..st }
        } else {
            st
        }
    } else if n == 2 && tok[0] == ']' && tok[1] == '(' {
        if st.in_link_text {
            ParseState { in_link_text: false, in_link_url: true, ..st }
        } else if st.in_image_alt {
            ParseState { in_image_alt: false, in_link_url: true, ..st }
        } else {
            st
        }
    } else if n == 1 && tok[0] == ')' {
        if st.in_link_url {
            ParseState { in_link_url: false, ..st }
        } else {
            st
        }
    } else {
        st
    }
}

/// Exec search for the first newline at or after `from`.
fn find_newline_from(s: &Vec<char>, from: usize) -> (r: Option<usize>)
    ensures
        match r {
            Some(u) => crate::tool_parsing::find_from(s@, "\n"@, from as int) == Some(u as int),
            None => crate::tool_parsing::find_from(s@, "\n"@, from as int) is None,
        },
{
    proof {
        reveal_strlit("\n");
    }
    let needle = str_to_chars("\n");
    if from > s.len() {
        proof {
            crate::xml_tool_calls::lemma_find_from_bounds(s@, "\n"@, from as int);
            if crate::tool_parsing::find_from(s@, "\n"@, from as int) is Some {
                assert(false);
            }
        }
        return None;
    }
    let r = crate::text::find_sub_from(s, &needle, from);
    proof {
        crate::tool_parsing::lemma_find_from_characterization(s@, "\n"@, from as int);
        match r {
            Some(i) => {
                if crate::tool_parsing::find_from(s@, "\n"@, from as int) is None {
                    assert(!crate::text::contains_at(s@, i as int, "\n"@));
                }
                let ip = crate::tool_parsing::find_from(s@, "\n"@, from as int)->Some_0;
                assert(crate::text::is_first_occurrence_from(s@, "\n"@, from as int, ip));
                assert(crate::text::is_first_occurrence_from(s@, "\n"@, from as int, i as int));
                assert(ip == i as int);
            },
            None => {
                if crate::tool_parsing::find_from(s@, "\n"@, from as int) is Some {
                    let ip = crate::tool_parsing::find_from(s@, "\n"@, from as int)->Some_0;
                    assert(crate::text::contains_at(s@, ip, "\n"@));
                }
            },
        }
    }
    r
}

/// Exec computation of the fence step over the rest of the buffer.
#[verifier::rlimit(100)]
#[verifier::spinoff_prover]
fn fence_step(line: &Vec<char>, st: ParseState) -> (r: (ParseState, Option<usize>))
    ensures
        ({
            let sp = fence_step_spec(line@, st);
            &&& r.0 == sp.0
            &&& (match r.1 {
                Some(u) => sp.1 == Some(u as int),
                None => sp.1 is None,
            })
        }),
{
    let start = crate::text::trim_start_idx(line);
    let ll = line.len();
    let trimmed = subrange_chars(line, start, ll);
    if trimmed.len() == 0 {
        return (st, None);
    }
    let fc = trimmed[0];
    if fc != '`' && fc != '~' {
        return (st, None);
    }
    let flen = run_end(&trimmed, 0, fc);
    if flen < 3 {
        return (st, None);
    }
    let tl = trimmed.len();
    let after = subrange_chars(&trimmed, flen, tl);
    let skip: usize = match find_newline_from(line, 0) {
        Some(nl) => {
            proof {
                crate::xml_tool_calls::lemma_find_from_bounds(line@, "\n"@, 0);
            }
            nl + 1
        },
        None => line.len(),
    };
    if st.in_code_block {
        let close_ok = fc == st.code_fence_char && flen >= st.code_fence_len && (after.len() == 0
            || after[0] == '\n' || crate::text::all_ws_chars(&after));
        if close_ok {
            (
                ParseState { in_code_block: false, code_fence_char: '\u{0}', code_fence_len: 0, ..st },
                Some(skip),
            )
        } else {
            (st, None)
        }
    } else {
        (
            ParseState { in_code_block: true, code_fence_char: fc, code_fence_len: flen, ..st },
            Some(skip),
        )
    }
}

/// Exec computation of the line-start step.
#[verifier::rlimit(100)]
#[verifier::spinoff_prover]
fn line_start_step(s: &Vec<char>, pos: usize, st: ParseState) -> (r: (ParseState, Option<usize>))
    requires
        pos < s@.len(),
    ensures
        ({
            let sp = line_start_step_spec(s@, pos as int, st);
            &&& r.0 == sp.0
            &&& (match r.1 {
                Some(u) => sp.1 == Some(u as int),
                None => sp.1 is None,
            })
        }),
{
    let sl = s.len();
    let line = subrange_chars(s, pos, sl);
    let st0 = ParseState { pending_heading: false, ..st };
    let (stf, fr) = fence_step(&line, st0);
    match fr {
        Some(rel) => {
            proof {
                lemma_line_start_advances(s@, pos as int, st);
            }
            return (stf, Some(pos + rel));
        },
        None => {},
    }
    if st0.in_code_block {
        return (st0, None);
    }
    if line.len() > 0 && line[0] == '#' {
        let hashes = run_end(&line, 0, '#');
        if hashes <= 6 && (hashes == line.len() || line[hashes] == ' ' || line[hashes] == '\n') {
            return (ParseState { pending_heading: true, ..st0 }, None);
        }
    }
    if line.len() > 0 && line[0] == '|' {
        return (ParseState { in_table: true, ..st0 }, None);
    }
    if (line.len() == 0 || line[0] == '\n') && st0.in_table {
        return (ParseState { in_table: false, ..st0 }, Some(pos + 1));
    }
    if st0.in_table {
        return (ParseState { in_table: false, ..st0 }, None);
    }
    (st0, None)
}

/// Exec scan of one line's inline tokens.
fn scan_line_tokens(
    line: &Vec<char>,
    st1: ParseState,
    pos: usize,
    last_safe: usize,
    n: usize,
) -> (r: (ParseState, usize))
    requires
        pos + line@.len() <= n,
        last_safe <= n,
    ensures
        ({
            let sp = scan_tokens_spec(line@, 0, st1, pos as int, last_safe as int);
            &&& r.0 == sp.0
            &&& r.1 == sp.1
            &&& r.1 <= n
        }),
{
    let mut i: usize = 0;
    let mut lst = st1;
    let mut lsafe = last_safe;
    while i < line.len()
        invariant
            i <= line@.len(),
            pos + line@.len() <= n,
            lsafe <= n,
            last_safe <= n,
            scan_tokens_spec(line@, 0, st1, pos as int, last_safe as int) == scan_tokens_spec(
                line@,
                i as int,
                lst,
                pos as int,
                lsafe as int,
            ),
        decreases line@.len() - i,
    {
        let te = token_end(line, i);
        let tok = subrange_chars(line, i, te);
        lst = inline_step(&tok, lst);
        if lst.is_clean() {
            lsafe = pos + te;
        }
        i = te;
    }
    (lst, lsafe)
}

/// Exec computation of `find_safe_end_spec`.
#[verifier::rlimit(100)]
#[verifier::spinoff_prover]
fn find_safe_end(s: &Vec<char>) -> (r: usize)
    ensures
        r == find_safe_end_spec(s@),
        r <= s@.len(),
{
    let n = s.len();
    let mut pos: usize = 0;
    let mut st = ParseState {
        in_code_block: false,
        code_fence_char: '\u{0}',
        code_fence_len: 0,
        in_table: false,
        pending_heading: false,
        in_inline_code: false,
        inline_code_len: 0,
        in_bold: false,
        in_italic: false,
        in_strikethrough: false,
        in_link_text: false,
        in_link_url: false,
        in_image_alt: false,
    };
    let mut last_safe: usize = 0;
    while pos < n
        invariant
            pos <= n,
            n == s@.len(),
            last_safe <= n,
            md_scan_spec(s@, 0, initial_state(), 0) == md_scan_spec(
                s@,
                pos as int,
                st,
                last_safe as int,
            ),
        decreases n - pos,
    {
        let at_ls = pos == 0 || s[pos - 1] == '\n';
        let ghost st_in = st;
        let ghost pos_in = pos;
        let ghost ls_in = last_safe;
        let mut stepped = false;
        if at_ls {
            let (st2, npo) = line_start_step(s, pos, st);
            match npo {
                Some(np) => {
                    proof {
                        lemma_line_start_advances(s@, pos as int, st);
                    }
                    st = st2;
                    pos = np;
                    if st.is_clean() {
                        last_safe = pos;
                    }
                    stepped = true;
                },
                None => {},
            }
        }
        if !stepped {
            let ghost lss = line_start_step_spec(s@, pos as int, st);
            let st1 = if at_ls {
                line_start_step(s, pos, st).0
            } else {
                st
            };
            let le: usize = match find_newline_from(s, pos) {
                Some(nl) => {
                    proof {
                        crate::xml_tool_calls::lemma_find_from_bounds(s@, "\n"@, pos as int);
                        assert("\n"@.len() == 1) by {
                            reveal_strlit("\n");
                        }
                    }
                    nl + 1
                },
                None => n,
            };
            proof {
                crate::xml_tool_calls::lemma_find_from_bounds(s@, "\n"@, pos as int);
                assert("\n"@.len() == 1) by {
                    reveal_strlit("\n");
                }
                assert(pos < le <= n);
            }
            if st1.in_code_block {
                st = st1;
                pos = le;
            } else {
                let line = subrange_chars(s, pos, le);
                let (lst, lsafe) = scan_line_tokens(&line, st1, pos, last_safe, n);
                let mut st3 = lst;
                let mut ls3 = lsafe;
                if le > pos && s[le - 1] == '\n' {
                    st3 = ParseState { pending_heading: false, ..lst };
                    if st3.is_clean() {
                        ls3 = le;
                    }
                }
                st = st3;
                last_safe = ls3;
                pos = le;
            }
        }
    }
    last_safe
}

/// A streaming markdown buffer: everything pushed is either returned as
/// renderable text or held back, nothing is lost or duplicated.
pub struct MarkdownBuffer {
    buffer: Vec<char>,
}

impl View for MarkdownBuffer {
    type V = Seq<char>;

    closed spec fn view(&self) -> Seq<char> {
        self.buffer@
    }
}

impl MarkdownBuffer {
    /// A fresh, empty buffer.
    pub fn new() -> (r: Self)
        ensures
            r@ == Seq::<char>::empty(),
    {
        MarkdownBuffer { buffer: Vec::new() }
    }

    /// Append a chunk and return the prefix that is now safe to render:
    /// the text up to the last point where every construct is closed.
    /// The remainder stays buffered, so output plus buffer always equals
    /// the text pushed so far.
    pub fn push(&mut self, chunk: &str) -> (r: Option<String>)
        ensures
            ({
                let nb = old(self)@ + chunk@;
                let se = find_safe_end_spec(nb);
                match r {
                    Some(out) => se > 0 && out@ == nb.subrange(0, se) && final(self)@
                        == nb.subrange(se, nb.len() as int),
                    None => se == 0 && final(self)@ == nb,
                }
            }),
    {
        let chunk_chars = str_to_chars(chunk);
        extend_chars(&mut self.buffer, &chunk_chars);
        let safe_end = find_safe_end(&self.buffer);
        if safe_end > 0 {
            let out = subrange_chars(&self.buffer, 0, safe_end);
            let bl = self.buffer.len();
            let rest = subrange_chars(&self.buffer, safe_end, bl);
            self.buffer = rest;
            Some(chars_to_string(&out))
        } else {
            None
        }
    }

    /// Hand back everything still buffered, closed or not; the buffer
    /// is empty afterwards.
    pub fn flush(&mut self) -> (r: String)
        ensures
            r@ == old(self)@,
            final(self)@ == Seq::<char>::empty(),
    {
        let out = chars_to_string(&self.buffer);
        self.buffer = Vec::new();
        out
    }
}

/// The concatenation of a sequence of texts.
pub open spec fn concat_seqs(ss: Seq<Seq<char>>) -> Seq<char>
    decreases ss.len(),
{
    if ss.len() == 0 {
        Seq::empty()
    } else {
        concat_seqs(ss.drop_last()) + ss.last()
    }
}

/// Law: pushing chunks loses and duplicates nothing. If each push turns
/// buffer `bufs[i]` plus chunk `chunks[i]` into output `outs[i]` and
/// buffer `bufs[i + 1]` — which is what `push` ensures — and the buffer
/// starts empty, then the outputs so far plus the final buffer (what
/// `flush` returns) are exactly the chunks concatenated.
pub proof fn lemma_markdown_stream_conserves_text(
    chunks: Seq<Seq<char>>,
    outs: Seq<Seq<char>>,
    bufs: Seq<Seq<char>>,
)
    requires
        bufs.len() == chunks.len() + 1,
        outs.len() == chunks.len(),
        bufs[0] == Seq::<char>::empty(),
        forall|i: int|
            0 <= i < chunks.len() ==> #[trigger] outs[i] + bufs[i + 1] == bufs[i] + chunks[i],
    ensures
        concat_seqs(outs) + bufs[chunks.len() as int] == concat_seqs(chunks),
    decreases chunks.len(),
{
    if chunks.len() == 0 {
        assert(concat_seqs(outs) + bufs[0] =~= concat_seqs(chunks));
    } else {
        let n = chunks.len() as int;
        lemma_markdown_stream_conserves_text(
            chunks.drop_last(),
            outs.drop_last(),
            bufs.drop_last(),
        );
        assert(bufs.drop_last()[0] == bufs[0]);
        assert forall|i: int|
            0 <= i < chunks.drop_last().len() implies #[trigger] outs.drop_last()[i]
            + bufs.drop_last()[i + 1] == bufs.drop_last()[i] + chunks.drop_last()[i] by {
            assert(outs[i] + bufs[i + 1] == bufs[i] + chunks[i]);
        }
        assert(concat_seqs(outs.drop_last()) + bufs[n - 1] == concat_seqs(chunks.drop_last()));
        assert(outs[n - 1] + bufs[n] == bufs[n - 1] + chunks[n - 1]);
        assert(concat_seqs(outs) == concat_seqs(outs.drop_last()) + outs[n - 1]);
        assert(concat_seqs(outs) + bufs[n] =~= concat_seqs(outs.drop_last()) + (outs[n - 1]
            + bufs[n]));
        assert(concat_seqs(outs.drop_last()) + (bufs[n - 1] + chunks[n - 1])
            =~= (concat_seqs(outs.drop_last()) + bufs[n - 1]) + chunks[n - 1]);
        assert(concat_seqs(chunks) =~= concat_seqs(chunks.drop_last()) + chunks[n - 1]);
    }
}

} // verus!
