//! Laws about `safe_stream_end`: characters once classified safe to
//! stream stay safe as more generated text arrives.

use vstd::prelude::*;

use crate::text::contains_at;
use crate::text::is_ws_spec;
use crate::text::trim_end_spec;
use crate::tool_parsing::{
    backscan, brace_safe_end, brace_scan, find_from, has_tool_calls, is_tag_prefix,
    lemma_find_from_characterization, split_tool_calls_spec,
    safe_stream_end_spec, tail_hold, tail_scan, tool_call_tag,
};

verus! {

/// The position-value of the last mark update of the brace scan from
/// `i` at depth `d`, if any update happens at all.
pub open spec fn scan_update(s: Seq<char>, i: int, d: int) -> Option<int>
    decreases s.len() - i,
{
    if i < 0 || i >= s.len() {
        None
    } else {
        let here: Option<int> = if s[i] == '{' {
            if d == 0 {
                Some(i)
            } else {
                None
            }
        } else if s[i] == '}' {
            if d == 1 {
                Some(i + 1)
            } else {
                None
            }
        } else {
            if d == 0 {
                Some(i + 1)
            } else {
                None
            }
        };
        let next_d = if s[i] == '{' {
            d + 1
        } else if s[i] == '}' {
            d - 1
        } else {
            d
        };
        match scan_update(s, i + 1, next_d) {
            Some(v) => Some(v),
            None => here,
        }
    }
}

/// The depth the brace scan reaches at the end of `s`, starting from
/// position `i` at depth `d`.
pub open spec fn depth_end(s: Seq<char>, i: int, d: int) -> int
    decreases s.len() - i,
{
    if i < 0 || i >= s.len() {
        d
    } else {
        let next_d = if s[i] == '{' {
            d + 1
        } else if s[i] == '}' {
            d - 1
        } else {
            d
        };
        depth_end(s, i + 1, next_d)
    }
}

/// `brace_scan` returns the last update when there is one, and the
/// initial mark otherwise.
pub proof fn lemma_scan_eq(s: Seq<char>, i: int, d: int, m: int)
    ensures
        brace_scan(s, i, d, m) == match scan_update(s, i, d) {
            Some(v) => v,
            None => m,
        },
    decreases s.len() - i,
{
    if i < 0 || i >= s.len() {
    } else if s[i] == '{' {
        lemma_scan_eq(s, i + 1, d + 1, if d == 0 { i } else { m });
    } else if s[i] == '}' {
        lemma_scan_eq(s, i + 1, d - 1, if d == 1 { i + 1 } else { m });
    } else {
        lemma_scan_eq(s, i + 1, d, if d == 0 { i + 1 } else { m });
    }
}

/// Update values lie between the scan start and the end of the text.
pub proof fn lemma_scan_update_bounds(s: Seq<char>, i: int, d: int)
    requires
        i >= 0,
    ensures
        match scan_update(s, i, d) {
            Some(v) => i <= v <= s.len(),
            None => true,
        },
    decreases s.len() - i,
{
    if 0 <= i < s.len() {
        let next_d = if s[i] == '{' {
            d + 1
        } else if s[i] == '}' {
            d - 1
        } else {
            d
        };
        lemma_scan_update_bounds(s, i + 1, next_d);
    }
}

/// Scanning the concatenation from a position inside the extension is
/// scanning the extension alone, with positions shifted.
proof fn lemma_scan_shift(t: Seq<char>, c: Seq<char>, j: int, d: int)
    requires
        0 <= j,
    ensures
        scan_update(t + c, t.len() + j, d) == match scan_update(c, j, d) {
            Some(v) => Some(t.len() + v),
            None => None::<int>,
        },
        depth_end(t + c, t.len() + j, d) == depth_end(c, j, d),
    decreases c.len() - j,
{
    if j >= c.len() {
    } else {
        assert((t + c)[t.len() + j] == c[j]);
        let next_d = if c[j] == '{' {
            d + 1
        } else if c[j] == '}' {
            d - 1
        } else {
            d
        };
        lemma_scan_shift(t, c, j + 1, next_d);
    }
}

/// Scanning the concatenation from inside `t` first runs `t`'s scan and
/// then the extension's, whose updates win when they happen.
proof fn lemma_scan_append(t: Seq<char>, c: Seq<char>, i: int, d: int)
    requires
        0 <= i <= t.len(),
    ensures
        scan_update(t + c, i, d) == match scan_update(c, 0, depth_end(t, i, d)) {
            Some(v) => Some(t.len() + v),
            None => scan_update(t, i, d),
        },
        depth_end(t + c, i, d) == depth_end(c, 0, depth_end(t, i, d)),
    decreases t.len() - i,
{
    if i == t.len() {
        lemma_scan_shift(t, c, 0, d);
    } else {
        assert((t + c)[i] == t[i]);
        let next_d = if t[i] == '{' {
            d + 1
        } else if t[i] == '}' {
            d - 1
        } else {
            d
        };
        lemma_scan_append(t, c, i + 1, next_d);
    }
}

/// The brace-safe end never exceeds the text length.
pub proof fn lemma_brace_safe_le_len(s: Seq<char>)
    ensures
        0 <= brace_safe_end(s) <= s.len(),
{
    lemma_scan_eq(s, 0, 0, s.len() as int);
    lemma_scan_update_bounds(s, 0, 0);
}

/// The brace-safe end only grows as text is appended.
pub proof fn lemma_brace_safe_mono(t: Seq<char>, c: Seq<char>)
    ensures
        brace_safe_end(t + c) >= brace_safe_end(t),
{
    lemma_scan_eq(t, 0, 0, t.len() as int);
    lemma_scan_eq(t + c, 0, 0, (t + c).len() as int);
    lemma_scan_append(t, c, 0, 0);
    lemma_scan_update_bounds(t, 0, 0);
    lemma_scan_update_bounds(c, 0, depth_end(t, 0, 0));
}

/// A shorter window with the same start is still a tag prefix.
proof fn lemma_tag_prefix_truncate(s: Seq<char>, p: int, e1: int, e2: int)
    requires
        0 <= p <= e2 <= e1 <= s.len(),
        is_tag_prefix(s.subrange(p, e1)),
    ensures
        is_tag_prefix(s.subrange(p, e2)),
{
    let w1 = s.subrange(p, e1);
    let w2 = s.subrange(p, e2);
    assert(w2 =~= tool_call_tag().subrange(0, e2 - p)) by {
        assert forall|k: int| 0 <= k < e2 - p implies w2[k] == tool_call_tag().subrange(
            0,
            e2 - p,
        )[k] by {
            assert(w1[k] == tool_call_tag().subrange(0, e1 - p)[k]);
        }
    }
}

/// `tail_scan` stops at or before any matching start in its range.
proof fn lemma_tail_scan_le_match(s: Seq<char>, se: int, lo: int, p: int)
    requires
        lo <= p < se,
        is_tag_prefix(s.subrange(p, se)),
    ensures
        tail_scan(s, se, lo) <= p,
    decreases p - lo,
{
    if lo < p {
        if !is_tag_prefix(s.subrange(lo, se)) {
            lemma_tail_scan_le_match(s, se, lo + 1, p);
        }
    }
}

/// `tail_scan` returns either `se` or a matching start at or after `lo`.
proof fn lemma_tail_scan_result(s: Seq<char>, se: int, lo: int)
    requires
        lo <= se,
    ensures
        lo <= tail_scan(s, se, lo) <= se,
        tail_scan(s, se, lo) < se ==> is_tag_prefix(
            s.subrange(tail_scan(s, se, lo), se),
        ),
    decreases se - lo,
{
    if lo < se && !is_tag_prefix(s.subrange(lo, se)) {
        lemma_tail_scan_result(s, se, lo + 1);
    }
}

/// The first-occurrence index of the tag is at most any occurrence.
proof fn lemma_xml_le_occurrence(s: Seq<char>, p: int)
    requires
        contains_at(s, p, tool_call_tag()),
    ensures
        find_from(s, tool_call_tag(), 0) is Some,
        find_from(s, tool_call_tag(), 0)->Some_0 <= p,
{
    lemma_find_from_characterization(s, tool_call_tag(), 0);
    if find_from(s, tool_call_tag(), 0) is None {
        assert(!contains_at(s, p, tool_call_tag()));
    }
}

/// A window inside `t` reads the same in `t + c`.
proof fn lemma_window_in_prefix(t: Seq<char>, c: Seq<char>, a: int, b: int)
    requires
        0 <= a <= b <= t.len(),
    ensures
        (t + c).subrange(a, b) == t.subrange(a, b),
{
    assert((t + c).subrange(a, b) =~= t.subrange(a, b));
}

/// `safe_stream_end(t)` is never past the end of `t`.
pub proof fn lemma_safe_stream_end_le_len(t: Seq<char>)
    ensures
        0 <= safe_stream_end_spec(t) <= t.len(),
{
    lemma_brace_safe_le_len(t);
    let se = brace_safe_end(t);
    lemma_find_from_characterization(t, tool_call_tag(), 0);
    let check = if tool_call_tag().len() <= t.len() {
        tool_call_tag().len() as int
    } else {
        t.len() as int
    };
    let lo = if se - check >= 0 {
        se - check
    } else {
        0
    };
    lemma_tail_scan_result(t, se, lo);
    match find_from(t, tool_call_tag(), 0) {
        Some(i) => {
            assert(contains_at(t, i, tool_call_tag()));
        },
        None => {},
    }
}

/// Law: a character classified safe to stream is never reclassified.
/// Appending generated text can only move the safe end forward.
pub proof fn lemma_safe_stream_end_monotone(t: Seq<char>, c: Seq<char>)
    ensures
        safe_stream_end_spec(t + c) >= safe_stream_end_spec(t),
{
    let u = t + c;
    let st = safe_stream_end_spec(t);
    lemma_safe_stream_end_le_len(t);
    lemma_brace_safe_le_len(t);
    lemma_brace_safe_le_len(u);
    lemma_brace_safe_mono(t, c);
    let se_t = brace_safe_end(t);
    let se_u = brace_safe_end(u);

    let check_t = if tool_call_tag().len() <= t.len() {
        tool_call_tag().len() as int
    } else {
        t.len() as int
    };
    let lo_t = if se_t - check_t >= 0 {
        se_t - check_t
    } else {
        0
    };

    // The brace component of u is at least safe(t).
    assert(se_u >= st);

    // The xml component of u is at least safe(t).
    lemma_find_from_characterization(u, tool_call_tag(), 0);
    match find_from(u, tool_call_tag(), 0) {
        None => {},
        Some(p) => {
            assert(contains_at(u, p, tool_call_tag()));
            if p + tool_call_tag().len() <= t.len() {
                // The tag lies entirely inside t: t's xml hold was at or
                // before p already.
                lemma_window_in_prefix(t, c, p, p + tool_call_tag().len());
                lemma_xml_le_occurrence(t, p);
            } else if p < t.len() {
                // The tag spans the boundary: t ended with a proper tag
                // prefix, which t's own holds accounted for.
                assert(t.subrange(p, t.len() as int) =~= tool_call_tag().subrange(
                    0,
                    t.len() - p,
                )) by {
                    assert forall|k: int| 0 <= k < t.len() - p implies t.subrange(
                        p,
                        t.len() as int,
                    )[k] == tool_call_tag().subrange(0, t.len() - p)[k] by {
                        assert(u.subrange(p, p + tool_call_tag().len())[k] == u[p + k]);
                        assert(u[p + k] == t[p + k]);
                    }
                }
                assert(is_tag_prefix(t.subrange(p, t.len() as int)));
                if se_t <= p {
                    assert(st <= p);
                } else {
                    // p is in t's tail-scan window and matches there.
                    lemma_tag_prefix_truncate(t, p, t.len() as int, se_t);
                    lemma_tail_scan_le_match(t, se_t, lo_t, p);
                    assert(tail_hold(t, se_t) <= p);
                    assert(st <= p);
                }
            } else {
                assert(p >= t.len());
                assert(st <= p);
            }
        },
    }

    // The tail component of u is at least safe(t).
    let check_u = if tool_call_tag().len() <= u.len() {
        tool_call_tag().len() as int
    } else {
        u.len() as int
    };
    let lo_u = if se_u - check_u >= 0 {
        se_u - check_u
    } else {
        0
    };
    lemma_tail_scan_result(u, se_u, lo_u);
    let h = tail_hold(u, se_u);
    if h < t.len() && h < se_u {
        assert(is_tag_prefix(u.subrange(h, se_u)));
        if h >= se_t {
            assert(st <= h);
        } else {
            // Truncate u's matching window to t's scan window.
            let e = if se_u <= t.len() {
                se_u
            } else {
                t.len() as int
            };
            assert(se_t <= e);
            assert(u.subrange(h, e) =~= t.subrange(h, e)) by {
                assert forall|k: int| 0 <= k < e - h implies u.subrange(h, e)[k] == t.subrange(
                    h,
                    e,
                )[k] by {
                    assert(u.subrange(h, e)[k] == u[h + k]);
                    assert(u[h + k] == t[h + k]);
                }
            }
            assert(is_tag_prefix(u.subrange(h, e))) by {
                lemma_tag_prefix_truncate(u, h, se_u, e);
            }
            assert(is_tag_prefix(t.subrange(h, e)));
            lemma_tag_prefix_truncate(t, h, e, se_t);
            lemma_tail_scan_le_match(t, se_t, lo_t, h);
            assert(tail_hold(t, se_t) <= h);
            assert(st <= h);
        }
    } else {
        assert(h >= t.len() || h >= se_u);
        if h >= se_u {
            assert(h == se_u);
            assert(st <= h);
        } else {
            assert(st <= h);
        }
    }
}

/// Law: for any extension `c`, the safe end of `t + c` is at least the
/// safe end of `t` less the length of `c`; in fact it never shrinks at
/// all (`lemma_safe_stream_end_monotone`).
pub proof fn lemma_safe_stream_end_extension(t: Seq<char>, c: Seq<char>)
    ensures
        safe_stream_end_spec(t + c) >= safe_stream_end_spec(t) - c.len(),
{
    lemma_safe_stream_end_monotone(t, c);
}

/// The backward scan of a scan that succeeds inside `j` is unchanged
/// when `j` is preceded by more text.
proof fn lemma_backscan_shift(x: Seq<char>, j: Seq<char>, i: int, d: int)
    requires
        0 <= i < j.len(),
        backscan(j, i, d) is Some,
    ensures
        backscan(x + j, x.len() + i, d) == Some(x.len() + backscan(j, i, d)->Some_0),
    decreases i,
{
    assert((x + j)[x.len() + i] == j[i]);
    if i >= 1 {
        if j[i] == '}' {
            lemma_backscan_shift(x, j, i - 1, d + 1);
        } else if j[i] == '{' {
            if d != 1 {
                lemma_backscan_shift(x, j, i - 1, d - 1);
            }
        } else {
            lemma_backscan_shift(x, j, i - 1, d);
        }
    }
}

/// The forward brace scan over brace-free text marks everything safe.
proof fn lemma_brace_scan_no_braces(s: Seq<char>, i: int, m: int)
    requires
        0 <= i <= s.len(),
        forall|k: int| i <= k < s.len() ==> s[k] != '{' && s[k] != '}',
    ensures
        brace_scan(s, i, 0, m) == if i < s.len() {
            s.len() as int
        } else {
            m
        },
    decreases s.len() - i,
{
    if i < s.len() {
        lemma_brace_scan_no_braces(s, i + 1, i + 1);
    }
}

/// A text free of braces, of `<tool_call>` tags, and of a trailing
/// partial tag is streamable in full.
pub proof fn lemma_prefix_fully_safe(content: Seq<char>)
    requires
        forall|k: int| 0 <= k < content.len() ==> content[k] != '{' && content[k] != '}',
        forall|i: int| !contains_at(content, i, tool_call_tag()),
        forall|e: int|
            0 <= e < content.len() ==> !is_tag_prefix(
                content.subrange(e, content.len() as int),
            ),
    ensures
        safe_stream_end_spec(content) == content.len(),
{
    let n = content.len() as int;
    if n > 0 {
        lemma_brace_scan_no_braces(content, 0, n);
    }
    assert(brace_safe_end(content) == n);
    lemma_find_from_characterization(content, tool_call_tag(), 0);
    match find_from(content, tool_call_tag(), 0) {
        Some(i) => {
            assert(contains_at(content, i, tool_call_tag()));
        },
        None => {},
    }
    let check = if tool_call_tag().len() <= content.len() {
        tool_call_tag().len() as int
    } else {
        content.len() as int
    };
    let lo = if n - check >= 0 {
        n - check
    } else {
        0
    };
    lemma_tail_scan_result(content, n, lo);
}

/// Law: a generated text that ends in a well-formed tool-call JSON block
/// is split exactly: the block is returned whole, and the text before it
/// (trailing white space dropped) is the content. `p` is the text before
/// the block and `j` the block itself, whose braces must nest so that
/// the backward scan stops at its opening brace, and which serde_json
/// must accept as an object with a `tool_calls` array.
pub proof fn lemma_split_isolates_final_tool_block(p: Seq<char>, j: Seq<char>)
    requires
        j.len() > 0,
        j[j.len() - 1] == '}',
        backscan(j, j.len() - 1, 0) == Some(0int),
        has_tool_calls(j),
        forall|k: int| 0 <= k < p.len() ==> p[k] != '{' && p[k] != '}',
    ensures
        split_tool_calls_spec(p + j) == (trim_end_spec(p), Some(j)),
{
    let text = p + j;
    let n = text.len() as int;
    assert(text[n - 1] == j[j.len() - 1]);
    assert(!is_ws_spec('}'));
    assert(trim_end_spec(text) == text);
    lemma_backscan_shift(p, j, j.len() as int - 1, 0);
    assert(backscan(text, n - 1, 0) == Some(p.len() as int));
    assert(text.subrange(p.len() as int, n) =~= j);
    assert(text.subrange(0, p.len() as int) =~= p);
}

/// Law: the content returned beside a well-formed tool-call block is
/// fully streamable — `safe_stream_end` classifies all of it safe —
/// provided the content carries no tag text of its own.
pub proof fn lemma_split_prefix_streams_whole(p: Seq<char>, j: Seq<char>)
    requires
        j.len() > 0,
        j[j.len() - 1] == '}',
        backscan(j, j.len() - 1, 0) == Some(0int),
        has_tool_calls(j),
        forall|k: int| 0 <= k < p.len() ==> p[k] != '{' && p[k] != '}',
        forall|i: int| !contains_at(trim_end_spec(p), i, tool_call_tag()),
        forall|e: int|
            0 <= e < trim_end_spec(p).len() ==> !is_tag_prefix(
                trim_end_spec(p).subrange(e, trim_end_spec(p).len() as int),
            ),
    ensures
        ({
            let (content, block) = split_tool_calls_spec(p + j);
            &&& block == Some(j)
            &&& content == trim_end_spec(p)
            &&& safe_stream_end_spec(content) == content.len()
        }),
{
    lemma_split_isolates_final_tool_block(p, j);
    lemma_trim_end_keeps_chars(p);
    let content = trim_end_spec(p);
    assert forall|k: int| 0 <= k < content.len() implies content[k] != '{' && content[k]
        != '}' by {
        assert(content[k] == p[k]);
    }
    lemma_prefix_fully_safe(content);
}

/// Trimming keeps a prefix of the characters: anything true of all of
/// `s`'s characters is true of the trimmed text's.
proof fn lemma_trim_end_keeps_chars(s: Seq<char>)
    ensures
        trim_end_spec(s).len() <= s.len(),
        forall|k: int|
            0 <= k < trim_end_spec(s).len() ==> trim_end_spec(s)[k] == s[k],
    decreases s.len(),
{
    if s.len() > 0 && is_ws_spec(s.last()) {
        lemma_trim_end_keeps_chars(s.drop_last());
        assert forall|k: int| 0 <= k < trim_end_spec(s).len() implies trim_end_spec(s)[k]
            == s[k] by {
            assert(s.drop_last()[k] == s[k]);
        }
    }
}

} // verus!
