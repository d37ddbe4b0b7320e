//! Parsing tool calls out of generated text, and deciding how much of an
//! in-flight generation is safe to stream.
//!
//! Positions returned by these functions are character indices into the
//! text (the functions walk `Seq<char>` views), so a position is always a
//! valid boundary.

use vstd::prelude::*;

use crate::text::{
    chars_to_string, contains_at, ends_with_sub, find_sub, is_first_occurrence_from, str_to_chars,
    subrange_chars, trim_end_idx, trim_end_spec,
};

verus! {

/// The opening tag that introduces an XML-style tool call.
pub open spec fn tool_call_tag() -> Seq<char> {
    seq!['<', 't', 'o', 'o', 'l', '_', 'c', 'a', 'l', 'l', '>']
}

/// Build the opening tag as a character vector.
pub fn tool_call_tag_chars() -> (r: Vec<char>)
    ensures
        r@ == tool_call_tag(),
{
    let mut v: Vec<char> = Vec::new();
    v.push('<');
    v.push('t');
    v.push('o');
    v.push('o');
    v.push('l');
    v.push('_');
    v.push('c');
    v.push('a');
    v.push('l');
    v.push('l');
    v.push('>');
    proof {
        assert(v@ =~= tool_call_tag());
    }
    v
}

/// One step of the forward brace scan: at `{` entered from depth zero the
/// mark stays put (the brace may open a tool-call block); when a `}`
/// returns to depth zero the mark advances past it; any character seen at
/// depth zero advances the mark past itself.
///
/// `mark` is the position that would be returned if the text ended here.
pub open spec fn brace_scan(s: Seq<char>, i: int, depth: int, mark: int) -> int
    decreases s.len() - i,
{
    if i < 0 || i >= s.len() {
        mark
    } else if s[i] == '{' {
        brace_scan(s, i + 1, depth + 1, if depth == 0 { i } else { mark })
    } else if s[i] == '}' {
        brace_scan(s, i + 1, depth - 1, if depth == 1 { i + 1 } else { mark })
    } else {
        brace_scan(s, i + 1, depth, if depth == 0 { i + 1 } else { mark })
    }
}

/// The largest prefix that brace counting alone allows to stream.
pub open spec fn brace_safe_end(s: Seq<char>) -> int {
    brace_scan(s, 0, 0, s.len() as int)
}

/// The first occurrence of `needle` in `hay` at or after `from`.
pub open spec fn find_from(hay: Seq<char>, needle: Seq<char>, from: int) -> Option<int>
    decreases hay.len() - from,
{
    if needle.len() <= 0 || from < 0 || from + needle.len() > hay.len() {
        None
    } else if contains_at(hay, from, needle) {
        Some(from)
    } else {
        find_from(hay, needle, from + 1)
    }
}

/// `find_from` returns exactly the first occurrence, when there is one.
pub proof fn lemma_find_from_characterization(hay: Seq<char>, needle: Seq<char>, from: int)
    requires
        from >= 0,
        needle.len() > 0,
    ensures
        match find_from(hay, needle, from) {
            Some(i) => is_first_occurrence_from(hay, needle, from, i),
            None => forall|j: int| from <= j ==> !contains_at(hay, j, needle),
        },
    decreases hay.len() - from,
{
    if from + needle.len() > hay.len() {
    } else if contains_at(hay, from, needle) {
    } else {
        lemma_find_from_characterization(hay, needle, from + 1);
    }
}

/// `t` is a prefix of the `<tool_call>` tag.
pub open spec fn is_tag_prefix(t: Seq<char>) -> bool {
    t.len() <= tool_call_tag().len() && t == tool_call_tag().subrange(0, t.len() as int)
}

/// The earliest start in `[start, se)` whose suffix up to `se` is a
/// prefix of the tag; `se` itself when there is none.
pub open spec fn tail_scan(s: Seq<char>, se: int, start: int) -> int
    decreases se - start,
{
    if start >= se {
        se
    } else if is_tag_prefix(s.subrange(start, se)) {
        start
    } else {
        tail_scan(s, se, start + 1)
    }
}

/// Where the tail hold-back begins: only the last `tag` length characters
/// before the brace-safe end are inspected.
pub open spec fn tail_hold(s: Seq<char>, se: int) -> int {
    let check = if tool_call_tag().len() <= s.len() {
        tool_call_tag().len() as int
    } else {
        s.len() as int
    };
    let lo = if se - check >= 0 {
        se - check
    } else {
        0
    };
    tail_scan(s, se, lo)
}

/// How many characters of `s` are safe to stream: the brace-scan mark,
/// additionally held back at the first `<tool_call>` occurrence and at a
/// trailing partial `<tool_call` prefix.
pub open spec fn safe_stream_end_spec(s: Seq<char>) -> int {
    let se = brace_safe_end(s);
    let xml = match find_from(s, tool_call_tag(), 0) {
        Some(i) => i,
        None => s.len() as int,
    };
    let tail = tail_hold(s, se);
    let m1 = if se <= xml {
        se
    } else {
        xml
    };
    if m1 <= tail {
        m1
    } else {
        tail
    }
}

/// Exec computation of `tail_hold`.
fn tail_hold_chars(chars: &Vec<char>, se: usize, tag: &Vec<char>) -> (r: usize)
    requires
        se <= chars@.len(),
        tag@ == tool_call_tag(),
    ensures
        r == tail_hold(chars@, se as int),
{
    let n = chars.len();
    let check = if tag.len() <= n {
        tag.len()
    } else {
        n
    };
    let lo = if se >= check {
        se - check
    } else {
        0
    };
    proof {
        assert(tool_call_tag().len() == 11);
        assert(tail_hold(chars@, se as int) == tail_scan(chars@, se as int, lo as int));
    }
    let mut start = lo;
    while start < se
        invariant
            lo <= start <= se <= n,
            n == chars@.len(),
            tag@ == tool_call_tag(),
            tail_hold(chars@, se as int) == tail_scan(chars@, se as int, lo as int),
            tail_scan(chars@, se as int, lo as int) == tail_scan(chars@, se as int, start as int),
        decreases se - start,
    {
        if check_tag_prefix(chars, start, se, tag) {
            proof {
                reveal_with_fuel(tail_scan, 2);
                assert(tail_scan(chars@, se as int, start as int) == start as int);
                assert(tail_scan(chars@, se as int, lo as int) == start as int);
                assert(tail_hold(chars@, se as int) == tail_scan(chars@, se as int, lo as int));
            }
            return start;
        }
        start += 1;
    }
    se
}

/// Exec helper: is `s[start..se]` a prefix of the tag?
fn check_tag_prefix(s: &Vec<char>, start: usize, se: usize, tag: &Vec<char>) -> (r: bool)
    requires
        start <= se <= s@.len(),
        tag@ == tool_call_tag(),
    ensures
        r == is_tag_prefix(s@.subrange(start as int, se as int)),
{
    let n = se - start;
    if n > tag.len() {
        return false;
    }
    let mut j: usize = 0;
    while j < n
        invariant
            j <= n,
            n == se - start,
            start <= se <= s@.len(),
            n <= tag@.len(),
            tag@ == tool_call_tag(),
            forall|t: int| 0 <= t < j ==> s@[start + t] == tag@[t],
        decreases n - j,
    {
        if s[start + j] != tag[j] {
            assert(s@.subrange(start as int, se as int)[j as int] == s@[start + j]);
            assert(tool_call_tag().subrange(0, n as int)[j as int] == tag@[j as int]);
            return false;
        }
        j += 1;
    }
    proof {
        assert(s@.subrange(start as int, se as int) =~= tool_call_tag().subrange(0, n as int));
    }
    true
}

/// How many characters of `text` are guaranteed never to be retracted as
/// part of a tool-call block, and so may be streamed now.
pub fn safe_stream_end(text: &str) -> (r: usize)
    ensures
        r == safe_stream_end_spec(text@),
{
    let chars = str_to_chars(text);
    safe_stream_end_chars(&chars)
}

/// `safe_stream_end` over an already-collected character vector.
pub fn safe_stream_end_chars(chars: &Vec<char>) -> (r: usize)
    ensures
        r == safe_stream_end_spec(chars@),
{
    let n = chars.len();
    let tag = tool_call_tag_chars();

    // Forward brace scan.
    let mut i: usize = 0;
    let mut depth: i128 = 0;
    let mut mark: usize = n;
    while i < n
        invariant
            i <= n,
            n == chars@.len(),
            mark <= n,
            -(i as int) <= depth <= i as int,
            brace_scan(chars@, 0, 0, n as int) == brace_scan(
                chars@,
                i as int,
                depth as int,
                mark as int,
            ),
        decreases n - i,
    {
        let c = chars[i];
        if c == '{' {
            if depth == 0 {
                mark = i;
            }
            depth += 1;
        } else if c == '}' {
            depth -= 1;
            if depth == 0 {
                mark = i + 1;
            }
        } else {
            if depth == 0 {
                mark = i + 1;
            }
        }
        i += 1;
    }
    let se = mark;
    proof {
        assert(brace_safe_end(chars@) == se as int);
    }

    // First full `<tool_call>` occurrence.
    let xml: usize = match find_sub(chars, &tag) {
        Some(p) => {
            proof {
                lemma_find_from_characterization(chars@, tool_call_tag(), 0);
                let sp = find_from(chars@, tool_call_tag(), 0);
                assert(sp is Some) by {
                    if sp is None {
                        assert(!contains_at(chars@, p as int, tool_call_tag()));
                    }
                }
                assert(sp == Some(p as int));
            }
            p
        },
        None => {
            proof {
                lemma_find_from_characterization(chars@, tool_call_tag(), 0);
                let sp = find_from(chars@, tool_call_tag(), 0);
                if sp is Some {
                    let w = sp->Some_0;
                    assert(contains_at(chars@, w, tool_call_tag()));
                    assert(exists|q: int| contains_at(chars@, q, tool_call_tag()));
                }
            }
            n
        },
    };

    // Trailing partial tag.
    let tail = tail_hold_chars(chars, se, &tag);

    let m1 = if se <= xml {
        se
    } else {
        xml
    };
    if m1 <= tail {
        m1
    } else {
        tail
    }
}

/// Whether `s` parses as JSON whose top level carries a `tool_calls`
/// array. The verdict is serde_json's; this name stands for it.
pub uninterp spec fn has_tool_calls(s: Seq<char>) -> bool;

/// Whether `s` parses as a JSON object. The verdict is serde_json's;
/// this name stands for it.
pub uninterp spec fn parses_as_object(s: Seq<char>) -> bool;

/// Whether `s` parses as any JSON value. The verdict is serde_json's;
/// this name stands for it.
pub uninterp spec fn parses_as_json(s: Seq<char>) -> bool;

/// One entry of a `tool_calls` array, projected to plain values: the
/// OpenAI shape nests `name` and a stringified `arguments` under
/// `function`; the native shape carries them at top level, with
/// `arguments` either an object or a stringified object.
#[derive(Debug, Clone, PartialEq)]
pub struct RawToolCall {
    pub has_function: bool,
    pub function_name: Option<String>,
    pub function_arguments: Option<String>,
    pub name: Option<String>,
    pub arguments_object: Option<String>,
    pub arguments_str: Option<String>,
    pub id: Option<String>,
}

/// The entries of the `tool_calls` array of `s`, as
/// `decode_tool_call_entry` projects them. serde_json parsing is a
/// function of the text alone; this name stands for its result.
pub uninterp spec fn tool_call_entries_of(s: Seq<char>) -> Seq<RawToolCall>;

/// The key/value pairs of the JSON object `s`, as serde_json's map
/// iteration hands them out (sorted by key); this name stands for that
/// result.
pub uninterp spec fn object_entries_of(s: Seq<char>) -> Seq<(String, ArgValue)>;

/// serde_json's value type, declared so decoded entries can pass
/// through trusted projections.
#[verifier::external_type_specification]
#[verifier::external_body]
pub struct ExJsonValue(serde_json::Value);

/// Relies on serde_json::Value::as_str: the owned string when the
/// value is one.
#[verifier::external_body]
fn opt_str(v: Option<&serde_json::Value>) -> Option<String> {
    v.and_then(|x| x.as_str()).map(str::to_string)
}

/// Relies on the serde_json::Value accessors: projects one `tool_calls`
/// entry's fields to plain strings (an object-valued `arguments` is
/// kept as its JSON text).
#[verifier::external_body]
fn decode_tool_call_entry(tc: &serde_json::Value) -> RawToolCall {
    let f = tc.get("function");
    let a = tc.get("arguments");
    RawToolCall {
        has_function: f.is_some(),
        function_name: opt_str(f.and_then(|x| x.get("name"))),
        function_arguments: opt_str(f.and_then(|x| x.get("arguments"))),
        name: opt_str(tc.get("name")),
        arguments_object: a.filter(|x| x.is_object()).map(|x| x.to_string()),
        arguments_str: opt_str(a),
        id: opt_str(tc.get("id")),
    }
}

/// Relies on serde_json::from_str and Value::get/as_array: parses `s`,
/// requires a `tool_calls` array at the top level, and hands each entry
/// through `decode_tool_call_entry`. The entries depend on the text
/// alone, so equal texts decode to equal entries.
#[verifier::external_body]
pub fn decode_tool_calls(s: &str) -> (r: Option<Vec<RawToolCall>>)
    ensures
        r is Some == has_tool_calls(s@),
        r matches Some(v) ==> v@ == tool_call_entries_of(s@),
{
    let v: serde_json::Value = serde_json::from_str(s).ok()?;
    let arr = v.get("tool_calls")?.as_array()?;
    Some(arr.iter().map(decode_tool_call_entry).collect())
}

/// A key/value pair of a decoded JSON object: a string value is kept as
/// the string itself, any other value as its JSON text.
#[derive(Debug, Clone, PartialEq)]
pub enum ArgValue {
    Text(String),
    Json(String),
}

/// Relies on serde_json::Value's variants and Display: a string value
/// as the string itself, any other value as its JSON text.
#[verifier::external_body]
fn json_entry_pair(kv: (String, serde_json::Value)) -> (String, ArgValue) {
    match kv.1 {
        serde_json::Value::String(t) => (kv.0, ArgValue::Text(t)),
        v => (kv.0, ArgValue::Json(v.to_string())),
    }
}

/// Relies on serde_json::from_str for maps: parses a JSON object and
/// hands its entries out in the map's own iteration order, which for
/// serde_json's default (B-tree) map is sorted by key. The pairs depend
/// on the text alone, so equal texts yield equal pairs.
#[verifier::external_body]
pub fn json_object_entries(s: &str) -> (r: Option<Vec<(String, ArgValue)>>)
    ensures
        r is Some == parses_as_object(s@),
        r matches Some(v) ==> v@ == object_entries_of(s@),
{
    let m: serde_json::Map<String, serde_json::Value> = serde_json::from_str(s).ok()?;
    Some(m.into_iter().map(json_entry_pair).collect())
}

/// Relies on serde_json::from_str: whether `s` is well-formed JSON.
#[verifier::external_body]
pub fn is_valid_json(s: &str) -> (r: bool)
    ensures
        r == parses_as_json(s@),
{
    serde_json::from_str::<serde_json::Value>(s).is_ok()
}

/// The backward brace scan that isolates the final JSON object: walking
/// from the end, `}` deepens, and the `{` that returns the depth to zero
/// is the object's start.
pub open spec fn backscan(s: Seq<char>, i: int, depth: int) -> Option<int>
    decreases i + 1,
{
    if i < 0 {
        None
    } else if s[i] == '}' {
        backscan(s, i - 1, depth + 1)
    } else if s[i] == '{' {
        if depth == 1 {
            Some(i)
        } else {
            backscan(s, i - 1, depth - 1)
        }
    } else {
        backscan(s, i - 1, depth)
    }
}

/// What `split_content_and_tool_calls` returns: the text before the
/// final tool-call JSON object and that object's text, or the input
/// unchanged when the text does not end in such an object.
pub open spec fn split_tool_calls_spec(text: Seq<char>) -> (Seq<char>, Option<Seq<char>>) {
    let tr = trim_end_spec(text);
    if tr.len() == 0 || tr[tr.len() - 1] != '}' {
        (text, None)
    } else {
        match backscan(tr, tr.len() - 1, 0) {
            None => (text, None),
            Some(st) => {
                let j = tr.subrange(st, tr.len() as int);
                if has_tool_calls(j) {
                    (trim_end_spec(tr.subrange(0, st)), Some(j))
                } else {
                    (text, None)
                }
            },
        }
    }
}

/// Exec computation of `backscan` from the end of `tr`.
fn find_json_start(tr: &Vec<char>) -> (r: Option<usize>)
    ensures
        match r {
            Some(u) => backscan(tr@, tr@.len() - 1, 0) == Some(u as int),
            None => backscan(tr@, tr@.len() - 1, 0) is None,
        },
{
    let n = tr.len();
    let mut pos: usize = n;
    let mut depth: i128 = 0;
    while pos > 0
        invariant
            pos <= n,
            n == tr@.len(),
            -((n - pos) as int) <= depth <= (n - pos) as int,
            backscan(tr@, n as int - 1, 0) == backscan(tr@, pos as int - 1, depth as int),
        decreases pos,
    {
        pos -= 1;
        let c = tr[pos];
        if c == '}' {
            depth += 1;
        } else if c == '{' {
            if depth == 1 {
                return Some(pos);
            }
            depth -= 1;
        }
    }
    None
}

/// Split generated text into its streamable content and the final JSON
/// object carrying a `tool_calls` array, when the text ends in one.
pub fn split_content_and_tool_calls(text: &str) -> (r: (String, Option<String>))
    ensures
        ({
            let (c, j) = split_tool_calls_spec(text@);
            &&& r.0@ == c
            &&& (match r.1 {
                Some(s) => j == Some(s@),
                None => j is None,
            })
        }),
{
    let chars = str_to_chars(text);
    let te = trim_end_idx(&chars);
    let tr = subrange_chars(&chars, 0, te);
    if tr.len() == 0 || tr[tr.len() - 1] != '}' {
        return (text.to_owned(), None);
    }
    match find_json_start(&tr) {
        None => (text.to_owned(), None),
        Some(st) => {
            proof {
                assert(backscan(tr@, tr@.len() - 1, 0) == Some(st as int));
                lemma_backscan_in_range(tr@, tr@.len() - 1, 0);
            }
            let json_chars = subrange_chars(&tr, st, tr.len());
            let json_s = chars_to_string(&json_chars);
            if decode_tool_calls(&json_s).is_some() {
                let before = subrange_chars(&tr, 0, st);
                let ce = trim_end_idx(&before);
                let content = subrange_chars(&before, 0, ce);
                (chars_to_string(&content), Some(json_s))
            } else {
                (text.to_owned(), None)
            }
        },
    }
}

/// A start position returned by `backscan` lies within the text.
pub proof fn lemma_backscan_in_range(s: Seq<char>, i: int, depth: int)
    requires
        i < s.len(),
    ensures
        match backscan(s, i, depth) {
            Some(u) => 0 <= u <= i,
            None => true,
        },
    decreases i + 1,
{
    if i >= 0 {
        lemma_backscan_in_range(s, i - 1, depth + 1);
        lemma_backscan_in_range(s, i - 1, depth - 1);
        lemma_backscan_in_range(s, i - 1, depth);
    }
}

} // verus!
