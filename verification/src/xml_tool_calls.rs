//! XML-style tool calls: `<tool_call>` blocks holding either
//! `<function=NAME><parameter=K>V</parameter>…</function>` or the
//! key/value form `NAME<arg_key>K</arg_key><arg_value>V</arg_value>…`.
//!
//! Parameter values that parse as JSON keep their JSON text; anything
//! else is a plain string.

use vstd::prelude::*;

use crate::text::{
    chars_to_string, contains_at, is_first_occurrence_from, str_to_chars, subrange_chars,
    trim_chars, trim_end_idx, trim_end_spec, trim_spec,
};
use crate::text::find_sub;
use crate::tool_parsing::{
    find_from, is_valid_json, lemma_find_from_characterization, parses_as_json, tool_call_tag,
    tool_call_tag_chars, ArgValue,
};

verus! {

/// A parsed argument, at the specification level: its key, its raw text,
/// and whether that text is well-formed JSON.
pub ghost struct ArgSpec {
    pub key: Seq<char>,
    pub is_json: bool,
    pub raw: Seq<char>,
}

pub open spec fn fn_open_seq() -> Seq<char> {
    "<function="@
}

pub open spec fn param_open_seq() -> Seq<char> {
    "<parameter="@
}

pub open spec fn param_close_seq() -> Seq<char> {
    "</parameter>"@
}

pub open spec fn arg_key_open_seq() -> Seq<char> {
    "<arg_key>"@
}

pub open spec fn arg_key_close_seq() -> Seq<char> {
    "</arg_key>"@
}

pub open spec fn arg_val_open_seq() -> Seq<char> {
    "<arg_value>"@
}

pub open spec fn arg_val_close_seq() -> Seq<char> {
    "</arg_value>"@
}

pub open spec fn end_tag_seq() -> Seq<char> {
    "</tool_call>"@
}

fn fn_open_chars() -> (r: Vec<char>)
    ensures
        r@ == fn_open_seq(),
        r@.len() > 0,
{
    proof {
        reveal_strlit("<function=");
    }
    str_to_chars("<function=")
}

fn param_open_chars() -> (r: Vec<char>)
    ensures
        r@ == param_open_seq(),
        r@.len() > 0,
{
    proof {
        reveal_strlit("<parameter=");
    }
    str_to_chars("<parameter=")
}

fn param_close_chars() -> (r: Vec<char>)
    ensures
        r@ == param_close_seq(),
        r@.len() > 0,
{
    proof {
        reveal_strlit("</parameter>");
    }
    str_to_chars("</parameter>")
}

fn arg_key_open_chars() -> (r: Vec<char>)
    ensures
        r@ == arg_key_open_seq(),
        r@.len() > 0,
{
    proof {
        reveal_strlit("<arg_key>");
    }
    str_to_chars("<arg_key>")
}

fn arg_key_close_chars() -> (r: Vec<char>)
    ensures
        r@ == arg_key_close_seq(),
        r@.len() > 0,
{
    proof {
        reveal_strlit("</arg_key>");
    }
    str_to_chars("</arg_key>")
}

fn arg_val_open_chars() -> (r: Vec<char>)
    ensures
        r@ == arg_val_open_seq(),
        r@.len() > 0,
{
    proof {
        reveal_strlit("<arg_value>");
    }
    str_to_chars("<arg_value>")
}

fn arg_val_close_chars() -> (r: Vec<char>)
    ensures
        r@ == arg_val_close_seq(),
        r@.len() > 0,
{
    proof {
        reveal_strlit("</arg_value>");
    }
    str_to_chars("</arg_value>")
}

fn end_tag_chars() -> (r: Vec<char>)
    ensures
        r@ == end_tag_seq(),
        r@.len() > 0,
{
    proof {
        reveal_strlit("</tool_call>");
    }
    str_to_chars("</tool_call>")
}

fn gt_chars() -> (r: Vec<char>)
    ensures
        r@ == ">"@,
        r@.len() > 0,
{
    proof {
        reveal_strlit(">");
    }
    str_to_chars(">")
}

/// An occurrence's position and the needle's length bound the text.
pub proof fn lemma_find_from_bounds(hay: Seq<char>, needle: Seq<char>, from: int)
    ensures
        match find_from(hay, needle, from) {
            Some(i) => from <= i && needle.len() >= 1 && i + needle.len() <= hay.len(),
            None => true,
        },
    decreases hay.len() - from,
{
    if needle.len() <= 0 || from < 0 || from + needle.len() > hay.len() {
    } else if contains_at(hay, from, needle) {
    } else {
        lemma_find_from_bounds(hay, needle, from + 1);
    }
}

/// Exec search aligned with the `find_from` spec.
pub fn find_from_exec_pub(hay: &Vec<char>, needle: &Vec<char>) -> (r: Option<usize>)
    requires
        needle@.len() > 0,
    ensures
        match r {
            Some(u) => find_from(hay@, needle@, 0) == Some(u as int),
            None => find_from(hay@, needle@, 0) is None,
        },
{
    let r = find_sub(hay, needle);
    proof {
        lemma_find_from_characterization(hay@, needle@, 0);
        match r {
            Some(i) => {
                if find_from(hay@, needle@, 0) is None {
                    assert(!contains_at(hay@, i as int, needle@));
                }
                let ip = find_from(hay@, needle@, 0)->Some_0;
                assert(is_first_occurrence_from(hay@, needle@, 0, ip));
                assert(is_first_occurrence_from(hay@, needle@, 0, i as int));
                assert(ip == i as int);
            },
            None => {
                if find_from(hay@, needle@, 0) is Some {
                    let ip = find_from(hay@, needle@, 0)->Some_0;
                    assert(contains_at(hay@, ip, needle@));
                    assert(exists|q: int| contains_at(hay@, q, needle@));
                }
            },
        }
    }
    r
}

/// The parameters of the `<function=…>` form, in order.
pub open spec fn parse_params_spec(rest: Seq<char>) -> Seq<ArgSpec>
    decreases rest.len(),
    via parse_params_spec_dec
{
    match find_from(rest, param_open_seq(), 0) {
        None => Seq::empty(),
        Some(p) => {
            let after = rest.subrange(p + param_open_seq().len(), rest.len() as int);
            match find_from(after, ">"@, 0) {
                None => Seq::empty(),
                Some(q) => {
                    let pname = trim_spec(after.subrange(0, q));
                    let after_name = after.subrange(q + 1, after.len() as int);
                    let vr = match find_from(after_name, param_close_seq(), 0) {
                        Some(t) => (
                            after_name.subrange(0, t),
                            after_name.subrange(
                                t + param_close_seq().len(),
                                after_name.len() as int,
                            ),
                        ),
                        None => (after_name, Seq::<char>::empty()),
                    };
                    let value = trim_spec(vr.0);
                    seq![
                        ArgSpec { key: pname, is_json: parses_as_json(value), raw: value },
                    ] + parse_params_spec(vr.1)
                },
            }
        },
    }
}

#[via_fn]
proof fn parse_params_spec_dec(rest: Seq<char>) {
    lemma_find_from_bounds(rest, param_open_seq(), 0);
    match find_from(rest, param_open_seq(), 0) {
        None => {},
        Some(p) => {
            let after = rest.subrange(p + param_open_seq().len(), rest.len() as int);
            lemma_find_from_bounds(after, ">"@, 0);
            match find_from(after, ">"@, 0) {
                None => {},
                Some(q) => {
                    let after_name = after.subrange(q + 1, after.len() as int);
                    lemma_find_from_bounds(after_name, param_close_seq(), 0);
                },
            }
        },
    }
}

/// The `<function=NAME>…</function>` form: the trimmed name and its
/// parameters, or nothing when the form is absent.
pub open spec fn parse_function_spec(block: Seq<char>) -> Option<(Seq<char>, Seq<ArgSpec>)> {
    match find_from(block, fn_open_seq(), 0) {
        None => None,
        Some(p) => {
            let after = block.subrange(p + fn_open_seq().len(), block.len() as int);
            match find_from(after, ">"@, 0) {
                None => None,
                Some(q) => Some(
                    (
                        trim_spec(after.subrange(0, q)),
                        parse_params_spec(after.subrange(q + 1, after.len() as int)),
                    ),
                ),
            }
        },
    }
}

/// The key/value pairs of the `NAME<arg_key>…` form, in order.
pub open spec fn parse_kv_spec(rest: Seq<char>) -> Seq<ArgSpec>
    decreases rest.len(),
    via parse_kv_spec_dec
{
    match find_from(rest, arg_key_open_seq(), 0) {
        None => Seq::empty(),
        Some(p) => {
            let after_key_open = rest.subrange(p + arg_key_open_seq().len(), rest.len() as int);
            match find_from(after_key_open, arg_key_close_seq(), 0) {
                None => Seq::empty(),
                Some(q) => {
                    let key = trim_spec(after_key_open.subrange(0, q));
                    let after_key_close = after_key_open.subrange(
                        q + arg_key_close_seq().len(),
                        after_key_open.len() as int,
                    );
                    match find_from(after_key_close, arg_val_open_seq(), 0) {
                        None => Seq::empty(),
                        Some(w) => {
                            let after_val_open = after_key_close.subrange(
                                w + arg_val_open_seq().len(),
                                after_key_close.len() as int,
                            );
                            let vr = match find_from(after_val_open, arg_val_close_seq(), 0) {
                                Some(t) => (
                                    after_val_open.subrange(0, t),
                                    after_val_open.subrange(
                                        t + arg_val_close_seq().len(),
                                        after_val_open.len() as int,
                                    ),
                                ),
                                None => (after_val_open, Seq::<char>::empty()),
                            };
                            let value = trim_spec(vr.0);
                            seq![
                                ArgSpec { key: key, is_json: parses_as_json(value), raw: value },
                            ] + parse_kv_spec(vr.1)
                        },
                    }
                },
            }
        },
    }
}

#[via_fn]
proof fn parse_kv_spec_dec(rest: Seq<char>) {
    lemma_find_from_bounds(rest, arg_key_open_seq(), 0);
    match find_from(rest, arg_key_open_seq(), 0) {
        None => {},
        Some(p) => {
            let after_key_open = rest.subrange(p + arg_key_open_seq().len(), rest.len() as int);
            lemma_find_from_bounds(after_key_open, arg_key_close_seq(), 0);
            match find_from(after_key_open, arg_key_close_seq(), 0) {
                None => {},
                Some(q) => {
                    let after_key_close = after_key_open.subrange(
                        q + arg_key_close_seq().len(),
                        after_key_open.len() as int,
                    );
                    lemma_find_from_bounds(after_key_close, arg_val_open_seq(), 0);
                    match find_from(after_key_close, arg_val_open_seq(), 0) {
                        None => {},
                        Some(w) => {
                            let after_val_open = after_key_close.subrange(
                                w + arg_val_open_seq().len(),
                                after_key_close.len() as int,
                            );
                            lemma_find_from_bounds(after_val_open, arg_val_close_seq(), 0);
                        },
                    }
                },
            }
        },
    }
}

/// The `NAME<arg_key>…` form: the trimmed leading name (which must be
/// non-empty) and its key/value pairs.
pub open spec fn parse_arg_kv_spec(block: Seq<char>) -> Option<(Seq<char>, Seq<ArgSpec>)> {
    let name_end = match find_from(block, arg_key_open_seq(), 0) {
        Some(p) => p,
        None => block.len() as int,
    };
    let name = trim_spec(block.subrange(0, name_end));
    if name.len() == 0 {
        None
    } else {
        Some((name, parse_kv_spec(block.subrange(name_end, block.len() as int))))
    }
}

/// One `<tool_call>` block: the function form wins; otherwise the
/// key/value form.
pub open spec fn parse_single_spec(block: Seq<char>) -> Option<(Seq<char>, Seq<ArgSpec>)> {
    match parse_function_spec(block) {
        Some(x) => Some(x),
        None => parse_arg_kv_spec(block),
    }
}

/// All blocks, splitting on `</tool_call>` and then the next
/// `<tool_call>`; a block that parses contributes one call.
pub open spec fn parse_blocks_spec(remaining: Seq<char>) -> Seq<(Seq<char>, Seq<ArgSpec>)>
    decreases remaining.len(),
    via parse_blocks_spec_dec
{
    let br = match find_from(remaining, end_tag_seq(), 0) {
        Some(r) => (
            remaining.subrange(0, r),
            remaining.subrange(r + end_tag_seq().len(), remaining.len() as int),
        ),
        None => (remaining, Seq::<char>::empty()),
    };
    let this = match parse_single_spec(br.0) {
        Some(x) => seq![x],
        None => Seq::empty(),
    };
    match find_from(br.1, tool_call_tag(), 0) {
        Some(p) => this + parse_blocks_spec(
            br.1.subrange(p + tool_call_tag().len(), br.1.len() as int),
        ),
        None => this,
    }
}

#[via_fn]
proof fn parse_blocks_spec_dec(remaining: Seq<char>) {
    lemma_find_from_bounds(remaining, end_tag_seq(), 0);
    let br = match find_from(remaining, end_tag_seq(), 0) {
        Some(r) => (
            remaining.subrange(0, r),
            remaining.subrange(r + end_tag_seq().len(), remaining.len() as int),
        ),
        None => (remaining, Seq::<char>::empty()),
    };
    lemma_find_from_bounds(br.1, tool_call_tag(), 0);
    assert(end_tag_seq().len() == 12) by {
        reveal_strlit("</tool_call>");
    }
}

/// What `split_content_and_xml_tool_calls` returns: the trimmed text
/// before the first `<tool_call>` and every parsed call, or nothing when
/// there is no tag or no block parses.
pub open spec fn xml_split_spec(text: Seq<char>) -> Option<
    (Seq<char>, Seq<(Seq<char>, Seq<ArgSpec>)>),
> {
    match find_from(text, tool_call_tag(), 0) {
        None => None,
        Some(p) => {
            let content = trim_end_spec(text.subrange(0, p));
            let calls = parse_blocks_spec(
                text.subrange(p + tool_call_tag().len(), text.len() as int),
            );
            if calls.len() == 0 {
                None
            } else {
                Some((content, calls))
            }
        },
    }
}

/// The executable argument list matches its specification counterpart.
pub open spec fn arg_matches(x: (String, ArgValue), y: ArgSpec) -> bool {
    &&& x.0@ == y.key
    &&& match x.1 {
        ArgValue::Text(t) => !y.is_json && t@ == y.raw,
        ArgValue::Json(t) => y.is_json && t@ == y.raw,
    }
}

/// Elementwise match of executable and specification argument lists.
pub open spec fn args_match(a: Seq<(String, ArgValue)>, s: Seq<ArgSpec>) -> bool {
    a.len() == s.len() && forall|i: int| 0 <= i < a.len() ==> arg_matches(#[trigger] a[i], s[i])
}

/// Elementwise match of executable and specification call lists.
pub open spec fn calls_match(
    a: Seq<(String, Vec<(String, ArgValue)>)>,
    s: Seq<(Seq<char>, Seq<ArgSpec>)>,
) -> bool {
    a.len() == s.len() && forall|i: int|
        0 <= i < a.len() ==> (#[trigger] a[i]).0@ == s[i].0 && args_match(a[i].1@, s[i].1)
}

/// Exec parsing of `<parameter=…>` lists.
fn parse_params(rest: &Vec<char>) -> (r: Vec<(String, ArgValue)>)
    ensures
        args_match(r@, parse_params_spec(rest@)),
    decreases rest@.len(),
{
    let param_open = param_open_chars();
    let gt = gt_chars();
    let param_close = param_close_chars();
    match find_from_exec_pub(rest, &param_open) {
        None => {
            let r: Vec<(String, ArgValue)> = Vec::new();
            r
        },
        Some(p) => {
            proof {
                lemma_find_from_bounds(rest@, param_open_seq(), 0);
            }
            let rl = rest.len();
            let after = subrange_chars(rest, p + param_open.len(), rl);
            match find_from_exec_pub(&after, &gt) {
                None => {
                    let r: Vec<(String, ArgValue)> = Vec::new();
                    r
                },
                Some(q) => {
                    proof {
                        lemma_find_from_bounds(after@, ">"@, 0);
                    }
                    let pname_raw = subrange_chars(&after, 0, q);
                    let pname = trim_chars(&pname_raw);
                    let after_name = subrange_chars(&after, q + 1, after.len());
                    let (value_raw, after_value) = match find_from_exec_pub(
                        &after_name,
                        &param_close,
                    ) {
                        Some(t) => {
                            proof {
                                lemma_find_from_bounds(after_name@, param_close_seq(), 0);
                            }
                            (
                                subrange_chars(&after_name, 0, t),
                                subrange_chars(
                                    &after_name,
                                    t + param_close.len(),
                                    after_name.len(),
                                ),
                            )
                        },
                        None => {
                            let e: Vec<char> = Vec::new();
                            (subrange_chars(&after_name, 0, after_name.len()), e)
                        },
                    };
                    let value = trim_chars(&value_raw);
                    let value_s = chars_to_string(&value);
                    let av = if is_valid_json(value_s.as_str()) {
                        ArgValue::Json(value_s)
                    } else {
                        ArgValue::Text(value_s)
                    };
                    let mut result: Vec<(String, ArgValue)> = Vec::new();
                    result.push((chars_to_string(&pname), av));
                    let mut more = parse_params(&after_value);
                    let ghost head = result@;
                    let ghost tail = more@;
                    result.append(&mut more);
                    proof {
                        assert(after_name@ =~= after_name@.subrange(0, after_name@.len() as int));
                        let sp = parse_params_spec(rest@);
                        assert(args_match(tail, parse_params_spec(after_value@)));
                        assert forall|i: int| 0 <= i < result@.len() implies arg_matches(
                            #[trigger] result@[i],
                            sp[i],
                        ) by {
                            if i >= 1 {
                                assert(result@[i] == tail[i - 1]);
                            }
                        }
                    }
                    result
                },
            }
        },
    }
}

/// Exec parsing of the `<function=…>` form.
fn parse_function_format(block: &Vec<char>) -> (r: Option<(String, Vec<(String, ArgValue)>)>)
    ensures
        match r {
            Some((n, a)) => ({
                &&& parse_function_spec(block@) is Some
                &&& n@ == parse_function_spec(block@)->Some_0.0
                &&& args_match(a@, parse_function_spec(block@)->Some_0.1)
            }),
            None => parse_function_spec(block@) is None,
        },
{
    let fn_open = fn_open_chars();
    let gt = gt_chars();
    match find_from_exec_pub(block, &fn_open) {
        None => None,
        Some(p) => {
            proof {
                lemma_find_from_bounds(block@, fn_open_seq(), 0);
            }
            let bl = block.len();
            let after = subrange_chars(block, p + fn_open.len(), bl);
            match find_from_exec_pub(&after, &gt) {
                None => None,
                Some(q) => {
                    proof {
                        lemma_find_from_bounds(after@, ">"@, 0);
                    }
                    let name_raw = subrange_chars(&after, 0, q);
                    let name = trim_chars(&name_raw);
                    let body = subrange_chars(&after, q + 1, after.len());
                    let args = parse_params(&body);
                    Some((chars_to_string(&name), args))
                },
            }
        },
    }
}

/// Exec parsing of `<arg_key>…</arg_key><arg_value>…</arg_value>` lists.
fn parse_kv(rest: &Vec<char>) -> (r: Vec<(String, ArgValue)>)
    ensures
        args_match(r@, parse_kv_spec(rest@)),
    decreases rest@.len(),
{
    let key_open = arg_key_open_chars();
    let key_close = arg_key_close_chars();
    let val_open = arg_val_open_chars();
    let val_close = arg_val_close_chars();
    match find_from_exec_pub(rest, &key_open) {
        None => {
            let r: Vec<(String, ArgValue)> = Vec::new();
            r
        },
        Some(p) => {
            proof {
                lemma_find_from_bounds(rest@, arg_key_open_seq(), 0);
            }
            let rl = rest.len();
            let after_key_open = subrange_chars(rest, p + key_open.len(), rl);
            match find_from_exec_pub(&after_key_open, &key_close) {
                None => {
                    let r: Vec<(String, ArgValue)> = Vec::new();
                    r
                },
                Some(q) => {
                    proof {
                        lemma_find_from_bounds(after_key_open@, arg_key_close_seq(), 0);
                    }
                    let key_raw = subrange_chars(&after_key_open, 0, q);
                    let key = trim_chars(&key_raw);
                    let after_key_close = subrange_chars(
                        &after_key_open,
                        q + key_close.len(),
                        after_key_open.len(),
                    );
                    match find_from_exec_pub(&after_key_close, &val_open) {
                        None => {
                            let r: Vec<(String, ArgValue)> = Vec::new();
                            r
                        },
                        Some(w) => {
                            proof {
                                lemma_find_from_bounds(after_key_close@, arg_val_open_seq(), 0);
                            }
                            let after_val_open = subrange_chars(
                                &after_key_close,
                                w + val_open.len(),
                                after_key_close.len(),
                            );
                            let (value_raw, after_value) = match find_from_exec_pub(
                                &after_val_open,
                                &val_close,
                            ) {
                                Some(t) => {
                                    proof {
                                        lemma_find_from_bounds(
                                            after_val_open@,
                                            arg_val_close_seq(),
                                            0,
                                        );
                                    }
                                    (
                                        subrange_chars(&after_val_open, 0, t),
                                        subrange_chars(
                                            &after_val_open,
                                            t + val_close.len(),
                                            after_val_open.len(),
                                        ),
                                    )
                                },
                                None => {
                                    let e: Vec<char> = Vec::new();
                                    (subrange_chars(&after_val_open, 0, after_val_open.len()), e)
                                },
                            };
                            let value = trim_chars(&value_raw);
                            let value_s = chars_to_string(&value);
                            let av = if is_valid_json(value_s.as_str()) {
                                ArgValue::Json(value_s)
                            } else {
                                ArgValue::Text(value_s)
                            };
                            let mut result: Vec<(String, ArgValue)> = Vec::new();
                            result.push((chars_to_string(&key), av));
                            let mut more = parse_kv(&after_value);
                            let ghost tail = more@;
                            result.append(&mut more);
                            proof {
                                assert(after_val_open@ =~= after_val_open@.subrange(
                                    0,
                                    after_val_open@.len() as int,
                                ));
                                let sp = parse_kv_spec(rest@);
                                assert(args_match(tail, parse_kv_spec(after_value@)));
                                assert forall|i: int| 0 <= i < result@.len() implies arg_matches(
                                    #[trigger] result@[i],
                                    sp[i],
                                ) by {
                                    if i >= 1 {
                                        assert(result@[i] == tail[i - 1]);
                                    }
                                }
                            }
                            result
                        },
                    }
                },
            }
        },
    }
}

/// Exec parsing of the `NAME<arg_key>…` form.
fn parse_arg_kv_format(block: &Vec<char>) -> (r: Option<(String, Vec<(String, ArgValue)>)>)
    ensures
        match r {
            Some((n, a)) => ({
                &&& parse_arg_kv_spec(block@) is Some
                &&& n@ == parse_arg_kv_spec(block@)->Some_0.0
                &&& args_match(a@, parse_arg_kv_spec(block@)->Some_0.1)
            }),
            None => parse_arg_kv_spec(block@) is None,
        },
{
    let key_open = arg_key_open_chars();
    let name_end = match find_from_exec_pub(block, &key_open) {
        Some(p) => {
            proof {
                lemma_find_from_bounds(block@, arg_key_open_seq(), 0);
            }
            p
        },
        None => block.len(),
    };
    let name_raw = subrange_chars(block, 0, name_end);
    let name = trim_chars(&name_raw);
    if name.len() == 0 {
        return None;
    }
    let rest = subrange_chars(block, name_end, block.len());
    let args = parse_kv(&rest);
    Some((chars_to_string(&name), args))
}

/// Exec parsing of one block: function form first, key/value form second.
fn parse_single_xml_tool_call(block: &Vec<char>) -> (r: Option<(String, Vec<(String, ArgValue)>)>)
    ensures
        match r {
            Some((n, a)) => ({
                &&& parse_single_spec(block@) is Some
                &&& n@ == parse_single_spec(block@)->Some_0.0
                &&& args_match(a@, parse_single_spec(block@)->Some_0.1)
            }),
            None => parse_single_spec(block@) is None,
        },
{
    match parse_function_format(block) {
        Some(x) => Some(x),
        None => parse_arg_kv_format(block),
    }
}

/// Exec parsing of all blocks after the first `<tool_call>` tag.
fn parse_blocks(remaining: &Vec<char>) -> (r: Vec<(String, Vec<(String, ArgValue)>)>)
    ensures
        calls_match(r@, parse_blocks_spec(remaining@)),
    decreases remaining@.len(),
{
    let end_tag = end_tag_chars();
    let tag = tool_call_tag_chars();
    let (block, after_close) = match find_from_exec_pub(remaining, &end_tag) {
        Some(rr) => {
            proof {
                lemma_find_from_bounds(remaining@, end_tag_seq(), 0);
            }
            let ml = remaining.len();
            (
                subrange_chars(remaining, 0, rr),
                subrange_chars(remaining, rr + end_tag.len(), ml),
            )
        },
        None => {
            let e: Vec<char> = Vec::new();
            (subrange_chars(remaining, 0, remaining.len()), e)
        },
    };
    let mut result: Vec<(String, Vec<(String, ArgValue)>)> = Vec::new();
    match parse_single_xml_tool_call(&block) {
        Some(call) => {
            result.push(call);
        },
        None => {},
    }
    let ghost head = result@;
    match find_from_exec_pub(&after_close, &tag) {
        Some(p) => {
            proof {
                lemma_find_from_bounds(after_close@, tool_call_tag(), 0);
                assert(end_tag_seq().len() == 12) by {
                    reveal_strlit("</tool_call>");
                }
            }
            let next = subrange_chars(&after_close, p + tag.len(), after_close.len());
            let mut more = parse_blocks(&next);
            let ghost tail = more@;
            result.append(&mut more);
            proof {
                assert(remaining@ =~= remaining@.subrange(0, remaining@.len() as int));
                let sp = parse_blocks_spec(remaining@);
                assert(calls_match(tail, parse_blocks_spec(next@)));
                assert forall|i: int| 0 <= i < result@.len() implies (#[trigger] result@[i]).0@
                    == sp[i].0 && args_match(result@[i].1@, sp[i].1) by {
                    if i >= head.len() {
                        assert(result@[i] == tail[i - head.len()]);
                    }
                }
            }
            result
        },
        None => {
            proof {
                assert(remaining@ =~= remaining@.subrange(0, remaining@.len() as int));
            }
            result
        },
    }
}

/// Split generated text into the content before the first `<tool_call>`
/// block and every XML-style call found, or return nothing when no block
/// parses.
pub fn split_content_and_xml_tool_calls(text: &str) -> (r: Option<
    (String, Vec<(String, Vec<(String, ArgValue)>)>),
>)
    ensures
        match r {
            Some((c, calls)) => ({
                &&& xml_split_spec(text@) is Some
                &&& c@ == xml_split_spec(text@)->Some_0.0
                &&& calls_match(calls@, xml_split_spec(text@)->Some_0.1)
            }),
            None => xml_split_spec(text@) is None,
        },
{
    let chars = str_to_chars(text);
    let tag = tool_call_tag_chars();
    match find_from_exec_pub(&chars, &tag) {
        None => None,
        Some(p) => {
            proof {
                lemma_find_from_bounds(chars@, tool_call_tag(), 0);
            }
            let before = subrange_chars(&chars, 0, p);
            let ce = trim_end_idx(&before);
            let content = subrange_chars(&before, 0, ce);
            let cl = chars.len();
            let rest = subrange_chars(&chars, p + tag.len(), cl);
            let calls = parse_blocks(&rest);
            if calls.len() == 0 {
                None
            } else {
                Some((chars_to_string(&content), calls))
            }
        },
    }
}

} // verus!
