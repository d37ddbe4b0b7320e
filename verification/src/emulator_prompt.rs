//! The tool-description block appended to the emulator's system prompt:
//! in code mode an instructional preamble plus `Namespace.camelName()`
//! lines, otherwise a plain bullet list.

use vstd::prelude::*;

use crate::generation::ToolInfo;
use crate::text::{
    ascii_upper_spec, ascii_upper, chars_to_string, extend_chars, str_to_chars, subrange_chars,
};
use crate::tool_parsing::find_from;
use crate::xml_tool_calls::{find_from_exec_pub, lemma_find_from_bounds};

verus! {

/// `s` capitalized: its first character upper-cased.
pub open spec fn capitalize_spec(s: Seq<char>) -> Seq<char> {
    if s.len() == 0 {
        s
    } else {
        seq![ascii_upper_spec(s[0])] + s.drop_first()
    }
}

/// `s` split on every `_`, empty segments kept.
pub open spec fn split_us_spec(s: Seq<char>) -> Seq<Seq<char>>
    decreases s.len(),
    via split_us_spec_dec
{
    match find_from(s, "_"@, 0) {
        Some(i) => seq![s.subrange(0, i)] + split_us_spec(s.subrange(i + 1, s.len() as int)),
        None => seq![s],
    }
}

#[via_fn]
proof fn split_us_spec_dec(s: Seq<char>) {
    lemma_find_from_bounds(s, "_"@, 0);
    assert("_"@.len() == 1) by {
        reveal_strlit("_");
    }
}

/// Segments after the first, capitalized and joined.
pub open spec fn camel_rest_spec(segs: Seq<Seq<char>>) -> Seq<char>
    decreases segs.len(),
{
    if segs.len() == 0 {
        Seq::empty()
    } else {
        capitalize_spec(segs[0]) + camel_rest_spec(segs.drop_first())
    }
}

/// The camel-case of an underscore name: the first segment as is, the
/// rest capitalized.
pub open spec fn camel_spec(s: Seq<char>) -> Seq<char> {
    let segs = split_us_spec(s);
    segs[0] + camel_rest_spec(segs.drop_first())
}

/// The line one tool contributes in code mode: nothing for the
/// code-execution tool itself or a name without `__`; otherwise
/// `- Namespace.camelName(): description`.
pub open spec fn code_tool_line_spec(t: ToolInfo) -> Seq<char> {
    if find_from(t.name@, "code_execution__"@, 0) == Some(0int) {
        Seq::empty()
    } else {
        match find_from(t.name@, "__"@, 0) {
            Some(i) => {
                let ns = t.name@.subrange(0, i);
                let rest = t.name@.subrange(i + 2, t.name@.len() as int);
                let desc = match t.description {
                    Some(d) => d@,
                    None => Seq::empty(),
                };
                "- "@ + capitalize_spec(ns) + "."@ + camel_spec(rest) + "(): "@ + desc + "\n"@
            },
            None => Seq::empty(),
        }
    }
}

/// The line one tool contributes in the plain list.
pub open spec fn simple_tool_line_spec(t: ToolInfo) -> Seq<char> {
    let desc = match t.description {
        Some(d) => d@,
        None => "No description"@,
    };
    "- "@ + t.name@ + ": "@ + desc + "\n"@
}

/// All tool lines, in order.
pub open spec fn tool_lines_spec(tools: Seq<ToolInfo>, code_mode: bool) -> Seq<char>
    decreases tools.len(),
{
    if tools.len() == 0 {
        Seq::empty()
    } else {
        tool_lines_spec(tools.drop_last(), code_mode) + (if code_mode {
            code_tool_line_spec(tools.last())
        } else {
            simple_tool_line_spec(tools.last())
        })
    }
}

/// The fixed preamble of the code-mode block.
pub open spec fn code_header_spec() -> Seq<char> {
    "\n\n# Running Code\n\n"@
        + "You can call tools by writing code in a ```execute block. The code runs immediately — do not explain it, just run it.\n\n"@
        + "Example — counting files in /tmp:\n\n"@ + "```execute\nasync function run() {\n"@
        + "  const result = await Developer.shell({ command: \"ls -1 /tmp | wc -l\" });\n"@
        + "  return result;\n}\n```\n\n"@ + "Rules:\n"@
        + "- Code MUST define async function run() and return a result\n"@
        + "- All function calls are async — use await\n"@
        + "- Use ```execute for tool calls, $ for simple shell one-liners\n\n"@
        + "Available functions:\n\n"@
}

/// The fixed header of the plain list.
pub open spec fn simple_header_spec() -> Seq<char> {
    "\n\n# Tools\n\nYou have access to the following tools:\n\n"@
}

/// The whole description block for these tools.
pub open spec fn tool_description_spec(tools: Seq<ToolInfo>, code_mode: bool) -> Seq<char> {
    (if code_mode {
        code_header_spec()
    } else {
        simple_header_spec()
    }) + tool_lines_spec(tools, code_mode)
}

fn capitalize_chars(s: &Vec<char>) -> (r: Vec<char>)
    ensures
        r@ == capitalize_spec(s@),
{
    if s.len() == 0 {
        let r: Vec<char> = Vec::new();
        proof {
            assert(r@ =~= s@);
        }
        r
    } else {
        let sl = s.len();
        let mut r: Vec<char> = Vec::new();
        r.push(ascii_upper(s[0]));
        let rest = subrange_chars(s, 1, sl);
        extend_chars(&mut r, &rest);
        proof {
            assert(rest@ =~= s@.drop_first());
            assert(r@ =~= capitalize_spec(s@));
        }
        r
    }
}

fn camel_chars(s: &Vec<char>) -> (r: Vec<char>)
    ensures
        r@ == camel_spec(s@),
{
    proof {
        reveal_strlit("_");
    }
    let us = str_to_chars("_");
    let sl = s.len();
    match find_from_exec_pub(s, &us) {
        Some(i) => {
            proof {
                lemma_find_from_bounds(s@, "_"@, 0);
            }
            let mut r = subrange_chars(s, 0, i);
            let rest = subrange_chars(s, i + 1, sl);
            let tail = camel_rest_chars(&rest);
            extend_chars(&mut r, &tail);
            proof {
                assert(split_us_spec(s@)[0] == s@.subrange(0, i as int));
                assert(split_us_spec(s@).drop_first() =~= split_us_spec(
                    s@.subrange(i + 1, s@.len() as int),
                ));
                lemma_camel_shift(s@, i as int);
            }
            r
        },
        None => {
            let r = subrange_chars(s, 0, sl);
            proof {
                assert(r@ =~= s@);
                assert(split_us_spec(s@) =~= seq![s@]);
                assert(split_us_spec(s@).drop_first() =~= Seq::<Seq<char>>::empty());
            }
            r
        },
    }
}

/// When a name splits at its first underscore, its camel form is the
/// head plus the capitalized segments of the remainder.
proof fn lemma_camel_shift(s: Seq<char>, i: int)
    requires
        find_from(s, "_"@, 0) == Some(i),
        0 <= i,
        i + 1 <= s.len(),
    ensures
        camel_spec(s) == s.subrange(0, i) + camel_rest_all(
            s.subrange(i + 1, s.len() as int),
        ),
{
    let rest = s.subrange(i + 1, s.len() as int);
    assert(split_us_spec(s) == seq![s.subrange(0, i)] + split_us_spec(rest));
    assert(split_us_spec(s)[0] == s.subrange(0, i));
    assert(split_us_spec(s).drop_first() =~= split_us_spec(rest));
}

/// The capitalized join of every segment of `s`.
pub open spec fn camel_rest_all(s: Seq<char>) -> Seq<char> {
    camel_rest_spec(split_us_spec(s))
}

fn camel_rest_chars(s: &Vec<char>) -> (r: Vec<char>)
    ensures
        r@ == camel_rest_all(s@),
    decreases s@.len(),
{
    proof {
        reveal_strlit("_");
    }
    let us = str_to_chars("_");
    let sl = s.len();
    match find_from_exec_pub(s, &us) {
        Some(i) => {
            proof {
                lemma_find_from_bounds(s@, "_"@, 0);
            }
            let head = subrange_chars(s, 0, i);
            let mut r = capitalize_chars(&head);
            let rest = subrange_chars(s, i + 1, sl);
            let tail = camel_rest_chars(&rest);
            extend_chars(&mut r, &tail);
            proof {
                assert(split_us_spec(s@) == seq![s@.subrange(0, i as int)] + split_us_spec(
                    rest@,
                ));
                assert(split_us_spec(s@)[0] == s@.subrange(0, i as int));
                assert(split_us_spec(s@).drop_first() =~= split_us_spec(rest@));
            }
            r
        },
        None => {
            let r = capitalize_chars(s);
            proof {
                assert(split_us_spec(s@) =~= seq![s@]);
                assert(split_us_spec(s@).drop_first() =~= Seq::<Seq<char>>::empty());
                assert(camel_rest_spec(seq![s@]) == capitalize_spec(s@) + camel_rest_spec(
                    Seq::<Seq<char>>::empty(),
                ));
                assert(capitalize_spec(s@) + Seq::<char>::empty() =~= capitalize_spec(s@));
            }
            r
        },
    }
}

/// Build the tool-description block the emulator system prompt carries.
pub fn build_emulator_tool_description(tools: &Vec<ToolInfo>, code_mode_enabled: bool) -> (r:
    String)
    ensures
        r@ == tool_description_spec(tools@, code_mode_enabled),
{
    proof {
        reveal_strlit("code_execution__");
        reveal_strlit("__");
    }
    let mut out: Vec<char>;
    if code_mode_enabled {
        out = str_to_chars("\n\n# Running Code\n\n");
        let parts: [&str; 10] = [
            "You can call tools by writing code in a ```execute block. The code runs immediately — do not explain it, just run it.\n\n",
            "Example — counting files in /tmp:\n\n",
            "```execute\nasync function run() {\n",
            "  const result = await Developer.shell({ command: \"ls -1 /tmp | wc -l\" });\n",
            "  return result;\n}\n```\n\n",
            "Rules:\n",
            "- Code MUST define async function run() and return a result\n",
            "- All function calls are async — use await\n",
            "- Use ```execute for tool calls, $ for simple shell one-liners\n\n",
            "Available functions:\n\n",
        ];
        let p0 = str_to_chars(parts[0]);
        extend_chars(&mut out, &p0);
        let p1 = str_to_chars(parts[1]);
        extend_chars(&mut out, &p1);
        let p2 = str_to_chars(parts[2]);
        extend_chars(&mut out, &p2);
        let p3 = str_to_chars(parts[3]);
        extend_chars(&mut out, &p3);
        let p4 = str_to_chars(parts[4]);
        extend_chars(&mut out, &p4);
        let p5 = str_to_chars(parts[5]);
        extend_chars(&mut out, &p5);
        let p6 = str_to_chars(parts[6]);
        extend_chars(&mut out, &p6);
        let p7 = str_to_chars(parts[7]);
        extend_chars(&mut out, &p7);
        let p8 = str_to_chars(parts[8]);
        extend_chars(&mut out, &p8);
        let p9 = str_to_chars(parts[9]);
        extend_chars(&mut out, &p9);
        proof {
            assert(out@ =~= code_header_spec());
        }
    } else {
        out = str_to_chars("\n\n# Tools\n\nYou have access to the following tools:\n\n");
    }
    let ghost header = out@;
    let code_prefix = str_to_chars("code_execution__");
    let dunder = str_to_chars("__");
    let mut i: usize = 0;
    proof {
        assert(tools@.subrange(0, 0) =~= Seq::<ToolInfo>::empty());
    }
    while i < tools.len()
        invariant
            i <= tools@.len(),
            code_prefix@ == "code_execution__"@,
            dunder@ == "__"@,
            out@ == header + tool_lines_spec(tools@.subrange(0, i as int), code_mode_enabled),
            header == (if code_mode_enabled {
                code_header_spec()
            } else {
                simple_header_spec()
            }),
        decreases tools@.len() - i,
    {
        proof {
            reveal_strlit("code_execution__");
            reveal_strlit("__");
            assert(tools@.subrange(0, i + 1).drop_last() =~= tools@.subrange(0, i as int));
            assert(tools@.subrange(0, i + 1).last() == tools@[i as int]);
        }
        let t = &tools[i];
        let name_chars = str_to_chars(t.name.as_str());
        if code_mode_enabled {
            let skip = match find_from_exec_pub(&name_chars, &code_prefix) {
                Some(p) => p == 0,
                None => false,
            };
            if !skip {
                match find_from_exec_pub(&name_chars, &dunder) {
                    Some(d) => {
                        proof {
                            lemma_find_from_bounds(t.name@, "__"@, 0);
                        }
                        let nl = name_chars.len();
                        let ns = subrange_chars(&name_chars, 0, d);
                        let rest = subrange_chars(&name_chars, d + 2, nl);
                        let dash = str_to_chars("- ");
                        extend_chars(&mut out, &dash);
                        let cap = capitalize_chars(&ns);
                        extend_chars(&mut out, &cap);
                        let dot = str_to_chars(".");
                        extend_chars(&mut out, &dot);
                        let cam = camel_chars(&rest);
                        extend_chars(&mut out, &cam);
                        let paren = str_to_chars("(): ");
                        extend_chars(&mut out, &paren);
                        match &t.description {
                            Some(dsc) => {
                                let dc = str_to_chars(dsc.as_str());
                                extend_chars(&mut out, &dc);
                            },
                            None => {},
                        }
                        let nl2 = str_to_chars("\n");
                        extend_chars(&mut out, &nl2);
                        proof {
                            assert(out@ =~= header + tool_lines_spec(
                                tools@.subrange(0, i + 1),
                                code_mode_enabled,
                            ));
                        }
                    },
                    None => {
                        proof {
                            assert(code_tool_line_spec(tools@[i as int]) =~= Seq::<
                                char,
                            >::empty());
                            assert(out@ =~= header + tool_lines_spec(
                                tools@.subrange(0, i + 1),
                                code_mode_enabled,
                            ));
                        }
                    },
                }
            } else {
                proof {
                    assert(code_tool_line_spec(tools@[i as int]) =~= Seq::<char>::empty());
                    assert(out@ =~= header + tool_lines_spec(
                        tools@.subrange(0, i + 1),
                        code_mode_enabled,
                    ));
                }
            }
        } else {
            let dash = str_to_chars("- ");
            extend_chars(&mut out, &dash);
            extend_chars(&mut out, &name_chars);
            let sep = str_to_chars(": ");
            extend_chars(&mut out, &sep);
            match &t.description {
                Some(dsc) => {
                    let dc = str_to_chars(dsc.as_str());
                    extend_chars(&mut out, &dc);
                },
                None => {
                    let dc = str_to_chars("No description");
                    extend_chars(&mut out, &dc);
                },
            }
            let nl2 = str_to_chars("\n");
            extend_chars(&mut out, &nl2);
            proof {
                assert(out@ =~= header + tool_lines_spec(
                    tools@.subrange(0, i + 1),
                    code_mode_enabled,
                ));
            }
        }
        i += 1;
    }
    proof {
        assert(tools@.subrange(0, tools@.len() as int) =~= tools@);
    }
    chars_to_string(&out)
}

} // verus!
