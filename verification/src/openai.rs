//! The OpenAI-compatible provider facade: which wire API a model and
//! base path select, and how base paths map between endpoints.

use vstd::prelude::*;

use crate::text::{
    ascii_lower_seq, ascii_lower_chars, chars_to_string, contains_at, contains_sub, extend_chars,
    starts_with_sub, str_to_chars, strip_prefix_rep, strip_prefix_rep_chars, strip_suffix_rep,
    strip_rep, subrange_chars, chars_eq, ends_with_sub,
};
use crate::tool_parsing::find_from;
use crate::xml_tool_calls::lemma_find_from_bounds;

verus! {

/// The default base path of the OpenAI-compatible chat API.
pub open spec fn default_base_path() -> Seq<char> {
    "v1/chat/completions"@
}

/// A base path with trailing slashes removed; a leading slash, when
/// present, is kept.
pub open spec fn normalize_spec(s: Seq<char>) -> Seq<char> {
    if s.len() > 0 && s[0] == '/' {
        "/"@ + strip_suffix_rep(s.drop_first(), "/"@)
    } else {
        strip_suffix_rep(s, "/"@)
    }
}

/// The normalized path, lower-cased, contains `chat/completions`.
pub open spec fn is_chat_completions_spec(s: Seq<char>) -> bool {
    contains_sub(ascii_lower_seq(normalize_spec(s)), "chat/completions"@)
}

/// The normalized path, lower-cased, ends with `responses` or contains
/// `/responses`.
pub open spec fn is_responses_path_spec(s: Seq<char>) -> bool {
    let n = ascii_lower_seq(normalize_spec(s));
    ||| ("responses"@.len() <= n.len() && contains_at(
        n,
        n.len() - "responses"@.len(),
        "responses"@,
    ))
    ||| contains_sub(n, "/responses"@)
}

/// The lower-cased model name selects the responses API: a `gpt-5`
/// model containing `codex`, or any `gpt-5.2-pro` model.
pub open spec fn is_responses_model_spec(m: Seq<char>) -> bool {
    let n = ascii_lower_seq(m);
    ||| (contains_at(n, 0, "gpt-5"@) && contains_sub(n, "codex"@))
    ||| contains_at(n, 0, "gpt-5.2-pro"@)
}

/// Which API a request uses: an explicitly-responses custom path wins,
/// an explicitly-chat custom path loses, and otherwise the model name
/// decides.
pub open spec fn should_use_responses_spec(model: Seq<char>, base: Seq<char>) -> bool {
    let normalized = normalize_spec(base);
    if normalized != default_base_path() {
        if is_responses_path_spec(normalized) {
            true
        } else if is_chat_completions_spec(normalized) {
            false
        } else {
            is_responses_model_spec(model)
        }
    } else {
        is_responses_model_spec(model)
    }
}

/// `s` with its first occurrence of `pat` replaced by `repl`.
pub open spec fn replace_first_spec(s: Seq<char>, pat: Seq<char>, repl: Seq<char>) -> Seq<char> {
    match find_from(s, pat, 0) {
        Some(i) => s.subrange(0, i) + repl + s.subrange(i + pat.len(), s.len() as int),
        None => s,
    }
}

/// The mapped base path: a path already naming `target` is kept; a chat
/// or responses path has that segment replaced; anything else falls
/// back, absolute when the path was absolute.
pub open spec fn map_base_path_spec(
    base: Seq<char>,
    target: Seq<char>,
    fallback: Seq<char>,
) -> Seq<char> {
    let normalized = normalize_spec(base);
    if (target.len() <= normalized.len() && contains_at(
        normalized,
        normalized.len() - target.len(),
        target,
    )) || contains_sub(normalized, "/"@ + target) {
        normalized
    } else if is_chat_completions_spec(normalized) {
        replace_first_spec(normalized, "chat/completions"@, target)
    } else if is_responses_path_spec(normalized) {
        replace_first_spec(normalized, "responses"@, target)
    } else if normalized.len() > 0 && normalized[0] == '/' {
        "/"@ + strip_prefix_rep(fallback, "/"@)
    } else {
        fallback
    }
}

fn normalize_chars(s: &Vec<char>) -> (r: Vec<char>)
    ensures
        r@ == normalize_spec(s@),
{
    proof {
        reveal_strlit("/");
    }
    let slash = str_to_chars("/");
    if s.len() > 0 && s[0] == '/' {
        let sl = s.len();
        let rest = subrange_chars(s, 1, sl);
        proof {
            assert(rest@ =~= s@.drop_first());
        }
        let stripped = strip_rep(&rest, &slash);
        let mut out = str_to_chars("/");
        extend_chars(&mut out, &stripped);
        out
    } else {
        strip_rep(s, &slash)
    }
}

fn contains_chars(hay: &Vec<char>, needle: &Vec<char>) -> (r: bool)
    requires
        needle@.len() > 0,
    ensures
        r == contains_sub(hay@, needle@),
{
    match crate::text::find_sub(hay, needle) {
        Some(i) => {
            proof {
                assert(contains_at(hay@, i as int, needle@));
            }
            true
        },
        None => false,
    }
}

/// The OpenAI-compatible provider: its endpoint coordinates as plain
/// values. The HTTP client that carries requests lives with the
/// embedding program.
#[derive(Debug, Clone, PartialEq)]
pub struct OpenAiProvider {
    pub base_path: String,
    pub organization: Option<String>,
    pub project: Option<String>,
    pub model: String,
    pub supports_streaming: bool,
    pub name: String,
}

impl OpenAiProvider {
    /// A provider for the given model, with the default base path.
    pub fn new(model: String) -> (r: Self)
        ensures
            r.base_path@ == default_base_path(),
            r.organization is None,
            r.project is None,
            r.model == model,
            r.supports_streaming,
            r.name@ == "openai"@,
    {
        OpenAiProvider {
            base_path: "v1/chat/completions".to_owned(),
            organization: None,
            project: None,
            model,
            supports_streaming: true,
            name: "openai".to_owned(),
        }
    }

    /// Normalize a base path: drop trailing slashes, keep a leading one.
    pub fn normalize_base_path(base_path: &str) -> (r: String)
        ensures
            r@ == normalize_spec(base_path@),
    {
        let chars = str_to_chars(base_path);
        let out = normalize_chars(&chars);
        chars_to_string(&out)
    }

    /// Whether the path names the chat-completions endpoint.
    pub fn is_chat_completions_path(base_path: &str) -> (r: bool)
        ensures
            r == is_chat_completions_spec(base_path@),
    {
        proof {
            reveal_strlit("chat/completions");
        }
        let chars = str_to_chars(base_path);
        let n = normalize_chars(&chars);
        let low = ascii_lower_chars(&n);
        let needle = str_to_chars("chat/completions");
        contains_chars(&low, &needle)
    }

    /// Whether the path names the responses endpoint.
    pub fn is_responses_path(base_path: &str) -> (r: bool)
        ensures
            r == is_responses_path_spec(base_path@),
    {
        proof {
            reveal_strlit("responses");
            reveal_strlit("/responses");
        }
        let chars = str_to_chars(base_path);
        let n = normalize_chars(&chars);
        let low = ascii_lower_chars(&n);
        let tail = str_to_chars("responses");
        let seg = str_to_chars("/responses");
        ends_with_sub(&low, &tail) || contains_chars(&low, &seg)
    }

    /// Whether the model name selects the responses API.
    pub fn is_responses_model(model_name: &str) -> (r: bool)
        ensures
            r == is_responses_model_spec(model_name@),
    {
        proof {
            reveal_strlit("gpt-5");
            reveal_strlit("codex");
            reveal_strlit("gpt-5.2-pro");
        }
        let chars = str_to_chars(model_name);
        let low = ascii_lower_chars(&chars);
        let five = str_to_chars("gpt-5");
        let codex = str_to_chars("codex");
        let pro = str_to_chars("gpt-5.2-pro");
        (starts_with_sub(&low, &five) && contains_chars(&low, &codex)) || starts_with_sub(
            &low,
            &pro,
        )
    }

    /// Decide which API to call for this model and base path.
    pub fn should_use_responses_api(model_name: &str, base_path: &str) -> (r: bool)
        ensures
            r == should_use_responses_spec(model_name@, base_path@),
    {
        proof {
            reveal_strlit("v1/chat/completions");
        }
        let chars = str_to_chars(base_path);
        let normalized = normalize_chars(&chars);
        let default = str_to_chars("v1/chat/completions");
        let has_custom = !chars_eq(&normalized, &default);
        let normalized_s = chars_to_string(&normalized);
        if has_custom {
            if Self::is_responses_path(normalized_s.as_str()) {
                proof {
                    lemma_normalize_idempotent(base_path@);
                }
                return true;
            }
            if Self::is_chat_completions_path(normalized_s.as_str()) {
                proof {
                    lemma_normalize_idempotent(base_path@);
                }
                return false;
            }
        }
        proof {
            lemma_normalize_idempotent(base_path@);
        }
        Self::is_responses_model(model_name)
    }

    /// Map a base path to the endpoint `target`, falling back to
    /// `fallback` for unrecognized paths.
    pub fn map_base_path(base_path: &str, target: &str, fallback: &str) -> (r: String)
        ensures
            r@ == map_base_path_spec(base_path@, target@, fallback@),
    {
        proof {
            reveal_strlit("/");
            reveal_strlit("chat/completions");
            reveal_strlit("responses");
        }
        let chars = str_to_chars(base_path);
        let normalized = normalize_chars(&chars);
        let target_chars = str_to_chars(target);
        let slash = str_to_chars("/");
        let mut seg = str_to_chars("/");
        extend_chars(&mut seg, &target_chars);
        let ends = ends_with_sub(&normalized, &target_chars);
        let has_seg = if seg.len() > 0 {
            contains_chars(&normalized, &seg)
        } else {
            false
        };
        proof {
            if seg@.len() == 0 {
                assert(false);
            }
        }
        if ends || has_seg {
            return chars_to_string(&normalized);
        }
        let normalized_s = chars_to_string(&normalized);
        if Self::is_chat_completions_path(normalized_s.as_str()) {
            proof {
                lemma_normalize_idempotent(base_path@);
            }
            let pat = str_to_chars("chat/completions");
            let out = replace_first_chars(&normalized, &pat, &target_chars);
            return chars_to_string(&out);
        }
        if Self::is_responses_path(normalized_s.as_str()) {
            proof {
                lemma_normalize_idempotent(base_path@);
            }
            let pat = str_to_chars("responses");
            let out = replace_first_chars(&normalized, &pat, &target_chars);
            return chars_to_string(&out);
        }
        if normalized.len() > 0 && normalized[0] == '/' {
            let fb = str_to_chars(fallback);
            let stripped = strip_prefix_rep_chars(&fb, &slash);
            let mut out = str_to_chars("/");
            extend_chars(&mut out, &stripped);
            return chars_to_string(&out);
        }
        fallback.to_owned()
    }
}

/// Normalizing twice is normalizing once.
proof fn lemma_normalize_idempotent(s: Seq<char>)
    ensures
        normalize_spec(normalize_spec(s)) == normalize_spec(s),
{
    reveal_strlit("/");
    let n = normalize_spec(s);
    if s.len() > 0 && s[0] == '/' {
        let inner = strip_suffix_rep(s.drop_first(), "/"@);
        assert(n == "/"@ + inner);
        assert(n.len() > 0 && n[0] == '/');
        assert(n.drop_first() =~= inner);
        lemma_strip_stable(s.drop_first(), "/"@);
        assert(strip_suffix_rep(inner, "/"@) == inner);
        assert(normalize_spec(n) == "/"@ + strip_suffix_rep(n.drop_first(), "/"@));
        assert(strip_suffix_rep(n.drop_first(), "/"@) == inner);
        assert(normalize_spec(n) == n);
    } else {
        if n.len() > 0 && n[0] == '/' {
            lemma_strip_keeps_prefix(s, "/"@);
            assert(n[0] == s[0]);
            assert(s.len() > 0 && s[0] == '/');
            assert(false);
        }
        lemma_strip_stable(s, "/"@);
        assert(normalize_spec(n) == strip_suffix_rep(n, "/"@));
        assert(strip_suffix_rep(n, "/"@) == n);
    }
}

/// A stripped text strips to itself.
proof fn lemma_strip_stable(s: Seq<char>, pat: Seq<char>)
    ensures
        strip_suffix_rep(strip_suffix_rep(s, pat), pat) == strip_suffix_rep(s, pat),
    decreases s.len(),
{
    if pat.len() > 0 && s.len() >= pat.len() && s.subrange(s.len() - pat.len(), s.len() as int)
        == pat {
        lemma_strip_stable(s.subrange(0, s.len() - pat.len()), pat);
    }
}

/// Stripping a suffix keeps the remaining characters in place.
proof fn lemma_strip_keeps_prefix(s: Seq<char>, pat: Seq<char>)
    ensures
        strip_suffix_rep(s, pat).len() <= s.len(),
        forall|k: int|
            0 <= k < strip_suffix_rep(s, pat).len() ==> strip_suffix_rep(s, pat)[k] == s[k],
    decreases s.len(),
{
    if pat.len() > 0 && s.len() >= pat.len() && s.subrange(s.len() - pat.len(), s.len() as int)
        == pat {
        let s2 = s.subrange(0, s.len() - pat.len());
        lemma_strip_keeps_prefix(s2, pat);
        assert forall|k: int|
            0 <= k < strip_suffix_rep(s, pat).len() implies strip_suffix_rep(s, pat)[k]
            == s[k] by {
            assert(strip_suffix_rep(s, pat) == strip_suffix_rep(s2, pat));
            assert(strip_suffix_rep(s2, pat)[k] == s2[k]);
            assert(s2[k] == s[k]);
        }
    }
}

/// Replace the first occurrence of `pat` in `s` by `repl`.
fn replace_first_chars(s: &Vec<char>, pat: &Vec<char>, repl: &Vec<char>) -> (r: Vec<char>)
    requires
        pat@.len() > 0,
    ensures
        r@ == replace_first_spec(s@, pat@, repl@),
{
    match crate::xml_tool_calls::find_from_exec_pub(s, pat) {
        Some(i) => {
            proof {
                lemma_find_from_bounds(s@, pat@, 0);
            }
            let sl = s.len();
            let mut out = subrange_chars(s, 0, i);
            let tail = subrange_chars(s, i + pat.len(), sl);
            extend_chars(&mut out, repl);
            extend_chars(&mut out, &tail);
            out
        },
        None => {
            let out = subrange_chars(s, 0, s.len());
            proof {
                assert(out@ =~= s@);
            }
            out
        },
    }
}

} // verus!
