//! Model files on the hub: quantization tags, shard detection, grouping
//! files into quantization variants, model specs, and picking a variant
//! for the available memory.

use vstd::prelude::*;

use crate::errors::ProviderError;
use crate::registry::{lemma_filter_head, lemma_filter_push_kept};
use crate::settings::ModelSettings;
use crate::text::{
    ascii_upper_seq, ascii_upper_chars, chars_to_string, clone_str, contains_at, contains_sub,
    ends_with_sub, extend_chars, find_sub, is_digit, is_digit_spec, rfind_exec, rfind_spec,
    str_eq, str_to_chars, strip_rep, strip_suffix_rep, subrange_chars,
};

verus! {

/// A model found on the hub, with its downloadable files.
#[derive(Debug, Clone, PartialEq)]
pub struct HfModelInfo {
    pub repo_id: String,
    pub author: String,
    pub model_name: String,
    pub downloads: u64,
    pub gguf_files: Vec<HfGgufFile>,
}

/// A single downloadable GGUF file.
#[derive(Debug, Clone, PartialEq)]
pub struct HfGgufFile {
    pub filename: String,
    pub size_bytes: u64,
    pub quantization: String,
    pub download_url: String,
}

/// A quantization variant: one logical entry per quantization.
#[derive(Debug, Clone, PartialEq)]
pub struct HfQuantVariant {
    pub quantization: String,
    pub size_bytes: u64,
    pub filename: String,
    pub download_url: String,
    pub description: String,
    pub quality_rank: u8,
}

/// A file listed in a repo, as plain values.
#[derive(Debug, Clone, PartialEq)]
pub struct RepoFile {
    pub rfilename: String,
    pub size: Option<u64>,
}

/// The quality rank of a known quantization tag; 15 for unknown tags.
pub open spec fn quant_rank(q: Seq<char>) -> u8 {
    if q == "IQ1_S"@ {
        1u8
    } else
    if q == "IQ1_M"@ {
        2u8
    } else
    if q == "IQ2_XXS"@ {
        3u8
    } else
    if q == "IQ2_XS"@ {
        4u8
    } else
    if q == "IQ2_S"@ {
        5u8
    } else
    if q == "IQ2_M"@ {
        6u8
    } else
    if q == "Q2_K"@ {
        7u8
    } else
    if q == "Q2_K_S"@ {
        7u8
    } else
    if q == "IQ3_XXS"@ {
        8u8
    } else
    if q == "IQ3_XS"@ {
        9u8
    } else
    if q == "IQ3_S"@ {
        9u8
    } else
    if q == "Q3_K_S"@ {
        10u8
    } else
    if q == "IQ3_M"@ {
        11u8
    } else
    if q == "Q3_K_M"@ {
        12u8
    } else
    if q == "Q3_K_L"@ {
        13u8
    } else
    if q == "IQ4_XS"@ {
        14u8
    } else
    if q == "IQ4_NL"@ {
        15u8
    } else
    if q == "Q4_0"@ {
        16u8
    } else
    if q == "Q4_1"@ {
        17u8
    } else
    if q == "Q4_K_S"@ {
        18u8
    } else
    if q == "Q4_K_M"@ {
        19u8
    } else
    if q == "Q5_0"@ {
        20u8
    } else
    if q == "Q5_1"@ {
        21u8
    } else
    if q == "Q5_K_S"@ {
        22u8
    } else
    if q == "Q5_K_M"@ {
        23u8
    } else
    if q == "Q6_K"@ {
        24u8
    } else
    if q == "Q8_0"@ {
        25u8
    } else
    if q == "F16"@ {
        26u8
    } else
    if q == "BF16"@ {
        27u8
    } else
    if q == "F32"@ {
        28u8
    } else
    if q == "MXFP4_MOE"@ {
        18u8
    } else
    if q == "TQ1_0"@ {
        1u8
    } else
    if q == "Q2_K_XL"@ {
        15u8
    } else
    if q == "Q3_K_XL"@ {
        15u8
    } else
    if q == "Q4_K_XL"@ {
        15u8
    } else
    if q == "Q2_K_L"@ {
        8u8
    } else
    if q == "Q4_K_L"@ {
        20u8
    } else {
        15u8
    }
}

/// The description of a known quantization tag; empty for unknown tags.
pub open spec fn quant_desc(q: Seq<char>) -> Seq<char> {
    if q == "IQ1_S"@ {
        "Extremely small, very low quality"@
    } else
    if q == "IQ1_M"@ {
        "Extremely small, very low quality"@
    } else
    if q == "IQ2_XXS"@ {
        "Very small, low quality"@
    } else
    if q == "IQ2_XS"@ {
        "Very small, low quality"@
    } else
    if q == "IQ2_S"@ {
        "Very small, low quality"@
    } else
    if q == "IQ2_M"@ {
        "Very small, low quality"@
    } else
    if q == "Q2_K"@ {
        "Small, low quality"@
    } else
    if q == "Q2_K_S"@ {
        "Small, low quality"@
    } else
    if q == "IQ3_XXS"@ {
        "Very small, moderate quality loss"@
    } else
    if q == "IQ3_XS"@ {
        "Small, moderate quality loss"@
    } else
    if q == "IQ3_S"@ {
        "Small, moderate quality loss"@
    } else
    if q == "Q3_K_S"@ {
        "Small, moderate quality loss"@
    } else
    if q == "IQ3_M"@ {
        "Small, moderate quality loss"@
    } else
    if q == "Q3_K_M"@ {
        "Small, balanced quality/size"@
    } else
    if q == "Q3_K_L"@ {
        "Medium-small, decent quality"@
    } else
    if q == "IQ4_XS"@ {
        "Medium, good quality"@
    } else
    if q == "IQ4_NL"@ {
        "Medium, good quality"@
    } else
    if q == "Q4_0"@ {
        "Medium, good quality"@
    } else
    if q == "Q4_1"@ {
        "Medium, good quality"@
    } else
    if q == "Q4_K_S"@ {
        "Medium, good quality/size balance"@
    } else
    if q == "Q4_K_M"@ {
        "Medium, recommended balance of quality and size"@
    } else
    if q == "Q5_0"@ {
        "Medium-large, high quality"@
    } else
    if q == "Q5_1"@ {
        "Medium-large, high quality"@
    } else
    if q == "Q5_K_S"@ {
        "Medium-large, high quality"@
    } else
    if q == "Q5_K_M"@ {
        "Medium-large, very high quality"@
    } else
    if q == "Q6_K"@ {
        "Large, near-lossless quality"@
    } else
    if q == "Q8_0"@ {
        "Large, near-lossless quality"@
    } else
    if q == "F16"@ {
        "Full size, original quality (16-bit)"@
    } else
    if q == "BF16"@ {
        "Full size, original quality (bfloat16)"@
    } else
    if q == "F32"@ {
        "Full size, original quality (32-bit)"@
    } else
    if q == "MXFP4_MOE"@ {
        "Medium, mixed-precision 4-bit for MoE models"@
    } else
    if q == "TQ1_0"@ {
        "Tiny, ternary quantization"@
    } else
    if q == "Q2_K_XL"@ {
        "Extended-layer variant"@
    } else
    if q == "Q3_K_XL"@ {
        "Extended-layer variant"@
    } else
    if q == "Q4_K_XL"@ {
        "Extended-layer variant"@
    } else
    if q == "Q2_K_L"@ {
        "Small, low quality (large variant)"@
    } else
    if q == "Q4_K_L"@ {
        "Medium, good quality (large variant)"@
    } else {
        ""@
    }
}

/// Description and quality rank of a quantization tag.
pub fn quant_info(quant: &str) -> (r: (String, u8))
    ensures
        r.0@ == quant_desc(quant@),
        r.1 == quant_rank(quant@),
{
    if str_eq(quant, "IQ1_S") {
        return ("Extremely small, very low quality".to_owned(), 1);
    }
    if str_eq(quant, "IQ1_M") {
        return ("Extremely small, very low quality".to_owned(), 2);
    }
    if str_eq(quant, "IQ2_XXS") {
        return ("Very small, low quality".to_owned(), 3);
    }
    if str_eq(quant, "IQ2_XS") {
        return ("Very small, low quality".to_owned(), 4);
    }
    if str_eq(quant, "IQ2_S") {
        return ("Very small, low quality".to_owned(), 5);
    }
    if str_eq(quant, "IQ2_M") {
        return ("Very small, low quality".to_owned(), 6);
    }
    if str_eq(quant, "Q2_K") {
        return ("Small, low quality".to_owned(), 7);
    }
    if str_eq(quant, "Q2_K_S") {
        return ("Small, low quality".to_owned(), 7);
    }
    if str_eq(quant, "IQ3_XXS") {
        return ("Very small, moderate quality loss".to_owned(), 8);
    }
    if str_eq(quant, "IQ3_XS") {
        return ("Small, moderate quality loss".to_owned(), 9);
    }
    if str_eq(quant, "IQ3_S") {
        return ("Small, moderate quality loss".to_owned(), 9);
    }
    if str_eq(quant, "Q3_K_S") {
        return ("Small, moderate quality loss".to_owned(), 10);
    }
    if str_eq(quant, "IQ3_M") {
        return ("Small, moderate quality loss".to_owned(), 11);
    }
    if str_eq(quant, "Q3_K_M") {
        return ("Small, balanced quality/size".to_owned(), 12);
    }
    if str_eq(quant, "Q3_K_L") {
        return ("Medium-small, decent quality".to_owned(), 13);
    }
    if str_eq(quant, "IQ4_XS") {
        return ("Medium, good quality".to_owned(), 14);
    }
    if str_eq(quant, "IQ4_NL") {
        return ("Medium, good quality".to_owned(), 15);
    }
    if str_eq(quant, "Q4_0") {
        return ("Medium, good quality".to_owned(), 16);
    }
    if str_eq(quant, "Q4_1") {
        return ("Medium, good quality".to_owned(), 17);
    }
    if str_eq(quant, "Q4_K_S") {
        return ("Medium, good quality/size balance".to_owned(), 18);
    }
    if str_eq(quant, "Q4_K_M") {
        return ("Medium, recommended balance of quality and size".to_owned(), 19);
    }
    if str_eq(quant, "Q5_0") {
        return ("Medium-large, high quality".to_owned(), 20);
    }
    if str_eq(quant, "Q5_1") {
        return ("Medium-large, high quality".to_owned(), 21);
    }
    if str_eq(quant, "Q5_K_S") {
        return ("Medium-large, high quality".to_owned(), 22);
    }
    if str_eq(quant, "Q5_K_M") {
        return ("Medium-large, very high quality".to_owned(), 23);
    }
    if str_eq(quant, "Q6_K") {
        return ("Large, near-lossless quality".to_owned(), 24);
    }
    if str_eq(quant, "Q8_0") {
        return ("Large, near-lossless quality".to_owned(), 25);
    }
    if str_eq(quant, "F16") {
        return ("Full size, original quality (16-bit)".to_owned(), 26);
    }
    if str_eq(quant, "BF16") {
        return ("Full size, original quality (bfloat16)".to_owned(), 27);
    }
    if str_eq(quant, "F32") {
        return ("Full size, original quality (32-bit)".to_owned(), 28);
    }
    if str_eq(quant, "MXFP4_MOE") {
        return ("Medium, mixed-precision 4-bit for MoE models".to_owned(), 18);
    }
    if str_eq(quant, "TQ1_0") {
        return ("Tiny, ternary quantization".to_owned(), 1);
    }
    if str_eq(quant, "Q2_K_XL") {
        return ("Extended-layer variant".to_owned(), 15);
    }
    if str_eq(quant, "Q3_K_XL") {
        return ("Extended-layer variant".to_owned(), 15);
    }
    if str_eq(quant, "Q4_K_XL") {
        return ("Extended-layer variant".to_owned(), 15);
    }
    if str_eq(quant, "Q2_K_L") {
        return ("Small, low quality (large variant)".to_owned(), 8);
    }
    if str_eq(quant, "Q4_K_L") {
        return ("Medium, good quality (large variant)".to_owned(), 20);
    }
    ("".to_owned(), 15)
}

/// The part of `s` after its last `/`, or all of it.
pub open spec fn last_segment(s: Seq<char>) -> Seq<char> {
    match rfind_spec(s, "/"@) {
        Some(i) => s.subrange(i + 1, s.len() as int),
        None => s,
    }
}

/// The file name with every trailing `.gguf` removed.
pub open spec fn stem_spec(s: Seq<char>) -> Seq<char> {
    strip_suffix_rep(last_segment(s), ".gguf"@)
}

/// The stem with a `-NNNNN-of-NNNNN` shard suffix removed, when the
/// text before `-of-` has a `-` to cut at; otherwise the stem whole.
pub open spec fn deshard_spec(stem: Seq<char>) -> Seq<char> {
    match rfind_spec(stem, "-of-"@) {
        Some(pos) => {
            let head = stem.subrange(0, pos);
            match rfind_spec(head, "-"@) {
                Some(h) => head.subrange(0, h),
                None => stem,
            }
        },
        None => stem,
    }
}

/// Whether `s` looks like a quantization tag: `Q…`, `IQ…`, `TQ…`,
/// `MXFP…`, or a float format name, compared without ASCII case.
pub open spec fn looks_like_quant_spec(s: Seq<char>) -> bool {
    let u = ascii_upper_seq(s);
    ||| (u.len() >= 1 && u.subrange(0, 1) == "Q"@)
    ||| (u.len() >= 2 && u.subrange(0, 2) == "IQ"@)
    ||| (u.len() >= 2 && u.subrange(0, 2) == "TQ"@)
    ||| (u.len() >= 4 && u.subrange(0, 4) == "MXFP"@)
    ||| u == "F16"@
    ||| u == "F32"@
    ||| u == "BF16"@
}

/// The quantization tag parsed from a file name: the last `-` component
/// of the desharded stem if it looks like a tag, else the last `.`
/// component, else `unknown`.
pub open spec fn parse_quant_spec(filename: Seq<char>) -> Seq<char> {
    let stem = deshard_spec(stem_spec(filename));
    let dash = match rfind_spec(stem, "-"@) {
        Some(h) => Some(stem.subrange(h + 1, stem.len() as int)),
        None => None::<Seq<char>>,
    };
    if dash is Some && looks_like_quant_spec(dash->Some_0) {
        dash->Some_0
    } else {
        let dot = match rfind_spec(stem, "."@) {
            Some(h) => Some(stem.subrange(h + 1, stem.len() as int)),
            None => None::<Seq<char>>,
        };
        if dot is Some && looks_like_quant_spec(dot->Some_0) {
            dot->Some_0
        } else {
            "unknown"@
        }
    }
}

/// Every character is an ASCII digit.
pub open spec fn all_digits_spec(s: Seq<char>) -> bool {
    forall|k: int| 0 <= k < s.len() ==> is_digit_spec(s[k])
}

/// Whether the file name carries a shard suffix such as
/// `-00001-of-00004.gguf`.
pub open spec fn is_shard_spec(filename: Seq<char>) -> bool {
    let stem = stem_spec(filename);
    match rfind_spec(stem, "-of-"@) {
        Some(pos) => {
            let head = stem.subrange(0, pos);
            let comp = match rfind_spec(head, "-"@) {
                Some(h) => head.subrange(h + 1, head.len() as int),
                None => head,
            };
            comp.len() > 0 && all_digits_spec(comp)
        },
        None => false,
    }
}

/// The download URL of a file in a repo.
pub open spec fn download_url_spec(repo_id: Seq<char>, filename: Seq<char>) -> Seq<char> {
    "https://huggingface.co"@ + "/"@ + repo_id + "/resolve/main/"@ + filename
}

fn last_segment_chars(v: &Vec<char>) -> (r: Vec<char>)
    ensures
        r@ == last_segment(v@),
{
    proof {
        reveal_strlit("/");
    }
    let slash = str_to_chars("/");
    let vl = v.len();
    match rfind_exec(v, &slash) {
        Some(i) => {
            proof {
                crate::xml_tool_calls::lemma_find_from_bounds(v@, "/"@, 0);
                assert(contains_at(v@, i as int, "/"@)) by {
                    crate::text::lemma_rfind_characterization(v@, "/"@);
                }
            }
            subrange_chars(v, i + 1, vl)
        },
        None => subrange_chars(v, 0, vl),
    }
}

fn deshard_chars(stem: &Vec<char>) -> (r: Vec<char>)
    ensures
        r@ == deshard_spec(stem@),
{
    proof {
        reveal_strlit("-of-");
        reveal_strlit("-");
    }
    let of = str_to_chars("-of-");
    let dash = str_to_chars("-");
    match rfind_exec(stem, &of) {
        Some(pos) => {
            proof {
                assert(contains_at(stem@, pos as int, "-of-"@)) by {
                    crate::text::lemma_rfind_characterization(stem@, "-of-"@);
                }
            }
            let head = subrange_chars(stem, 0, pos);
            let hl = head.len();
            match rfind_exec(&head, &dash) {
                Some(h) => {
                    proof {
                        assert(contains_at(head@, h as int, "-"@)) by {
                            crate::text::lemma_rfind_characterization(head@, "-"@);
                        }
                    }
                    subrange_chars(&head, 0, h)
                },
                None => subrange_chars(stem, 0, stem.len()),
            }
        },
        None => subrange_chars(stem, 0, stem.len()),
    }
}

/// Whether `s` looks like a quantization tag.
pub fn looks_like_quant(s: &str) -> (r: bool)
    ensures
        r == looks_like_quant_spec(s@),
{
    let chars = str_to_chars(s);
    looks_like_quant_chars(&chars)
}

fn looks_like_quant_chars(chars: &Vec<char>) -> (r: bool)
    ensures
        r == looks_like_quant_spec(chars@),
{
    proof {
        reveal_strlit("Q");
        reveal_strlit("IQ");
        reveal_strlit("TQ");
        reveal_strlit("MXFP");
        reveal_strlit("F16");
        reveal_strlit("F32");
        reveal_strlit("BF16");
    }
    let u = ascii_upper_chars(chars);
    let q = str_to_chars("Q");
    let iq = str_to_chars("IQ");
    let tq = str_to_chars("TQ");
    let mxfp = str_to_chars("MXFP");
    let tag_f16 = str_to_chars("F16");
    let tag_f32 = str_to_chars("F32");
    let tag_bf16 = str_to_chars("BF16");
    let r = crate::text::starts_with_sub(&u, &q) || crate::text::starts_with_sub(&u, &iq)
        || crate::text::starts_with_sub(&u, &tq) || crate::text::starts_with_sub(&u, &mxfp)
        || crate::text::chars_eq(&u, &tag_f16) || crate::text::chars_eq(&u, &tag_f32)
        || crate::text::chars_eq(&u, &tag_bf16);
    proof {
        let uu = ascii_upper_seq(chars@);
        assert(contains_at(uu, 0, "Q"@) == (uu.len() >= 1 && uu.subrange(0, 1) == "Q"@));
        assert(contains_at(uu, 0, "IQ"@) == (uu.len() >= 2 && uu.subrange(0, 2) == "IQ"@));
        assert(contains_at(uu, 0, "TQ"@) == (uu.len() >= 2 && uu.subrange(0, 2) == "TQ"@));
        assert(contains_at(uu, 0, "MXFP"@) == (uu.len() >= 4 && uu.subrange(0, 4) == "MXFP"@));
    }
    r
}

/// Parse the quantization tag out of a GGUF file name.
pub fn parse_quantization_from_filename(filename: &str) -> (r: String)
    ensures
        r@ == parse_quant_spec(filename@),
{
    parse_quantization(filename)
}

/// Parse the quantization tag out of a GGUF file name.
pub fn parse_quantization(filename: &str) -> (r: String)
    ensures
        r@ == parse_quant_spec(filename@),
{
    let chars = str_to_chars(filename);
    let quant = parse_quant_chars(&chars);
    chars_to_string(&quant)
}

fn parse_quant_chars(chars: &Vec<char>) -> (r: Vec<char>)
    ensures
        r@ == parse_quant_spec(chars@),
{
    proof {
        reveal_strlit(".gguf");
        reveal_strlit("-");
        reveal_strlit(".");
        reveal_strlit("unknown");
    }
    let base = last_segment_chars(chars);
    let gguf = str_to_chars(".gguf");
    let stem0 = strip_rep(&base, &gguf);
    let stem = deshard_chars(&stem0);
    let dash = str_to_chars("-");
    let dot = str_to_chars(".");
    let sl = stem.len();
    match rfind_exec(&stem, &dash) {
        Some(h) => {
            proof {
                assert(contains_at(stem@, h as int, "-"@)) by {
                    crate::text::lemma_rfind_characterization(stem@, "-"@);
                }
            }
            let cand = subrange_chars(&stem, h + 1, sl);
            if looks_like_quant_chars(&cand) {
                return cand;
            }
            parse_quant_dot(&stem)
        },
        None => parse_quant_dot(&stem),
    }
}

fn parse_quant_dot(stem: &Vec<char>) -> (r: Vec<char>)
    requires
        ({
            let dash = match rfind_spec(stem@, "-"@) {
                Some(h) => Some(stem@.subrange(h + 1, stem@.len() as int)),
                None => None::<Seq<char>>,
            };
            !(dash is Some && looks_like_quant_spec(dash->Some_0))
        }),
    ensures
        ({
            let dot = match rfind_spec(stem@, "."@) {
                Some(h) => Some(stem@.subrange(h + 1, stem@.len() as int)),
                None => None::<Seq<char>>,
            };
            r@ == if dot is Some && looks_like_quant_spec(dot->Some_0) {
                dot->Some_0
            } else {
                "unknown"@
            }
        }),
{
    proof {
        reveal_strlit(".");
        reveal_strlit("unknown");
    }
    let dot = str_to_chars(".");
    let sl = stem.len();
    match rfind_exec(stem, &dot) {
        Some(h) => {
            proof {
                assert(contains_at(stem@, h as int, "."@)) by {
                    crate::text::lemma_rfind_characterization(stem@, "."@);
                }
            }
            let cand = subrange_chars(stem, h + 1, sl);
            if looks_like_quant_chars(&cand) {
                return cand;
            }
            str_to_chars("unknown")
        },
        None => str_to_chars("unknown"),
    }
}

/// Whether the file is one shard of a multi-part GGUF.
pub fn is_shard_file(filename: &str) -> (r: bool)
    ensures
        r == is_shard_spec(filename@),
{
    proof {
        reveal_strlit(".gguf");
        reveal_strlit("-of-");
        reveal_strlit("-");
    }
    let chars = str_to_chars(filename);
    let base = last_segment_chars(&chars);
    let gguf = str_to_chars(".gguf");
    let stem = strip_rep(&base, &gguf);
    let of = str_to_chars("-of-");
    let dash = str_to_chars("-");
    match rfind_exec(&stem, &of) {
        Some(pos) => {
            proof {
                assert(contains_at(stem@, pos as int, "-of-"@)) by {
                    crate::text::lemma_rfind_characterization(stem@, "-of-"@);
                }
            }
            let head = subrange_chars(&stem, 0, pos);
            let hl = head.len();
            let comp = match rfind_exec(&head, &dash) {
                Some(h) => {
                    proof {
                        assert(contains_at(head@, h as int, "-"@)) by {
                            crate::text::lemma_rfind_characterization(head@, "-"@);
                        }
                    }
                    subrange_chars(&head, h + 1, hl)
                },
                None => {
                    let w = subrange_chars(&head, 0, hl);
                    proof {
                        assert(w@ =~= head@);
                    }
                    w
                },
            };
            let ghost comp_spec = match rfind_spec(head@, "-"@) {
                Some(h) => head@.subrange(h + 1, head@.len() as int),
                None => head@,
            };
            proof {
                assert(comp@ == comp_spec);
            }
            if comp.len() == 0 {
                return false;
            }
            let ghost shard_now = is_shard_spec(filename@);
            proof {
                assert(stem@ == stem_spec(filename@));
                assert(rfind_spec(stem_spec(filename@), "-of-"@) == Some(pos as int));
                let hs = stem_spec(filename@).subrange(0, pos as int);
                assert(head@ == hs);
                match rfind_spec(head@, "-"@) {
                    Some(h) => {
                        assert(rfind_spec(hs, "-"@) == Some(h));
                        assert(comp@ == hs.subrange(h + 1, hs.len() as int));
                    },
                    None => {
                        assert(rfind_spec(hs, "-"@) is None);
                        assert(comp@ == hs);
                    },
                }
                assert(shard_now == (comp@.len() > 0 && all_digits_spec(comp@)));
            }
            let mut all_dig = true;
            let mut k: usize = 0;
            while k < comp.len()
                invariant
                    k <= comp@.len(),
                    all_dig == (forall|j: int| 0 <= j < k ==> is_digit_spec(comp@[j])),
                decreases comp@.len() - k,
            {
                if !is_digit(comp[k]) {
                    all_dig = false;
                }
                k += 1;
            }
            proof {
                assert(all_dig == all_digits_spec(comp@));
            }
            comp.len() > 0 && all_dig
        },
        None => false,
    }
}

/// The download URL of a file in a repo.
pub fn build_download_url(repo_id: &str, filename: &str) -> (r: String)
    ensures
        r@ == download_url_spec(repo_id@, filename@),
{
    let mut out = str_to_chars("https://huggingface.co");
    let slash = str_to_chars("/");
    let repo = str_to_chars(repo_id);
    let mid = str_to_chars("/resolve/main/");
    let file = str_to_chars(filename);
    extend_chars(&mut out, &slash);
    extend_chars(&mut out, &repo);
    extend_chars(&mut out, &mid);
    extend_chars(&mut out, &file);
    chars_to_string(&out)
}

/// What `parse_model_spec` accepts: the text before the last `:` (which
/// must contain a `/`) and the text after it.
pub open spec fn parse_model_spec_spec(s: Seq<char>) -> Option<(Seq<char>, Seq<char>)> {
    match rfind_spec(s, ":"@) {
        None => None,
        Some(i) => {
            let repo = s.subrange(0, i);
            let quant = s.subrange(i + 1, s.len() as int);
            if contains_sub(repo, "/"@) {
                Some((repo, quant))
            } else {
                None
            }
        },
    }
}

/// Parse a model spec such as `author/repo:QUANT` into its repo id and
/// quantization; a spec without `:` or without `/` is a bad request.
pub fn parse_model_spec(spec: &str) -> (r: Result<(String, String), ProviderError>)
    ensures
        match r {
            Ok((repo, quant)) => parse_model_spec_spec(spec@) == Some((repo@, quant@)),
            Err(e) => parse_model_spec_spec(spec@) is None && e is BadRequest,
        },
{
    proof {
        reveal_strlit(":");
        reveal_strlit("/");
    }
    let chars = str_to_chars(spec);
    let colon = str_to_chars(":");
    let slash = str_to_chars("/");
    let cl = chars.len();
    match rfind_exec(&chars, &colon) {
        Some(i) => {
            proof {
                assert(contains_at(chars@, i as int, ":"@)) by {
                    crate::text::lemma_rfind_characterization(chars@, ":"@);
                }
            }
            let repo = subrange_chars(&chars, 0, i);
            let quant = subrange_chars(&chars, i + 1, cl);
            match find_sub(&repo, &slash) {
                Some(_) => Ok((chars_to_string(&repo), chars_to_string(&quant))),
                None => Err(
                    ProviderError::BadRequest(
                        "invalid repo id: expected the form author/repo".to_owned(),
                    ),
                ),
            }
        },
        None => Err(
            ProviderError::BadRequest(
                "invalid model spec: expected the form author/repo:quantization".to_owned(),
            ),
        ),
    }
}

/// Whether a repo file becomes a variant: a single-file GGUF whose
/// quantization tag is recognized.
pub open spec fn variant_file_pred(f: RepoFile) -> bool {
    &&& ".gguf"@.len() <= f.rfilename@.len() && contains_at(
        f.rfilename@,
        f.rfilename@.len() - ".gguf"@.len(),
        ".gguf"@,
    )
    &&& !is_shard_spec(f.rfilename@)
    &&& parse_quant_spec(f.rfilename@) != "unknown"@
}

/// The variant built from one kept file.
pub open spec fn variant_matches(v: HfQuantVariant, f: RepoFile, repo_id: Seq<char>) -> bool {
    let q = parse_quant_spec(f.rfilename@);
    &&& v.quantization@ == q
    &&& v.size_bytes == (match f.size {
        Some(s) => s,
        None => 0,
    })
    &&& v.filename@ == f.rfilename@
    &&& v.download_url@ == download_url_spec(repo_id, f.rfilename@)
    &&& v.description@ == quant_desc(q)
    &&& v.quality_rank == quant_rank(q)
}

/// Insert `x` into a run sorted by quality rank, before the first
/// strictly greater rank.
pub open spec fn ins_variant(sorted: Seq<HfQuantVariant>, x: HfQuantVariant) -> Seq<
    HfQuantVariant,
>
    decreases sorted.len(),
{
    if sorted.len() == 0 {
        seq![x]
    } else if sorted[0].quality_rank > x.quality_rank {
        seq![x] + sorted
    } else {
        seq![sorted[0]] + ins_variant(sorted.drop_first(), x)
    }
}

/// The stable insertion sort of `s` by quality rank.
pub open spec fn insort_variants(s: Seq<HfQuantVariant>) -> Seq<HfQuantVariant>
    decreases s.len(),
{
    if s.len() == 0 {
        Seq::empty()
    } else {
        ins_variant(insort_variants(s.drop_last()), s.last())
    }
}

proof fn lemma_ins_at(sorted: Seq<HfQuantVariant>, x: HfQuantVariant, idx: int)
    requires
        0 <= idx <= sorted.len(),
        forall|j: int| 0 <= j < idx ==> (#[trigger] sorted[j]).quality_rank <= x.quality_rank,
        idx < sorted.len() ==> sorted[idx].quality_rank > x.quality_rank,
    ensures
        ins_variant(sorted, x) == sorted.subrange(0, idx) + seq![x] + sorted.subrange(
            idx,
            sorted.len() as int,
        ),
    decreases sorted.len(),
{
    if sorted.len() == 0 {
        assert(ins_variant(sorted, x) =~= sorted.subrange(0, idx) + seq![x] + sorted.subrange(
            idx,
            sorted.len() as int,
        ));
    } else if idx == 0 {
        assert(ins_variant(sorted, x) =~= sorted.subrange(0, 0) + seq![x] + sorted.subrange(
            0,
            sorted.len() as int,
        ));
    } else {
        assert(sorted[0].quality_rank <= x.quality_rank);
        lemma_ins_at(sorted.drop_first(), x, idx - 1);
        assert forall|j: int|
            0 <= j < idx - 1 implies (#[trigger] sorted.drop_first()[j]).quality_rank
            <= x.quality_rank by {
            assert(sorted.drop_first()[j] == sorted[j + 1]);
        }
        assert(ins_variant(sorted, x) =~= sorted.subrange(0, idx) + seq![x] + sorted.subrange(
            idx,
            sorted.len() as int,
        ));
    }
}

/// Insert one variant into a vector sorted by rank.
fn insert_sorted(out: &mut Vec<HfQuantVariant>, x: HfQuantVariant)
    ensures
        final(out)@ == ins_variant(old(out)@, x),
{
    let mut idx: usize = 0;
    while idx < out.len() && out[idx].quality_rank <= x.quality_rank
        invariant
            idx <= out@.len(),
            out@ == old(out)@,
            forall|j: int| 0 <= j < idx ==> (#[trigger] out@[j]).quality_rank <= x.quality_rank,
        decreases out@.len() - idx,
    {
        idx += 1;
    }
    proof {
        lemma_ins_at(out@, x, idx as int);
    }
    out.insert(idx, x);
    proof {
        assert(final(out)@ =~= old(out)@.subrange(0, idx as int) + seq![x] + old(
            out,
        )@.subrange(idx as int, old(out)@.len() as int));
    }
}

/// Sort variants by quality rank, keeping the order of equals.
fn sort_variants(v: Vec<HfQuantVariant>) -> (r: Vec<HfQuantVariant>)
    ensures
        r@ == insort_variants(v@),
{
    let ghost orig = v@;
    let mut v = v;
    let mut out: Vec<HfQuantVariant> = Vec::new();
    proof {
        assert(orig.subrange(0, 0) =~= Seq::<HfQuantVariant>::empty());
        assert(v@ =~= orig.subrange(0, orig.len() as int));
    }
    while v.len() > 0
        invariant
            v@.len() <= orig.len(),
            out@ == insort_variants(orig.subrange(0, orig.len() - v@.len())),
            v@ == orig.subrange(orig.len() - v@.len(), orig.len() as int),
        decreases v@.len(),
    {
        let ghost k = orig.len() - v@.len();
        proof {
            assert(0 <= k < orig.len());
        }
        let ghost vpre = v@;
        let x = v.remove(0);
        proof {
            assert(vpre == orig.subrange(k, orig.len() as int));
            assert(x == vpre[0]);
            assert(vpre[0] == orig.subrange(k, orig.len() as int)[0]);
            assert(x == orig[k]);
            assert(v@ =~= orig.subrange(k + 1, orig.len() as int));
        }
        insert_sorted(&mut out, x);
        proof {
            assert(orig.subrange(0, k + 1).drop_last() =~= orig.subrange(0, k));
            assert(orig.subrange(0, k + 1).last() == orig[k]);
        }
    }
    proof {
        assert(orig.subrange(0, orig.len() as int) =~= orig);
    }
    out
}

/// Group a repo's files into quantization variants: single-file GGUFs
/// with a recognized tag, ordered by quality rank (stable for ties).
pub fn group_into_variants(repo_id: &str, files: Vec<RepoFile>) -> (r: Vec<HfQuantVariant>)
    ensures
        exists|unsorted: Seq<HfQuantVariant>|
            #![trigger insort_variants(unsorted)]
            {
                let kept = files@.filter(|f: RepoFile| variant_file_pred(f));
                &&& unsorted.len() == kept.len()
                &&& (forall|i: int|
                    0 <= i < unsorted.len() ==> variant_matches(
                        #[trigger] unsorted[i],
                        kept[i],
                        repo_id@,
                    ))
                &&& r@ == insort_variants(unsorted)
            },
{
    let ghost pred = |f: RepoFile| variant_file_pred(f);
    let gguf = str_to_chars(".gguf");
    proof {
        reveal_strlit(".gguf");
        reveal_strlit("unknown");
    }
    let mut unsorted: Vec<HfQuantVariant> = Vec::new();
    let mut i: usize = 0;
    proof {
        reveal(Seq::filter);
        assert(files@.subrange(0, 0) =~= Seq::<RepoFile>::empty());
    }
    while i < files.len()
        invariant
            i <= files@.len(),
            gguf@ == ".gguf"@,
            ({
                let kept = files@.subrange(0, i as int).filter(
                    |f: RepoFile| variant_file_pred(f),
                );
                &&& unsorted@.len() == kept.len()
                &&& (forall|k: int|
                    0 <= k < unsorted@.len() ==> variant_matches(
                        #[trigger] unsorted@[k],
                        kept[k],
                        repo_id@,
                    ))
            }),
        decreases files@.len() - i,
    {
        let ghost kept_pre = files@.subrange(0, i as int).filter(
            |f: RepoFile| variant_file_pred(f),
        );
        let f = &files[i];
        let name_chars = str_to_chars(f.rfilename.as_str());
        let is_gguf = ends_with_sub(&name_chars, &gguf);
        let mut keep = false;
        if is_gguf {
            if !is_shard_file(f.rfilename.as_str()) {
                let q = parse_quantization(f.rfilename.as_str());
                if !str_eq(q.as_str(), "unknown") {
                    keep = true;
                    let (desc, rank) = quant_info(q.as_str());
                    let url = build_download_url(repo_id, f.rfilename.as_str());
                    let v = HfQuantVariant {
                        quantization: q,
                        size_bytes: match f.size {
                            Some(s) => s,
                            None => 0,
                        },
                        filename: clone_str(&f.rfilename),
                        download_url: url,
                        description: desc,
                        quality_rank: rank,
                    };
                    unsorted.push(v);
                }
            }
        }
        proof {
            let fp = files@.subrange(0, i + 1);
            assert(fp.drop_last() =~= files@.subrange(0, i as int));
            assert(fp.last() == files@[i as int]);
            crate::registry::lemma_filter_unfold(fp, |f: RepoFile| variant_file_pred(f));
            if keep {
                assert(variant_file_pred(files@[i as int]));
            } else {
                assert(!variant_file_pred(files@[i as int]));
            }
        }
        i += 1;
    }
    proof {
        assert(files@.subrange(0, files@.len() as int) =~= files@);
    }
    let ghost u = unsorted@;
    let r = sort_variants(unsorted);
    proof {
        let kept = files@.filter(|f: RepoFile| variant_file_pred(f));
        assert(u.len() == kept.len() && (forall|i: int|
            0 <= i < u.len() ==> variant_matches(#[trigger] u[i], kept[i], repo_id@)) && r@
            == insort_variants(u));
    }
    r
}

/// Memory usable for weights: about 85 percent of what is free, the
/// rest reserved for inference overhead.
pub open spec fn usable_weight_memory(available: u64) -> int {
    (available as int) * 17 / 20
}

/// Recommend the variant to download: the highest-quality one whose
/// advertised size fits in the usable memory; the earliest among equal
/// ranks. `None` when nothing fits.
pub fn recommend_variant(variants: &Vec<HfQuantVariant>, available_memory_bytes: u64) -> (r:
    Option<usize>)
    ensures
        match r {
            Some(i) => ({
                &&& i < variants@.len()
                &&& variants@[i as int].size_bytes <= usable_weight_memory(available_memory_bytes)
                &&& (forall|j: int|
                    0 <= j < variants@.len() && (#[trigger] variants@[j]).size_bytes
                        <= usable_weight_memory(available_memory_bytes) ==> variants@[j].quality_rank
                        <= variants@[i as int].quality_rank)
                &&& (forall|j: int|
                    0 <= j < i && (#[trigger] variants@[j]).size_bytes <= usable_weight_memory(
                        available_memory_bytes,
                    ) ==> variants@[j].quality_rank < variants@[i as int].quality_rank)
            }),
            None => forall|j: int|
                0 <= j < variants@.len() ==> (#[trigger] variants@[j]).size_bytes
                    > usable_weight_memory(available_memory_bytes),
        },
{
    let usable128: u128 = (available_memory_bytes as u128) * 17 / 20;
    let usable: u64 = usable128 as u64;
    proof {
        assert(usable == usable_weight_memory(available_memory_bytes));
    }
    let mut best: Option<usize> = None;
    let mut i: usize = 0;
    while i < variants.len()
        invariant
            i <= variants@.len(),
            usable == usable_weight_memory(available_memory_bytes),
            match best {
                Some(b) => ({
                    &&& b < i
                    &&& variants@[b as int].size_bytes <= usable
                    &&& (forall|j: int|
                        0 <= j < i && (#[trigger] variants@[j]).size_bytes <= usable
                            ==> variants@[j].quality_rank <= variants@[b as int].quality_rank)
                    &&& (forall|j: int|
                        0 <= j < b && (#[trigger] variants@[j]).size_bytes <= usable
                            ==> variants@[j].quality_rank < variants@[b as int].quality_rank)
                }),
                None => forall|j: int|
                    0 <= j < i ==> (#[trigger] variants@[j]).size_bytes > usable,
            },
        decreases variants@.len() - i,
    {
        if variants[i].size_bytes <= usable {
            match best {
                Some(b) => {
                    if variants[b].quality_rank < variants[i].quality_rank {
                        best = Some(i);
                    }
                },
                None => {
                    best = Some(i);
                },
            }
        }
        i += 1;
    }
    best
}

} // verus!
