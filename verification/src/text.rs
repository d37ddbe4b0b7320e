//! Character-sequence utilities shared by the text machinery.
//!
//! The parsers in this crate work over `Vec<char>`, whose view is the
//! same `Seq<char>` that `&str` views give, so positions are always
//! character indices and never byte offsets inside a code point.

use vstd::prelude::*;

verus! {

use vstd::std_specs::iter::IteratorSpec;

/// `needle` occurs in `hay` starting at position `i`.
pub open spec fn contains_at(hay: Seq<char>, i: int, needle: Seq<char>) -> bool {
    0 <= i && i + needle.len() <= hay.len() && hay.subrange(i, i + needle.len()) == needle
}

/// `needle` occurs somewhere in `hay`.
pub open spec fn contains_sub(hay: Seq<char>, needle: Seq<char>) -> bool {
    exists|i: int| contains_at(hay, i, needle)
}

/// `i` is the first occurrence of `needle` in `hay` at or after `from`.
pub open spec fn is_first_occurrence_from(
    hay: Seq<char>,
    needle: Seq<char>,
    from: int,
    i: int,
) -> bool {
    &&& from <= i
    &&& contains_at(hay, i, needle)
    &&& forall|j: int| from <= j < i ==> !contains_at(hay, j, needle)
}

/// `i` is the last occurrence of `needle` in `hay`.
pub open spec fn is_last_occurrence(hay: Seq<char>, needle: Seq<char>, i: int) -> bool {
    &&& contains_at(hay, i, needle)
    &&& forall|j: int| i < j ==> !contains_at(hay, j, needle)
}

/// Compare `needle` against `hay` at position `i`.
pub fn match_at(hay: &Vec<char>, i: usize, needle: &Vec<char>) -> (r: bool)
    requires
        i + needle@.len() <= hay@.len(),
    ensures
        r == contains_at(hay@, i as int, needle@),
{
    let n = needle.len();
    let hlen = hay.len();
    let mut j: usize = 0;
    while j < n
        invariant
            j <= n,
            n == needle@.len(),
            hlen == hay@.len(),
            i + n <= hay@.len(),
            forall|t: int| 0 <= t < j ==> hay@[i + t] == needle@[t],
        decreases n - j,
    {
        if hay[i + j] != needle[j] {
            assert(hay@.subrange(i as int, i + n) != needle@) by {
                assert(hay@.subrange(i as int, i + n)[j as int] == hay@[i + j]);
            }
            return false;
        }
        j += 1;
    }
    assert(hay@.subrange(i as int, i + n) =~= needle@);
    true
}

/// Find the first occurrence of `needle` at or after `from`.
pub fn find_sub_from(hay: &Vec<char>, needle: &Vec<char>, from: usize) -> (r: Option<usize>)
    requires
        needle@.len() > 0,
    ensures
        match r {
            Some(i) => is_first_occurrence_from(hay@, needle@, from as int, i as int),
            None => forall|j: int| from <= j ==> !contains_at(hay@, j, needle@),
        },
{
    let n = needle.len();
    let hlen = hay.len();
    if hlen < n || from > hlen - n {
        return None;
    }
    let mut i: usize = from;
    while i <= hlen - n
        invariant
            n == needle@.len(),
            n >= 1,
            n <= hlen,
            hlen == hay@.len(),
            from <= i <= hlen - n + 1,
            forall|j: int| from <= j < i ==> !contains_at(hay@, j, needle@),
        decreases hlen - i,
    {
        if match_at(hay, i, needle) {
            return Some(i);
        }
        i += 1;
    }
    None
}

/// Find the first occurrence of `needle` in `hay`.
pub fn find_sub(hay: &Vec<char>, needle: &Vec<char>) -> (r: Option<usize>)
    requires
        needle@.len() > 0,
    ensures
        match r {
            Some(i) => is_first_occurrence_from(hay@, needle@, 0, i as int),
            None => !contains_sub(hay@, needle@),
        },
{
    let r = find_sub_from(hay, needle, 0);
    proof {
        if r is None {
            assert forall|i: int| !contains_at(hay@, i, needle@) by {}
        }
    }
    r
}

/// Find the last occurrence of `needle` in `hay`.
pub fn rfind_sub(hay: &Vec<char>, needle: &Vec<char>) -> (r: Option<usize>)
    requires
        needle@.len() > 0,
    ensures
        match r {
            Some(i) => is_last_occurrence(hay@, needle@, i as int),
            None => !contains_sub(hay@, needle@),
        },
{
    let n = needle.len();
    if hay.len() < n {
        return None;
    }
    let mut i: usize = hay.len() - n + 1;
    while i > 0
        invariant
            n == needle@.len(),
            n <= hay@.len(),
            i <= hay@.len() - n + 1,
            forall|j: int| i <= j ==> !contains_at(hay@, j, needle@),
        decreases i,
    {
        i -= 1;
        if match_at(hay, i, needle) {
            return Some(i);
        }
    }
    None
}

/// `hay` starts with `needle`.
pub fn starts_with_sub(hay: &Vec<char>, needle: &Vec<char>) -> (r: bool)
    ensures
        r == contains_at(hay@, 0, needle@),
{
    if needle.len() > hay.len() {
        return false;
    }
    match_at(hay, 0, needle)
}

/// `hay` ends with `needle`.
pub fn ends_with_sub(hay: &Vec<char>, needle: &Vec<char>) -> (r: bool)
    ensures
        r == (needle@.len() <= hay@.len() && contains_at(
            hay@,
            hay@.len() - needle@.len(),
            needle@,
        )),
{
    if needle.len() > hay.len() {
        return false;
    }
    match_at(hay, hay.len() - needle.len(), needle)
}

/// Copy the characters of `v` in positions `from..to`.
pub fn subrange_chars(v: &Vec<char>, from: usize, to: usize) -> (r: Vec<char>)
    requires
        from <= to <= v@.len(),
    ensures
        r@ == v@.subrange(from as int, to as int),
{
    let mut r: Vec<char> = Vec::new();
    let mut i: usize = from;
    while i < to
        invariant
            from <= i <= to <= v@.len(),
            r@ == v@.subrange(from as int, i as int),
        decreases to - i,
    {
        r.push(v[i]);
        proof {
            assert(v@.subrange(from as int, i + 1) =~= v@.subrange(from as int, i as int).push(
                v@[i as int],
            ));
        }
        i += 1;
    }
    r
}

/// Append the characters of `src` to `dst`.
pub fn extend_chars(dst: &mut Vec<char>, src: &Vec<char>)
    ensures
        final(dst)@ == old(dst)@ + src@,
{
    let ghost orig = dst@;
    let mut i: usize = 0;
    while i < src.len()
        invariant
            i <= src@.len(),
            dst@ == orig + src@.subrange(0, i as int),
        decreases src@.len() - i,
    {
        dst.push(src[i]);
        proof {
            assert(orig + src@.subrange(0, i + 1) =~= (orig + src@.subrange(
                0,
                i as int,
            )).push(src@[i as int]));
        }
        i += 1;
    }
    proof {
        assert(src@.subrange(0, src@.len() as int) =~= src@);
    }
}

/// The characters Unicode calls white space.
pub open spec fn is_ws_spec(c: char) -> bool {
    let n = c as int;
    ||| n == 0x09
    ||| n == 0x0A
    ||| n == 0x0B
    ||| n == 0x0C
    ||| n == 0x0D
    ||| n == 0x20
    ||| n == 0x85
    ||| n == 0xA0
    ||| n == 0x1680
    ||| (0x2000 <= n && n <= 0x200A)
    ||| n == 0x2028
    ||| n == 0x2029
    ||| n == 0x202F
    ||| n == 0x205F
    ||| n == 0x3000
}

/// Whether `c` is white space (the Unicode `White_Space` set).
pub fn is_ws(c: char) -> (r: bool)
    ensures
        r == is_ws_spec(c),
{
    let n = c as u32;
    n == 0x09 || n == 0x0A || n == 0x0B || n == 0x0C || n == 0x0D || n == 0x20 || n == 0x85
        || n == 0xA0 || n == 0x1680 || (0x2000 <= n && n <= 0x200A) || n == 0x2028 || n == 0x2029
        || n == 0x202F || n == 0x205F || n == 0x3000
}

/// `s` with trailing white space removed.
pub open spec fn trim_end_spec(s: Seq<char>) -> Seq<char>
    decreases s.len(),
{
    if s.len() > 0 && is_ws_spec(s.last()) {
        trim_end_spec(s.drop_last())
    } else {
        s
    }
}

/// `s` with leading white space removed.
pub open spec fn trim_start_spec(s: Seq<char>) -> Seq<char>
    decreases s.len(),
{
    if s.len() > 0 && is_ws_spec(s[0]) {
        trim_start_spec(s.drop_first())
    } else {
        s
    }
}

/// `s` with white space removed from both ends.
pub open spec fn trim_spec(s: Seq<char>) -> Seq<char> {
    trim_start_spec(trim_end_spec(s))
}

/// The index where the trailing white space of `v` begins.
pub fn trim_end_idx(v: &Vec<char>) -> (r: usize)
    ensures
        r <= v@.len(),
        v@.subrange(0, r as int) == trim_end_spec(v@),
{
    let mut i: usize = v.len();
    proof {
        assert(v@.subrange(0, v@.len() as int) =~= v@);
    }
    while i > 0
        invariant
            i <= v@.len(),
            trim_end_spec(v@.subrange(0, i as int)) == trim_end_spec(v@),
        decreases i,
    {
        if is_ws(v[i - 1]) {
            proof {
                let pre = v@.subrange(0, i as int);
                assert(pre.last() == v@[i - 1]);
                assert(pre.drop_last() =~= v@.subrange(0, i - 1));
            }
            i -= 1;
        } else {
            proof {
                let pre = v@.subrange(0, i as int);
                assert(pre.last() == v@[i - 1]);
                assert(trim_end_spec(pre) == pre);
            }
            return i;
        }
    }
    proof {
        assert(v@.subrange(0, 0) =~= Seq::<char>::empty());
    }
    0
}

/// The index where the leading white space of `v` ends.
pub fn trim_start_idx(v: &Vec<char>) -> (r: usize)
    ensures
        r <= v@.len(),
        v@.subrange(r as int, v@.len() as int) == trim_start_spec(v@),
{
    let mut i: usize = 0;
    proof {
        assert(v@.subrange(0, v@.len() as int) =~= v@);
    }
    while i < v.len()
        invariant
            i <= v@.len(),
            trim_start_spec(v@.subrange(i as int, v@.len() as int)) == trim_start_spec(v@),
        decreases v@.len() - i,
    {
        if is_ws(v[i]) {
            proof {
                let suf = v@.subrange(i as int, v@.len() as int);
                assert(suf[0] == v@[i as int]);
                assert(suf.drop_first() =~= v@.subrange(i + 1, v@.len() as int));
            }
            i += 1;
        } else {
            proof {
                let suf = v@.subrange(i as int, v@.len() as int);
                assert(suf[0] == v@[i as int]);
                assert(trim_start_spec(suf) == suf);
            }
            return i;
        }
    }
    proof {
        assert(v@.subrange(v@.len() as int, v@.len() as int) =~= Seq::<char>::empty());
    }
    v.len()
}

/// The characters of `v` with white space removed from both ends.
pub fn trim_chars(v: &Vec<char>) -> (r: Vec<char>)
    ensures
        r@ == trim_spec(v@),
{
    let end = trim_end_idx(v);
    let kept = subrange_chars(v, 0, end);
    let start = trim_start_idx(&kept);
    subrange_chars(&kept, start, kept.len())
}

/// Every character of `s` is white space.
pub open spec fn all_ws(s: Seq<char>) -> bool {
    forall|i: int| 0 <= i < s.len() ==> is_ws_spec(s[i])
}

/// Whether every character of `v` is white space.
pub fn all_ws_chars(v: &Vec<char>) -> (r: bool)
    ensures
        r == all_ws(v@),
{
    let mut i: usize = 0;
    while i < v.len()
        invariant
            i <= v@.len(),
            forall|k: int| 0 <= k < i ==> is_ws_spec(v@[k]),
        decreases v@.len() - i,
    {
        if !is_ws(v[i]) {
            return false;
        }
        i += 1;
    }
    true
}

/// `s` with every trailing repetition of `pat` removed.
pub open spec fn strip_suffix_rep(s: Seq<char>, pat: Seq<char>) -> Seq<char>
    decreases s.len(),
{
    if pat.len() > 0 && s.len() >= pat.len() && s.subrange(s.len() - pat.len(), s.len() as int)
        == pat {
        strip_suffix_rep(s.subrange(0, s.len() - pat.len()), pat)
    } else {
        s
    }
}

/// Remove every trailing repetition of `pat` from `v`.
pub fn strip_rep(v: &Vec<char>, pat: &Vec<char>) -> (r: Vec<char>)
    requires
        pat@.len() > 0,
    ensures
        r@ == strip_suffix_rep(v@, pat@),
    decreases v@.len(),
{
    if ends_with_sub(v, pat) {
        let shorter = subrange_chars(v, 0, v.len() - pat.len());
        strip_rep(&shorter, pat)
    } else {
        let r = subrange_chars(v, 0, v.len());
        proof {
            assert(r@ =~= v@);
        }
        r
    }
}

/// `s` with every leading repetition of `pat` removed.
pub open spec fn strip_prefix_rep(s: Seq<char>, pat: Seq<char>) -> Seq<char>
    decreases s.len(),
{
    if pat.len() > 0 && s.len() >= pat.len() && s.subrange(0, pat.len() as int) == pat {
        strip_prefix_rep(s.subrange(pat.len() as int, s.len() as int), pat)
    } else {
        s
    }
}

/// Remove every leading repetition of `pat` from `v`.
pub fn strip_prefix_rep_chars(v: &Vec<char>, pat: &Vec<char>) -> (r: Vec<char>)
    requires
        pat@.len() > 0,
    ensures
        r@ == strip_prefix_rep(v@, pat@),
    decreases v@.len(),
{
    if starts_with_sub(v, pat) {
        let vl = v.len();
        let shorter = subrange_chars(v, pat.len(), vl);
        strip_prefix_rep_chars(&shorter, pat)
    } else {
        let r = subrange_chars(v, 0, v.len());
        proof {
            assert(r@ =~= v@);
        }
        r
    }
}

/// Whether two strings hold the same characters.
pub fn str_eq(a: &str, b: &str) -> (r: bool)
    ensures
        r == (a@ == b@),
{
    let va = str_to_chars(a);
    let vb = str_to_chars(b);
    chars_eq(&va, &vb)
}

/// Whether two character vectors hold the same characters.
pub fn chars_eq(a: &Vec<char>, b: &Vec<char>) -> (r: bool)
    ensures
        r == (a@ == b@),
{
    if a.len() != b.len() {
        return false;
    }
    let mut i: usize = 0;
    while i < a.len()
        invariant
            i <= a@.len(),
            a@.len() == b@.len(),
            forall|k: int| 0 <= k < i ==> a@[k] == b@[k],
        decreases a@.len() - i,
    {
        if a[i] != b[i] {
            return false;
        }
        i += 1;
    }
    proof {
        assert(a@ =~= b@);
    }
    true
}

/// The ASCII-lowercase image of `c`.
pub open spec fn ascii_lower_spec(c: char) -> char {
    if 'A' <= c && c <= 'Z' {
        ((c as u8) + 32) as char
    } else {
        c
    }
}

/// Lower-case `c` if it is an ASCII capital letter.
pub fn ascii_lower(c: char) -> (r: char)
    ensures
        r == ascii_lower_spec(c),
{
    if 'A' <= c && c <= 'Z' {
        (((c as u8) + 32) as u8) as char
    } else {
        c
    }
}

/// The ASCII-lowercase image of a sequence.
pub open spec fn ascii_lower_seq(s: Seq<char>) -> Seq<char> {
    s.map_values(|c: char| ascii_lower_spec(c))
}

/// Lower-case every ASCII capital letter of `v`.
pub fn ascii_lower_chars(v: &Vec<char>) -> (r: Vec<char>)
    ensures
        r@ == ascii_lower_seq(v@),
{
    let mut r: Vec<char> = Vec::new();
    let mut i: usize = 0;
    while i < v.len()
        invariant
            i <= v@.len(),
            r@ == ascii_lower_seq(v@.subrange(0, i as int)),
        decreases v@.len() - i,
    {
        r.push(ascii_lower(v[i]));
        proof {
            assert(ascii_lower_seq(v@.subrange(0, i + 1)) =~= ascii_lower_seq(
                v@.subrange(0, i as int),
            ).push(ascii_lower_spec(v@[i as int])));
        }
        i += 1;
    }
    proof {
        assert(v@.subrange(0, v@.len() as int) =~= v@);
    }
    r
}

/// The ASCII-uppercase image of `c`.
pub open spec fn ascii_upper_spec(c: char) -> char {
    if 'a' <= c && c <= 'z' {
        ((c as u8) - 32) as char
    } else {
        c
    }
}

/// Upper-case `c` if it is an ASCII small letter.
pub fn ascii_upper(c: char) -> (r: char)
    ensures
        r == ascii_upper_spec(c),
{
    if 'a' <= c && c <= 'z' {
        (((c as u8) - 32) as u8) as char
    } else {
        c
    }
}

/// The ASCII-uppercase image of a sequence.
pub open spec fn ascii_upper_seq(s: Seq<char>) -> Seq<char> {
    s.map_values(|c: char| ascii_upper_spec(c))
}

/// Upper-case every ASCII small letter of `v`.
pub fn ascii_upper_chars(v: &Vec<char>) -> (r: Vec<char>)
    ensures
        r@ == ascii_upper_seq(v@),
{
    let mut r: Vec<char> = Vec::new();
    let mut i: usize = 0;
    while i < v.len()
        invariant
            i <= v@.len(),
            r@ == ascii_upper_seq(v@.subrange(0, i as int)),
        decreases v@.len() - i,
    {
        r.push(ascii_upper(v[i]));
        proof {
            assert(ascii_upper_seq(v@.subrange(0, i + 1)) =~= ascii_upper_seq(
                v@.subrange(0, i as int),
            ).push(ascii_upper_spec(v@[i as int])));
        }
        i += 1;
    }
    proof {
        assert(v@.subrange(0, v@.len() as int) =~= v@);
    }
    r
}

/// Whether `c` is an ASCII digit.
pub open spec fn is_digit_spec(c: char) -> bool {
    '0' <= c && c <= '9'
}

/// Whether `c` is an ASCII digit.
pub fn is_digit(c: char) -> (r: bool)
    ensures
        r == is_digit_spec(c),
{
    '0' <= c && c <= '9'
}

/// The last occurrence of `needle` at or before `i`.
pub open spec fn rfind_rec(hay: Seq<char>, needle: Seq<char>, i: int) -> Option<int>
    decreases i + 1,
{
    if needle.len() <= 0 || i < 0 || i + needle.len() > hay.len() {
        None
    } else if contains_at(hay, i, needle) {
        Some(i)
    } else {
        rfind_rec(hay, needle, i - 1)
    }
}

/// The last occurrence of `needle` in `hay`.
pub open spec fn rfind_spec(hay: Seq<char>, needle: Seq<char>) -> Option<int> {
    rfind_rec(hay, needle, hay.len() - needle.len())
}

/// `rfind_rec` finds exactly the last occurrence at or before `i`.
pub proof fn lemma_rfind_rec_characterization(hay: Seq<char>, needle: Seq<char>, i: int)
    requires
        needle.len() > 0,
        i < 0 || i + needle.len() <= hay.len(),
    ensures
        match rfind_rec(hay, needle, i) {
            Some(k) => 0 <= k <= i && contains_at(hay, k, needle) && forall|j: int|
                k < j <= i ==> !contains_at(hay, j, needle),
            None => forall|j: int| j <= i ==> !contains_at(hay, j, needle),
        },
    decreases i + 1,
{
    if i >= 0 && !contains_at(hay, i, needle) {
        lemma_rfind_rec_characterization(hay, needle, i - 1);
    }
}

/// `rfind_spec` finds exactly the last occurrence.
pub proof fn lemma_rfind_characterization(hay: Seq<char>, needle: Seq<char>)
    requires
        needle.len() > 0,
    ensures
        match rfind_spec(hay, needle) {
            Some(k) => is_last_occurrence(hay, needle, k),
            None => !contains_sub(hay, needle),
        },
{
    let top = hay.len() - needle.len();
    lemma_rfind_rec_characterization(hay, needle, top);
    match rfind_spec(hay, needle) {
        Some(k) => {
            assert forall|j: int| k < j implies !contains_at(hay, j, needle) by {}
        },
        None => {
            if contains_sub(hay, needle) {
                let w = choose|q: int| contains_at(hay, q, needle);
                assert(!contains_at(hay, w, needle));
            }
        },
    }
}

/// Exec search for the last occurrence, aligned with `rfind_spec`.
pub fn rfind_exec(hay: &Vec<char>, needle: &Vec<char>) -> (r: Option<usize>)
    requires
        needle@.len() > 0,
    ensures
        match r {
            Some(u) => rfind_spec(hay@, needle@) == Some(u as int),
            None => rfind_spec(hay@, needle@) is None,
        },
{
    let r = rfind_sub(hay, needle);
    proof {
        lemma_rfind_characterization(hay@, needle@);
        match r {
            Some(i) => {
                if rfind_spec(hay@, needle@) is None {
                    assert(!contains_at(hay@, i as int, needle@));
                }
                let ip = rfind_spec(hay@, needle@)->Some_0;
                assert(is_last_occurrence(hay@, needle@, ip));
                assert(is_last_occurrence(hay@, needle@, i as int));
                assert(ip == i as int) by {
                    if ip < i as int {
                        assert(!contains_at(hay@, i as int, needle@));
                    }
                    if ip > i as int {
                        assert(!contains_at(hay@, ip, needle@));
                    }
                }
            },
            None => {
                if rfind_spec(hay@, needle@) is Some {
                    let ip = rfind_spec(hay@, needle@)->Some_0;
                    assert(contains_at(hay@, ip, needle@));
                    assert(exists|q: int| contains_at(hay@, q, needle@));
                }
            },
        }
    }
    r
}

/// Copy a string, with its view known.
pub fn clone_str(s: &String) -> (r: String)
    ensures
        r@ == s@,
        r == *s,
{
    s.clone()
}

/// The decimal digit character of `d` (zero to nine).
pub open spec fn dec_digit(d: int) -> char {
    ((48 + d) as u8) as char
}

/// The decimal rendering of `n`, most significant digit first.
pub open spec fn dec_str(n: int) -> Seq<char>
    decreases n,
{
    if n < 10 {
        seq![dec_digit(n)]
    } else {
        dec_str(n / 10) + seq![dec_digit(n % 10)]
    }
}

/// Render `n` in decimal.
pub fn usize_to_chars(n: usize) -> (r: Vec<char>)
    ensures
        r@ == dec_str(n as int),
    decreases n,
{
    let d: u8 = (n % 10) as u8 + 48;
    let c: char = d as char;
    proof {
        assert(c == dec_digit((n % 10) as int));
    }
    if n < 10 {
        let mut v: Vec<char> = Vec::new();
        v.push(c);
        proof {
            assert(n % 10 == n as int);
            assert(v@ =~= dec_str(n as int));
        }
        v
    } else {
        let mut v = usize_to_chars(n / 10);
        v.push(c);
        proof {
            assert(v@ =~= dec_str((n / 10) as int) + seq![dec_digit((n % 10) as int)]);
        }
        v
    }
}

/// Render `n` in decimal.
pub fn usize_to_string(n: usize) -> (r: String)
    ensures
        r@ == dec_str(n as int),
{
    let v = usize_to_chars(n);
    chars_to_string(&v)
}

/// Collect the characters of `s` into a vector.
pub fn str_to_chars(s: &str) -> (r: Vec<char>)
    ensures
        r@ == s@,
{
    broadcast use vstd::string::group_string_axioms;

    let mut it = s.chars();
    let mut v: Vec<char> = Vec::new();
    loop
        invariant
            it.obeys_prophetic_iter_laws(),
            v@ + IteratorSpec::remaining(&it) == s@,
            v@.len() <= s@.len(),
        ensures
            v@ == s@,
        decreases s@.len() - v@.len(),
    {
        match it.next() {
            Some(c) => {
                v.push(c);
                proof {
                    assert(v@ + IteratorSpec::remaining(&it) =~= s@);
                }
            },
            None => {
                proof {
                    assert(v@ =~= s@);
                }
                break ;
            },
        }
    }
    v
}

/// Relies on `String`'s `FromIterator<char>` impl: collecting characters
/// yields the string of exactly those characters, in order.
#[verifier::external_body]
pub fn chars_to_string(v: &Vec<char>) -> (r: String)
    ensures
        r@ == v@,
{
    v.iter().collect()
}

} // verus!
