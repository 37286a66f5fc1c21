//! Small text helpers shared by the modules: conversion between strings and
//! character vectors, concatenation, and character classes.
use vstd::prelude::*;
use vstd::utf8::{encode_utf8, valid_utf8};

verus! {

/// The characters of `s`, in order (`str::chars`).
#[verifier::external_body]
pub fn chars_of(s: &str) -> (res: Vec<char>)
    ensures
        res@ == s@,
{
    s.chars().collect()
}

/// A string made of the characters of `v` (`String::from_iter`).
#[verifier::external_body]
pub fn string_of(v: &[char]) -> (res: String)
    ensures
        res@ == v@,
{
    v.iter().collect()
}

/// Appends one character (`String::push`).
#[verifier::external_body]
pub fn push_char(s: &mut String, c: char)
    ensures
        final(s)@ == old(s)@.push(c),
{
    s.push(c)
}

/// `a` followed by `b`.
pub fn concat(a: &str, b: &str) -> (res: String)
    ensures
        res@ == a@ + b@,
{
    let mut r = String::from_str(a);
    r.append(b);
    r
}

/// `a`, `b` and `c` in a row.
pub fn concat3(a: &str, b: &str, c: &str) -> (res: String)
    ensures
        res@ == a@ + b@ + c@,
{
    let mut r = String::from_str(a);
    r.append(b);
    r.append(c);
    r
}

/// The string whose only character is `c`.
pub open spec fn one(c: char) -> Seq<char> {
    seq![c]
}

/// Whether two strings hold the same characters.
pub fn str_eq(a: &str, b: &str) -> (res: bool)
    ensures
        res == (a@ == b@),
{
    let x = chars_of(a);
    let y = chars_of(b);
    if x.len() != y.len() {
        return false;
    }
    let mut i: usize = 0;
    while i < x.len()
        invariant
            x@ == a@,
            y@ == b@,
            x@.len() == y@.len(),
            i <= x@.len(),
            forall|k: int| 0 <= k < i ==> x@[k] == y@[k],
        decreases x@.len() - i,
    {
        if x[i] != y[i] {
            return false;
        }
        i = i + 1;
    }
    assert(x@ =~= y@);
    true
}

/// Whether `s` is exactly the one character `c`.
pub fn is_single(s: &str, c: char) -> (res: bool)
    ensures
        res == (s@ == one(c)),
{
    let v = chars_of(s);
    if v.len() == 1 && v[0] == c {
        assert(v@ =~= one(c));
        true
    } else {
        false
    }
}

/// Whether `c` occurs in `s`.
pub fn has_char(s: &str, c: char) -> (res: bool)
    ensures
        res == s@.contains(c),
{
    let v = chars_of(s);
    let mut i: usize = 0;
    while i < v.len()
        invariant
            v@ == s@,
            i <= v@.len(),
            forall|k: int| 0 <= k < i ==> v@[k] != c,
        decreases v@.len() - i,
    {
        if v[i] == c {
            return true;
        }
        i = i + 1;
    }
    false
}

/// ASCII letters and digits.
pub open spec fn is_ascii_alnum(c: char) -> bool {
    ('a' <= c && c <= 'z') || ('A' <= c && c <= 'Z') || ('0' <= c && c <= '9')
}

/// ASCII digits.
pub open spec fn is_digit(c: char) -> bool {
    '0' <= c && c <= '9'
}

pub fn char_is_ascii_alnum(c: char) -> (res: bool)
    ensures
        res == is_ascii_alnum(c),
{
    ('a' <= c && c <= 'z') || ('A' <= c && c <= 'Z') || ('0' <= c && c <= '9')
}

/// The characters that Rust's `char::is_whitespace` accepts: the Unicode
/// `White_Space` property.
pub open spec fn is_ws(c: char) -> bool {
    ||| ('\u{9}' <= c && c <= '\u{d}')
    ||| c == ' '
    ||| c == '\u{85}'
    ||| c == '\u{a0}'
    ||| c == '\u{1680}'
    ||| ('\u{2000}' <= c && c <= '\u{200a}')
    ||| c == '\u{2028}'
    ||| c == '\u{2029}'
    ||| c == '\u{202f}'
    ||| c == '\u{205f}'
    ||| c == '\u{3000}'
}

pub fn char_is_ws(c: char) -> (res: bool)
    ensures
        res == is_ws(c),
{
    ('\u{9}' <= c && c <= '\u{d}') || c == ' ' || c == '\u{85}' || c == '\u{a0}' || c
        == '\u{1680}' || ('\u{2000}' <= c && c <= '\u{200a}') || c == '\u{2028}' || c
        == '\u{2029}' || c == '\u{202f}' || c == '\u{205f}' || c == '\u{3000}'
}

/// Every character of `s` is whitespace (so `s.trim()` is empty).
pub open spec fn all_ws(s: Seq<char>) -> bool {
    forall|i: int| 0 <= i < s.len() ==> #[trigger] is_ws(s[i])
}

pub fn is_blank(s: &str) -> (res: bool)
    ensures
        res == all_ws(s@),
{
    let v = chars_of(s);
    let mut i: usize = 0;
    while i < v.len()
        invariant
            v@ == s@,
            i <= v@.len(),
            forall|k: int| 0 <= k < i ==> #[trigger] is_ws(v@[k]),
        decreases v@.len() - i,
    {
        if !char_is_ws(v[i]) {
            return false;
        }
        i = i + 1;
    }
    true
}


/// Splitting on whitespace, one character at a time: the finished tokens and
/// the token still open at the end of `s`.
pub open spec fn ws_split_acc(s: Seq<char>) -> (Seq<Seq<char>>, Seq<char>)
    decreases s.len(),
{
    if s.len() == 0 {
        (Seq::empty(), Seq::empty())
    } else {
        let (t, c) = ws_split_acc(s.drop_last());
        if is_ws(s.last()) {
            if c.len() > 0 { (t.push(c), Seq::empty()) } else { (t, Seq::empty()) }
        } else {
            (t, c.push(s.last()))
        }
    }
}

/// The maximal runs of non-whitespace characters of `s`, in order
/// (`str::split_whitespace`).
pub open spec fn ws_tokens(s: Seq<char>) -> Seq<Seq<char>> {
    let (t, c) = ws_split_acc(s);
    if c.len() > 0 { t.push(c) } else { t }
}

pub open spec fn views_of(v: Seq<Vec<char>>) -> Seq<Seq<char>> {
    v.map_values(|x: Vec<char>| x@)
}

/// Splits `s` on whitespace.
pub fn split_whitespace(s: &str) -> (res: Vec<Vec<char>>)
    ensures
        views_of(res@) == ws_tokens(s@),
{
    let v = chars_of(s);
    let mut toks: Vec<Vec<char>> = Vec::new();
    let mut cur: Vec<char> = Vec::new();
    let mut i: usize = 0;
    while i < v.len()
        invariant
            v@ == s@,
            i <= v@.len(),
            (views_of(toks@), cur@) == ws_split_acc(v@.take(i as int)),
        decreases v@.len() - i,
    {
        let c = v[i];
        proof {
            assert(v@.take(i + 1).drop_last() =~= v@.take(i as int));
        }
        if char_is_ws(c) {
            if cur.len() > 0 {
                let done = cur;
                cur = Vec::new();
                let ghost old_toks = views_of(toks@);
                toks.push(done);
                proof {
                    assert(views_of(toks@) =~= old_toks.push(done@));
                    assert(cur@ =~= Seq::<char>::empty());
                }
            } else {
                proof { assert(cur@ =~= Seq::<char>::empty()); }
            }
        } else {
            cur.push(c);
        }
        i = i + 1;
    }
    proof { assert(v@.take(v@.len() as int) =~= v@); }
    if cur.len() > 0 {
        let ghost old_toks = views_of(toks@);
        toks.push(cur);
        proof { assert(views_of(toks@) =~= old_toks.push(cur@)); }
    }
    toks
}


/// Splitting on one separator character, left to right: the finished pieces
/// and the piece still open at the end of `s`.
pub open spec fn split_acc(s: Seq<char>, sep: char) -> (Seq<Seq<char>>, Seq<char>)
    decreases s.len(),
{
    if s.len() == 0 {
        (Seq::empty(), Seq::empty())
    } else {
        let (t, c) = split_acc(s.drop_last(), sep);
        if s.last() == sep { (t.push(c), Seq::empty()) } else { (t, c.push(s.last())) }
    }
}

/// The pieces of `s` between occurrences of `sep`, empty pieces included
/// (`str::split` with a character).
pub open spec fn split_on(s: Seq<char>, sep: char) -> Seq<Seq<char>> {
    let (t, c) = split_acc(s, sep);
    t.push(c)
}

/// Splits `s` on `sep`.
pub fn split_char(s: &str, sep: char) -> (res: Vec<Vec<char>>)
    ensures
        views_of(res@) == split_on(s@, sep),
        res@.len() >= 1,
{
    let v = chars_of(s);
    let mut toks: Vec<Vec<char>> = Vec::new();
    let mut cur: Vec<char> = Vec::new();
    let mut i: usize = 0;
    while i < v.len()
        invariant
            v@ == s@,
            i <= v@.len(),
            (views_of(toks@), cur@) == split_acc(v@.take(i as int), sep),
        decreases v@.len() - i,
    {
        let c = v[i];
        proof {
            assert(v@.take(i + 1).drop_last() =~= v@.take(i as int));
        }
        if c == sep {
            let done = cur;
            cur = Vec::new();
            let ghost old_toks = views_of(toks@);
            toks.push(done);
            proof {
                assert(views_of(toks@) =~= old_toks.push(done@));
                assert(cur@ =~= Seq::<char>::empty());
            }
        } else {
            cur.push(c);
        }
        i = i + 1;
    }
    proof { assert(v@.take(v@.len() as int) =~= v@); }
    let ghost old_toks = views_of(toks@);
    toks.push(cur);
    proof { assert(views_of(toks@) =~= old_toks.push(cur@)); }
    toks
}

/// Number of leading whitespace characters of `s`.
pub open spec fn lead_ws(s: Seq<char>) -> nat
    decreases s.len(),
{
    if s.len() > 0 && is_ws(s[0]) { 1 + lead_ws(s.skip(1)) } else { 0 }
}

/// Number of trailing whitespace characters of `s`.
pub open spec fn trail_ws(s: Seq<char>) -> nat
    decreases s.len(),
{
    if s.len() > 0 && is_ws(s.last()) { 1 + trail_ws(s.drop_last()) } else { 0 }
}

/// `s` without leading and trailing whitespace (`str::trim`).
pub open spec fn trim(s: Seq<char>) -> Seq<char> {
    let a = s.skip(lead_ws(s) as int);
    a.take(a.len() - trail_ws(a))
}

/// `s` without leading whitespace (`str::trim_start`).
pub open spec fn trim_start(s: Seq<char>) -> Seq<char> {
    s.skip(lead_ws(s) as int)
}

/// `s` without trailing whitespace (`str::trim_end`).
pub open spec fn trim_end(s: Seq<char>) -> Seq<char> {
    s.take(s.len() - trail_ws(s))
}

proof fn lemma_lead_ws(s: Seq<char>, i: int)
    requires
        0 <= i <= s.len(),
        forall|k: int| 0 <= k < i ==> is_ws(#[trigger] s[k]),
        i == s.len() || !is_ws(s[i]),
    ensures
        lead_ws(s) == i,
    decreases i,
{
    if i > 0 {
        assert forall|k: int| 0 <= k < i - 1 implies is_ws(#[trigger] s.skip(1)[k]) by {
            assert(s.skip(1)[k] == s[k + 1]);
        }
        if i - 1 < s.skip(1).len() {
            assert(s.skip(1)[i - 1] == s[i]);
        }
        lemma_lead_ws(s.skip(1), i - 1);
    }
}

proof fn lemma_trail_ws(s: Seq<char>, j: int)
    requires
        0 <= j <= s.len(),
        forall|k: int| j <= k < s.len() ==> is_ws(#[trigger] s[k]),
        j == 0 || !is_ws(s[j - 1]),
    ensures
        trail_ws(s) == s.len() - j,
    decreases s.len() - j,
{
    if j < s.len() {
        assert forall|k: int| j <= k < s.drop_last().len() implies is_ws(#[trigger] s.drop_last()[k]) by {
            assert(s.drop_last()[k] == s[k]);
        }
        if j > 0 {
            assert(s.drop_last()[j - 1] == s[j - 1]);
        }
        lemma_trail_ws(s.drop_last(), j);
    }
}

/// `s` trimmed of whitespace at both ends.
pub fn trim_chars(s: &Vec<char>) -> (res: Vec<char>)
    ensures
        res@ == trim(s@),
{
    let mut i: usize = 0;
    while i < s.len() && char_is_ws(s[i])
        invariant
            i <= s@.len(),
            forall|k: int| 0 <= k < i ==> is_ws(#[trigger] s@[k]),
        decreases s@.len() - i,
    {
        i = i + 1;
    }
    proof { lemma_lead_ws(s@, i as int); }
    let mut j: usize = s.len();
    while j > i && char_is_ws(s[j - 1])
        invariant
            i <= j <= s@.len(),
            forall|k: int| j <= k < s@.len() ==> is_ws(#[trigger] s@[k]),
        decreases j,
    {
        j = j - 1;
    }
    let ghost a = s@.skip(i as int);
    proof {
        assert forall|k: int| j - i <= k < a.len() implies is_ws(#[trigger] a[k]) by {
            assert(a[k] == s@[k + i]);
        }
        if j > i {
            assert(a[j - i - 1] == s@[j - 1]);
        }
        lemma_trail_ws(a, j - i);
    }
    let mut out: Vec<char> = Vec::new();
    let mut k = i;
    while k < j
        invariant
            i <= k <= j <= s@.len(),
            out@ == s@.subrange(i as int, k as int),
        decreases j - k,
    {
        out.push(s[k]);
        proof { assert(s@.subrange(i as int, k + 1) =~= s@.subrange(i as int, k as int).push(s@[k as int])); }
        k = k + 1;
    }
    assert(out@ =~= trim(s@));
    out
}

/// `s` without leading whitespace.
pub fn trim_start_chars(s: &Vec<char>) -> (res: Vec<char>)
    ensures
        res@ == trim_start(s@),
{
    let mut i: usize = 0;
    while i < s.len() && char_is_ws(s[i])
        invariant
            i <= s@.len(),
            forall|k: int| 0 <= k < i ==> is_ws(#[trigger] s@[k]),
        decreases s@.len() - i,
    {
        i = i + 1;
    }
    proof { lemma_lead_ws(s@, i as int); }
    let mut out: Vec<char> = Vec::new();
    let mut k = i;
    while k < s.len()
        invariant
            i <= k <= s@.len(),
            out@ == s@.subrange(i as int, k as int),
        decreases s@.len() - k,
    {
        out.push(s[k]);
        proof { assert(s@.subrange(i as int, k + 1) =~= s@.subrange(i as int, k as int).push(s@[k as int])); }
        k = k + 1;
    }
    assert(out@ =~= trim_start(s@));
    out
}

/// `s` without trailing whitespace.
pub fn trim_end_chars(s: &Vec<char>) -> (res: Vec<char>)
    ensures
        res@ == trim_end(s@),
{
    let mut j: usize = s.len();
    while j > 0 && char_is_ws(s[j - 1])
        invariant
            j <= s@.len(),
            forall|k: int| j <= k < s@.len() ==> is_ws(#[trigger] s@[k]),
        decreases j,
    {
        j = j - 1;
    }
    proof { lemma_trail_ws(s@, j as int); }
    let mut out: Vec<char> = Vec::new();
    let mut k: usize = 0;
    while k < j
        invariant
            k <= j <= s@.len(),
            out@ == s@.take(k as int),
        decreases j - k,
    {
        out.push(s[k]);
        proof { assert(s@.take(k + 1) =~= s@.take(k as int).push(s@[k as int])); }
        k = k + 1;
    }
    assert(out@ =~= trim_end(s@));
    out
}

/// The pieces of `parts` joined with `sep` between them.
pub open spec fn join_with(parts: Seq<Seq<char>>, sep: Seq<char>) -> Seq<char>
    decreases parts.len(),
{
    if parts.len() == 0 {
        Seq::empty()
    } else if parts.len() == 1 {
        parts[0]
    } else {
        join_with(parts.drop_last(), sep) + sep + parts.last()
    }
}

pub open spec fn string_views(v: Seq<String>) -> Seq<Seq<char>> {
    v.map_values(|x: String| x@)
}

/// Joins strings with a separator (`slice::join`).
pub fn join_strings(parts: &[String], sep: &str) -> (res: String)
    ensures
        res@ == join_with(string_views(parts@), sep@),
{
    let mut out = String::new();
    let mut i: usize = 0;
    while i < parts.len()
        invariant
            i <= parts@.len(),
            out@ == join_with(string_views(parts@.take(i as int)), sep@),
        decreases parts@.len() - i,
    {
        let ghost prev = out@;
        if i > 0 {
            out.append(sep);
        }
        out.append(parts[i].as_str());
        proof {
            let a = string_views(parts@.take(i + 1));
            assert(a.drop_last() =~= string_views(parts@.take(i as int)));
            assert(a.last() == parts@[i as int]@);
            if i == 0 {
                assert(out@ =~= a[0]);
            }
        }
        i = i + 1;
    }
    assert(parts@.take(parts@.len() as int) =~= parts@);
    out
}


/// The UTF-8 bytes of a string (`str::as_bytes`). Claimed: the encoding of
/// the string, which (as every allocation) holds at most `isize::MAX` bytes.
#[verifier::external_body]
pub fn bytes_of(s: &str) -> (res: Vec<u8>)
    ensures
        res@ == encode_utf8(s@),
        res@.len() <= isize::MAX,
{
    s.as_bytes().to_vec()
}

/// A string from UTF-8 bytes (`String::from_utf8`). Claimed: `Some` exactly
/// for valid UTF-8, and then the string's encoding is the input.
#[verifier::external_body]
pub fn string_from_utf8(v: Vec<u8>) -> (res: Option<String>)
    ensures
        res is Some <==> valid_utf8(v@),
        res matches Some(s) ==> encode_utf8(s@) == v@,
{
    String::from_utf8(v).ok()
}

/// A string's UTF-8 encoding is empty exactly when the string is.
pub proof fn lemma_encode_utf8_empty(s: Seq<char>)
    ensures
        (encode_utf8(s).len() == 0) == (s.len() == 0),
{
    if s.len() > 0 {
        assert(vstd::utf8::encode_scalar(s[0] as u32).len() >= 1);
    }
}

/// A string has at least as many UTF-8 bytes as characters.
pub proof fn lemma_encode_utf8_len_ge(s: Seq<char>)
    ensures
        encode_utf8(s).len() >= s.len(),
    decreases s.len(),
{
    if s.len() > 0 {
        assert(vstd::utf8::encode_scalar(s[0] as u32).len() >= 1);
        lemma_encode_utf8_len_ge(s.drop_first());
    }
}

/// `s` with `ins` inserted at byte `pos`.
pub open spec fn splice_bytes(s: Seq<u8>, pos: int, ins: Seq<u8>) -> Seq<u8> {
    s.take(pos) + ins + s.skip(pos)
}

/// Copies `a[from..to]` onto the end of `out`.
pub fn extend_range(out: &mut Vec<u8>, a: &Vec<u8>, from: usize, to: usize)
    requires
        from <= to <= a@.len(),
    ensures
        final(out)@ == old(out)@ + a@.subrange(from as int, to as int),
{
    let mut i = from;
    while i < to
        invariant
            from <= i <= to <= a@.len(),
            out@ == old(out)@ + a@.subrange(from as int, i as int),
        decreases to - i,
    {
        out.push(a[i]);
        proof {
            assert(old(out)@ + a@.subrange(from as int, i + 1) =~= old(out)@ + a@.subrange(from as int, i as int) + seq![a@[i as int]]);
        }
        i = i + 1;
    }
}

} // verus!
