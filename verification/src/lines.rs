//! Line-oriented views of a file's text: its lines as `str::lines` gives
//! them, line numbers of byte offsets, and splicing runs of lines.
use vstd::prelude::*;
use vstd::utf8::encode_utf8;
use crate::text::{split_acc, split_on, split_char, views_of, string_of, string_views, chars_of};

verus! {

/// `p` without one trailing carriage return.
pub open spec fn strip_cr(p: Seq<char>) -> Seq<char> {
    if p.len() > 0 && p.last() == '\r' { p.drop_last() } else { p }
}

/// The lines of `s` (`str::lines`): the pieces ended by `\n`, each without
/// a `\r` just before its `\n`, then the unended rest if it is not empty.
pub open spec fn spec_lines(s: Seq<char>) -> Seq<Seq<char>> {
    let (t, c) = split_acc(s, '\n');
    let ended = t.map_values(|p: Seq<char>| strip_cr(p));
    if c.len() == 0 { ended } else { ended.push(c) }
}

/// Whether `s` ends with a newline.
pub open spec fn ends_nl(s: Seq<char>) -> bool {
    s.len() > 0 && s.last() == '\n'
}

/// Whether `s` begins with `p`.
pub open spec fn starts_with(s: Seq<char>, p: Seq<char>) -> bool {
    s.len() >= p.len() && s.take(p.len() as int) == p
}

/// `s` with `count` items from `from` on replaced by `r`.
pub open spec fn splice_seq<A>(s: Seq<A>, from: int, count: int, r: Seq<A>) -> Seq<A> {
    s.take(from) + r + s.skip(from + count)
}

/// Number of newline bytes in `b`.
pub open spec fn nl_count(b: Seq<u8>) -> nat
    decreases b.len(),
{
    if b.len() == 0 {
        0
    } else {
        nl_count(b.drop_last()) + if b.last() == 10u8 { 1nat } else { 0nat }
    }
}

/// The first line from `i` on that starts with `*`, or the number of lines.
pub open spec fn body_end(lines: Seq<Seq<char>>, i: int) -> int
    decreases lines.len() - i,
{
    if i >= lines.len() || i < 0 {
        lines.len() as int
    } else if lines[i].len() > 0 && lines[i][0] == '*' {
        i
    } else {
        body_end(lines, i + 1)
    }
}

proof fn lemma_split_acc_len(s: Seq<char>, sep: char)
    ensures
        split_acc(s, sep).0.len() <= s.len(),
    decreases s.len(),
{
    if s.len() > 0 {
        lemma_split_acc_len(s.drop_last(), sep);
    }
}

proof fn lemma_split_acc_views(s: Seq<char>)
    ensures
        split_on(s, '\n') == split_acc(s, '\n').0.push(split_acc(s, '\n').1),
{
}

/// The lines of `s`, as `str::lines` splits them.
pub fn lines_of(s: &str) -> (res: Vec<String>)
    ensures
        string_views(res@) == spec_lines(s@),
        res@.len() <= s@.len() + 1,
{
    proof { lemma_split_acc_len(s@, '\n'); }
    let pieces = split_char(s, '\n');
    let ghost t = split_acc(s@, '\n').0;
    let ghost c = split_acc(s@, '\n').1;
    proof {
        lemma_split_acc_views(s@);
        assert(views_of(pieces@) =~= t.push(c));
        assert(pieces@.len() == t.len() + 1);
    }
    let n = pieces.len() - 1;
    let mut out: Vec<String> = Vec::new();
    let mut i: usize = 0;
    while i < n
        invariant
            n == pieces@.len() - 1,
            t.len() == n,
            views_of(pieces@) == t.push(c),
            i <= n,
            string_views(out@) == t.take(i as int).map_values(|p: Seq<char>| strip_cr(p)),
            out@.len() == i,
            t.len() <= s@.len(),
        decreases n - i,
    {
        let p = &pieces[i];
        assert(p@ == views_of(pieces@)[i as int]);
        assert(p@ == t[i as int]);
        let k = p.len();
        let line = if k > 0 && p[k - 1] == '\r' {
            let mut q: Vec<char> = Vec::new();
            let mut j: usize = 0;
            while j < k - 1
                invariant
                    k == p@.len(),
                    k > 0,
                    j <= k - 1,
                    q@ == p@.take(j as int),
                decreases k - 1 - j,
            {
                q.push(p[j]);
                proof { assert(q@ =~= p@.take(j + 1)); }
                j = j + 1;
            }
            proof { assert(q@ =~= p@.drop_last()); }
            string_of(q.as_slice())
        } else {
            string_of(p.as_slice())
        };
        assert(line@ == strip_cr(t[i as int]));
        let ghost before = string_views(out@);
        out.push(line);
        proof {
            assert(string_views(out@) =~= before.push(line@));
            assert(t.take(i + 1).map_values(|p: Seq<char>| strip_cr(p)) =~= t.take(i as int).map_values(|p: Seq<char>| strip_cr(p)).push(strip_cr(t[i as int])));
        }
        i = i + 1;
    }
    proof { assert(t.take(n as int) =~= t); }
    let last = &pieces[n];
    assert(last@ == views_of(pieces@)[n as int]);
    assert(last@ == c);
    if last.len() > 0 {
        let ghost before = string_views(out@);
        out.push(string_of(last.as_slice()));
        proof { assert(string_views(out@) =~= before.push(c)); }
    }
    out
}

/// Whether the string ends with a newline.
pub fn ends_with_newline(s: &str) -> (res: bool)
    ensures
        res == ends_nl(s@),
{
    let v = chars_of(s);
    v.len() > 0 && v[v.len() - 1] == '\n'
}

/// Whether `s` holds `\r\n`.
pub open spec fn has_crlf(s: Seq<char>) -> bool {
    exists|i: int| 0 <= i < s.len() - 1 && s[i] == '\r' && #[trigger] s[i + 1] == '\n'
}

/// Whether the string holds a `\r\n` pair.
pub fn contains_crlf(s: &str) -> (res: bool)
    ensures
        res == has_crlf(s@),
{
    let v = chars_of(s);
    let mut i: usize = 0;
    while i < v.len()
        invariant
            v@ == s@,
            i <= v@.len(),
            forall|k: int| 0 <= k < i && k + 1 < v@.len() ==> !(v@[k] == '\r' && #[trigger] v@[k + 1] == '\n'),
        decreases v@.len() - i,
    {
        if i + 1 < v.len() && v[i] == '\r' && v[i + 1] == '\n' {
            return true;
        }
        i = i + 1;
    }
    false
}

proof fn lemma_nl_count_step(b: Seq<u8>, from: int, to: int)
    requires
        0 <= from < to <= b.len(),
    ensures
        nl_count(b.subrange(from, to)) == nl_count(b.subrange(from, to - 1)) + if b[to - 1] == 10u8 { 1nat } else { 0nat },
{
    assert(b.subrange(from, to).drop_last() =~= b.subrange(from, to - 1));
}

/// Number of newline bytes in `b[from..to]`.
pub fn count_newlines(b: &Vec<u8>, from: usize, to: usize) -> (res: usize)
    requires
        from <= to <= b@.len(),
    ensures
        res == nl_count(b@.subrange(from as int, to as int)),
        res <= to - from,
{
    let mut n: usize = 0;
    let mut i = from;
    proof { assert(b@.subrange(from as int, from as int) =~= Seq::<u8>::empty()); }
    while i < to
        invariant
            from <= i <= to <= b@.len(),
            n == nl_count(b@.subrange(from as int, i as int)),
            n <= i - from,
        decreases to - i,
    {
        proof { lemma_nl_count_step(b@, from as int, i + 1); }
        if b[i] == 10u8 {
            n = n + 1;
        }
        i = i + 1;
    }
    n
}

/// The line number (from 0) of a byte offset: the newline bytes before it.
pub fn line_index_at(content: &str, byte_offset: usize) -> (res: usize)
    requires
        byte_offset <= encode_utf8(content@).len(),
    ensures
        res == nl_count(encode_utf8(content@).take(byte_offset as int)),
        res <= byte_offset,
{
    let b = crate::text::bytes_of(content);
    proof { assert(b@.subrange(0, byte_offset as int) =~= b@.take(byte_offset as int)); }
    count_newlines(&b, 0, byte_offset)
}

/// The first line from `from` on that starts with `*`, or the line count.
pub fn body_end_in(lines: &Vec<String>, from: usize) -> (res: usize)
    requires
        from <= lines@.len(),
    ensures
        res == body_end(string_views(lines@), from as int),
        from <= res <= lines@.len(),
{
    let ghost ls = string_views(lines@);
    let mut i = from;
    while i < lines.len()
        invariant
            ls == string_views(lines@),
            from <= i <= lines@.len(),
            body_end(ls, from as int) == body_end(ls, i as int),
        decreases lines@.len() - i,
    {
        let v = chars_of(lines[i].as_str());
        assert(v@ == ls[i as int]);
        if v.len() > 0 && v[0] == '*' {
            return i;
        }
        i = i + 1;
    }
    i
}

/// The index of the first line at or after `body_first_line` that starts a
/// heading (`*`), or the number of lines.
pub fn find_body_last_line(content: &str, body_first_line: usize) -> (res: usize)
    requires
        body_first_line <= spec_lines(content@).len(),
    ensures
        res == body_end(spec_lines(content@), body_first_line as int),
{
    let lines = lines_of(content);
    body_end_in(&lines, body_first_line)
}

/// Replaces `count` lines from `from` on by `repl`.
pub fn splice_lines(lines: &mut Vec<String>, from: usize, count: usize, repl: Vec<String>)
    requires
        from + count <= old(lines)@.len(),
    ensures
        string_views(final(lines)@) == splice_seq(string_views(old(lines)@), from as int, count as int, string_views(repl@)),
{
    let ghost target = splice_seq(string_views(lines@), from as int, count as int, string_views(repl@));
    let total = lines.len();
    let end = from + count;
    let mut out: Vec<String> = Vec::new();
    let mut i: usize = 0;
    while i < from
        invariant
            from + count <= lines@.len(),
            i <= from,
            string_views(out@) == string_views(lines@).take(i as int),
        decreases from - i,
    {
        let ghost before = string_views(out@);
        out.push(lines[i].clone());
        proof {
            assert(string_views(out@) =~= before.push(lines@[i as int]@));
            assert(string_views(lines@).take(i + 1) =~= string_views(lines@).take(i as int).push(lines@[i as int]@));
        }
        i = i + 1;
    }
    let mut j: usize = 0;
    while j < repl.len()
        invariant
            from + count <= lines@.len(),
            j <= repl@.len(),
            string_views(out@) == string_views(lines@).take(from as int) + string_views(repl@).take(j as int),
        decreases repl@.len() - j,
    {
        let ghost before = string_views(out@);
        out.push(repl[j].clone());
        proof {
            assert(string_views(out@) =~= before.push(repl@[j as int]@));
            assert(string_views(repl@).take(j + 1) =~= string_views(repl@).take(j as int).push(repl@[j as int]@));
            assert(string_views(out@) =~= string_views(lines@).take(from as int) + string_views(repl@).take(j + 1));
        }
        j = j + 1;
    }
    proof { assert(string_views(repl@).take(repl@.len() as int) =~= string_views(repl@)); }
    let mut k: usize = end;
    while k < lines.len()
        invariant
            from + count <= k <= lines@.len(),
            string_views(out@) == string_views(lines@).take(from as int) + string_views(repl@)
                + string_views(lines@).subrange(from + count, k as int),
        decreases lines@.len() - k,
    {
        let ghost before = string_views(out@);
        out.push(lines[k].clone());
        proof {
            assert(string_views(out@) =~= before.push(lines@[k as int]@));
            assert(string_views(lines@).subrange(from + count, k + 1) =~= string_views(lines@).subrange(from + count, k as int).push(lines@[k as int]@));
            assert(string_views(out@) =~= string_views(lines@).take(from as int) + string_views(repl@)
                + string_views(lines@).subrange(from + count, k + 1));
        }
        k = k + 1;
    }
    proof {
        assert(string_views(lines@).subrange(from + count, lines@.len() as int) =~= string_views(lines@).skip(from + count));
        assert(string_views(out@) =~= target);
    }
    *lines = out;
}

} // verus!
