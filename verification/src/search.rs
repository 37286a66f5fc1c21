//! Reading org documents: headings by path, elements by ID, tags, and text
//! snippets.
use vstd::prelude::*;
use crate::error::OrgModeError;
use crate::org_mode::OrgMode;
use crate::orgdoc::{OrgHeadline, OrgDocument, parsed_headlines, parsed_document, parse_headlines, parse_document};
use crate::text::{chars_of, string_of, string_views, split_char, split_on, views_of, str_eq, concat, all_ws, is_blank};
use crate::lines::{spec_lines, lines_of};
use crate::update_apply::{default_todo, default_done};
use crate::update_target::{id_hit, has_id_pair, pairs_view, has_id_property, pairs_have_id};

verus! {

/// `s` cut to its first `max` characters followed by `...` when it is
/// longer than `max` characters.
pub open spec fn spec_snippet(s: Seq<char>, max: nat) -> Seq<char> {
    if s.len() > max { s.take(max as int) + "..."@ } else { s }
}

/// The headlines of `content` parsed with the default keywords.
pub open spec fn default_headlines(content: Seq<char>) -> Seq<OrgHeadline> {
    parsed_headlines(content, default_todo(), default_done())
}

/// The tags of the first `n` headlines, in order.
pub open spec fn tags_of(hs: Seq<OrgHeadline>, n: nat) -> Seq<Seq<char>>
    decreases n,
{
    if n == 0 || n > hs.len() {
        Seq::empty()
    } else {
        tags_of(hs, (n - 1) as nat) + string_views(hs[n - 1].tags@)
    }
}

/// All tags of the document's headlines, in document order.
pub open spec fn content_tags(content: Seq<char>) -> Seq<Seq<char>> {
    let hs = default_headlines(content);
    tags_of(hs, hs.len())
}

/// The state of the heading-path scan after the first `n` headlines: how
/// many segments matched, and the headline found. A headline whose raw title
/// equals the next segment matches it; it is the one found when its level
/// is the number of segments. The scan stops once one is found or all
/// segments matched.
pub open spec fn heading_scan(hs: Seq<OrgHeadline>, parts: Seq<Seq<char>>, n: nat) -> (int, Option<int>)
    decreases n,
{
    if n == 0 || n > hs.len() {
        (0, None)
    } else {
        let (cur, found) = heading_scan(hs, parts, (n - 1) as nat);
        if found is Some || cur >= parts.len() {
            (cur, found)
        } else if hs[n - 1].title_raw@ == parts[cur] {
            if hs[n - 1].level == parts.len() { (cur, Some(n - 1)) } else { (cur + 1, None) }
        } else {
            (cur, None)
        }
    }
}

/// The text an ID search finds in `content`: the whole document when its
/// top-level property drawer has the ID, else the subtree of the first
/// headline that has it.
pub open spec fn id_search(content: Seq<char>, id: Seq<char>) -> Option<Seq<char>> {
    let d = parsed_document(content);
    let hs = default_headlines(content);
    if d.properties matches Some(dr) && has_id_pair(pairs_view(dr.pairs@), id) {
        Some(d.raw@)
    } else if exists|i: int| 0 <= i < hs.len() && #[trigger] id_hit(hs[i], id) {
        let i = choose|i: int| 0 <= i < hs.len() && id_hit(hs[i], id) && forall|j: int| 0 <= j < i ==> !#[trigger] id_hit(hs[j], id);
        Some(hs[i].raw@)
    } else {
        None
    }
}

fn default_keywords() -> (res: (Vec<String>, Vec<String>))
    ensures
        string_views(res.0@) == default_todo(),
        string_views(res.1@) == default_done(),
{
    let mut todo: Vec<String> = Vec::new();
    todo.push(String::from_str("TODO"));
    let mut done: Vec<String> = Vec::new();
    done.push(String::from_str("DONE"));
    proof {
        assert(string_views(todo@) =~= default_todo());
        assert(string_views(done@) =~= default_done());
    }
    (todo, done)
}

/// The headlines of `content`, parsed with the default keywords.
pub fn headlines_of(content: &str) -> (res: Vec<OrgHeadline>)
    ensures
        res@ == default_headlines(content@),
{
    let (todo, done) = default_keywords();
    parse_headlines(content, todo, done)
}

impl OrgMode {
    /// The first `max` characters of `s` followed by `...` when `s` is
    /// longer, else `s`.
    pub fn snippet(s: &str, max: usize) -> (res: String)
        ensures
            res@ == spec_snippet(s@, max as nat),
    {
        let v = chars_of(s);
        if v.len() > max {
            let mut out: Vec<char> = Vec::new();
            let mut i: usize = 0;
            while i < max
                invariant
                    i <= max < v@.len(),
                    out@ == v@.take(i as int),
                decreases max - i,
            {
                out.push(v[i]);
                proof { assert(out@ =~= v@.take(i + 1)); }
                i = i + 1;
            }
            concat(string_of(out.as_slice()).as_str(), "...")
        } else {
            String::from_str(s)
        }
    }

    /// The tags of every headline of `content`, in document order.
    pub fn tags_in_content(content: &str) -> (res: Vec<String>)
        ensures
            string_views(res@) == content_tags(content@),
    {
        let hs = headlines_of(content);
        let mut tags: Vec<String> = Vec::new();
        let mut i: usize = 0;
        while i < hs.len()
            invariant
                i <= hs@.len(),
                string_views(tags@) == tags_of(hs@, i as nat),
            decreases hs@.len() - i,
        {
            let h = &hs[i];
            let ghost start = string_views(tags@);
            let mut k: usize = 0;
            while k < h.tags.len()
                invariant
                    k <= h.tags@.len(),
                    string_views(tags@) == start + string_views(h.tags@.take(k as int)),
                decreases h.tags@.len() - k,
            {
                let ghost before = string_views(tags@);
                tags.push(h.tags[k].clone());
                proof {
                    assert(string_views(tags@) =~= before.push(h.tags@[k as int]@));
                    assert(string_views(h.tags@.take(k + 1)) =~= string_views(h.tags@.take(k as int)).push(h.tags@[k as int]@));
                }
                k = k + 1;
            }
            proof { assert(h.tags@.take(h.tags@.len() as int) =~= h.tags@); }
            i = i + 1;
        }
        tags
    }

    /// The subtree text of the heading that `heading` (slash-separated raw
    /// titles) reaches in `content`, as `heading_scan` finds it; else
    /// `InvalidHeadingPath` with the path.
    pub fn get_heading(content: &str, heading: &str) -> (res: Result<String, OrgModeError>)
        ensures
            ({
                let hs = default_headlines(content@);
                match heading_scan(hs, split_on(heading@, '/'), hs.len()).1 {
                    Some(i) => res matches Ok(t) && t@ == hs[i].raw@,
                    None => res matches Err(OrgModeError::InvalidHeadingPath(m)) && m@ == heading@,
                }
            }),
    {
        let hs = headlines_of(content);
        let parts = split_char(heading, '/');
        let ghost ps = views_of(parts@);
        let mut cur: usize = 0;
        let mut i: usize = 0;
        while i < hs.len()
            invariant
                hs@ == default_headlines(content@),
                ps == split_on(heading@, '/'),
                ps == views_of(parts@),
                i <= hs@.len(),
                heading_scan(hs@, ps, i as nat) == (cur as int, None::<int>),
                cur <= parts@.len(),
            decreases hs@.len() - i,
        {
            if cur >= parts.len() {
                proof {
                    lemma_scan_stopped(hs@, ps, i as nat, hs@.len() as nat, cur as int);
                }
                return Err(OrgModeError::InvalidHeadingPath(String::from_str(heading)));
            }
            let h = &hs[i];
            let part = string_of(parts[cur].as_slice());
            assert(part@ == ps[cur as int]);
            if str_eq(h.title_raw.as_str(), part.as_str()) {
                if h.level == parts.len() {
                    proof {
                        assert(heading_scan(hs@, ps, (i + 1) as nat) == (cur as int, Some(i as int)));
                        lemma_scan_found(hs@, ps, (i + 1) as nat, hs@.len() as nat, cur as int, i as int);
                    }
                    return Ok(h.raw.clone());
                }
                cur = cur + 1;
            }
            i = i + 1;
        }
        Err(OrgModeError::InvalidHeadingPath(String::from_str(heading)))
    }
}

proof fn lemma_scan_stopped(hs: Seq<OrgHeadline>, ps: Seq<Seq<char>>, m: nat, n: nat, cur: int)
    requires
        m <= n <= hs.len(),
        heading_scan(hs, ps, m) == (cur, None::<int>),
        cur >= ps.len(),
    ensures
        heading_scan(hs, ps, n) == (cur, None::<int>),
    decreases n - m,
{
    if n > m {
        lemma_scan_stopped(hs, ps, m, (n - 1) as nat, cur);
    }
}

proof fn lemma_scan_found(hs: Seq<OrgHeadline>, ps: Seq<Seq<char>>, m: nat, n: nat, cur: int, f: int)
    requires
        m <= n <= hs.len(),
        heading_scan(hs, ps, m) == (cur, Some(f)),
    ensures
        heading_scan(hs, ps, n) == (cur, Some(f)),
    decreases n - m,
{
    if n > m {
        lemma_scan_found(hs, ps, m, (n - 1) as nat, cur, f);
    }
}

impl OrgMode {
    /// The text of the element with the ID `id` in `content`: the document
    /// when its top-level property drawer has it, else the subtree of the
    /// first headline that has it.
    pub fn search_id(content: &str, id: &str) -> (res: Option<String>)
        ensures
            match res {
                Some(t) => id_search(content@, id@) == Some(t@),
                None => id_search(content@, id@) is None,
            },
    {
        let doc = parse_document(content);
        let doc_has = match &doc.properties {
            Some(d) => pairs_have_id(&d.pairs, id),
            None => false,
        };
        if doc_has {
            return Some(doc.raw.clone());
        }
        let hs = headlines_of(content);
        let mut i: usize = 0;
        while i < hs.len()
            invariant
                i <= hs@.len(),
                hs@ == default_headlines(content@),
                !(parsed_document(content@).properties matches Some(dr) && has_id_pair(pairs_view(dr.pairs@), id@)),
                forall|j: int| 0 <= j < i ==> !#[trigger] id_hit(hs@[j], id@),
            decreases hs@.len() - i,
        {
            if has_id_property(&hs[i], id) {
                proof {
                    let c = choose|k: int| 0 <= k < hs@.len() && id_hit(hs@[k], id@) && forall|j: int| 0 <= j < k ==> !#[trigger] id_hit(hs@[j], id@);
                    assert(0 <= i < hs@.len() && id_hit(hs@[i as int], id@) && forall|j: int| 0 <= j < i ==> !#[trigger] id_hit(hs@[j], id@));
                    if c < i { assert(!id_hit(hs@[c], id@)); }
                    if c > i { assert(!id_hit(hs@[i as int], id@)); }
                    assert(c == i);
                }
                return Some(hs[i].raw.clone());
            }
            i = i + 1;
        }
        None
    }

    /// The text of the first element with the ID `id` among `files` (each a
    /// relative path and its content, in listing order), as `search_id`
    /// finds it; else `InvalidElementId`.
    pub fn get_element_by_id(files: &Vec<(String, String)>, id: &str) -> (res: Result<String, OrgModeError>)
        ensures
            match res {
                Ok(t) => exists|k: int| 0 <= k < files@.len() && id_search(files@[k].1@, id@) == Some(t@)
                    && forall|j: int| 0 <= j < k ==> #[trigger] id_search(files@[j].1@, id@) is None,
                Err(e) => (e matches OrgModeError::InvalidElementId(m) && m@ == id@)
                    && forall|j: int| 0 <= j < files@.len() ==> #[trigger] id_search(files@[j].1@, id@) is None,
            },
    {
        let mut k: usize = 0;
        while k < files.len()
            invariant
                k <= files@.len(),
                forall|j: int| 0 <= j < k ==> #[trigger] id_search(files@[j].1@, id@) is None,
            decreases files@.len() - k,
        {
            match Self::search_id(files[k].1.as_str(), id) {
                Some(t) => { return Ok(t); },
                None => {},
            }
            k = k + 1;
        }
        Err(OrgModeError::InvalidElementId(String::from_str(id)))
    }
}

/// One search hit: the file, the matching line (cut to a snippet), the
/// match score and the file's tags.
#[derive(Debug, Clone)]
pub struct SearchResult {
    pub file_path: String,
    pub snippet: String,
    pub score: u32,
    pub tags: Vec<String>,
}

pub open spec fn sr_view(r: SearchResult) -> (Seq<char>, Seq<char>, u32, Seq<Seq<char>>) {
    (r.file_path@, r.snippet@, r.score, string_views(r.tags@))
}

pub open spec fn srs_view(v: Seq<SearchResult>) -> Seq<(Seq<char>, Seq<char>, u32, Seq<Seq<char>>)> {
    v.map_values(|r: SearchResult| sr_view(r))
}

/// The lines that `nucleo_matcher` matches to `query` (case-insensitive,
/// smart normalization, fuzzy atoms), with their scores.
pub uninterp spec fn fuzzy_matches(query: Seq<char>, lines: Seq<Seq<char>>) -> Seq<(Seq<char>, u32)>;

pub open spec fn matches_view(v: Seq<(String, u32)>) -> Seq<(Seq<char>, u32)> {
    v.map_values(|m: (String, u32)| (m.0@, m.1))
}

/// Fuzzy-matches `query` against `lines` with `nucleo_matcher`
/// (`Pattern::new(query, CaseMatching::Ignore, Normalization::Smart,
/// AtomKind::Fuzzy).match_list(lines, &mut Matcher::new(Config::DEFAULT))`).
/// Claimed: the result is the named match list of these arguments, and it is
/// ordered by descending score (the source sorts it so).
#[verifier::external_body]
fn fuzzy_match_lines(query: &str, lines: Vec<String>) -> (res: Vec<(String, u32)>)
    ensures
        matches_view(res@) == fuzzy_matches(query@, string_views(lines@)),
        forall|i: int, j: int| 0 <= i < j < res@.len() ==> #[trigger] res@[i].1 >= #[trigger] res@[j].1,
{
    let mut matcher = nucleo_matcher::Matcher::new(nucleo_matcher::Config::DEFAULT);
    let pattern = nucleo_matcher::pattern::Pattern::new(
        query,
        nucleo_matcher::pattern::CaseMatching::Ignore,
        nucleo_matcher::pattern::Normalization::Smart,
        nucleo_matcher::pattern::AtomKind::Fuzzy,
    );
    pattern.match_list(lines, &mut matcher)
}

/// The hits in one file: each matched line as a snippet of at most `max`
/// characters, with its score and the file's tags.
pub open spec fn file_hits(query: Seq<char>, path: Seq<char>, content: Seq<char>, max: nat) -> Seq<(Seq<char>, Seq<char>, u32, Seq<Seq<char>>)> {
    fuzzy_matches(query, spec_lines(content)).map_values(
        |m: (Seq<char>, u32)| (path, spec_snippet(m.0, max), m.1, content_tags(content)),
    )
}

/// The hits in the first `n` files, file by file.
pub open spec fn all_hits(query: Seq<char>, files: Seq<(String, String)>, max: nat, n: nat) -> Seq<(Seq<char>, Seq<char>, u32, Seq<Seq<char>>)>
    decreases n,
{
    if n == 0 || n > files.len() {
        Seq::empty()
    } else {
        all_hits(query, files, max, (n - 1) as nat) + file_hits(query, files[n - 1].0@, files[n - 1].1@, max)
    }
}

/// The first position from `i` on whose score is below `score`.
pub open spec fn first_lower(s: Seq<(Seq<char>, Seq<char>, u32, Seq<Seq<char>>)>, score: u32, i: int) -> int
    decreases s.len() - i,
{
    if i < 0 || i >= s.len() {
        s.len() as int
    } else if s[i].2 < score {
        i
    } else {
        first_lower(s, score, i + 1)
    }
}

/// Sorts hits by descending score, keeping the order of equal scores.
pub open spec fn sort_by_score(s: Seq<(Seq<char>, Seq<char>, u32, Seq<Seq<char>>)>) -> Seq<(Seq<char>, Seq<char>, u32, Seq<Seq<char>>)>
    decreases s.len(),
{
    if s.len() == 0 {
        s
    } else {
        let t = sort_by_score(s.drop_last());
        t.insert(first_lower(t, s.last().2, 0), s.last())
    }
}

/// The first `limit` items, all when there is no limit.
pub open spec fn take_limit<A>(s: Seq<A>, limit: Option<usize>) -> Seq<A> {
    match limit {
        Some(l) => if l < s.len() { s.take(l as int) } else { s },
        None => s,
    }
}

/// The result of a search: nothing for a blank query, else every hit
/// sorted by descending score and cut to `limit`.
pub open spec fn search_results(query: Seq<char>, files: Seq<(String, String)>, limit: Option<usize>, max: Option<usize>) -> Seq<(Seq<char>, Seq<char>, u32, Seq<Seq<char>>)> {
    if all_ws(query) {
        Seq::empty()
    } else {
        let m = match max {
            Some(x) => x as nat,
            None => 100nat,
        };
        take_limit(sort_by_score(all_hits(query, files, m, files.len())), limit)
    }
}

proof fn lemma_first_lower_range(s: Seq<(Seq<char>, Seq<char>, u32, Seq<Seq<char>>)>, score: u32, i: int)
    requires
        0 <= i <= s.len(),
    ensures
        i <= first_lower(s, score, i) <= s.len(),
    decreases s.len() - i,
{
    if i < s.len() {
        lemma_first_lower_range(s, score, i + 1);
    }
}

proof fn lemma_sort_len(s: Seq<(Seq<char>, Seq<char>, u32, Seq<Seq<char>>)>)
    ensures
        sort_by_score(s).len() == s.len(),
    decreases s.len(),
{
    if s.len() > 0 {
        lemma_sort_len(s.drop_last());
        lemma_first_lower_range(sort_by_score(s.drop_last()), s.last().2, 0);
    }
}

/// A copy of a search hit.
pub fn copy_result(r: &SearchResult) -> (res: SearchResult)
    ensures
        sr_view(res) == sr_view(*r),
{
    SearchResult { file_path: r.file_path.clone(), snippet: r.snippet.clone(), score: r.score, tags: clone_tags(&r.tags) }
}

fn first_lower_in(v: &Vec<SearchResult>, score: u32) -> (res: usize)
    ensures
        res == first_lower(srs_view(v@), score, 0),
        res <= v@.len(),
{
    let ghost sv = srs_view(v@);
    let mut i: usize = 0;
    while i < v.len()
        invariant
            sv == srs_view(v@),
            i <= v@.len(),
            first_lower(sv, score, 0) == first_lower(sv, score, i as int),
        decreases v@.len() - i,
    {
        assert(sv[i as int].2 == v@[i as int].score);
        if v[i].score < score {
            return i;
        }
        i = i + 1;
    }
    i
}

fn clone_tags(v: &Vec<String>) -> (res: Vec<String>)
    ensures
        string_views(res@) == string_views(v@),
{
    let mut out: Vec<String> = Vec::new();
    let mut i: usize = 0;
    while i < v.len()
        invariant
            i <= v@.len(),
            string_views(out@) == string_views(v@.take(i as int)),
        decreases v@.len() - i,
    {
        let ghost before = string_views(out@);
        out.push(v[i].clone());
        proof {
            assert(string_views(out@) =~= before.push(v@[i as int]@));
            assert(string_views(v@.take(i + 1)) =~= string_views(v@.take(i as int)).push(v@[i as int]@));
        }
        i = i + 1;
    }
    proof { assert(v@.take(v@.len() as int) =~= v@); }
    out
}

impl OrgMode {
    /// Fuzzy-searches the lines of `files` (each a relative path and its
    /// content, in listing order) for `query`: every matched line becomes a
    /// hit with a snippet of at most `snippet_max_size` characters (100 by
    /// default), its score and the file's tags; hits are sorted by
    /// descending score (ties keep file and match order) and cut to `limit`.
    /// A blank query finds nothing.
    pub fn search(files: &Vec<(String, String)>, query: &str, limit: Option<usize>, snippet_max_size: Option<usize>) -> (res: Vec<SearchResult>)
        ensures
            srs_view(res@) == search_results(query@, files@, limit, snippet_max_size),
    {
        if is_blank(query) {
            let v: Vec<SearchResult> = Vec::new();
            proof { assert(srs_view(v@) =~= Seq::<(Seq<char>, Seq<char>, u32, Seq<Seq<char>>)>::empty()); }
            return v;
        }
        let max: usize = match snippet_max_size {
            Some(x) => x,
            None => 100,
        };
        let mut sorted: Vec<SearchResult> = Vec::new();
        let ghost mut hits: Seq<(Seq<char>, Seq<char>, u32, Seq<Seq<char>>)> = Seq::empty();
        let mut k: usize = 0;
        while k < files.len()
            invariant
                k <= files@.len(),
                hits == all_hits(query@, files@, max as nat, k as nat),
                srs_view(sorted@) == sort_by_score(hits),
            decreases files@.len() - k,
        {
            let path = &files[k].0;
            let content = &files[k].1;
            let lines = lines_of(content.as_str());
            let found = fuzzy_match_lines(query, lines);
            let tags = Self::tags_in_content(content.as_str());
            let ghost fh = file_hits(query@, path@, content@, max as nat);
            proof {
                assert(matches_view(found@) == fuzzy_matches(query@, spec_lines(content@)));
                assert(fh.len() == found@.len());
            }
            let mut j: usize = 0;
            while j < found.len()
                invariant
                    k < files@.len(),
                    path == &files@[k as int].0,
                    content == &files@[k as int].1,
                    string_views(tags@) == content_tags(content@),
                    fh == file_hits(query@, path@, content@, max as nat),
                    matches_view(found@) == fuzzy_matches(query@, spec_lines(content@)),
                    fh.len() == found@.len(),
                    j <= found@.len(),
                    hits == all_hits(query@, files@, max as nat, k as nat),
                    srs_view(sorted@) == sort_by_score(hits + fh.take(j as int)),
                decreases found@.len() - j,
            {
                let r = SearchResult {
                    file_path: path.clone(),
                    snippet: Self::snippet(found[j].0.as_str(), max),
                    score: found[j].1,
                    tags: clone_tags(&tags),
                };
                proof {
                    assert(matches_view(found@)[j as int] == (found@[j as int].0@, found@[j as int].1));
                    assert(sr_view(r) == fh[j as int]);
                }
                let at = first_lower_in(&sorted, r.score);
                let ghost before = srs_view(sorted@);
                sorted.insert(at, r);
                proof {
                    assert(srs_view(sorted@) =~= before.insert(at as int, sr_view(r)));
                    let all = hits + fh.take(j + 1);
                    assert(all.drop_last() =~= hits + fh.take(j as int));
                    assert(all.last() == fh[j as int]);
                }
                j = j + 1;
            }
            proof {
                assert(fh.take(found@.len() as int) =~= fh);
                hits = hits + fh;
                assert(hits == all_hits(query@, files@, max as nat, (k + 1) as nat));
            }
            k = k + 1;
        }
        match limit {
            Some(l) => { sorted.truncate(l); },
            None => {},
        }
        proof {
            lemma_sort_len(hits);
            match limit {
                Some(l) => {
                    if (l as int) < hits.len() {
                        assert(srs_view(sorted@) =~= sort_by_score(hits).take(l as int));
                    }
                },
                None => {},
            }
        }
        sorted
    }
}

/// Some tag of `filter` is among `item`.
pub open spec fn any_tag(item: Seq<Seq<char>>, filter: Seq<Seq<char>>) -> bool {
    exists|j: int| 0 <= j < filter.len() && item.contains(#[trigger] filter[j])
}

/// The hits that carry some tag of `filter`, in order.
pub open spec fn tagged_hits(s: Seq<(Seq<char>, Seq<char>, u32, Seq<Seq<char>>)>, filter: Seq<Seq<char>>) -> Seq<(Seq<char>, Seq<char>, u32, Seq<Seq<char>>)>
    decreases s.len(),
{
    if s.len() == 0 {
        s
    } else {
        let r = tagged_hits(s.drop_last(), filter);
        if any_tag(s.last().3, filter) { r.push(s.last()) } else { r }
    }
}

pub open spec fn opt_tags(t: Option<&[String]>) -> Option<Seq<Seq<char>>> {
    match t {
        Some(ts) => Some(string_views(ts@)),
        None => None,
    }
}

/// Whether some tag of `filter` is among `item`.
pub fn has_any_tag(item: &[String], filter: &[String]) -> (res: bool)
    ensures
        res == any_tag(string_views(item@), string_views(filter@)),
{
    let mut j: usize = 0;
    while j < filter.len()
        invariant
            j <= filter@.len(),
            forall|k: int| 0 <= k < j ==> !string_views(item@).contains(#[trigger] string_views(filter@)[k]),
        decreases filter@.len() - j,
    {
        if crate::utils::contains_text(item, &filter[j]) {
            proof {
                let i = choose|i: int| 0 <= i < item@.len() && #[trigger] item@[i]@ == filter@[j as int]@;
                assert(string_views(item@)[i] == string_views(filter@)[j as int]);
            }
            return true;
        }
        proof {
            assert forall|i: int| 0 <= i < string_views(item@).len() implies string_views(item@)[i] != string_views(filter@)[j as int] by {
                assert(string_views(item@)[i] == item@[i]@);
            }
        }
        j = j + 1;
    }
    false
}

/// The paths of `files` (each a relative path and its content, in listing
/// order) whose headlines carry some tag of `tags` (all paths without
/// `tags`), cut to `limit`.
pub open spec fn selected_files(files: Seq<(String, String)>, tags: Option<Seq<Seq<char>>>, n: nat) -> Seq<Seq<char>>
    decreases n,
{
    if n == 0 || n > files.len() {
        Seq::empty()
    } else {
        let r = selected_files(files, tags, (n - 1) as nat);
        let keep = match tags {
            Some(t) => any_tag(content_tags(files[n - 1].1@), t),
            None => true,
        };
        if keep { r.push(files[n - 1].0@) } else { r }
    }
}

impl OrgMode {
    /// Searches as `search` does with no limit, keeps the hits whose file
    /// carries some tag of `tags` (all without `tags`), then cuts to
    /// `limit`.
    pub fn search_with_tags(
        files: &Vec<(String, String)>,
        query: &str,
        tags: Option<&[String]>,
        limit: Option<usize>,
        snippet_max_size: Option<usize>,
    ) -> (res: Vec<SearchResult>)
        ensures
            srs_view(res@) == take_limit(
                match opt_tags(tags) {
                    Some(t) => tagged_hits(search_results(query@, files@, None, snippet_max_size), t),
                    None => search_results(query@, files@, None, snippet_max_size),
                },
                limit,
            ),
    {
        let all = Self::search(files, query, None, snippet_max_size);
        let ghost base = srs_view(all@);
        let mut out: Vec<SearchResult> = Vec::new();
        match tags {
            Some(t) => {
                let mut i: usize = 0;
                while i < all.len()
                    invariant
                        i <= all@.len(),
                        base == srs_view(all@),
                        srs_view(out@) == tagged_hits(base.take(i as int), string_views(t@)),
                    decreases all@.len() - i,
                {
                    let ghost before = srs_view(out@);
                    proof {
                        assert(base.take(i + 1).drop_last() =~= base.take(i as int));
                        assert(base.take(i + 1).last() == sr_view(all@[i as int]));
                    }
                    if has_any_tag(all[i].tags.as_slice(), t) {
                        out.push(copy_result(&all[i]));
                        proof { assert(srs_view(out@) =~= before.push(sr_view(all@[i as int]))); }
                    }
                    i = i + 1;
                }
                proof { assert(base.take(all@.len() as int) =~= base); }
            },
            None => {
                let mut i: usize = 0;
                while i < all.len()
                    invariant
                        i <= all@.len(),
                        base == srs_view(all@),
                        srs_view(out@) == base.take(i as int),
                    decreases all@.len() - i,
                {
                    let ghost before = srs_view(out@);
                    out.push(copy_result(&all[i]));
                    proof {
                        assert(srs_view(out@) =~= before.push(sr_view(all@[i as int])));
                        assert(base.take(i + 1) =~= base.take(i as int).push(base[i as int]));
                    }
                    i = i + 1;
                }
                proof { assert(base.take(all@.len() as int) =~= base); }
            },
        }
        let ghost filtered = srs_view(out@);
        match limit {
            Some(l) => {
                out.truncate(l);
                proof {
                    if (l as int) < filtered.len() {
                        assert(srs_view(out@) =~= filtered.take(l as int));
                    } else {
                        assert(srs_view(out@) =~= filtered);
                    }
                }
            },
            None => {},
        }
        out
    }

    /// The paths of `files` (each a relative path and its content, in
    /// listing order; an unreadable file with empty content) whose
    /// headlines carry some tag of `tags`, or all of them without `tags`,
    /// cut to `limit`.
    pub fn select_files(files: &Vec<(String, String)>, tags: Option<&[String]>, limit: Option<usize>) -> (res: Vec<String>)
        ensures
            string_views(res@) == take_limit(selected_files(files@, opt_tags(tags), files@.len() as nat), limit),
    {
        let mut out: Vec<String> = Vec::new();
        let mut k: usize = 0;
        while k < files.len()
            invariant
                k <= files@.len(),
                string_views(out@) == selected_files(files@, opt_tags(tags), k as nat),
            decreases files@.len() - k,
        {
            let keep = match tags {
                Some(t) => {
                    let ft = Self::tags_in_content(files[k].1.as_str());
                    has_any_tag(ft.as_slice(), t)
                },
                None => true,
            };
            let ghost before = string_views(out@);
            if keep {
                out.push(files[k].0.clone());
                proof { assert(string_views(out@) =~= before.push(files@[k as int].0@)); }
            }
            k = k + 1;
        }
        let ghost all = string_views(out@);
        match limit {
            Some(l) => {
                out.truncate(l);
                proof {
                    if (l as int) < all.len() {
                        assert(string_views(out@) =~= all.take(l as int));
                    } else {
                        assert(string_views(out@) =~= all);
                    }
                }
            },
            None => {},
        }
        out
    }

    /// The paths of `files` whose headlines carry some tag of `tags`.
    pub fn list_files_by_tags(files: &Vec<(String, String)>, tags: &[String]) -> (res: Vec<String>)
        ensures
            string_views(res@) == selected_files(files@, Some(string_views(tags@)), files@.len() as nat),
    {
        Self::select_files(files, Some(tags), None)
    }
}

} // verus!
