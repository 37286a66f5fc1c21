//! Which files the agenda reads: each configured location (a file, a glob
//! or a directory) becomes a glob pattern, and the files found under the
//! pattern's fixed prefix are kept where they match it, each once.
use vstd::prelude::*;
use crate::text::{chars_of, string_of, string_views, concat};
use crate::utils::{seq_has_text, contains_text};

verus! {

/// What `globset` makes of matching `path` against `pattern`: `None` when
/// the pattern does not compile, else whether it matches.
pub uninterp spec fn glob_match(pattern: Seq<char>, path: Seq<char>) -> Option<bool>;

/// Matches `path` against the glob `pattern` with `globset`
/// (`Glob::new`, a one-pattern `GlobSetBuilder`, `GlobSet::is_match`).
/// Claimed: an error exactly when the named match has no result, else the
/// named result. On Windows `globset` reads `\` in the path as `/`; the
/// name stands for the platform's own matcher.
#[verifier::external_body]
pub fn glob_matches(pattern: &str, path: &str) -> (res: Result<bool, String>)
    ensures
        res is Err <==> glob_match(pattern@, path@) is None,
        res matches Ok(b) ==> glob_match(pattern@, path@) == Some(b),
{
    let glob = globset::Glob::new(pattern).map_err(|e| e.to_string())?;
    let set = globset::GlobSetBuilder::new().add(glob).build().map_err(|e| e.to_string())?;
    Ok(set.is_match(path))
}

/// A location joined to the org directory: an absolute location (one that
/// starts with `/`) stands alone; a relative one follows the root, with a
/// `/` between them unless the root is empty or already ends with one.
pub open spec fn joined_location(location: Seq<char>, root: Seq<char>) -> Seq<char> {
    if location.len() > 0 && location[0] == '/' {
        location
    } else if root.len() == 0 || root.last() == '/' {
        root + location
    } else {
        root + seq!['/'] + location
    }
}

/// `s` without its trailing `/` characters.
pub open spec fn trim_slashes(s: Seq<char>) -> Seq<char>
    decreases s.len(),
{
    if s.len() > 0 && s.last() == '/' { trim_slashes(s.drop_last()) } else { s }
}

/// The glob pattern of a joined location: a directory becomes
/// `DIR/**/*.org` (trailing slashes dropped), anything else stays.
pub open spec fn location_glob(joined: Seq<char>, is_dir: bool) -> Seq<char> {
    if is_dir { trim_slashes(joined) + "/**/*.org"@ } else { joined }
}

/// The part of a glob before its first `*`; the whole glob when it has none.
pub open spec fn glob_prefix(glob: Seq<char>) -> Seq<char>
    decreases glob.len(),
{
    if glob.len() == 0 {
        glob
    } else if glob[0] == '*' {
        Seq::empty()
    } else {
        seq![glob[0]] + glob_prefix(glob.skip(1))
    }
}

/// Joins a tilde-expanded location to the org directory `root`, as
/// `joined_location` describes.
pub fn agenda_path(location_expanded: &str, root: &str) -> (res: String)
    ensures
        res@ == joined_location(location_expanded@, root@),
{
    let l = chars_of(location_expanded);
    if l.len() > 0 && l[0] == '/' {
        return string_of(l.as_slice());
    }
    let r = chars_of(root);
    if r.len() == 0 || r[r.len() - 1] == '/' {
        concat(root, location_expanded)
    } else {
        let with_sep = concat(root, "/");
        proof { reveal_strlit("/"); }
        let res = concat(with_sep.as_str(), location_expanded);
        proof { assert(res@ =~= root@ + seq!['/'] + location_expanded@); }
        res
    }
}

/// The glob pattern of a configured agenda location: the location joined
/// to the org directory, as `DIR/**/*.org` when the joined path is a
/// directory (`is_dir`, which only the file system can tell).
pub fn agenda_glob(location_expanded: &str, root: &str, is_dir: bool) -> (res: String)
    ensures
        res@ == location_glob(joined_location(location_expanded@, root@), is_dir),
{
    let joined = agenda_path(location_expanded, root);
    if !is_dir {
        return joined;
    }
    let v = chars_of(joined.as_str());
    let mut n: usize = v.len();
    assert(v@.take(n as int) =~= v@);
    while n > 0 && v[n - 1] == '/'
        invariant
            n <= v@.len(),
            trim_slashes(v@) == trim_slashes(v@.take(n as int)),
        decreases n,
    {
        proof { assert(v@.take(n as int).drop_last() =~= v@.take(n - 1)); }
        n = n - 1;
    }
    proof { assert(v@.take(n as int) == trim_slashes(v@.take(n as int))); }
    let trimmed = string_of(prefix_of(&v, n).as_slice());
    proof { reveal_strlit("/**/*.org"); }
    let res = concat(trimmed.as_str(), "/**/*.org");
    res
}

fn prefix_of(v: &Vec<char>, n: usize) -> (res: Vec<char>)
    requires
        n <= v@.len(),
    ensures
        res@ == v@.take(n as int),
{
    let mut out: Vec<char> = Vec::new();
    let mut i: usize = 0;
    while i < n
        invariant
            i <= n <= v@.len(),
            out@ == v@.take(i as int),
        decreases n - i,
    {
        out.push(v[i]);
        proof { assert(out@ =~= v@.take(i + 1)); }
        i = i + 1;
    }
    out
}

/// The directory a walk for `glob` starts from: the part before its first
/// `*`.
pub fn walk_root(glob: &str) -> (res: String)
    ensures
        res@ == glob_prefix(glob@),
{
    let v = chars_of(glob);
    let mut n: usize = 0;
    while n < v.len() && v[n] != '*'
        invariant
            n <= v@.len(),
            forall|k: int| 0 <= k < n ==> v@[k] != '*',
        decreases v@.len() - n,
    {
        n = n + 1;
    }
    proof { lemma_glob_prefix(v@, n as int); }
    string_of(prefix_of(&v, n).as_slice())
}

proof fn lemma_glob_prefix(g: Seq<char>, n: int)
    requires
        0 <= n <= g.len(),
        forall|k: int| 0 <= k < n ==> g[k] != '*',
        n == g.len() || g[n] == '*',
    ensures
        glob_prefix(g) == g.take(n),
    decreases n,
{
    if n == 0 {
        assert(g.take(0) =~= Seq::<char>::empty());
    } else {
        lemma_glob_prefix(g.skip(1), n - 1);
        assert(g.take(n) =~= seq![g[0]] + g.skip(1).take(n - 1));
    }
}

/// `acc` extended by the first `k` paths of `ps` that match the glob `g`
/// and are not yet kept.
pub open spec fn add_matching(acc: Seq<Seq<char>>, g: Seq<char>, ps: Seq<Seq<char>>, k: nat) -> Seq<Seq<char>>
    decreases k,
{
    if k == 0 || k > ps.len() {
        acc
    } else {
        let a = add_matching(acc, g, ps, (k - 1) as nat);
        let p = ps[k - 1];
        if glob_match(g, p) == Some(true) && !a.contains(p) { a.push(p) } else { a }
    }
}

/// The agenda files of the first `n` locations: for each location's glob,
/// the paths walked for it that match it, in walk order, each kept once; a
/// glob that does not compile adds nothing.
pub open spec fn selected_agenda(globs: Seq<Seq<char>>, walked: Seq<Seq<Seq<char>>>, n: nat) -> Seq<Seq<char>>
    decreases n,
{
    if n == 0 || n > globs.len() {
        Seq::empty()
    } else {
        let prev = selected_agenda(globs, walked, (n - 1) as nat);
        add_matching(prev, globs[n - 1], walked[n - 1], walked[n - 1].len())
    }
}

/// The agenda files: `globs[i]` is the pattern of the `i`-th configured
/// location and `walked[i]` the files found under its walk root, in walk
/// order; as `selected_agenda` describes.
pub fn select_agenda_files(globs: &Vec<String>, walked: &Vec<Vec<String>>) -> (res: Vec<String>)
    requires
        globs@.len() == walked@.len(),
    ensures
        string_views(res@) == selected_agenda(string_views(globs@), walked@.map_values(|w: Vec<String>| string_views(w@)), globs@.len() as nat),
{
    let ghost gs = string_views(globs@);
    let ghost ws = walked@.map_values(|w: Vec<String>| string_views(w@));
    let mut out: Vec<String> = Vec::new();
    let mut i: usize = 0;
    while i < globs.len()
        invariant
            i <= globs@.len(),
            globs@.len() == walked@.len(),
            gs == string_views(globs@),
            ws == walked@.map_values(|w: Vec<String>| string_views(w@)),
            string_views(out@) == selected_agenda(gs, ws, i as nat),
        decreases globs@.len() - i,
    {
        let ghost before = string_views(out@);
        let paths = &walked[i];
        assert(ws[i as int] == string_views(paths@));
        let mut k: usize = 0;
        while k < paths.len()
            invariant
                i < globs@.len(),
                k <= paths@.len(),
                gs == string_views(globs@),
                ws[i as int] == string_views(paths@),
                string_views(out@) == add_matching(before, gs[i as int], ws[i as int], k as nat),
            decreases paths@.len() - k,
        {
            let p = &paths[k];
            let m = glob_matches(globs[i].as_str(), p.as_str());
            let hit = match m {
                Ok(b) => b,
                Err(_) => false,
            };
            if hit && !contains_text(out.as_slice(), p) {
                let ghost prev = string_views(out@);
                proof {
                    if prev.contains(p@) {
                        let j = choose|j: int| 0 <= j < prev.len() && prev[j] == p@;
                        assert(out@[j]@ == p@);
                    }
                }
                out.push(p.clone());
                proof { assert(string_views(out@) =~= prev.push(p@)); }
            } else {
                proof {
                    if hit {
                        let prev = string_views(out@);
                        let j = choose|j: int| 0 <= j < out@.len() && #[trigger] out@[j]@ == p@;
                        assert(prev[j] == p@);
                    }
                }
            }
            k = k + 1;
        }
        proof { assert(ws[i as int].len() == paths@.len()); }
        i = i + 1;
    }
    out
}

} // verus!
