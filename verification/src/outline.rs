//! The heading outline of a document: its headlines nested into a tree, each
//! under the nearest earlier headline of a lower level.
use vstd::prelude::*;
use crate::orgdoc::{OrgHeadline, parsed_headlines, parse_headlines};
use crate::org_mode::OrgMode;
use crate::text::string_views;
use crate::tree::TreeNode;
use crate::update_apply::{default_todo, default_done};

verus! {

/// What the outline keeps of a node: level, label and tags.
pub open spec fn entry_of(n: TreeNode) -> (nat, Seq<char>, Seq<Seq<char>>) {
    (n.level as nat, n.label@, string_views(n.tags@))
}

/// What the outline keeps of a headline: level, raw title and tags.
pub open spec fn headline_entry(h: OrgHeadline) -> (nat, Seq<char>, Seq<Seq<char>>) {
    (h.level as nat, h.title_raw@, string_views(h.tags@))
}

pub open spec fn headline_entries(hs: Seq<OrgHeadline>) -> Seq<(nat, Seq<char>, Seq<Seq<char>>)> {
    hs.map_values(|h: OrgHeadline| headline_entry(h))
}

/// The nodes of a tree in document order: the node, then each child's
/// subtree in turn.
pub open spec fn flat(n: TreeNode) -> Seq<(nat, Seq<char>, Seq<Seq<char>>)>
    decreases n, n.children@.len() + 1,
{
    seq![entry_of(n)] + kids_flat(n, n.children@.len())
}

/// The subtrees of the first `k` children of `n`, in document order.
pub open spec fn kids_flat(n: TreeNode, k: nat) -> Seq<(nat, Seq<char>, Seq<Seq<char>>)>
    decreases n, k,
{
    if k == 0 || k > n.children@.len() {
        Seq::empty()
    } else {
        kids_flat(n, (k - 1) as nat) + flat(n.children@[k - 1])
    }
}

/// The trees of a forest in document order.
pub open spec fn forest_flat(v: Seq<TreeNode>) -> Seq<(nat, Seq<char>, Seq<Seq<char>>)>
    decreases v.len(),
{
    if v.len() == 0 {
        Seq::empty()
    } else {
        forest_flat(v.drop_last()) + flat(v.last())
    }
}

/// The first `k` children of `n` are well nested: each is well nested, has
/// a higher level than `n`, and a level no higher than its previous sibling.
pub open spec fn kids_shaped(n: TreeNode, k: nat) -> bool
    decreases n, k,
{
    if k == 0 || k > n.children@.len() {
        true
    } else {
        &&& kids_shaped(n, (k - 1) as nat)
        &&& shaped(n.children@[k - 1])
        &&& n.children@[k - 1].level > n.level
        &&& (k >= 2 ==> n.children@[k - 2].level >= n.children@[k - 1].level)
    }
}

/// Every node of the tree is deeper than its parent and no deeper than its
/// previous sibling, so each node hangs under the nearest earlier node of a
/// lower level.
pub open spec fn shaped(n: TreeNode) -> bool
    decreases n, n.children@.len() + 1,
{
    kids_shaped(n, n.children@.len())
}

/// A forest of well-nested trees whose roots' levels never rise.
pub open spec fn forest_ok(v: Seq<TreeNode>) -> bool {
    &&& forall|i: int| 0 <= i < v.len() ==> #[trigger] shaped(v[i])
    &&& forall|i: int| 0 <= i < v.len() - 1 ==> #[trigger] v[i].level >= v[i + 1].level
}

proof fn lemma_kids_prefix(p: TreeNode, q: TreeNode, k: nat)
    requires
        k <= p.children@.len(),
        k <= q.children@.len(),
        p.level == q.level,
        forall|i: int| 0 <= i < k ==> p.children@[i] == q.children@[i],
    ensures
        kids_flat(p, k) == kids_flat(q, k),
        kids_shaped(p, k) == kids_shaped(q, k),
    decreases k,
{
    if k > 0 {
        lemma_kids_prefix(p, q, (k - 1) as nat);
    }
}

/// Adding `c` as the last child of `p` appends `c`'s subtree to `p`'s, and
/// keeps `p` well nested when `c` is well nested, deeper than `p` and no
/// deeper than `p`'s last child.
proof fn lemma_push_child(p: TreeNode, q: TreeNode, c: TreeNode)
    requires
        q.level == p.level,
        q.label == p.label,
        q.tags == p.tags,
        q.children@ == p.children@.push(c),
    ensures
        flat(q) == flat(p) + flat(c),
        shaped(p) && shaped(c) && c.level > p.level
            && (p.children@.len() > 0 ==> p.children@.last().level >= c.level) ==> shaped(q),
{
    let n = p.children@.len();
    lemma_kids_prefix(p, q, n);
    assert(q.children@[n as int] == c);
    assert(kids_flat(q, n + 1) == kids_flat(q, n) + flat(c));
    assert(flat(q) =~= flat(p) + flat(c));
    if n > 0 {
        assert(q.children@[n - 1] == p.children@.last());
    }
}

proof fn lemma_forest_push(v: Seq<TreeNode>, c: TreeNode)
    ensures
        forest_flat(v.push(c)) == forest_flat(v) + flat(c),
{
    assert(v.push(c).drop_last() =~= v);
}

/// The stack of open headings: levels rise, each one's last child is no
/// deeper than the heading above it, and all are well nested.
pub open spec fn stack_ok(s: Seq<TreeNode>) -> bool {
    &&& forall|a: int| 0 <= a < s.len() ==> #[trigger] shaped(s[a])
    &&& forall|a: int| 0 <= a < s.len() - 1 ==> #[trigger] s[a].level < s[a + 1].level
    &&& forall|a: int| 0 <= a < s.len() - 1 && #[trigger] s[a].children@.len() > 0 ==> s[a].children@.last().level >= s[a + 1].level
}

/// Closes the top heading of the stack: it becomes the last child of the
/// heading below it, or the last top-level tree.
fn close_top(roots: &mut Vec<TreeNode>, stack: &mut Vec<TreeNode>, lvl: Ghost<int>)
    requires
        old(stack)@.len() > 0,
        old(stack)@.last().level >= lvl@,
        stack_ok(old(stack)@),
        forest_ok(old(roots)@),
        old(roots)@.len() > 0 ==> old(roots)@.last().level >= old(stack)@[0].level,
    ensures
        forest_flat(final(roots)@) + forest_flat(final(stack)@) == forest_flat(old(roots)@) + forest_flat(old(stack)@),
        final(stack)@.len() == old(stack)@.len() - 1,
        stack_ok(final(stack)@),
        forest_ok(final(roots)@),
        final(roots)@.len() > 0 && final(stack)@.len() > 0 ==> final(roots)@.last().level >= final(stack)@[0].level,
        final(stack)@.len() == 0 ==> final(roots)@.len() > 0 && final(roots)@.last().level >= lvl@,
        final(stack)@.len() > 0 ==> final(stack)@.last().children@.len() > 0 && final(stack)@.last().children@.last().level >= lvl@,
        forall|a: int| 0 <= a < final(stack)@.len() - 1 ==> #[trigger] final(stack)@[a] == old(stack)@[a],
        final(stack)@.len() > 0 ==> final(stack)@.last().level == old(stack)@[final(stack)@.len() - 1].level,
{
    let ghost s0 = stack@;
    let ghost r0 = roots@;
    let top = stack.pop().unwrap();
    proof { assert(s0.drop_last() =~= stack@); }
    if stack.len() > 0 {
        let mut parent = stack.pop().unwrap();
        let ghost p0 = parent;
        let ghost s1 = stack@;
        proof { assert(s0.drop_last().drop_last() =~= s1); }
        parent.children.push(top);
        proof {
            let k = s0.len() - 2;
            assert(s0[k] == p0);
            assert(s0[k + 1] == top);
            lemma_push_child(p0, parent, top);
            assert(shaped(p0));
            assert(shaped(top));
        }
        stack.push(parent);
        proof {
            assert(stack@ =~= s1.push(parent));
            lemma_forest_push(s1, parent);
            lemma_forest_push(s1, p0);
            assert(s0 =~= s1.push(p0).push(top));
            lemma_forest_push(s1.push(p0), top);
            assert(stack@.last() == parent);
            assert forall|a: int| 0 <= a < stack@.len() implies #[trigger] shaped(stack@[a]) by {
                if a < stack@.len() - 1 { assert(stack@[a] == s0[a]); }
            }
            assert forall|a: int| 0 <= a < stack@.len() - 1 implies #[trigger] stack@[a].level < stack@[a + 1].level by {
                assert(stack@[a] == s0[a]);
                if a + 1 < stack@.len() - 1 { assert(stack@[a + 1] == s0[a + 1]); } else { assert(stack@[a + 1].level == s0[a + 1].level); }
            }
            assert forall|a: int| 0 <= a < stack@.len() - 1 && #[trigger] stack@[a].children@.len() > 0 implies stack@[a].children@.last().level >= stack@[a + 1].level by {
                assert(stack@[a] == s0[a]);
                if a + 1 < stack@.len() - 1 { assert(stack@[a + 1] == s0[a + 1]); } else { assert(stack@[a + 1].level == s0[a + 1].level); }
            }
            if stack@.len() > 0 && roots@.len() > 0 {
                if stack@.len() == 1 { assert(stack@[0].level == s0[0].level); } else { assert(stack@[0] == s0[0]); }
            }
        }
    } else {
        roots.push(top);
        proof {
            assert(s0.len() == 1);
            assert(s0[0] == top);
            lemma_forest_push(r0, top);
            assert(s0 =~= Seq::<TreeNode>::empty().push(top));
            lemma_forest_push(Seq::<TreeNode>::empty(), top);
            assert(forest_flat(stack@) =~= Seq::empty());
            assert(roots@ =~= r0.push(top));
            assert forall|i: int| 0 <= i < roots@.len() implies #[trigger] shaped(roots@[i]) by {
                if i < r0.len() { assert(roots@[i] == r0[i]); }
            }
            assert forall|i: int| 0 <= i < roots@.len() - 1 implies #[trigger] roots@[i].level >= roots@[i + 1].level by {
                assert(roots@[i] == r0[i]);
                if i + 1 < r0.len() { assert(roots@[i + 1] == r0[i + 1]); }
            }
        }
    }
}

impl OrgMode {
    /// The heading outline of `content` (parsed with the default keywords):
    /// a `Document` root whose children are the top-level headings, each
    /// heading nested under the nearest earlier heading of a lower level,
    /// labelled with its raw title and carrying its level and tags.
    pub fn outline(content: &str) -> (res: TreeNode)
        ensures
            res.label@ == "Document"@,
            res.level == 0,
            res.tags@.len() == 0,
            forest_flat(res.children@) == headline_entries(parsed_headlines(content@, default_todo(), default_done())),
            forest_ok(res.children@),
    {
        let mut todo: Vec<String> = Vec::new();
        todo.push(String::from_str("TODO"));
        let mut done: Vec<String> = Vec::new();
        done.push(String::from_str("DONE"));
        proof {
            assert(string_views(todo@) =~= default_todo());
            assert(string_views(done@) =~= default_done());
        }
        let hs = parse_headlines(content, todo, done);
        let mut roots: Vec<TreeNode> = Vec::new();
        let mut stack: Vec<TreeNode> = Vec::new();
        let mut i: usize = 0;
        proof {
            assert(forest_flat(roots@) + forest_flat(stack@) =~= headline_entries(hs@.take(0)));
        }
        while i < hs.len()
            invariant
                i <= hs@.len(),
                forest_flat(roots@) + forest_flat(stack@) == headline_entries(hs@.take(i as int)),
                stack_ok(stack@),
                forest_ok(roots@),
                roots@.len() > 0 && stack@.len() > 0 ==> roots@.last().level >= stack@[0].level,
                stack@.len() > 0 ==> stack@.last().children@.len() == 0,
                stack@.len() == 0 ==> roots@.len() == 0,
            decreases hs@.len() - i,
        {
            let h = &hs[i];
            let level = h.level;
            let mut tags: Vec<String> = Vec::new();
            let mut k: usize = 0;
            while k < h.tags.len()
                invariant
                    k <= h.tags@.len(),
                    string_views(tags@) == string_views(h.tags@.take(k as int)),
                decreases h.tags@.len() - k,
            {
                let ghost before = string_views(tags@);
                tags.push(h.tags[k].clone());
                proof {
                    assert(string_views(tags@) =~= before.push(h.tags@[k as int]@));
                    assert(string_views(h.tags@.take(k + 1)) =~= string_views(h.tags@.take(k as int)).push(h.tags@[k as int]@));
                }
                k = k + 1;
            }
            proof { assert(h.tags@.take(h.tags@.len() as int) =~= h.tags@); }
            let node = TreeNode { label: h.title_raw.clone(), level, children: Vec::new(), tags };
            let ghost flat_before = forest_flat(roots@) + forest_flat(stack@);
            let ghost was_empty = stack@.len() == 0;
            while stack.len() > 0 && stack[stack.len() - 1].level >= level
                invariant
                    forest_flat(roots@) + forest_flat(stack@) == flat_before,
                    stack_ok(stack@),
                    forest_ok(roots@),
                    roots@.len() > 0 && stack@.len() > 0 ==> roots@.last().level >= stack@[0].level,
                    stack@.len() > 0 ==> stack@.last().children@.len() == 0 || stack@.last().children@.last().level >= level,
                    stack@.len() == 0 ==> roots@.len() == 0 || roots@.last().level >= level,
                decreases stack@.len(),
            {
                close_top(&mut roots, &mut stack, Ghost(level as int));
            }
            let ghost s0 = stack@;
            stack.push(node);
            proof {
                assert(stack@ =~= s0.push(node));
                lemma_forest_push(s0, node);
                assert(kids_flat(node, 0) =~= Seq::empty());
                assert(flat(node) =~= seq![entry_of(node)]);
                assert(entry_of(node) == headline_entry(hs@[i as int]));
                assert(headline_entries(hs@.take(i + 1)) =~= headline_entries(hs@.take(i as int)).push(headline_entry(hs@[i as int])));
                assert(shaped(node));
                assert forall|a: int| 0 <= a < stack@.len() implies #[trigger] shaped(stack@[a]) by {
                    if a < s0.len() { assert(stack@[a] == s0[a]); }
                }
                assert forall|a: int| 0 <= a < stack@.len() - 1 implies #[trigger] stack@[a].level < stack@[a + 1].level by {
                    assert(stack@[a] == s0[a]);
                    if a + 1 < s0.len() { assert(stack@[a + 1] == s0[a + 1]); }
                }
                assert forall|a: int| 0 <= a < stack@.len() - 1 && #[trigger] stack@[a].children@.len() > 0 implies stack@[a].children@.last().level >= stack@[a + 1].level by {
                    assert(stack@[a] == s0[a]);
                    if a + 1 < s0.len() { assert(stack@[a + 1] == s0[a + 1]); }
                }
                if s0.len() > 0 { assert(stack@[0] == s0[0]); }
            }
            i = i + 1;
        }
        proof { assert(hs@.take(hs@.len() as int) =~= hs@); }
        while stack.len() > 0
            invariant
                forest_flat(roots@) + forest_flat(stack@) == headline_entries(hs@),
                stack_ok(stack@),
                forest_ok(roots@),
                roots@.len() > 0 && stack@.len() > 0 ==> roots@.last().level >= stack@[0].level,
            decreases stack@.len(),
        {
            proof { assert(stack@.last().level >= 0); }
            close_top(&mut roots, &mut stack, Ghost(0int));
        }
        proof {
            assert(hs@.take(hs@.len() as int) =~= hs@);
            assert(forest_flat(stack@) =~= Seq::empty());
            assert(forest_flat(roots@) =~= headline_entries(hs@));
        }
        TreeNode { label: String::from_str("Document"), level: 0, children: roots, tags: Vec::new() }
    }
}

} // verus!
