//! The heading outline of an org document as a tree.
use vstd::prelude::*;
use crate::text::push_char;

verus! {

/// A node of the heading outline: a heading label with its level, tags and
/// the headings nested under it.
#[derive(Debug)]
pub struct TreeNode {
    pub label: String,
    pub level: usize,
    pub children: Vec<TreeNode>,
    pub tags: Vec<String>,
}

/// `n` copies of `c`.
pub open spec fn rep(c: char, n: nat) -> Seq<char> {
    Seq::new(n, |i: int| c)
}

/// The line of one node: two spaces per indentation step, the level's stars,
/// a space, the label and a newline.
pub open spec fn node_line(n: TreeNode, indent: nat) -> Seq<char> {
    rep(' ', 2 * indent) + rep('*', n.level as nat) + seq![' '] + n.label@ + seq!['\n']
}

/// The indented rendering of `n` and, one step deeper, of its children.
pub open spec fn node_text(n: TreeNode, indent: nat) -> Seq<char>
    decreases n, n.children@.len() + 1,
{
    node_line(n, indent) + kids_text(n, indent + 1, n.children@.len())
}

/// The renderings of the first `k` children of `n`, in order.
pub open spec fn kids_text(n: TreeNode, indent: nat, k: nat) -> Seq<char>
    decreases n, k,
{
    if k == 0 || k > n.children@.len() {
        Seq::empty()
    } else {
        kids_text(n, indent, (k - 1) as nat) + node_text(n.children@[k - 1], indent)
    }
}

/// The deepest subtree among the first `k` children of `n`, counted from `n`.
pub open spec fn kids_depth(n: TreeNode, k: nat) -> nat
    decreases n, k,
{
    if k == 0 || k > n.children@.len() {
        0
    } else {
        let a = kids_depth(n, (k - 1) as nat);
        let b = n.children@[k - 1].depth_below() + 1;
        if a >= b { a } else { b }
    }
}

proof fn lemma_kids_depth(n: TreeNode, k: nat, i: int)
    requires
        0 <= i < k <= n.children@.len(),
    ensures
        n.children@[i].depth_below() + 1 <= kids_depth(n, k),
    decreases k,
{
    if i < k - 1 {
        lemma_kids_depth(n, (k - 1) as nat, i);
    }
}

/// Appends `n` copies of `c`.
pub fn push_repeat(s: &mut String, c: char, n: usize)
    ensures
        final(s)@ == old(s)@ + rep(c, n as nat),
{
    let mut i: usize = 0;
    while i < n
        invariant
            i <= n,
            s@ == old(s)@ + rep(c, i as nat),
        decreases n - i,
    {
        push_char(s, c);
        proof {
            assert(old(s)@ + rep(c, (i + 1) as nat) =~= old(s)@ + rep(c, i as nat) + seq![c]);
        }
        i = i + 1;
    }
}

impl TreeNode {
    /// How many levels of nodes lie below this one.
    pub open spec fn depth_below(self) -> nat
        decreases self, self.children@.len() + 1,
    {
        kids_depth(self, self.children@.len())
    }

    proof fn lemma_child_depth(&self, i: int)
        requires
            0 <= i < self.children@.len(),
        ensures
            self.children@[i].depth_below() + 1 <= self.depth_below(),
    {
        lemma_kids_depth(*self, self.children@.len(), i);
    }

    /// A level-0 node with no children and no tags.
    pub fn new(label: String) -> (res: Self)
        ensures
            res.label == label,
            res.level == 0,
            res.children@.len() == 0,
            res.tags@.len() == 0,
    {
        TreeNode { label, level: 0, children: Vec::new(), tags: Vec::new() }
    }

    /// A node at `level` with no children and no tags.
    pub fn new_with_level(label: String, level: usize) -> (res: Self)
        ensures
            res.label == label,
            res.level == level,
            res.children@.len() == 0,
            res.tags@.len() == 0,
    {
        TreeNode { label, level, children: Vec::new(), tags: Vec::new() }
    }

    /// Renders this node and its descendants, one line each, indented by two
    /// spaces per depth starting at `indent`.
    pub fn to_indented_string(&self, indent: usize) -> (res: String)
        requires
            indent < usize::MAX / 2,
            self.depth_below() + indent < usize::MAX / 2,
        ensures
            res@ == node_text(*self, indent as nat),
        decreases self, self.children@.len() + 1,
    {
        let mut result = String::new();
        push_repeat(&mut result, ' ', 2 * indent);
        push_repeat(&mut result, '*', self.level);
        push_char(&mut result, ' ');
        result.append(self.label.as_str());
        push_char(&mut result, '\n');
        assert(result@ =~= node_line(*self, indent as nat));
        let mut i: usize = 0;
        while i < self.children.len()
            invariant
                i <= self.children@.len(),
                indent < usize::MAX / 2,
                self.depth_below() + indent < usize::MAX / 2,
                result@ == node_line(*self, indent as nat) + kids_text(*self, (indent + 1) as nat, i as nat),
            decreases self.children@.len() - i,
        {
            proof { self.lemma_child_depth(i as int); }
            let t = self.children[i].to_indented_string(indent + 1);
            result.append(t.as_str());
            proof {
                assert(node_line(*self, indent as nat) + kids_text(*self, (indent + 1) as nat, (i + 1) as nat)
                    =~= node_line(*self, indent as nat) + kids_text(*self, (indent + 1) as nat, i as nat) + t@);
            }
            i = i + 1;
        }
        result
    }
}

} // verus!
