use vstd::prelude::*;

verus! {

/// Every tag of `filter` occurs in `item`, and an empty `item` list matches
/// only an empty filter.
pub open spec fn spec_tags_match(item: Seq<String>, filter: Seq<String>) -> bool {
    &&& (item.len() == 0 ==> filter.len() == 0)
    &&& forall|j: int| 0 <= j < filter.len() ==> #[trigger] seq_has_text(item, filter[j]@)
}

/// `texts` holds a string whose characters are `t`.
pub open spec fn seq_has_text(texts: Seq<String>, t: Seq<char>) -> bool {
    exists|i: int| 0 <= i < texts.len() && #[trigger] texts[i]@ == t
}

/// Whether `texts` holds a string equal to `t`.
pub fn contains_text(texts: &[String], t: &String) -> (res: bool)
    ensures
        res == seq_has_text(texts@, t@),
{
    let mut i: usize = 0;
    while i < texts.len()
        invariant
            i <= texts@.len(),
            forall|k: int| 0 <= k < i ==> texts@[k]@ != t@,
        decreases texts@.len() - i,
    {
        if texts[i] == *t {
            return true;
        }
        i = i + 1;
    }
    false
}

/// Checks if all tags in `filter_tags` are present in `item_tags`.
pub fn tags_match(item_tags: &[String], filter_tags: &[String]) -> (res: bool)
    ensures
        res == spec_tags_match(item_tags@, filter_tags@),
{
    if item_tags.len() == 0 && filter_tags.len() != 0 {
        return false;
    }
    let mut j: usize = 0;
    while j < filter_tags.len()
        invariant
            j <= filter_tags@.len(),
            forall|k: int| 0 <= k < j ==> #[trigger] seq_has_text(item_tags@, filter_tags@[k]@),
        decreases filter_tags@.len() - j,
    {
        if !contains_text(item_tags, &filter_tags[j]) {
            return false;
        }
        j = j + 1;
    }
    true
}

} // verus!
