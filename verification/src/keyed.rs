//! Tables keyed by text: `HashMap`s with `String` keys, specified over their
//! deep views, where two keys are the same key exactly when their texts are.
use vstd::prelude::*;

use std::collections::HashMap;

verus! {

broadcast use vstd::string::group_string_axioms;

/// `HashMap::get` on a table of positions, copied out. Keys are compared by
/// their text, so the entry is the deep view's.
#[verifier::external_body]
pub(crate) fn index_get(m: &HashMap<String, usize>, k: &str) -> (r: Option<usize>)
    ensures
        r == (if m.deep_view().contains_key(k@) {
            Some(m.deep_view()[k@])
        } else {
            None
        }),
{
    m.get(k).copied()
}

/// `HashMap::insert` on a table of positions: the key's entry is the value.
#[verifier::external_body]
pub(crate) fn index_insert(m: &mut HashMap<String, usize>, k: String, v: usize)
    ensures
        final(m).deep_view() == old(m).deep_view().insert(k@, v),
{
    m.insert(k, v);
}

/// `HashMap::remove` on a table of positions: the key has no entry.
#[verifier::external_body]
pub(crate) fn index_remove(m: &mut HashMap<String, usize>, k: &str)
    ensures
        final(m).deep_view() == old(m).deep_view().remove(k@),
{
    m.remove(k);
}

/// `HashMap::get` on a table of position lists, cloned out.
#[verifier::external_body]
pub(crate) fn lists_get(m: &HashMap<String, Vec<usize>>, k: &str) -> (r: Option<Vec<usize>>)
    ensures
        r matches Some(v) ==> m.deep_view().contains_key(k@) && v@ == m.deep_view()[k@],
        r is None ==> !m.deep_view().contains_key(k@),
{
    m.get(k).cloned()
}

/// `HashMap::remove` on a table of position lists: the key's entry, taken out.
#[verifier::external_body]
pub(crate) fn lists_remove(m: &mut HashMap<String, Vec<usize>>, k: &str) -> (r: Option<Vec<usize>>)
    ensures
        r matches Some(v) ==> old(m).deep_view().contains_key(k@) && v@ == old(m).deep_view()[k@],
        r is None ==> !old(m).deep_view().contains_key(k@),
        final(m).deep_view() == old(m).deep_view().remove(k@),
{
    m.remove(k)
}

/// `HashMap::insert` on a table of position lists: the key's entry is the list.
#[verifier::external_body]
pub(crate) fn lists_insert(m: &mut HashMap<String, Vec<usize>>, k: String, v: Vec<usize>)
    ensures
        final(m).deep_view() == old(m).deep_view().insert(k@, v@),
{
    m.insert(k, v);
}

/// `HashMap::len` on a table of position lists: the number of files.
#[verifier::external_body]
pub(crate) fn lists_len(m: &HashMap<String, Vec<usize>>) -> (r: usize)
    ensures
        r == m.deep_view().len(),
{
    m.len()
}

/// The deep view of a map keyed by strings has a finite domain.
pub proof fn lemma_deep_view_finite<V: DeepView>(m: HashMap<String, V>)
    ensures
        m.deep_view().dom().finite(),
{
    broadcast use vstd::std_specs::hash::group_hash_axioms;

    vstd::std_specs::hash::lemma_hashmap_deepview_dom(m);
    m@.dom().lemma_map_finite(|k: String| k.deep_view());
}

} // verus!
