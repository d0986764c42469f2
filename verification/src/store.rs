use vstd::prelude::*;
use crossbeam_skiplist::SkipMap;

verus! {

#[verifier::external_type_specification]
#[verifier::external_body]
#[verifier::reject_recursive_types(K)]
#[verifier::reject_recursive_types(V)]
pub struct ExSkipMap<K, V>(SkipMap<K, V>);

/// A skip map from ring positions to the nodes occupying them.
pub(crate) type PositionMap = SkipMap<u64, u64>;

/// The entries held by a skip map of ring positions: an abstract map from
/// each stored position to the node occupying it.
pub uninterp spec fn sk_contents(m: PositionMap) -> Map<u64, u64>;

/// Relies on crossbeam_skiplist::SkipMap::new: the new map holds no entries.
#[verifier::external_body]
pub(crate) fn sk_new() -> (r: PositionMap)
    ensures
        sk_contents(r) == (Map::<u64, u64>::empty()),
{
    SkipMap::new()
}

/// Relies on crossbeam_skiplist::SkipMap::insert: the pair is inserted, and
/// an existing entry with the same key is removed before inserting it.
#[verifier::external_body]
pub(crate) fn sk_insert(m: &mut PositionMap, pos: u64, node: u64)
    ensures
        sk_contents(*final(m)) == sk_contents(*old(m)).insert(pos, node),
{
    m.insert(pos, node);
}

/// Relies on crossbeam_skiplist::SkipMap::remove: the entry with the given
/// key is removed and returned, and `None` is returned when no entry has
/// that key.
#[verifier::external_body]
pub(crate) fn sk_remove(m: &mut PositionMap, pos: u64) -> (r: Option<u64>)
    ensures
        sk_contents(*old(m)).contains_key(pos) ==> r == Some(sk_contents(*old(m))[pos])
            && sk_contents(*final(m)) == sk_contents(*old(m)).remove(pos),
        !sk_contents(*old(m)).contains_key(pos) ==> r == None::<u64> && sk_contents(*final(m))
            == sk_contents(*old(m)),
{
    m.remove(&pos).map(|e| *e.value())
}

/// Relies on crossbeam_skiplist::SkipMap::len: the number of entries in the
/// map. The count is exact here: the map is owned by one ring and is never
/// modified while this shared borrow lasts.
#[verifier::external_body]
pub(crate) fn sk_len(m: &PositionMap) -> (r: usize)
    requires
        sk_contents(*m).dom().finite(),
    ensures
        r == sk_contents(*m).dom().len(),
{
    m.len()
}

/// Relies on crossbeam_skiplist::SkipMap::iter: every entry is yielded
/// exactly once, in ascending key order.
#[verifier::external_body]
pub(crate) fn sk_ascending(m: &PositionMap) -> (r: Vec<(u64, u64)>)
    requires
        sk_contents(*m).dom().finite(),
    ensures
        r@.len() == sk_contents(*m).dom().len(),
        forall|i: int|
            0 <= i < r@.len() ==> sk_contents(*m).contains_pair(
                (#[trigger] r@[i]).0,
                r@[i].1,
            ),
        forall|i: int, j: int| 0 <= i < j < r@.len() ==> r@[i].0 < r@[j].0,
        forall|k: u64|
            sk_contents(*m).dom().contains(k) ==> exists|i: int|
                0 <= i < r@.len() && (#[trigger] r@[i]).0 == k,
{
    m.iter().map(|e| (*e.key(), *e.value())).collect()
}

} // verus!
