//! The concurrent maps of `dashmap` that hold the ledger, and what the ledger
//! relies on of them. Each map's contents are named, and each method the ledger
//! calls is wrapped with a contract over those contents. The ledger changes its
//! maps only through `&mut`, so a map's contents stay put while it is shared.
use crate::item::{Item, Rec};
use dashmap::DashMap;
use std::collections::HashSet;
use vstd::prelude::*;

verus! {

#[verifier::external_type_specification]
#[verifier::external_body]
#[verifier::reject_recursive_types(K)]
#[verifier::reject_recursive_types(V)]
#[verifier::reject_recursive_types(S)]
pub struct ExDashMap<K, V, S>(DashMap<K, V, S>);

/// A model of the stored items: token to item.
pub type ItemMap = Map<Seq<char>, Rec>;

/// A model of an index: id to the tokens filed under it.
pub type IndexMap = Map<u64, Set<Seq<char>>>;

/// The entries of the map of items: token to stored item.
pub uninterp spec fn items_of(m: DashMap<String, Item>) -> ItemMap;

/// The entries of an index: id to the set of tokens filed under it.
pub uninterp spec fn index_of(m: DashMap<u64, HashSet<String>>) -> IndexMap;

/// The tokens an index files under `id`; none where `id` has no entry.
pub open spec fn members(ix: IndexMap, id: u64) -> Set<Seq<char>> {
    if ix.contains_key(id) {
        ix[id]
    } else {
        Set::empty()
    }
}

/// The views of a sequence of strings.
pub open spec fn views(v: Seq<String>) -> Seq<Seq<char>> {
    v.map_values(|s: String| s@)
}

/// Relies on `DashMap::new`: the new map is empty.
#[verifier::external_body]
pub(crate) fn items_new() -> (created: DashMap<String, Item>)
    ensures
        items_of(created) == ItemMap::empty(),
{
    DashMap::new()
}

/// Relies on `DashMap::get`: the entry under `k`, if any (a copy of it, made by
/// the derived `Clone` of `Item`, field by field).
#[verifier::external_body]
pub(crate) fn items_get(m: &DashMap<String, Item>, k: &String) -> (r: Option<Item>)
    ensures
        r is None <==> !items_of(*m).contains_key(k@),
        r matches Some(it) ==> it@ == items_of(*m)[k@],
{
    m.get(k).map(|e| e.value().clone())
}

/// Relies on `DashMap::insert`: `v` is stored under `k`, replacing any entry there.
#[verifier::external_body]
pub(crate) fn items_insert(m: &mut DashMap<String, Item>, k: String, v: Item)
    ensures
        items_of(*final(m)) == items_of(*old(m)).insert(k@, v@),
{
    m.insert(k, v);
}

/// Relies on `DashMap::remove`: the entry under `k`, if any, is gone.
#[verifier::external_body]
pub(crate) fn items_remove(m: &mut DashMap<String, Item>, k: &String)
    ensures
        items_of(*final(m)) == items_of(*old(m)).remove(k@),
{
    m.remove(k);
}

/// Relies on `DashMap::iter`: each key of the map once, in no given order.
#[verifier::external_body]
pub(crate) fn items_keys(m: &DashMap<String, Item>) -> (r: Vec<String>)
    ensures
        views(r@).no_duplicates(),
        views(r@).to_set() == items_of(*m).dom(),
{
    m.iter().map(|e| e.key().clone()).collect()
}

/// Relies on `DashMap::new`: the new index is empty.
#[verifier::external_body]
pub(crate) fn index_new() -> (created: DashMap<u64, HashSet<String>>)
    ensures
        index_of(created) == IndexMap::empty(),
{
    DashMap::new()
}

/// Relies on `DashMap::entry`, `Entry::or_default` and `HashSet::insert`: `k` is
/// added to the set under `id`, which starts empty where there was none.
#[verifier::external_body]
pub(crate) fn index_add(m: &mut DashMap<u64, HashSet<String>>, id: u64, k: &String)
    ensures
        index_of(*final(m)) == index_of(*old(m)).insert(id, members(index_of(*old(m)), id).insert(k@)),
{
    m.entry(id).or_default().insert(k.clone());
}

/// Relies on `DashMap::get_mut` and `HashSet::remove`: `k` is taken out of the
/// set under `id`, if there is one; the set stays, possibly empty.
#[verifier::external_body]
pub(crate) fn index_remove(m: &mut DashMap<u64, HashSet<String>>, id: u64, k: &String)
    ensures
        index_of(*final(m)) == if index_of(*old(m)).contains_key(id) {
            index_of(*old(m)).insert(id, index_of(*old(m))[id].remove(k@))
        } else {
            index_of(*old(m))
        },
{
    m.get_mut(&id).map(|mut s| s.remove(k));
}

/// Relies on `DashMap::get` and `HashSet::iter`: the tokens filed under `id`,
/// each once, in no given order.
#[verifier::external_body]
pub(crate) fn index_members(m: &DashMap<u64, HashSet<String>>, id: u64) -> (r: Vec<String>)
    ensures
        views(r@).no_duplicates(),
        views(r@).to_set() == members(index_of(*m), id),
{
    m.get(&id).map_or(Vec::new(), |s| s.iter().cloned().collect())
}

} // verus!
