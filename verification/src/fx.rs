//! The hash maps of `rustc_hash` that the engine keys by integers, grid cells
//! or names. Each operation the library performs on them goes through one of
//! the trusted items below; their contracts describe a map keyed by integers or
//! cells by the `Map` that vstd gives `std::collections::HashMap` as its view,
//! and a map keyed by names by `name_entries`, keyed by the names' characters.
use vstd::prelude::*;
use rustc_hash::{FxBuildHasher, FxHashMap};

verus! {

/// The hasher builder of `rustc_hash`; a value of it carries no state.
#[verifier::external_type_specification]
#[verifier::external_body]
pub struct ExFxBuildHasher(FxBuildHasher);

/// An `FxHashMap` keyed by ids.
pub type IdMap<V> = FxHashMap<usize, V>;

/// The map with no entries.
pub open spec fn empty_id_map<V>() -> Map<usize, V> {
    Map::empty()
}

/// `FxHashMap::default()`: a map with no entries.
#[verifier::external_body]
pub(crate) fn fx_new<V>() -> (r: IdMap<V>)
    ensures
        r@ == empty_id_map::<V>(),
{
    FxHashMap::default()
}

/// `HashMap::insert` on an `FxHashMap` keyed by `usize`: the key now maps to
/// `v`; the previous value, if any, is returned.
#[verifier::external_body]
pub(crate) fn fx_insert<V>(m: &mut FxHashMap<usize, V>, k: usize, v: V) -> (r: Option<V>)
    ensures
        final(m)@ == old(m)@.insert(k, v),
        match r {
            Some(w) => old(m)@.contains_key(k) && w == old(m)@[k],
            None => !old(m)@.contains_key(k),
        },
{
    m.insert(k, v)
}

/// `HashMap::get` on an `FxHashMap` keyed by `usize`.
#[verifier::external_body]
pub(crate) fn fx_get<V>(m: &FxHashMap<usize, V>, k: usize) -> (r: Option<&V>)
    ensures
        match r {
            Some(w) => m@.contains_key(k) && *w == m@[k],
            None => !m@.contains_key(k),
        },
{
    m.get(&k)
}

/// `HashMap::remove` on an `FxHashMap` keyed by `usize`: the key no longer
/// has an entry; its value, if it had one, is returned.
#[verifier::external_body]
pub(crate) fn fx_remove<V>(m: &mut FxHashMap<usize, V>, k: usize) -> (r: Option<V>)
    ensures
        final(m)@ == old(m)@.remove(k),
        match r {
            Some(w) => old(m)@.contains_key(k) && w == old(m)@[k],
            None => !old(m)@.contains_key(k),
        },
{
    m.remove(&k)
}

} // verus!

verus! {

/// `HashMap::get_mut` on an `FxHashMap` keyed by `usize`: a mutable reference
/// to the key's value, through which the map's entry for the key is updated.
#[verifier::external_body]
pub(crate) fn fx_get_mut<V>(m: &mut FxHashMap<usize, V>, k: usize) -> (r: Option<&mut V>)
    ensures
        match r {
            Some(w) => old(m)@.contains_key(k) && *w == old(m)@[k] && final(m)@ == old(m)@.insert(k, *final(w)),
            None => !old(m)@.contains_key(k) && final(m)@ == old(m)@,
        },
{
    m.get_mut(&k)
}

} // verus!


verus! {

/// A cell of a grid: its column and row.
pub type Cell = (usize, usize);

/// An `FxHashMap` keyed by grid cells.
pub type CellMap<V> = FxHashMap<(usize, usize), V>;

/// The map with no entries.
pub open spec fn empty_cell_map<V>() -> Map<(usize, usize), V> {
    Map::empty()
}

/// `FxHashMap::default()`: a map with no entries.
#[verifier::external_body]
pub(crate) fn cell_map_new<V>() -> (r: CellMap<V>)
    ensures
        r@ == empty_cell_map::<V>(),
{
    FxHashMap::default()
}

/// `HashMap::insert` on an `FxHashMap` keyed by cells: the cell now maps to
/// `v`; the previous value, if any, is returned.
#[verifier::external_body]
pub(crate) fn cell_map_insert<V>(m: &mut CellMap<V>, k: (usize, usize), v: V) -> (r: Option<V>)
    ensures
        final(m)@ == old(m)@.insert(k, v),
        match r {
            Some(w) => old(m)@.contains_key(k) && w == old(m)@[k],
            None => !old(m)@.contains_key(k),
        },
{
    m.insert(k, v)
}

/// `HashMap::get` on an `FxHashMap` keyed by cells.
#[verifier::external_body]
pub(crate) fn cell_map_get<V>(m: &CellMap<V>, k: (usize, usize)) -> (r: Option<&V>)
    ensures
        match r {
            Some(w) => m@.contains_key(k) && *w == m@[k],
            None => !m@.contains_key(k),
        },
{
    m.get(&k)
}

/// `HashMap::get_mut` on an `FxHashMap` keyed by cells: a mutable reference
/// to the cell's value, through which the map's entry for the cell is updated.
#[verifier::external_body]
pub(crate) fn cell_map_get_mut<V>(m: &mut CellMap<V>, k: (usize, usize)) -> (r: Option<&mut V>)
    ensures
        match r {
            Some(w) => old(m)@.contains_key(k) && *w == old(m)@[k] && final(m)@ == old(m)@.insert(k, *final(w)),
            None => !old(m)@.contains_key(k) && final(m)@ == old(m)@,
        },
{
    m.get_mut(&k)
}

} // verus!

verus! {

/// An `FxHashMap` keyed by names.
pub type NameMap = FxHashMap<String, usize>;

/// What a name map holds: each name, by its characters, and the id it maps to.
pub uninterp spec fn name_entries(m: NameMap) -> Map<Seq<char>, usize>;

/// The name map with no entries.
pub open spec fn no_names() -> Map<Seq<char>, usize> {
    Map::empty()
}

/// The value of `name` in `entries`, if it has one.
pub open spec fn name_lookup(entries: Map<Seq<char>, usize>, name: Seq<char>) -> Option<usize> {
    if entries.contains_key(name) {
        Some(entries[name])
    } else {
        None
    }
}

/// `FxHashMap::default()` for names: a map with no entries.
#[verifier::external_body]
pub(crate) fn name_map_new() -> (r: NameMap)
    ensures
        name_entries(r) == no_names(),
{
    FxHashMap::default()
}

/// `HashMap::insert` on an `FxHashMap` keyed by `String`: names are equal
/// when their characters are, so the name now maps to `v`; the previous value,
/// if any, is returned.
#[verifier::external_body]
pub(crate) fn name_map_insert(m: &mut NameMap, k: String, v: usize) -> (r: Option<usize>)
    ensures
        name_entries(*final(m)) == name_entries(*old(m)).insert(k@, v),
        r == name_lookup(name_entries(*old(m)), k@),
{
    m.insert(k, v)
}

/// `HashMap::get` on an `FxHashMap` keyed by `String`, looked up by a `&str`
/// with the same characters; the value is copied out.
#[verifier::external_body]
pub(crate) fn name_map_get(m: &NameMap, k: &str) -> (r: Option<usize>)
    ensures
        r == name_lookup(name_entries(*m), k@),
{
    m.get(k).copied()
}

/// `HashMap::remove` on an `FxHashMap` keyed by `String`, by a `&str` with
/// the same characters: the name no longer has an entry; its value, if it had
/// one, is returned.
#[verifier::external_body]
pub(crate) fn name_map_remove(m: &mut NameMap, k: &str) -> (r: Option<usize>)
    ensures
        name_entries(*final(m)) == name_entries(*old(m)).remove(k@),
        r == name_lookup(name_entries(*old(m)), k@),
{
    m.remove(k)
}

/// `HashMap::keys` on an `FxHashMap` keyed by `String`, cloned into a vector:
/// every name of the map occurs in it and nothing else does; the order is the
/// map's own, which nothing here states.
#[verifier::external_body]
pub(crate) fn name_map_keys(m: &NameMap) -> (r: Vec<String>)
    ensures
        forall|i: int| 0 <= i < r.len() ==> name_entries(*m).contains_key(#[trigger] r@[i]@),
        forall|k: Seq<char>|
            #[trigger] name_entries(*m).contains_key(k) ==> exists|i: int| 0 <= i < r.len() && r@[i]@ == k,
{
    m.keys().cloned().collect()
}

} // verus!
