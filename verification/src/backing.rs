//! The trusted floor of the registry: thin wrappers around the stable
//! structures of `ic_stable_structures`. One memory manager carves the single
//! physical byte store into disjoint logical memories; a durable cell holds
//! the identifier counter and one durable ordered map per entity type holds
//! encoded records. Everything above this module is verified against the
//! contracts stated here.

use ic_stable_structures::cell::Cell as StableCell;
use ic_stable_structures::memory_manager::{MemoryId, MemoryManager, VirtualMemory};
use ic_stable_structures::{DefaultMemoryImpl, StableBTreeMap};
use vstd::prelude::*;

verus! {

/// How many entity tables the store multiplexes over the one backing store.
pub const TABLE_COUNT: usize = 9;

/// A durable ordered map from 64-bit keys to encoded records, living in one
/// logical memory of the paged store.
#[verifier::external_body]
pub struct RecordMap {
    inner: StableBTreeMap<u64, Vec<u8>, VirtualMemory<DefaultMemoryImpl>>,
}

/// The entries a `RecordMap` currently holds.
pub uninterp spec fn map_entries(m: RecordMap) -> Map<u64, Seq<u8>>;

/// A durable single-value cell holding the next-identifier counter in its own
/// logical memory.
#[verifier::external_body]
pub struct IdCell {
    inner: StableCell<u64, VirtualMemory<DefaultMemoryImpl>>,
}

/// The value a durable cell currently holds.
pub uninterp spec fn cell_value(c: IdCell) -> u64;

/// A freshly formatted backing store: the identifier cell and one record map
/// per entity table, all carved out of one physical byte store.
pub(crate) struct RawBacking {
    pub(crate) cell: IdCell,
    pub(crate) maps: Vec<RecordMap>,
}

/// What `fresh_backing` promises of a freshly formatted backing store: the
/// counter starts at zero, one map per table stands ready, and every map
/// starts empty.
pub(crate) open spec fn is_fresh_backing(b: RawBacking) -> bool {
    &&& cell_value(b.cell) == 0
    &&& b.maps@.len() == TABLE_COUNT
    &&& forall|i: int|
        0 <= i < TABLE_COUNT ==> map_entries(#[trigger] b.maps@[i]) == Map::<u64, Seq<u8>>::empty()
}

/// Relies on `MemoryManager::init` and `MemoryManager::get` (each `MemoryId`
/// names its own disjoint growable logical memory of one fresh byte store),
/// on `Cell::init` (a cell in a fresh memory starts at the given default) and
/// on `BTreeMap::init` (a map in a fresh memory starts empty). The cell and
/// the maps are created on pairwise distinct memory ids, so they never alias.
#[verifier::external_body]
pub(crate) fn fresh_backing() -> (r: RawBacking)
    ensures
        is_fresh_backing(r),
{
    let mgr = MemoryManager::init(DefaultMemoryImpl::default());
    let cell = IdCell { inner: StableCell::init(mgr.get(MemoryId::new(0)), 0) };
    let mut maps = Vec::new();
    for i in 0..TABLE_COUNT as u8 {
        maps.push(RecordMap { inner: StableBTreeMap::init(mgr.get(MemoryId::new(i + 1))) });
    }
    RawBacking { cell, maps }
}

/// Relies on `BTreeMap::get`: the value stored under the key, if any.
#[verifier::external_body]
pub(crate) fn map_get(m: &RecordMap, key: u64) -> (r: Option<Vec<u8>>)
    ensures
        match r {
            Some(v) => map_entries(*m).dom().contains(key) && v@ == map_entries(*m)[key],
            None => !map_entries(*m).dom().contains(key),
        },
{
    m.inner.get(&key)
}

/// Relies on `BTreeMap::insert`: upserts the value under the key and returns
/// the value it replaces, if any.
#[verifier::external_body]
pub(crate) fn map_insert(m: &mut RecordMap, key: u64, value: Vec<u8>) -> (r: Option<Vec<u8>>)
    ensures
        map_entries(*final(m)) == map_entries(*old(m)).insert(key, value@),
        match r {
            Some(v) => map_entries(*old(m)).dom().contains(key) && v@ == map_entries(*old(m))[key],
            None => !map_entries(*old(m)).dom().contains(key),
        },
{
    m.inner.insert(key, value)
}

/// Relies on `BTreeMap::remove`: deletes the value stored under the key and
/// returns it, if any.
#[verifier::external_body]
pub(crate) fn map_remove(m: &mut RecordMap, key: u64) -> (r: Option<Vec<u8>>)
    ensures
        map_entries(*final(m)) == map_entries(*old(m)).remove(key),
        match r {
            Some(v) => map_entries(*old(m)).dom().contains(key) && v@ == map_entries(*old(m))[key],
            None => !map_entries(*old(m)).dom().contains(key),
        },
{
    m.inner.remove(&key)
}

/// Relies on `BTreeMap::contains_key`.
#[verifier::external_body]
pub(crate) fn map_contains(m: &RecordMap, key: u64) -> (r: bool)
    ensures
        r == map_entries(*m).dom().contains(key),
{
    m.inner.contains_key(&key)
}

/// Relies on `BTreeMap::is_empty`: true exactly when the map holds nothing.
#[verifier::external_body]
pub(crate) fn map_is_empty(m: &RecordMap) -> (r: bool)
    ensures
        r == (map_entries(*m) == Map::<u64, Seq<u8>>::empty()),
{
    m.inner.is_empty()
}

/// Relies on `BTreeMap::iter` and `LazyEntry::into_pair`: every entry exactly
/// once, in strictly ascending key order.
#[verifier::external_body]
pub(crate) fn map_entries_vec(m: &RecordMap) -> (r: Vec<(u64, Vec<u8>)>)
    ensures
        forall|i: int, j: int| 0 <= i < j < r@.len() ==> (#[trigger] r@[i]).0 < (#[trigger] r@[j]).0,
        forall|i: int|
            0 <= i < r@.len() ==> map_entries(*m).contains_pair(
                (#[trigger] r@[i]).0,
                r@[i].1@,
            ),
        forall|k: u64|
            map_entries(*m).dom().contains(k) ==> exists|i: int|
                0 <= i < r@.len() && (#[trigger] r@[i]).0 == k,
{
    m.inner.iter().map(|e| e.into_pair()).collect()
}

/// Relies on `Cell::get`: the most recently written value.
#[verifier::external_body]
pub(crate) fn cell_get(c: &IdCell) -> (r: u64)
    ensures
        r == cell_value(*c),
{
    *c.inner.get()
}

/// Relies on `Cell::set`: durably overwrites the value and returns the
/// previous one.
#[verifier::external_body]
pub(crate) fn cell_set(c: &mut IdCell, v: u64) -> (r: u64)
    ensures
        cell_value(*final(c)) == v,
        r == cell_value(*old(c)),
{
    c.inner.set(v)
}

} // verus!
