//! The concurrent maps that hold the filesystem's state, and what is taken on
//! trust about them.
//!
//! The maps are [`DashMap`]s. Each kind of map that the library uses has a
//! name for what it holds, and [`Table`] brings these names together, so that
//! one statement about a method serves them all. A map is only ever changed
//! through a unique reference here, so that what it holds is known from one
//! call to the next.

use crate::cache::CacheEntry;
use crate::handles::{LocalCopy, OpenDir};
use dashmap::DashMap;
use std::hash::Hash;
use vstd::prelude::*;

verus! {

#[verifier::external_type_specification]
#[verifier::external_body]
#[verifier::reject_recursive_types(K)]
#[verifier::reject_recursive_types(V)]
#[verifier::reject_recursive_types(S)]
pub struct ExDashMap<K, V, S>(dashmap::DashMap<K, V, S>);

/// A map whose rows have a name. Keys count as equal when they look the same,
/// which is how strings and integers compare.
pub trait Table<K: View, V> {
    /// What the map holds.
    spec fn rows(&self) -> Map<K::V, V>;
}

/// What a map from paths to cached metadata holds.
pub uninterp spec fn cache_rows(m: DashMap<String, CacheEntry>) -> Map<Seq<char>, CacheEntry>;

/// What a map from paths to inode numbers holds.
pub uninterp spec fn ino_rows(m: DashMap<String, u64>) -> Map<Seq<char>, u64>;

/// What a map from inode numbers to paths holds.
pub uninterp spec fn path_rows(m: DashMap<u64, String>) -> Map<u64, String>;

/// What a map from file handles to inode numbers holds.
pub uninterp spec fn file_rows(m: DashMap<u64, u64>) -> Map<u64, u64>;

/// What a map from inode numbers to local copies holds.
pub uninterp spec fn copy_rows(m: DashMap<u64, LocalCopy>) -> Map<u64, LocalCopy>;

/// What a map from directory handles to listings holds.
pub uninterp spec fn dir_rows(m: DashMap<u64, OpenDir>) -> Map<u64, OpenDir>;

impl Table<String, CacheEntry> for DashMap<String, CacheEntry> {
    open spec fn rows(&self) -> Map<Seq<char>, CacheEntry> {
        cache_rows(*self)
    }
}

impl Table<String, u64> for DashMap<String, u64> {
    open spec fn rows(&self) -> Map<Seq<char>, u64> {
        ino_rows(*self)
    }
}

impl Table<u64, String> for DashMap<u64, String> {
    open spec fn rows(&self) -> Map<u64, String> {
        path_rows(*self)
    }
}

impl Table<u64, u64> for DashMap<u64, u64> {
    open spec fn rows(&self) -> Map<u64, u64> {
        file_rows(*self)
    }
}

impl Table<u64, LocalCopy> for DashMap<u64, LocalCopy> {
    open spec fn rows(&self) -> Map<u64, LocalCopy> {
        copy_rows(*self)
    }
}

impl Table<u64, OpenDir> for DashMap<u64, OpenDir> {
    open spec fn rows(&self) -> Map<u64, OpenDir> {
        dir_rows(*self)
    }
}

/// `DashMap::new`: a new map is empty.
#[verifier::external_body]
pub(crate) fn new_cache() -> (m: DashMap<String, CacheEntry>)
    ensures
        cache_rows(m) =~= Map::empty(),
{
    DashMap::new()
}

/// `DashMap::new`: a new map is empty.
#[verifier::external_body]
pub(crate) fn new_inos() -> (m: DashMap<String, u64>)
    ensures
        ino_rows(m) =~= Map::empty(),
{
    DashMap::new()
}

/// `DashMap::new`: a new map is empty.
#[verifier::external_body]
pub(crate) fn new_paths() -> (m: DashMap<u64, String>)
    ensures
        path_rows(m) =~= Map::empty(),
{
    DashMap::new()
}

/// `DashMap::new`: a new map is empty.
#[verifier::external_body]
pub(crate) fn new_files() -> (m: DashMap<u64, u64>)
    ensures
        file_rows(m) =~= Map::empty(),
{
    DashMap::new()
}

/// `DashMap::new`: a new map is empty.
#[verifier::external_body]
pub(crate) fn new_copies() -> (m: DashMap<u64, LocalCopy>)
    ensures
        copy_rows(m) =~= Map::empty(),
{
    DashMap::new()
}

/// `DashMap::new`: a new map is empty.
#[verifier::external_body]
pub(crate) fn new_dirs() -> (m: DashMap<u64, OpenDir>)
    ensures
        dir_rows(m) =~= Map::empty(),
{
    DashMap::new()
}

/// `DashMap::get`: the value under a key, where there is one. It is handed out
/// as a clone, so that no lock on the map is kept.
#[verifier::external_body]
pub(crate) fn table_get<K: View + Eq + Hash, V: Clone>(m: &DashMap<K, V>, key: &K) -> (r: Option<
    V,
>) where DashMap<K, V>: Table<K, V>
    ensures
        (match r {
            Some(value) => m.rows().contains_key(key@) && cloned(m.rows()[key@], value),
            None => !m.rows().contains_key(key@),
        }),
{
    m.get(key).map(|row| row.value().clone())
}

/// `DashMap::insert`: the key has the value from then on, and nothing else
/// changes.
#[verifier::external_body]
pub(crate) fn table_insert<K: View + Eq + Hash, V>(
    m: &mut DashMap<K, V>,
    key: K,
    value: V,
) where DashMap<K, V>: Table<K, V>
    ensures
        final(m).rows() == old(m).rows().insert(key@, value),
{
    m.insert(key, value);
}

/// `DashMap::remove`: the key is gone, nothing else changes, and what it had
/// is handed out.
#[verifier::external_body]
pub(crate) fn table_remove<K: View + Eq + Hash, V>(m: &mut DashMap<K, V>, key: &K) -> (r: Option<
    V,
>) where DashMap<K, V>: Table<K, V>
    ensures
        final(m).rows() == old(m).rows().remove(key@),
        (match r {
            Some(value) => old(m).rows().contains_key(key@) && value == old(m).rows()[key@],
            None => !old(m).rows().contains_key(key@),
        }),
{
    m.remove(key).map(|row| row.1)
}

/// `DashMap::iter`: every row once, in whatever order the map is walked. The
/// rows are handed out as clones, so that no lock on the map is kept.
#[verifier::external_body]
pub(crate) fn table_pairs<K: View + Eq + Hash + Clone, V: Clone>(m: &DashMap<K, V>) -> (pairs: Vec<
    (K, V),
>) where DashMap<K, V>: Table<K, V>
    ensures
        forall|i: int|
            0 <= i < pairs@.len() ==> m.rows().contains_key((#[trigger] pairs@[i]).0@) && cloned(
                m.rows()[pairs@[i].0@],
                pairs@[i].1,
            ),
        forall|i: int, j: int|
            0 <= i < j < pairs@.len() ==> (#[trigger] pairs@[i]).0@ != (#[trigger] pairs@[j]).0@,
        forall|k: K::V|
            m.rows().contains_key(k) ==> exists|i: int|
                0 <= i < pairs@.len() && (#[trigger] pairs@[i]).0@ == k,
{
    m.iter().map(|row| (row.key().clone(), row.value().clone())).collect()
}

} // verus!
