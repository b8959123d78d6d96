//! Metadata of files on the device, kept for a while.

use crate::parse::FileMeta;
use crate::table::{cache_rows, new_cache, table_get, table_insert, table_remove, Table};
use crate::text::{ends_with, same_text, starts_with};
use crate::time::Span;
use dashmap::DashMap;
use std::time::Instant;
use vstd::prelude::*;
use vstd::string::*;

verus! {

/// A reading of the monotonic clock.
#[verifier::external_type_specification]
#[verifier::external_body]
pub struct ExInstant(std::time::Instant);

/// `Instant::now`: the clock's reading. Nothing is known of it beforehand.
pub assume_specification[ std::time::Instant::now ]() -> std::time::Instant;

/// The time from one reading of the clock to another.
pub uninterp spec fn since(earlier: Instant, now: Instant) -> Span;

/// `Instant::saturating_duration_since`: the time from one reading to another,
/// zero where the second is the earlier one. It depends on the two readings
/// alone and has a name; of how long it is, nothing is known but that it is a
/// whole number of seconds and less than one more.
#[verifier::external_body]
fn age_at(earlier: &Instant, now: Instant) -> (age: Span)
    ensures
        age == since(*earlier, now),
        age.nanos < 1_000_000_000,
{
    let age = now.saturating_duration_since(*earlier);
    Span { secs: age.as_secs(), nanos: age.subsec_nanos() }
}

/// What is remembered of a path: its metadata, or that there is no such file.
pub struct CacheEntry {
    pub meta: Option<FileMeta>,
    pub inserted_at: Instant,
}

impl Clone for CacheEntry {
    fn clone(&self) -> (r: Self)
        ensures
            r == *self,
    {
        CacheEntry {
            meta: match &self.meta {
                Some(meta) => Some(meta.clone()),
                None => None,
            },
            inserted_at: self.inserted_at,
        }
    }
}

/// `prefix` as the start of the paths below it.
pub open spec fn dir_prefix(prefix: Seq<char>) -> Seq<char> {
    if prefix.len() > 0 && prefix.last() == '/' {
        prefix
    } else {
        prefix.push('/')
    }
}

/// Whether `path` is `prefix` itself or something below it. The boundary is a
/// path component.
pub open spec fn at_or_below(path: Seq<char>, prefix: Seq<char>) -> bool {
    path == prefix || dir_prefix(prefix).is_prefix_of(path)
}

/// The rows that are left when those at or below `prefix` are dropped.
pub open spec fn rows_outside(rows: Map<Seq<char>, CacheEntry>, prefix: Seq<char>) -> Map<
    Seq<char>,
    CacheEntry,
> {
    rows.filter_keys(|path: Seq<char>| !at_or_below(path, prefix))
}

/// What a read finds under `path` when the entry there is as old as `age`: an
/// entry older than `ttl` no longer counts.
pub open spec fn found(
    rows: Map<Seq<char>, CacheEntry>,
    path: Seq<char>,
    age: Span,
    ttl: Span,
) -> Option<Option<FileMeta>> {
    if rows.contains_key(path) && age.length() <= ttl.length() {
        Some(rows[path].meta)
    } else {
        None
    }
}

/// The rows that such a read leaves: an entry that no longer counts is dropped.
pub open spec fn rows_after_read(
    rows: Map<Seq<char>, CacheEntry>,
    path: Seq<char>,
    age: Span,
    ttl: Span,
) -> Map<Seq<char>, CacheEntry> {
    if rows.contains_key(path) && age.length() > ttl.length() {
        rows.remove(path)
    } else {
        rows
    }
}

/// How old the entry under `path` is at the clock's reading `now`.
pub open spec fn age_of(
    rows: Map<Seq<char>, CacheEntry>,
    path: Seq<char>,
    now: Instant,
) -> Span {
    since(rows[path].inserted_at, now)
}

/// A read of `path` at the clock's reading `now` gives `r` and leaves
/// `rows_after`.
pub open spec fn read_at(
    rows: Map<Seq<char>, CacheEntry>,
    rows_after: Map<Seq<char>, CacheEntry>,
    path: Seq<char>,
    now: Instant,
    ttl: Span,
    r: Option<Option<FileMeta>>,
) -> bool {
    &&& r == found(rows, path, age_of(rows, path, now), ttl)
    &&& rows_after == rows_after_read(rows, path, age_of(rows, path, now), ttl)
}

/// Whether `path` stays when what is at or below `prefix` is dropped; `dir` is
/// how the paths below it start.
fn stays(path: &String, prefix: &str, dir: &str) -> (r: bool)
    requires
        dir@ == dir_prefix(prefix@),
    ensures
        r == !at_or_below(path@, prefix@),
{
    !same_text(path.as_str(), prefix) && !starts_with(path.as_str(), dir)
}

/// `DashMap::retain`: the rows for whose key the closure says no are gone, and
/// the others are as they were.
#[verifier::external_body]
fn retain_outside(m: &mut DashMap<String, CacheEntry>, prefix: &str, dir: &str)
    requires
        dir@ == dir_prefix(prefix@),
    ensures
        cache_rows(*final(m)) == rows_outside(cache_rows(*old(m)), prefix@),
{
    m.retain(|path, _| stays(path, prefix, dir));
}

/// Metadata by path, each for as long as `ttl` after it was put in.
pub struct MetadataCache {
    pub entries: DashMap<String, CacheEntry>,
    pub ttl: Span,
}

impl MetadataCache {
    /// What the cache holds, whether or not it still counts.
    pub open spec fn rows(&self) -> Map<Seq<char>, CacheEntry> {
        self.entries.rows()
    }

    pub fn new(ttl: Span) -> (cache: Self)
        ensures
            cache.rows() == Map::<Seq<char>, CacheEntry>::empty(),
            cache.ttl == ttl,
    {
        Self { entries: new_cache(), ttl }
    }

    /// What is known of `path`: nothing, that there is no such file, or its
    /// metadata. An entry that is too old is dropped. How old it is follows
    /// from when it was put in and from the clock's reading at the time of the
    /// call.
    pub fn get(&mut self, path: &str) -> (r: Option<Option<FileMeta>>)
        ensures
            final(self).ttl == old(self).ttl,
            exists|now: Instant| #[trigger]
                read_at(
                    old(self).rows(),
                    final(self).rows(),
                    path@,
                    now,
                    old(self).ttl,
                    r,
                ),
    {
        let now = Instant::now();
        let r = self.get_at(path, now);
        assert(read_at(old(self).rows(), self.rows(), path@, now, self.ttl, r));
        r
    }

    /// What is known of `path` at the clock's reading `now`.
    pub fn get_at(&mut self, path: &str, now: Instant) -> (r: Option<Option<FileMeta>>)
        ensures
            final(self).ttl == old(self).ttl,
            read_at(old(self).rows(), final(self).rows(), path@, now, old(self).ttl, r),
    {
        match table_get(&self.entries, &path.to_owned()) {
            Some(entry) => {
                let age = age_at(&entry.inserted_at, now);
                self.get_aged(path, age)
            },
            None => None,
        }
    }

    /// What is known of `path` when the entry there, if any, is as old as
    /// `age`.
    pub fn get_aged(&mut self, path: &str, age: Span) -> (r: Option<Option<FileMeta>>)
        ensures
            final(self).ttl == old(self).ttl,
            r == found(old(self).rows(), path@, age, old(self).ttl),
            final(self).rows() == rows_after_read(old(self).rows(), path@, age, old(self).ttl),
    {
        let key = path.to_owned();
        match table_get(&self.entries, &key) {
            Some(entry) => {
                if age.longer_than(self.ttl) {
                    table_remove(&mut self.entries, &key);
                    return None;
                }
                Some(entry.meta)
            },
            None => None,
        }
    }

    pub fn insert(&mut self, path: String, meta: Option<FileMeta>)
        ensures
            final(self).ttl == old(self).ttl,
            final(self).rows().contains_key(path@),
            final(self).rows()[path@].meta == meta,
            final(self).rows() == old(self).rows().insert(path@, final(self).rows()[path@]),
    {
        let now = Instant::now();
        self.insert_at(path, meta, now);
    }

    /// Puts in what was learned of `path` at the clock's reading `now`.
    pub fn insert_at(&mut self, path: String, meta: Option<FileMeta>, now: Instant)
        ensures
            final(self).ttl == old(self).ttl,
            final(self).rows() == old(self).rows().insert(
                path@,
                (CacheEntry { meta, inserted_at: now }),
            ),
    {
        table_insert(&mut self.entries, path, CacheEntry { meta, inserted_at: now });
    }

    pub fn invalidate(&mut self, path: &str)
        ensures
            final(self).ttl == old(self).ttl,
            final(self).rows() == old(self).rows().remove(path@),
    {
        table_remove(&mut self.entries, &path.to_owned());
    }

    /// Drops `prefix` itself and everything below it. The boundary is a path
    /// component, so invalidating `/sdcard` leaves `/sdcardfoo` alone.
    pub fn invalidate_prefix(&mut self, prefix: &str)
        ensures
            final(self).ttl == old(self).ttl,
            final(self).rows() == rows_outside(old(self).rows(), prefix@),
    {
        let mut dir = prefix.to_owned();
        proof {
            reveal_strlit("/");
        }
        if ends_with(prefix, "/") {
            assert(prefix@.subrange(prefix@.len() - 1, prefix@.len() as int)[0] == '/');
        } else {
            proof {
                if prefix@.len() > 0 && prefix@.last() == '/' {
                    assert(prefix@.subrange(prefix@.len() - 1, prefix@.len() as int) =~= "/"@);
                }
            }
            dir.append("/");
            assert(dir@ =~= prefix@.push('/'));
        }
        retain_outside(&mut self.entries, prefix, dir.as_str());
    }
}

// ---- laws ----

/// A read gives back what was put in, for as long as it counts.
pub proof fn law_read_gives_back_a_write(
    rows: Map<Seq<char>, CacheEntry>,
    path: Seq<char>,
    entry: CacheEntry,
    age: Span,
    ttl: Span,
)
    requires
        age.length() <= ttl.length(),
    ensures
        found(rows.insert(path, entry), path, age, ttl) == Some(entry.meta),
        rows_after_read(rows.insert(path, entry), path, age, ttl) == rows.insert(path, entry),
{
}

/// Putting something in under one path changes no read of another.
pub proof fn law_write_leaves_other_paths(
    rows: Map<Seq<char>, CacheEntry>,
    path: Seq<char>,
    other: Seq<char>,
    entry: CacheEntry,
    age: Span,
    ttl: Span,
)
    requires
        path != other,
    ensures
        found(rows.insert(path, entry), other, age, ttl) == found(rows, other, age, ttl),
{
}

/// What is older than the limit is not found, and is not found again however
/// young the next read takes it to be.
pub proof fn law_expired_is_gone(
    rows: Map<Seq<char>, CacheEntry>,
    path: Seq<char>,
    age: Span,
    later: Span,
    ttl: Span,
)
    requires
        age.length() > ttl.length(),
    ensures
        found(rows, path, age, ttl) is None,
        found(rows_after_read(rows, path, age, ttl), path, later, ttl) is None,
{
}

/// After a path is invalidated nothing is found there, and every other path is
/// as it was.
pub proof fn law_invalidated_is_gone(
    rows: Map<Seq<char>, CacheEntry>,
    path: Seq<char>,
    other: Seq<char>,
    age: Span,
    ttl: Span,
)
    ensures
        found(rows.remove(path), path, age, ttl) is None,
        other != path ==> found(rows.remove(path), other, age, ttl) == found(rows, other, age, ttl),
{
}

/// After a prefix is invalidated nothing is found there or below it, and every
/// other path, siblings that share its characters among them, is as it was.
pub proof fn law_prefix_is_a_component_boundary(
    rows: Map<Seq<char>, CacheEntry>,
    prefix: Seq<char>,
    path: Seq<char>,
    age: Span,
    ttl: Span,
)
    ensures
        at_or_below(path, prefix) ==> found(rows_outside(rows, prefix), path, age, ttl) is None,
        !at_or_below(path, prefix) ==> found(rows_outside(rows, prefix), path, age, ttl) == found(
            rows,
            path,
            age,
            ttl,
        ),
{
}

/// A sibling whose name only starts like `prefix` is not below it.
pub proof fn law_sibling_is_not_below(prefix: Seq<char>, rest: Seq<char>)
    requires
        prefix.len() > 0,
        prefix.last() != '/',
        rest.len() > 0,
        rest[0] != '/',
    ensures
        !at_or_below(prefix + rest, prefix),
{
    let path = prefix + rest;
    assert(path[prefix.len() as int] == rest[0]);
    if dir_prefix(prefix).is_prefix_of(path) {
        assert(path.subrange(0, (prefix.len() + 1) as int)[prefix.len() as int] == '/');
    }
    if path == prefix {
        assert(path.len() == prefix.len());
    }
}

/// Invalidating the root leaves no absolute path.
pub proof fn law_root_clears_everything(
    rows: Map<Seq<char>, CacheEntry>,
    path: Seq<char>,
    age: Span,
    ttl: Span,
)
    requires
        path.len() > 0,
        path[0] == '/',
    ensures
        found(rows_outside(rows, seq!['/']), path, age, ttl) is None,
{
    assert(path.subrange(0, 1) =~= seq!['/']);
    assert(at_or_below(path, seq!['/']));
}

/// What is below a path is what starts with it and a slash, whether or not the
/// path itself ends in one.
pub proof fn law_below_is_behind_a_slash(prefix: Seq<char>, rest: Seq<char>, path: Seq<char>)
    requires
        prefix.len() == 0 || prefix.last() != '/',
    ensures
        at_or_below(prefix, prefix),
        at_or_below(prefix + seq!['/'] + rest, prefix),
        at_or_below(prefix + seq!['/'] + rest, prefix + seq!['/']),
        at_or_below(path, prefix) ==> path == prefix || exists|tail: Seq<char>|
            path == #[trigger] (prefix + seq!['/'] + tail),
        at_or_below(path, prefix + seq!['/']) ==> exists|tail: Seq<char>|
            path == #[trigger] (prefix + seq!['/'] + tail),
{
    let dir = prefix + seq!['/'];
    let below = dir + rest;
    assert(dir =~= prefix.push('/'));
    assert(below.subrange(0, dir.len() as int) =~= dir);
    assert(dir.last() == '/');
    if path == dir {
        assert(path =~= dir + Seq::<char>::empty());
    }
    if dir.is_prefix_of(path) {
        let tail = path.skip(dir.len() as int);
        assert(path =~= dir + tail);
    }
}

/// A read gives what was put in for as long as it counts, and takes out what no
/// longer does; what is under other paths stays in either case.
pub proof fn law_a_read_is_of_what_counts(
    rows: Map<Seq<char>, CacheEntry>,
    rows_after: Map<Seq<char>, CacheEntry>,
    path: Seq<char>,
    now: Instant,
    ttl: Span,
    r: Option<Option<FileMeta>>,
    other: Seq<char>,
)
    requires
        read_at(rows, rows_after, path, now, ttl, r),
    ensures
        !rows.contains_key(path) ==> r is None && rows_after == rows,
        rows.contains_key(path) && since(rows[path].inserted_at, now).length() <= ttl.length()
            ==> r == Some(rows[path].meta) && rows_after == rows,
        rows.contains_key(path) && since(rows[path].inserted_at, now).length() > ttl.length() ==> r
            is None && !rows_after.contains_key(path),
        other != path ==> rows_after.contains_key(other) == rows.contains_key(other),
        other != path && rows.contains_key(other) ==> rows_after[other] == rows[other],
{
}

} // verus!
