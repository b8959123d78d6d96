//! Requests about open directories.

use crate::adb::{AdbDevice, Exchange};
use crate::attr::{kind_of, mode_to_filetype, FileType};
use crate::cache::CacheEntry;
use crate::fs::{child, child_path, meta_shown, AdbFs};
use crate::fs::laws::{law_children_are_distinct, law_listing_keeps_step};
use crate::fs::step::{held_by, Opened};
use crate::handles::{law_listing_is_balanced, DirEntry, DirEntryView, HandleView, OpenDir};
use crate::inodes::InodeView;
use crate::ops::{entries_in, entry_view, entry_views, list_command};
use crate::parse::{FileMeta, MetaView};
use crate::sys::Errno;
use crate::text::{same_text, texts};
use vstd::prelude::*;
use vstd::string::*;

verus! {

/// The names under which every directory lists itself and its parent.
pub open spec fn is_dot(name: Seq<char>) -> bool {
    name == "."@ || name == ".."@
}

/// The kind of file that a listing shows for an entry.
pub open spec fn entry_kind(meta: Option<MetaView>) -> FileType {
    match meta {
        Some(meta) => kind_of(meta.mode),
        None => FileType::RegularFile,
    }
}

/// The table of inodes once every entry of the directory at `path` has one.
pub open spec fn all_assigned(
    v: InodeView,
    path: Seq<char>,
    entries: Seq<(Seq<char>, Option<MetaView>)>,
) -> InodeView
    decreases entries.len(),
{
    if entries.len() == 0 {
        v
    } else {
        let before = all_assigned(v, path, entries.drop_last());
        if is_dot(entries.last().0) {
            before
        } else {
            before.with(child(path, entries.last().0))
        }
    }
}

/// What the directory `ino` at `path` lists: itself, its parent, and its
/// entries in the device's order.
pub open spec fn all_listed(
    v: InodeView,
    ino: u64,
    path: Seq<char>,
    entries: Seq<(Seq<char>, Option<MetaView>)>,
) -> Seq<DirEntryView>
    decreases entries.len(),
{
    if entries.len() == 0 {
        seq![
            DirEntryView { ino, kind: FileType::Directory, name: "."@ },
            DirEntryView { ino, kind: FileType::Directory, name: ".."@ },
        ]
    } else {
        let before = all_listed(v, ino, path, entries.drop_last());
        let (name, meta) = entries.last();
        if is_dot(name) {
            before
        } else {
            before.push(
                DirEntryView {
                    ino: all_assigned(v, path, entries.drop_last()).ino_of(child(path, name)),
                    kind: entry_kind(meta),
                    name,
                },
            )
        }
    }
}

/// What a listing of the directory at `path` says of the files in it.
pub open spec fn all_described(
    path: Seq<char>,
    entries: Seq<(Seq<char>, Option<MetaView>)>,
) -> Map<Seq<char>, MetaView>
    decreases entries.len(),
{
    if entries.len() == 0 {
        Map::empty()
    } else {
        let before = all_described(path, entries.drop_last());
        let (name, meta) = entries.last();
        match meta {
            Some(meta) if !is_dot(name) => before.insert(child(path, name), meta),
            _ => before,
        }
    }
}

/// `after` is `before` with everything in `news` noted.
pub open spec fn all_noted(
    before: Map<Seq<char>, CacheEntry>,
    after: Map<Seq<char>, CacheEntry>,
    news: Map<Seq<char>, MetaView>,
) -> bool {
    &&& forall|path: Seq<char>| #[trigger]
        after.contains_key(path) <==> before.contains_key(path) || news.contains_key(path)
    &&& forall|path: Seq<char>| #[trigger]
        news.contains_key(path) ==> meta_shown(after[path].meta) == Some(news[path])
    &&& forall|path: Seq<char>| #[trigger]
        before.contains_key(path) && !news.contains_key(path) ==> after[path] == before[path]
}

/// How the directory `ino` at `path` is opened. Every entry gets an inode, and
/// what the listing says of it is remembered.
pub open spec fn dir_opened(
    before: Seq<Exchange>,
    after: Seq<Exchange>,
    rows: Map<Seq<char>, CacheEntry>,
    rows_after: Map<Seq<char>, CacheEntry>,
    v: InodeView,
    w: InodeView,
    handles: HandleView,
    handles_after: HandleView,
    ino: u64,
    path: Seq<char>,
    r: Result<Opened, Errno>,
) -> bool {
    &&& after.len() == before.len() + 1
    &&& after.drop_last() == before
    &&& match after.last() {
        Exchange::Shell { command, lines } => {
            &&& command == list_command(path)
            &&& match lines {
                Ok(lines) => {
                    let entries = entries_in(texts(lines@));
                    &&& w == all_assigned(v, path, entries)
                    &&& all_noted(rows, rows_after, all_described(path, entries))
                    &&& handles_after == handles.listed(all_listed(v, ino, path, entries))
                    &&& r == Ok::<Opened, Errno>(Opened { fh: handles.next_fh, flags: 0 })
                },
                Err(_) => {
                    &&& w == v
                    &&& rows_after == rows
                    &&& handles_after == handles
                    &&& r == Err::<Opened, Errno>(Errno::EIO)
                },
            }
        },
        _ => false,
    }
}

/// The rows of a listing from `offset` on, each with the offset at which to go
/// on after it.
pub open spec fn rows_from(listing: Seq<DirEntryView>, offset: u64) -> Seq<(u64, DirEntryView)> {
    if offset >= listing.len() {
        Seq::empty()
    } else {
        Seq::new(
            (listing.len() - offset) as nat,
            |i: int| ((offset + i + 1) as u64, listing[offset + i]),
        )
    }
}

/// What a read of the directory handle `fh` from `offset` on is answered.
pub open spec fn rows_given(
    v: HandleView,
    fh: u64,
    offset: u64,
    r: Result<Vec<(u64, DirEntry)>, Errno>,
) -> bool {
    match r {
        Ok(rows) => {
            &&& v.dirs.contains_key(fh)
            &&& rows@.map_values(|row: (u64, DirEntry)| (row.0, row.1@)) == rows_from(
                v.dirs[fh],
                offset,
            )
        },
        Err(e) => !v.dirs.contains_key(fh) && e == Errno::EBADF,
    }
}

impl<D: AdbDevice> AdbFs<D> {
    /// How the directory `ino` is opened.
    pub open spec fn directory_opened(
        &self,
        was: &Self,
        ino: u64,
        r: Result<Opened, Errno>,
    ) -> bool {
        match was.inodes@.path_of(ino) {
            None => r == Err::<Opened, Errno>(Errno::ENOENT) && self.untouched(was),
            Some(path) => dir_opened(
                was.history(),
                self.history(),
                was.cache.rows(),
                self.cache.rows(),
                was.inodes@,
                self.inodes@,
                was.handles@,
                self.handles@,
                ino,
                path,
                r,
            ),
        }
    }
}

impl<D: AdbDevice> AdbFs<D> {
    /// What the directory `ino` at `path` lists, when the device lists
    /// `entries`.
    pub fn list_entries(
        &mut self,
        ino: u64,
        path: &str,
        entries: &Vec<(String, Option<FileMeta>)>,
    ) -> (listing: Vec<DirEntry>)
        ensures
            listing@.map_values(|e: DirEntry| e@) == all_listed(
                old(self).inodes@,
                ino,
                path@,
                entry_views(entries@),
            ),
            final(self).inodes@ == all_assigned(old(self).inodes@, path@, entry_views(entries@)),
            all_noted(
                old(self).cache.rows(),
                final(self).cache.rows(),
                all_described(path@, entry_views(entries@)),
            ),
            final(self).same_settings(old(self)),
            final(self).ops == old(self).ops,
            final(self).handles == old(self).handles,
            final(self).pending == old(self).pending,
    {
        let mut listing: Vec<DirEntry> = Vec::new();
        listing.push(DirEntry { ino, kind: FileType::Directory, name: ".".to_owned() });
        listing.push(DirEntry { ino, kind: FileType::Directory, name: "..".to_owned() });
        let ghost views = entry_views(entries@);
        let ghost v = self.inodes@;
        let ghost rows = self.cache.rows();
        let mut i: usize = 0;
        proof {
            assert(views.take(0).len() == 0);
            assert(listing@.map_values(|e: DirEntry| e@) =~= all_listed(
                v,
                ino,
                path@,
                views.take(0),
            ));
        }
        while i < entries.len()
            invariant
                i <= entries.len(),
                views == entry_views(entries@),
                v == old(self).inodes@,
                rows == old(self).cache.rows(),
                listing@.map_values(|e: DirEntry| e@) == all_listed(
                    v,
                    ino,
                    path@,
                    views.take(i as int),
                ),
                self.inodes@ == all_assigned(v, path@, views.take(i as int)),
                all_noted(rows, self.cache.rows(), all_described(path@, views.take(i as int))),
                self.same_settings(old(self)),
                self.ops == old(self).ops,
                self.handles == old(self).handles,
                self.pending == old(self).pending,
            decreases entries.len() - i,
        {
            let name = entries[i].0.as_str();
            let meta = &entries[i].1;
            let ghost shown_before = listing@.map_values(|e: DirEntry| e@);
            proof {
                assert(views.take(i + 1).drop_last() =~= views.take(i as int));
                assert(views.take(i + 1).last() == entry_view(entries@[i as int]));
            }
            if !same_text(name, ".") && !same_text(name, "..") {
                let path_of_child = child_path(path, name);
                let child_ino = self.inodes.get_or_assign_ino(path_of_child.as_str());
                let kind = match meta {
                    Some(meta) => mode_to_filetype(meta.mode),
                    None => FileType::RegularFile,
                };
                if let Some(meta) = meta {
                    self.cache.insert(path_of_child, Some(meta.clone()));
                    assert(self.cache.rows().contains_key(path_of_child@));
                }
                listing.push(DirEntry { ino: child_ino, kind, name: entries[i].0.clone() });
                assert(listing@.map_values(|e: DirEntry| e@) =~= shown_before.push(
                    DirEntryView { ino: child_ino, kind, name: name@ },
                ));
            }
            i += 1;
        }
        assert(views.take(i as int) =~= views);
        listing
    }

    pub fn opendir(&mut self, ino: u64) -> (r: Result<Opened, Errno>)
        requires
            old(self).handles@.next_fh < u64::MAX,
        ensures
            old(self).well_formed() && old(self).pending is None ==> final(self).well_formed(),
            final(self).directory_opened(old(self), ino, r),
            old(self).inodes@.next <= final(self).inodes@.next ==> old(self).inodes@.kept_in_step(
                final(self).inodes@,
            ),
            final(self).same_settings(old(self)),
            final(self).pending == old(self).pending,
    {
        let path = match self.inodes.get_path(ino) {
            Some(path) => path,
            None => {
                return Err(Errno::ENOENT);
            },
        };
        let entries = match self.ops.list_dir(path.as_str()) {
            Ok(entries) => entries,
            Err(e) => {
                return Err(e.to_errno());
            },
        };
        let listing = self.list_entries(ino, path.as_str(), &entries);
        proof {
            if old(self).inodes@.next <= self.inodes@.next {
                law_listing_keeps_step(old(self).inodes@, path@, entry_views(entries@));
            }
        }
        let ghost fresh = listing@.map_values(|e: DirEntry| e@);
        proof {
            if self.well_formed() {
                law_listing_is_balanced(self.handles@, held_by(self.pending), fresh, 0);
            }
        }
        let fh = self.handles.open_dir(OpenDir { entries: listing });
        Ok(Opened { fh, flags: 0 })
    }

    /// The rows of an open directory from `offset` on, each with the offset at
    /// which to go on after it.
    pub fn readdir(&self, fh: u64, offset: u64) -> (r: Result<Vec<(u64, DirEntry)>, Errno>)
        ensures
            rows_given(self.handles@, fh, offset, r),
    {
        let dir = match self.handles.dir(fh) {
            Some(dir) => dir,
            None => {
                return Err(Errno::EBADF);
            },
        };
        let ghost listing = dir@;
        let mut rows: Vec<(u64, DirEntry)> = Vec::new();
        let mut i: usize = 0;
        while i < dir.entries.len()
            invariant
                i <= dir.entries.len(),
                listing == dir@,
                listing.len() == dir.entries@.len(),
                rows@.len() == (if i >= offset {
                    i - offset
                } else {
                    0
                }),
                forall|k: int|
                    0 <= k < rows@.len() ==> {
                        &&& (#[trigger] rows@[k]).0 == offset + k + 1
                        &&& rows@[k].1@ == listing[offset + k]
                    },
            decreases dir.entries.len() - i,
        {
            if i as u64 >= offset {
                let next: u64 = i as u64 + 1;
                rows.push((next, dir.entries[i].clone()));
            }
            i += 1;
        }
        assert(rows@.map_values(|row: (u64, DirEntry)| (row.0, row.1@)) =~= rows_from(
            listing,
            offset,
        ));
        Ok(rows)
    }

    pub fn releasedir(&mut self, fh: u64)
        ensures
            old(self).well_formed() ==> final(self).well_formed(),
            final(self).handles@ == old(self).handles@.unlisted(fh),
            final(self).ops == old(self).ops,
            final(self).cache == old(self).cache,
            final(self).inodes == old(self).inodes,
            final(self).tmp_dir == old(self).tmp_dir,
            final(self).opts == old(self).opts,
            final(self).next_node == old(self).next_node,
            final(self).pending == old(self).pending,
    {
        proof {
            if self.well_formed() {
                law_listing_is_balanced(
                    self.handles@,
                    held_by(self.pending),
                    Seq::empty(),
                    fh,
                );
            }
        }
        self.handles.close_dir(fh);
    }
}

/// A name that a listing has a row of its own for.
pub open spec fn has_a_row(entry: (Seq<char>, Option<MetaView>)) -> bool {
    entry.0 != seq!['.'] && entry.0 != seq!['.', '.']
}

proof fn lemma_dots(name: Seq<char>)
    ensures
        is_dot(name) <==> name == seq!['.'] || name == seq!['.', '.'],
{
    reveal_strlit(".");
    reveal_strlit("..");
    assert("."@ =~= seq!['.']);
    assert(".."@ =~= seq!['.', '.']);
}

/// A directory lists itself, its parent, and then the device's entries in their
/// order: all of them, hidden files included, but for the two that the device
/// lists under the names `.` and `..`. Each row has the name and the kind of
/// its entry and the inode of its path.
pub proof fn law_every_entry_is_listed(
    v: InodeView,
    ino: u64,
    path: Seq<char>,
    entries: Seq<(Seq<char>, Option<MetaView>)>,
)
    ensures
        ({
            let rows = all_listed(v, ino, path, entries);
            let kept = entries.filter(
                |e: (Seq<char>, Option<MetaView>)| e.0 != seq!['.'] && e.0 != seq!['.', '.'],
            );
            &&& rows.len() == 2 + kept.len()
            &&& rows[0].name == seq!['.'] && rows[0].ino == ino
            &&& rows[1].name == seq!['.', '.'] && rows[1].ino == ino
            &&& rows[0].kind == FileType::Directory && rows[1].kind == FileType::Directory
            &&& forall|i: int|
                0 <= i < kept.len() ==> {
                    &&& (#[trigger] rows[2 + i]).name == kept[i].0
                    &&& rows[2 + i].kind == (match kept[i].1 {
                        Some(meta) => kind_of(meta.mode),
                        None => FileType::RegularFile,
                    })
                    &&& all_assigned(v, path, entries).numbers(
                        child(path, kept[i].0),
                        rows[2 + i].ino,
                    )
                }
        }),
    decreases entries.len(),
{
    let keep = |e: (Seq<char>, Option<MetaView>)| e.0 != seq!['.'] && e.0 != seq!['.', '.'];
    let rows = all_listed(v, ino, path, entries);
    reveal_strlit(".");
    reveal_strlit("..");
    reveal(Seq::filter);
    if entries.len() == 0 {
        assert("."@ =~= seq!['.']);
        assert(".."@ =~= seq!['.', '.']);
        assert(entries.filter(keep).len() == 0);
    } else {
        let (name, meta) = entries.last();
        let before = entries.drop_last();
        let kept = before.filter(keep);
        let mid = all_assigned(v, path, before);
        law_every_entry_is_listed(v, ino, path, before);
        lemma_dots(name);
        let earlier = all_listed(v, ino, path, before);
        assert(earlier.len() == 2 + kept.len());
        assert forall|i: int| 0 <= i < kept.len() implies all_assigned(v, path, entries).numbers(
            child(path, (#[trigger] kept[i]).0),
            earlier[2 + i].ino,
        ) by {
            assert(mid.numbers(child(path, kept[i].0), earlier[2 + i].ino));
        }
        if keep(entries.last()) {
            assert(entries.filter(keep) =~= kept.push(entries.last()));
            assert(rows =~= earlier.push(rows.last()));
            assert(rows[2 + kept.len() as int].name == name);
        } else {
            assert(entries.filter(keep) =~= kept);
        }
        let all = entries.filter(keep);
        assert forall|i: int| 0 <= i < all.len() implies {
            &&& (#[trigger] rows[2 + i]).name == all[i].0
            &&& rows[2 + i].kind == (match all[i].1 {
                Some(meta) => kind_of(meta.mode),
                None => FileType::RegularFile,
            })
            &&& all_assigned(v, path, entries).numbers(child(path, all[i].0), rows[2 + i].ino)
        } by {
            if i < kept.len() {
                assert(all[i] == kept[i]);
                assert(rows[2 + i] == earlier[2 + i]);
            }
        }
    }
}

/// Every name that the device lists is the name of a row, unless it is `.` or
/// `..`.
pub proof fn law_a_listed_name_has_a_row(
    v: InodeView,
    ino: u64,
    path: Seq<char>,
    entries: Seq<(Seq<char>, Option<MetaView>)>,
    i: int,
)
    requires
        0 <= i < entries.len(),
        entries[i].0 != seq!['.'],
        entries[i].0 != seq!['.', '.'],
    ensures
        exists|k: int|
            0 <= k < all_listed(v, ino, path, entries).len() && (#[trigger] all_listed(
                v,
                ino,
                path,
                entries,
            )[k]).name == entries[i].0,
{
    let keep = |e: (Seq<char>, Option<MetaView>)| e.0 != seq!['.'] && e.0 != seq!['.', '.'];
    law_every_entry_is_listed(v, ino, path, entries);
    broadcast use vstd::seq_lib::group_filter_ensures;

    let kept = entries.filter(keep);
    assert(keep(entries[i]));
    assert(kept.contains(entries[i]));
    let k = choose|k: int| 0 <= k < kept.len() && kept[k] == entries[i];
    assert(all_listed(v, ino, path, entries)[2 + k].name == entries[i].0);
}

/// A listing describes exactly the files that it has both a row and metadata
/// for, each as the last row with its name does.
pub proof fn law_a_listing_describes_its_files(
    dir: Seq<char>,
    entries: Seq<(Seq<char>, Option<MetaView>)>,
)
    ensures
        forall|i: int|
            0 <= i < entries.len() && has_a_row(#[trigger] entries[i]) && entries[i].1 is Some
                ==> all_described(dir, entries).contains_key(child(dir, entries[i].0)),
        forall|i: int|
            0 <= i < entries.len() && has_a_row(#[trigger] entries[i]) && entries[i].1 is Some && (
            forall|j: int| i < j < entries.len() ==> (#[trigger] entries[j]).0 != entries[i].0)
                ==> all_described(dir, entries)[child(dir, entries[i].0)] == entries[i].1->0,
        forall|p: Seq<char>| #[trigger]
            all_described(dir, entries).contains_key(p) ==> exists|i: int|
                0 <= i < entries.len() && has_a_row(#[trigger] entries[i]) && entries[i].1 is Some
                    && child(dir, entries[i].0) == p,
    decreases entries.len(),
{
    if entries.len() > 0 {
        let before = entries.drop_last();
        let n = entries.len() - 1;
        law_a_listing_describes_its_files(dir, before);
        lemma_dots(entries.last().0);
        let old_news = all_described(dir, before);
        let news = all_described(dir, entries);
        assert forall|i: int|
            0 <= i < entries.len() && has_a_row(#[trigger] entries[i]) && entries[i].1
                is Some implies news.contains_key(child(dir, entries[i].0)) by {
            if i < n {
                assert(before[i] == entries[i]);
            }
        }
        assert forall|i: int|
            0 <= i < entries.len() && has_a_row(#[trigger] entries[i]) && entries[i].1 is Some && (
            forall|j: int| i < j < entries.len() ==> (#[trigger] entries[j]).0
                != entries[i].0) implies news[child(dir, entries[i].0)] == entries[i].1->0 by {
            if i < n {
                assert(before[i] == entries[i]);
                assert(entries[n].0 != entries[i].0);
                law_children_are_distinct(dir, entries[n].0, entries[i].0);
                assert forall|j: int| i < j < before.len() implies (#[trigger] before[j]).0
                    != before[i].0 by {
                    assert(before[j] == entries[j]);
                }
            }
        }
        assert forall|p: Seq<char>| #[trigger] news.contains_key(p) implies exists|i: int|
            0 <= i < entries.len() && has_a_row(#[trigger] entries[i]) && entries[i].1 is Some
                && child(dir, entries[i].0) == p by {
            if old_news.contains_key(p) {
                let i = choose|i: int|
                    0 <= i < before.len() && has_a_row(#[trigger] before[i]) && before[i].1 is Some
                        && child(dir, before[i].0) == p;
                assert(entries[i] == before[i]);
            } else {
                assert(has_a_row(entries[n]));
            }
        }
    }
}

/// A directory is read from an offset on: the row at each place comes with the
/// number of the place behind it, and from the end on there is nothing.
pub proof fn law_rows_come_with_the_next_place(
    listing: Seq<DirEntryView>,
    offset: u64,
    i: int,
)
    requires
        listing.len() <= u64::MAX,
    ensures
        offset >= listing.len() ==> rows_from(listing, offset).len() == 0,
        offset < listing.len() ==> rows_from(listing, offset).len() == listing.len() - offset,
        0 <= i < listing.len() - offset ==> rows_from(listing, offset)[i].0 == offset + i + 1
            && rows_from(listing, offset)[i].1 == listing[offset + i],
{
}

/// A read of an open directory gives every row from the offset on, each with
/// the place behind it; through no handle it is an error.
pub proof fn law_a_directory_is_read_from_the_offset(
    v: HandleView,
    fh: u64,
    offset: u64,
    r: Result<Vec<(u64, DirEntry)>, Errno>,
    i: int,
)
    requires
        rows_given(v, fh, offset, r),
        v.dirs[fh].len() <= u64::MAX,
    ensures
        r is Ok <==> v.dirs.contains_key(fh),
        r matches Err(e) ==> e == Errno::EBADF,
        r matches Ok(rows) ==> {
            &&& offset >= v.dirs[fh].len() ==> rows@.len() == 0
            &&& offset < v.dirs[fh].len() ==> rows@.len() == v.dirs[fh].len() - offset
            &&& 0 <= i < rows@.len() ==> rows@[i].0 == offset + i + 1 && rows@[i].1@
                == v.dirs[fh][offset + i]
        },
{
    law_rows_come_with_the_next_place(v.dirs[fh], offset, i);
    if let Ok(rows) = r {
        let shown = rows@.map_values(|row: (u64, DirEntry)| (row.0, row.1@));
        assert(shown.len() == rows@.len());
        if 0 <= i < rows@.len() {
            assert(shown[i] == (rows@[i].0, rows@[i].1@));
        }
    }
}

} // verus!
