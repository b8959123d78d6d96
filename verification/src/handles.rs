//! Open files and directories, and the local copies behind the files.

use crate::attr::FileType;
use crate::table::{
    new_copies, new_dirs, new_files, table_get, table_insert, table_remove, Table,
};
use dashmap::DashMap;
use vstd::prelude::*;
use vstd::string::*;

verus! {

/// The local copy of one device file, shared by every handle open on that
/// inode. It is pulled once, on the first open, and deleted when the last
/// handle is released. Sharing it is what makes two concurrent opens behave
/// like two descriptors on one file instead of two copies that overwrite each
/// other on push.
#[derive(Debug)]
pub struct LocalCopy {
    /// The local file.
    pub path: String,
    /// Written locally but not yet pushed.
    pub dirty: bool,
    /// How many handles there are on it.
    pub refs: u64,
    /// The local file holds the device's contents.
    pub pulled: bool,
}

/// What a [`LocalCopy`] says.
pub struct CopyView {
    pub path: Seq<char>,
    pub dirty: bool,
    pub refs: u64,
    pub pulled: bool,
}

impl View for LocalCopy {
    type V = CopyView;

    open spec fn view(&self) -> CopyView {
        CopyView {
            path: self.path@,
            dirty: self.dirty,
            refs: self.refs,
            pulled: self.pulled,
        }
    }
}

impl Clone for LocalCopy {
    fn clone(&self) -> (r: Self)
        ensures
            r == *self,
    {
        LocalCopy {
            path: self.path.clone(),
            dirty: self.dirty,
            refs: self.refs,
            pulled: self.pulled,
        }
    }
}

impl CopyView {
    /// A copy that nobody uses and that holds nothing yet.
    pub open spec fn fresh(path: Seq<char>) -> CopyView {
        CopyView { path, dirty: false, refs: 0, pulled: false }
    }
}

impl LocalCopy {
    pub fn new(path: String) -> (copy: Self)
        ensures
            copy@ == CopyView::fresh(path@),
    {
        Self { path, dirty: false, refs: 0, pulled: false }
    }
}

/// One row of a directory listing.
#[derive(Debug)]
pub struct DirEntry {
    pub ino: u64,
    pub kind: FileType,
    pub name: String,
}

/// What a [`DirEntry`] says.
pub struct DirEntryView {
    pub ino: u64,
    pub kind: FileType,
    pub name: Seq<char>,
}

impl View for DirEntry {
    type V = DirEntryView;

    open spec fn view(&self) -> DirEntryView {
        DirEntryView { ino: self.ino, kind: self.kind, name: self.name@ }
    }
}

impl Clone for DirEntry {
    fn clone(&self) -> (r: Self)
        ensures
            r@ == self@,
    {
        DirEntry { ino: self.ino, kind: self.kind, name: self.name.clone() }
    }
}

/// A directory that is open for reading.
#[derive(Debug)]
pub struct OpenDir {
    pub entries: Vec<DirEntry>,
}

impl View for OpenDir {
    type V = Seq<DirEntryView>;

    open spec fn view(&self) -> Seq<DirEntryView> {
        self.entries@.map_values(|e: DirEntry| e@)
    }
}

impl Clone for OpenDir {
    fn clone(&self) -> (r: Self)
        ensures
            r@ == self@,
    {
        let mut entries: Vec<DirEntry> = Vec::new();
        let mut i: usize = 0;
        while i < self.entries.len()
            invariant
                i <= self.entries.len(),
                entries@.len() == i,
                forall|k: int| 0 <= k < i ==> (#[trigger] entries@[k])@ == self.entries@[k]@,
            decreases self.entries.len() - i,
        {
            entries.push(self.entries[i].clone());
            i += 1;
        }
        let r = OpenDir { entries };
        assert(r@ =~= self@);
        r
    }
}

/// Which inode each file handle is open on, which local copy each inode has,
/// what each directory handle lists, and the number of the next handle.
pub struct HandleView {
    pub files: Map<u64, u64>,
    pub copies: Map<u64, CopyView>,
    pub dirs: Map<u64, Seq<DirEntryView>>,
    pub next_fh: u64,
}

/// The handles that are open on `ino`.
pub open spec fn users(files: Map<u64, u64>, ino: u64) -> Set<u64> {
    Set::new(|fh: u64| files.contains_key(fh) && files[fh] == ino)
}

/// How many handles are open on `ino`.
pub open spec fn uses(files: Map<u64, u64>, ino: u64) -> nat {
    users(files, ino).len()
}

impl HandleView {
    pub open spec fn initial() -> HandleView {
        HandleView {
            files: Map::empty(),
            copies: Map::empty(),
            dirs: Map::empty(),
            next_fh: 1,
        }
    }

    /// How many references there are on the copy of `ino`.
    pub open spec fn refs(self, ino: u64) -> nat {
        if self.copies.contains_key(ino) {
            self.copies[ino].refs as nat
        } else {
            0
        }
    }

    /// The copy of `ino`, or the one it would get, at `path`.
    pub open spec fn copy_or_fresh(self, ino: u64, path: Seq<char>) -> CopyView {
        if self.copies.contains_key(ino) {
            self.copies[ino]
        } else {
            CopyView::fresh(path)
        }
    }

    /// One more reference is taken on the copy of `ino`, whose local file now
    /// holds what it should. `dirty`: that is something the device lacks.
    pub open spec fn taken(self, ino: u64, path: Seq<char>, dirty: bool) -> HandleView {
        let copy = self.copy_or_fresh(ino, path);
        HandleView {
            copies: self.copies.insert(
                ino,
                CopyView {
                    path: copy.path,
                    dirty: copy.dirty || dirty,
                    refs: (copy.refs + 1) as u64,
                    pulled: true,
                },
            ),
            ..self
        }
    }

    /// One reference on the copy of `ino` is given back. With the last one the
    /// copy goes.
    pub open spec fn given_back(self, ino: u64) -> HandleView {
        let copy = self.copies[ino];
        HandleView {
            copies: if copy.refs == 1 {
                self.copies.remove(ino)
            } else {
                self.copies.insert(ino, CopyView { refs: (copy.refs - 1) as u64, ..copy })
            },
            ..self
        }
    }

    /// The local file that goes when a reference on the copy of `ino` is given
    /// back.
    pub open spec fn left_over(self, ino: u64) -> Option<Seq<char>> {
        if self.copies[ino].refs == 1 {
            Some(self.copies[ino].path)
        } else {
            None
        }
    }

    /// The copy of `ino` holds writes that the device lacks, or no longer does.
    pub open spec fn marked(self, ino: u64, dirty: bool) -> HandleView {
        HandleView {
            copies: self.copies.insert(ino, CopyView { dirty, ..self.copies[ino] }),
            ..self
        }
    }

    /// A handle is opened on `ino`.
    pub open spec fn opened(self, ino: u64) -> HandleView {
        HandleView {
            files: self.files.insert(self.next_fh, ino),
            next_fh: (self.next_fh + 1) as u64,
            ..self
        }
    }

    /// The handle `fh` is closed. What it was open on keeps the reference.
    pub open spec fn closed(self, fh: u64) -> HandleView {
        HandleView { files: self.files.remove(fh), ..self }
    }

    /// A handle is opened on a directory.
    pub open spec fn listed(self, entries: Seq<DirEntryView>) -> HandleView {
        HandleView {
            dirs: self.dirs.insert(self.next_fh, entries),
            next_fh: (self.next_fh + 1) as u64,
            ..self
        }
    }

    /// The directory handle `fh` is closed.
    pub open spec fn unlisted(self, fh: u64) -> HandleView {
        HandleView { dirs: self.dirs.remove(fh), ..self }
    }

    /// The references on each copy are those of the handles open on it, and
    /// one more on `held` where that is given. A copy that nobody uses is not
    /// there, and one that is there holds what it should. No handle has a
    /// number that is still to be given out.
    pub open spec fn balanced(self, held: Option<u64>) -> bool {
        &&& self.files.dom().finite()
        &&& forall|fh: u64| #[trigger] self.files.contains_key(fh) ==> 0 < fh < self.next_fh
        &&& forall|fh: u64| #[trigger] self.dirs.contains_key(fh) ==> fh < self.next_fh
        &&& forall|ino: u64| #[trigger]
            self.copies.contains_key(ino) ==> self.copies[ino].refs > 0 && self.copies[ino].pulled
        &&& forall|ino: u64| #[trigger]
            self.refs(ino) == uses(self.files, ino) + (if held == Some(ino) {
                1nat
            } else {
                0nat
            })
    }
}

/// The tables of open files, copies and directories.
pub struct Handles {
    pub open_files: DashMap<u64, u64>,
    pub open_copies: DashMap<u64, LocalCopy>,
    pub open_dirs: DashMap<u64, OpenDir>,
    pub next_fh: u64,
}

impl View for Handles {
    type V = HandleView;

    open spec fn view(&self) -> HandleView {
        HandleView {
            files: self.open_files.rows(),
            copies: self.open_copies.rows().map_values(|c: LocalCopy| c@),
            dirs: self.open_dirs.rows().map_values(|d: OpenDir| d@),
            next_fh: self.next_fh,
        }
    }
}

impl Handles {
    pub fn new() -> (handles: Self)
        ensures
            handles@ == HandleView::initial(),
    {
        let handles = Self {
            open_files: new_files(),
            open_copies: new_copies(),
            open_dirs: new_dirs(),
            next_fh: 1,
        };
        assert(handles@.files =~= HandleView::initial().files);
        assert(handles@.copies =~= HandleView::initial().copies);
        assert(handles@.dirs =~= HandleView::initial().dirs);
        handles
    }

    /// The copy of `ino`.
    pub fn copy(&self, ino: u64) -> (r: Option<LocalCopy>)
        ensures
            (match r {
                Some(copy) => self@.copies.contains_key(ino) && copy@ == self@.copies[ino],
                None => !self@.copies.contains_key(ino),
            }),
    {
        table_get(&self.open_copies, &ino)
    }

    /// Takes a reference on the copy of `ino`; where there is none, it is made
    /// at `path`.
    pub fn take_copy(&mut self, ino: u64, path: String, dirty: bool)
        requires
            old(self)@.refs(ino) < u64::MAX,
        ensures
            final(self)@ == old(self)@.taken(ino, path@, dirty),
    {
        let ghost fresh = CopyView::fresh(path@);
        let mut copy = match self.copy(ino) {
            Some(copy) => copy,
            None => LocalCopy::new(path),
        };
        if dirty {
            copy.dirty = true;
        }
        copy.pulled = true;
        copy.refs = copy.refs + 1;
        table_insert(&mut self.open_copies, ino, copy);
        assert(self@.copies =~= old(self)@.taken(ino, fresh.path, dirty).copies);
    }

    /// Gives a reference on the copy of `ino` back. Where it was the last, the
    /// local file is to be deleted.
    pub fn release_copy(&mut self, ino: u64) -> (r: Option<String>)
        requires
            old(self)@.refs(ino) > 0,
        ensures
            final(self)@ == old(self)@.given_back(ino),
            (match r {
                Some(path) => old(self)@.left_over(ino) == Some(path@),
                None => old(self)@.left_over(ino) is None,
            }),
    {
        match self.copy(ino) {
            Some(mut copy) => {
                if copy.refs == 1 {
                    table_remove(&mut self.open_copies, &ino);
                    assert(self@.copies =~= old(self)@.given_back(ino).copies);
                    Some(copy.path)
                } else {
                    copy.refs = copy.refs - 1;
                    table_insert(&mut self.open_copies, ino, copy);
                    assert(self@.copies =~= old(self)@.given_back(ino).copies);
                    None
                }
            },
            None => None,
        }
    }

    /// Drops the copy of `ino`, whoever uses it.
    pub fn forget_copy(&mut self, ino: u64)
        ensures
            final(self)@ == (HandleView { copies: old(self)@.copies.remove(ino), ..old(self)@ }),
    {
        table_remove(&mut self.open_copies, &ino);
        assert(self@.copies =~= old(self)@.copies.remove(ino));
    }

    /// Notes whether the copy of `ino` holds writes that the device lacks.
    pub fn set_dirty(&mut self, ino: u64, dirty: bool)
        ensures
            old(self)@.copies.contains_key(ino) ==> final(self)@ == old(self)@.marked(ino, dirty),
            !old(self)@.copies.contains_key(ino) ==> final(self)@ == old(self)@,
    {
        if let Some(mut copy) = self.copy(ino) {
            copy.dirty = dirty;
            table_insert(&mut self.open_copies, ino, copy);
            assert(self@.copies =~= old(self)@.marked(ino, dirty).copies);
        }
    }

    /// The inode that the handle `fh` is open on.
    pub fn file(&self, fh: u64) -> (r: Option<u64>)
        ensures
            (match r {
                Some(ino) => self@.files.contains_key(fh) && ino == self@.files[fh],
                None => !self@.files.contains_key(fh),
            }),
    {
        table_get(&self.open_files, &fh)
    }

    /// Opens a handle on `ino`.
    pub fn open_file(&mut self, ino: u64) -> (fh: u64)
        requires
            old(self)@.next_fh < u64::MAX,
        ensures
            fh == old(self)@.next_fh,
            final(self)@ == old(self)@.opened(ino),
    {
        let fh = self.next_fh;
        self.next_fh = fh + 1;
        table_insert(&mut self.open_files, fh, ino);
        assert(self@.files =~= old(self)@.opened(ino).files);
        fh
    }

    /// Closes the handle `fh`, and says what it was open on.
    pub fn close_file(&mut self, fh: u64) -> (r: Option<u64>)
        ensures
            final(self)@ == old(self)@.closed(fh),
            (match r {
                Some(ino) => old(self)@.files.contains_key(fh) && ino == old(self)@.files[fh],
                None => !old(self)@.files.contains_key(fh),
            }),
    {
        let r = table_remove(&mut self.open_files, &fh);
        assert(self@.files =~= old(self)@.closed(fh).files);
        r
    }

    /// Opens a handle on a directory.
    pub fn open_dir(&mut self, dir: OpenDir) -> (fh: u64)
        requires
            old(self)@.next_fh < u64::MAX,
        ensures
            fh == old(self)@.next_fh,
            final(self)@ == old(self)@.listed(dir@),
    {
        let fh = self.next_fh;
        self.next_fh = fh + 1;
        table_insert(&mut self.open_dirs, fh, dir);
        assert(self@.dirs =~= old(self)@.listed(dir@).dirs);
        fh
    }

    /// What the directory handle `fh` lists.
    pub fn dir(&self, fh: u64) -> (r: Option<OpenDir>)
        ensures
            (match r {
                Some(dir) => self@.dirs.contains_key(fh) && dir@ == self@.dirs[fh],
                None => !self@.dirs.contains_key(fh),
            }),
    {
        table_get(&self.open_dirs, &fh)
    }

    /// Closes the directory handle `fh`.
    pub fn close_dir(&mut self, fh: u64)
        ensures
            final(self)@ == old(self)@.unlisted(fh),
    {
        table_remove(&mut self.open_dirs, &fh);
        assert(self@.dirs =~= old(self)@.dirs.remove(fh));
    }
}

// ---- laws ----

proof fn lemma_users_finite(files: Map<u64, u64>, ino: u64)
    requires
        files.dom().finite(),
    ensures
        users(files, ino).finite(),
{
    vstd::set_lib::lemma_len_subset(users(files, ino), files.dom());
}

proof fn lemma_uses_insert(files: Map<u64, u64>, fh: u64, ino: u64, other: u64)
    requires
        files.dom().finite(),
        !files.contains_key(fh),
    ensures
        uses(files.insert(fh, ino), other) == uses(files, other) + (if ino == other {
            1nat
        } else {
            0nat
        }),
{
    lemma_users_finite(files, other);
    let after = users(files.insert(fh, ino), other);
    if ino == other {
        assert(after =~= users(files, other).insert(fh));
    } else {
        assert(after =~= users(files, other));
    }
}

proof fn lemma_uses_remove(files: Map<u64, u64>, fh: u64, other: u64)
    requires
        files.dom().finite(),
        files.contains_key(fh),
    ensures
        uses(files, other) == uses(files.remove(fh), other) + (if files[fh] == other {
            1nat
        } else {
            0nat
        }),
{
    lemma_uses_insert(files.remove(fh), fh, files[fh], other);
    assert(files.remove(fh).insert(fh, files[fh]) =~= files);
}

proof fn lemma_small_set(s: Set<u64>, n: nat)
    requires
        s.finite(),
        forall|x: u64| #[trigger] s.contains(x) ==> x < n,
    ensures
        s.len() <= n,
    decreases n,
{
    if n == 0 {
        assert(s =~= Set::empty());
    } else {
        let m = (n - 1) as nat;
        if m <= u64::MAX {
            let top = m as u64;
            assert forall|x: u64| #[trigger] s.remove(top).contains(x) implies x < m by {
                assert(s.contains(x));
            }
            lemma_small_set(s.remove(top), m);
        } else {
            lemma_small_set(s, m);
        }
    }
}

/// There are never so many references on a copy that one more could not be
/// counted.
pub proof fn law_references_can_be_counted(v: HandleView, ino: u64)
    requires
        v.balanced(None),
    ensures
        v.refs(ino) < u64::MAX,
{
    lemma_users_finite(v.files, ino);
    assert(v.refs(ino) == uses(v.files, ino));
    let and_zero = users(v.files, ino).insert(0);
    if uses(v.files, ino) > 0 {
        let fh = users(v.files, ino).choose();
        assert(users(v.files, ino).contains(fh)) by {
            if forall|x: u64| !users(v.files, ino).contains(x) {
                assert(users(v.files, ino) =~= Set::empty());
            }
        }
        assert(v.files.contains_key(fh));
        assert forall|x: u64| #[trigger] and_zero.contains(x) implies x < v.next_fh by {
            if x != 0 {
                assert(v.files.contains_key(x));
            }
        }
        assert(!users(v.files, ino).contains(0)) by {
            if users(v.files, ino).contains(0) {
                assert(v.files.contains_key(0));
            }
        }
        lemma_small_set(and_zero, v.next_fh as nat);
    }
}

/// With nothing open everything is in balance.
pub proof fn law_starts_balanced()
    ensures
        HandleView::initial().balanced(None),
{
    let v = HandleView::initial();
    assert forall|ino: u64| #[trigger] v.refs(ino) == uses(v.files, ino) by {
        assert(users(v.files, ino) =~= Set::empty());
    }
}

/// Taking a reference keeps the balance, with the reference held.
pub proof fn law_taking_is_balanced(v: HandleView, ino: u64, path: Seq<char>, dirty: bool)
    requires
        v.balanced(None),
    ensures
        v.taken(ino, path, dirty).balanced(Some(ino)),
{
    law_references_can_be_counted(v, ino);
    let w = v.taken(ino, path, dirty);
    assert forall|other: u64| #[trigger] w.refs(other) == uses(w.files, other) + (if Some(ino)
        == Some(other) {
        1nat
    } else {
        0nat
    }) by {
        assert(v.refs(other) == uses(v.files, other));
    }
}

/// A held reference may become a handle's.
pub proof fn law_opening_is_balanced(v: HandleView, ino: u64)
    requires
        v.balanced(Some(ino)),
        0 < v.next_fh < u64::MAX,
    ensures
        v.opened(ino).balanced(None),
{
    let w = v.opened(ino);
    assert(!v.files.contains_key(v.next_fh));
    assert forall|other: u64| #[trigger] w.refs(other) == uses(w.files, other) by {
        assert(v.refs(other) == uses(v.files, other) + (if Some(ino) == Some(other) {
            1nat
        } else {
            0nat
        }));
        lemma_uses_insert(v.files, v.next_fh, ino, other);
    }
}

/// Closing a handle leaves its reference held.
pub proof fn law_closing_is_balanced(v: HandleView, fh: u64)
    requires
        v.balanced(None),
        v.files.contains_key(fh),
    ensures
        v.closed(fh).balanced(Some(v.files[fh])),
{
    let ino = v.files[fh];
    let w = v.closed(fh);
    assert forall|other: u64| #[trigger] w.refs(other) == uses(w.files, other) + (if Some(ino)
        == Some(other) {
        1nat
    } else {
        0nat
    }) by {
        assert(v.refs(other) == uses(v.files, other));
        lemma_uses_remove(v.files, fh, other);
    }
}

/// Giving a held reference back keeps the balance. The local file goes exactly
/// when no handle is left on it.
pub proof fn law_giving_back_is_balanced(v: HandleView, ino: u64)
    requires
        v.balanced(Some(ino)),
    ensures
        v.given_back(ino).balanced(None),
        v.left_over(ino) is Some <==> uses(v.files, ino) == 0,
        v.given_back(ino).copies.contains_key(ino) <==> uses(v.files, ino) > 0,
{
    let w = v.given_back(ino);
    assert(v.refs(ino) == uses(v.files, ino) + 1);
    assert forall|other: u64| #[trigger] w.refs(other) == uses(w.files, other) by {
        assert(v.refs(other) == uses(v.files, other) + (if Some(ino) == Some(other) {
            1nat
        } else {
            0nat
        }));
    }
}

/// Noting a write, or that it was pushed, keeps the balance.
pub proof fn law_marking_is_balanced(v: HandleView, held: Option<u64>, ino: u64, dirty: bool)
    requires
        v.balanced(held),
        v.copies.contains_key(ino),
    ensures
        v.marked(ino, dirty).balanced(held),
{
    let w = v.marked(ino, dirty);
    assert forall|other: u64| #[trigger] w.refs(other) == uses(w.files, other) + (if held == Some(
        other,
    ) {
        1nat
    } else {
        0nat
    }) by {
        assert(v.refs(other) == uses(v.files, other) + (if held == Some(other) {
            1nat
        } else {
            0nat
        }));
    }
}

/// Directory handles have no part in the balance.
pub proof fn law_listing_is_balanced(
    v: HandleView,
    held: Option<u64>,
    entries: Seq<DirEntryView>,
    fh: u64,
)
    requires
        v.balanced(held),
    ensures
        v.next_fh < u64::MAX ==> v.listed(entries).balanced(held),
        v.unlisted(fh).balanced(held),
{
    let w = v.listed(entries);
    let u = v.unlisted(fh);
    assert forall|ino: u64|
        #![trigger w.refs(ino)]
        #![trigger u.refs(ino)]
        w.refs(ino) == uses(v.files, ino) + (if held == Some(ino) {
            1nat
        } else {
            0nat
        }) && u.refs(ino) == w.refs(ino) by {
        assert(v.refs(ino) == uses(v.files, ino) + (if held == Some(ino) {
            1nat
        } else {
            0nat
        }));
    }
}

/// Every open handle has its local copy behind it.
pub proof fn law_handle_has_its_copy(v: HandleView, fh: u64, held: Option<u64>)
    requires
        v.balanced(held),
        v.files.contains_key(fh),
    ensures
        v.copies.contains_key(v.files[fh]),
        v.copies[v.files[fh]].pulled,
{
    let ino = v.files[fh];
    lemma_users_finite(v.files, ino);
    assert(v.refs(ino) >= uses(v.files, ino));
    assert(users(v.files, ino).contains(fh));
    assert(uses(v.files, ino) > 0) by {
        if uses(v.files, ino) == 0 {
            assert(users(v.files, ino) =~= Set::empty());
        }
    }
}

/// Two handles on one file share its copy, which counts both.
pub proof fn law_handles_share_the_copy(v: HandleView, fh: u64, other: u64)
    requires
        v.balanced(None),
        v.files.contains_key(fh),
        v.files.contains_key(other),
        fh != other,
        v.files[fh] == v.files[other],
    ensures
        v.refs(v.files[fh]) >= 2,
{
    let ino = v.files[fh];
    let set = users(v.files, ino);
    lemma_users_finite(v.files, ino);
    assert(v.refs(ino) == uses(v.files, ino));
    assert(set.contains(fh) && set.contains(other));
    assert(set.remove(fh).contains(other));
    assert(set.remove(fh).len() > 0) by {
        if set.remove(fh).len() == 0 {
            assert(set.remove(fh) =~= Set::empty());
        }
    }
}

/// Noting that the copy of an inode holds writes, or no longer does, says so of
/// that copy, whatever else is open, and changes nothing else.
pub proof fn law_a_note_is_kept(v: HandleView, ino: u64, dirty: bool, other: u64)
    ensures
        ({
            let w = v.marked(ino, dirty);
            &&& w.copies.contains_key(ino)
            &&& w.copies[ino].dirty == dirty
            &&& w.copies[ino].path == v.copies[ino].path
            &&& w.copies[ino].refs == v.copies[ino].refs
            &&& w.copies[ino].pulled == v.copies[ino].pulled
            &&& other != ino ==> w.copies.contains_key(other) == v.copies.contains_key(other)
            &&& other != ino ==> w.copies[other] == v.copies[other]
            &&& w.files == v.files
            &&& w.dirs == v.dirs
            &&& w.next_fh == v.next_fh
        }),
{
}

/// Taking a reference counts one more on the copy of that inode, which holds
/// the file then. It stays where it is, or is made at `path`, and keeps the
/// writes that it holds.
pub proof fn law_a_reference_is_counted(
    v: HandleView,
    ino: u64,
    path: Seq<char>,
    dirty: bool,
    other: u64,
)
    requires
        v.refs(ino) < u64::MAX,
    ensures
        ({
            let w = v.taken(ino, path, dirty);
            let had = v.copies.contains_key(ino);
            &&& w.copies.contains_key(ino)
            &&& w.refs(ino) == v.refs(ino) + 1
            &&& w.copies[ino].refs >= 1
            &&& w.copies[ino].pulled
            &&& w.copies[ino].path == (if had {
                v.copies[ino].path
            } else {
                path
            })
            &&& w.copies[ino].dirty == (dirty || (had && v.copies[ino].dirty))
            &&& other != ino ==> w.copies.contains_key(other) == v.copies.contains_key(other)
            &&& other != ino ==> w.copies[other] == v.copies[other]
            &&& w.files == v.files
            &&& w.dirs == v.dirs
            &&& w.next_fh == v.next_fh
        }),
{
}

/// Giving a reference back counts one less. While others are left the copy
/// stays as it is; with the last the copy goes, and its local file with it.
pub proof fn law_the_last_reference_takes_the_copy(v: HandleView, ino: u64, other: u64)
    requires
        v.copies.contains_key(ino),
        v.copies[ino].refs > 0,
    ensures
        ({
            let w = v.given_back(ino);
            &&& w.refs(ino) == v.refs(ino) - 1
            &&& w.copies.contains_key(ino) <==> v.copies[ino].refs > 1
            &&& v.copies[ino].refs > 1 ==> {
                &&& w.copies[ino].path == v.copies[ino].path
                &&& w.copies[ino].dirty == v.copies[ino].dirty
                &&& w.copies[ino].pulled == v.copies[ino].pulled
                &&& v.left_over(ino) is None
            }
            &&& v.copies[ino].refs == 1 ==> v.left_over(ino) == Some(v.copies[ino].path)
            &&& other != ino ==> w.copies.contains_key(other) == v.copies.contains_key(other)
            &&& other != ino ==> w.copies[other] == v.copies[other]
            &&& w.files == v.files
            &&& w.dirs == v.dirs
            &&& w.next_fh == v.next_fh
        }),
{
}

/// Opening gives a handle that was not given before and is open on that inode
/// or lists that directory; every other handle is as it was. Numbers count up
/// from one.
pub proof fn law_handles_are_given_out_in_turn(
    v: HandleView,
    ino: u64,
    entries: Seq<DirEntryView>,
    other: u64,
)
    requires
        v.next_fh < u64::MAX,
        other != v.next_fh,
    ensures
        HandleView::initial().next_fh == 1,
        HandleView::initial().files == Map::<u64, u64>::empty(),
        HandleView::initial().copies == Map::<u64, CopyView>::empty(),
        HandleView::initial().dirs == Map::<u64, Seq<DirEntryView>>::empty(),
        ({
            let w = v.opened(ino);
            &&& w.files.contains_key(v.next_fh) && w.files[v.next_fh] == ino
            &&& w.files.contains_key(other) == v.files.contains_key(other)
            &&& w.files[other] == v.files[other]
            &&& w.next_fh == v.next_fh + 1
            &&& w.copies == v.copies
            &&& w.dirs == v.dirs
        }),
        ({
            let w = v.listed(entries);
            &&& w.dirs.contains_key(v.next_fh) && w.dirs[v.next_fh] == entries
            &&& w.dirs.contains_key(other) == v.dirs.contains_key(other)
            &&& w.dirs[other] == v.dirs[other]
            &&& w.next_fh == v.next_fh + 1
            &&& w.copies == v.copies
            &&& w.files == v.files
        }),
{
}

/// A handle that is closed is not open any more, and every other one still is.
/// Its number is not given again.
pub proof fn law_closing_closes_one_handle(v: HandleView, fh: u64, other: u64)
    requires
        other != fh,
    ensures
        ({
            let w = v.closed(fh);
            &&& !w.files.contains_key(fh)
            &&& w.files.contains_key(other) == v.files.contains_key(other)
            &&& w.files[other] == v.files[other]
            &&& w.next_fh == v.next_fh
            &&& w.copies == v.copies
            &&& w.dirs == v.dirs
        }),
        ({
            let w = v.unlisted(fh);
            &&& !w.dirs.contains_key(fh)
            &&& w.dirs.contains_key(other) == v.dirs.contains_key(other)
            &&& w.dirs[other] == v.dirs[other]
            &&& w.next_fh == v.next_fh
            &&& w.copies == v.copies
            &&& w.files == v.files
        }),
{
}

/// Copies and rows of listings say what they hold, and a new copy holds nothing
/// and is used by nobody.
pub proof fn law_copies_and_rows_say_what_they_hold(copy: LocalCopy, row: DirEntry, path: Seq<char>)
    ensures
        copy@.path == copy.path@,
        copy@.dirty == copy.dirty,
        copy@.refs == copy.refs,
        copy@.pulled == copy.pulled,
        row@.ino == row.ino,
        row@.kind == row.kind,
        row@.name == row.name@,
        CopyView::fresh(path).path == path,
        !CopyView::fresh(path).dirty,
        !CopyView::fresh(path).pulled,
        CopyView::fresh(path).refs == 0,
{
}

/// The tables are what the filesystem goes by: a row for each handle and for
/// each copy, and the number of the next handle.
pub proof fn law_the_tables_hold_the_handles(handles: Handles, key: u64)
    ensures
        handles@.files == handles.open_files.rows(),
        handles@.copies.contains_key(key) == handles.open_copies.rows().contains_key(key),
        handles.open_copies.rows().contains_key(key) ==> handles@.copies[key]
            == handles.open_copies.rows()[key]@,
        handles@.dirs.contains_key(key) == handles.open_dirs.rows().contains_key(key),
        handles.open_dirs.rows().contains_key(key) ==> handles@.dirs[key]
            == handles.open_dirs.rows()[key]@,
        handles@.next_fh == handles.next_fh,
{
}

/// The handles that use a copy are those that are open on its inode, each
/// counted once; without references there is no use of it.
pub proof fn law_uses_are_open_handles(v: HandleView, fh: u64, ino: u64)
    requires
        v.balanced(None),
    ensures
        users(v.files, ino).contains(fh) <==> v.files.contains_key(fh) && v.files[fh] == ino,
        v.refs(ino) == uses(v.files, ino),
        v.copies.contains_key(ino) <==> uses(v.files, ino) > 0,
{
    assert(v.refs(ino) == uses(v.files, ino));
}

} // verus!
