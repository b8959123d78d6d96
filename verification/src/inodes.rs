//! Inode numbers for paths: `adb` speaks of paths, the kernel of inodes.

use crate::table::{
    new_inos, new_paths, table_get, table_insert, table_pairs, table_remove, Table,
};
use crate::text::{chars_of, same_text, starts_with, text_between};
use dashmap::DashMap;
use vstd::prelude::*;
use vstd::string::*;

verus! {

/// The inode of the root directory.
pub const FUSE_ROOT_INO: u64 = 1;

/// Which inode a path has, which path an inode has, and the number that the
/// next new inode gets.
pub struct InodeView {
    pub by_path: Map<Seq<char>, u64>,
    pub by_ino: Map<u64, Seq<char>>,
    pub next: u64,
}

/// The number after `n`; counters wrap around.
pub open spec fn successor(n: u64) -> u64 {
    if n == u64::MAX {
        0
    } else {
        (n + 1) as u64
    }
}

impl InodeView {
    /// The table before anything but the root is known.
    pub open spec fn initial() -> InodeView {
        InodeView {
            by_path: Map::empty().insert("/"@, FUSE_ROOT_INO),
            by_ino: Map::empty().insert(FUSE_ROOT_INO, "/"@),
            next: 2,
        }
    }

    /// The inode that `path` has or gets.
    pub open spec fn ino_of(self, path: Seq<char>) -> u64 {
        if self.by_path.contains_key(path) {
            self.by_path[path]
        } else {
            self.next
        }
    }

    /// The table once `path` has an inode.
    pub open spec fn with(self, path: Seq<char>) -> InodeView {
        if self.by_path.contains_key(path) {
            self
        } else {
            InodeView {
                by_path: self.by_path.insert(path, self.next),
                by_ino: self.by_ino.insert(self.next, path),
                next: successor(self.next),
            }
        }
    }

    /// The path of an inode.
    pub open spec fn path_of(self, ino: u64) -> Option<Seq<char>> {
        if self.by_ino.contains_key(ino) {
            Some(self.by_ino[ino])
        } else {
            None
        }
    }

    /// The inode `ino` moves from the path `path` to the path `new`; an inode
    /// that had this path is no longer to be found.
    pub open spec fn moved(self, path: Seq<char>, new: Seq<char>, ino: u64) -> InodeView {
        let cleared = self.by_path.remove(path);
        InodeView {
            by_path: cleared.remove(new).insert(new, ino),
            by_ino: (if cleared.contains_key(new) {
                self.by_ino.remove(cleared[new])
            } else {
                self.by_ino
            }).insert(ino, new),
            next: self.next,
        }
    }

    /// The rows `rows` moved, one after the other, from `from` to `to`.
    pub open spec fn all_moved(
        self,
        rows: Seq<(Seq<char>, u64)>,
        from: Seq<char>,
        to: Seq<char>,
    ) -> InodeView
        decreases rows.len(),
    {
        if rows.len() == 0 {
            self
        } else {
            let (path, ino) = rows.last();
            self.all_moved(rows.drop_last(), from, to).moved(path, renamed(path, from, to), ino)
        }
    }

    /// `after` is the table once the rows at or below `from` were moved to `to`,
    /// in whatever order they were found.
    pub open spec fn rekeyed(self, after: InodeView, from: Seq<char>, to: Seq<char>) -> bool {
        exists|rows: Seq<(Seq<char>, u64)>|
            {
                &&& #[trigger] self.are_rows_under(rows, from)
                &&& after == self.all_moved(rows, from, to)
            }
    }

    /// `rows` are the rows at or below `from`, each once, in some order.
    pub open spec fn are_rows_under(
        self,
        rows: Seq<(Seq<char>, u64)>,
        from: Seq<char>,
    ) -> bool {
        &&& forall|i: int|
            0 <= i < rows.len() ==> {
                &&& is_under((#[trigger] rows[i]).0, from)
                &&& self.by_path.contains_key(rows[i].0)
                &&& self.by_path[rows[i].0] == rows[i].1
            }
        &&& forall|i: int, j: int|
            0 <= i < j < rows.len() ==> (#[trigger] rows[i]).0 != (#[trigger] rows[j]).0
        &&& forall|path: Seq<char>|
            #![trigger self.by_path.contains_key(path)]
            self.by_path.contains_key(path) && is_under(path, from) ==> exists|i: int|
                0 <= i < rows.len() && (#[trigger] rows[i]).0 == path
    }
}

impl InodeView {
    /// Every path that has an inode is the path of that inode, and the numbers
    /// still to be handed out are free.
    pub open spec fn consistent(self) -> bool {
        &&& forall|path: Seq<char>| #[trigger]
            self.by_path.contains_key(path) ==> self.path_of(self.by_path[path]) == Some(path)
        &&& forall|ino: u64| #[trigger] self.by_ino.contains_key(ino) ==> ino < self.next
    }

    /// Besides, every inode that has a path is the inode of that path.
    pub open spec fn exact(self) -> bool {
        &&& self.consistent()
        &&& forall|ino: u64| #[trigger]
            self.by_ino.contains_key(ino) ==> {
                &&& self.by_path.contains_key(self.by_ino[ino])
                &&& self.by_path[self.by_ino[ino]] == ino
            }
    }

    /// Where the two sides of this table are in step, so are those of `after`.
    pub open spec fn kept_in_step(self, after: InodeView) -> bool {
        &&& self.consistent() ==> after.consistent()
        &&& self.exact() ==> after.exact()
    }

    /// The number of `path` is `ino`.
    pub open spec fn numbers(self, path: Seq<char>, ino: u64) -> bool {
        self.by_path.contains_key(path) && self.by_path[path] == ino
    }

    /// Whether `path` is where one of the paths in `moved` comes to lie when
    /// `from` becomes `to`.
    pub open spec fn arrives(
        path: Seq<char>,
        moved: Set<Seq<char>>,
        from: Seq<char>,
        to: Seq<char>,
    ) -> bool {
        is_under(path, to) && moved.contains(renamed(path, to, from))
    }

    /// The table once the inodes at the paths `moved` lie below `to` in place
    /// of `from`: what lay where one of them arrives is gone.
    pub open spec fn relocated(
        self,
        moved: Set<Seq<char>>,
        from: Seq<char>,
        to: Seq<char>,
    ) -> InodeView {
        InodeView {
            by_path: Map::new(
                |path: Seq<char>|
                    Self::arrives(path, moved, from, to) || (self.by_path.contains_key(path)
                        && !moved.contains(path)),
                |path: Seq<char>|
                    if Self::arrives(path, moved, from, to) {
                        self.by_path[renamed(path, to, from)]
                    } else {
                        self.by_path[path]
                    },
            ),
            by_ino: Map::new(
                |ino: u64|
                    self.by_ino.contains_key(ino) && (moved.contains(self.by_ino[ino])
                        || !Self::arrives(self.by_ino[ino], moved, from, to)),
                |ino: u64|
                    if moved.contains(self.by_ino[ino]) {
                        renamed(self.by_ino[ino], from, to)
                    } else {
                        self.by_ino[ino]
                    },
            ),
            next: self.next,
        }
    }

    /// The paths at or below `from`.
    pub open spec fn paths_under(self, from: Seq<char>) -> Set<Seq<char>> {
        Set::new(|path: Seq<char>| self.by_path.contains_key(path) && is_under(path, from))
    }
}

/// Neither path is the other or lies in it.
pub open spec fn apart(a: Seq<char>, b: Seq<char>) -> bool {
    !is_under(a, b) && !is_under(b, a)
}

/// Whether `path` is `from` or lies in the directory `from`.
pub open spec fn is_under(path: Seq<char>, from: Seq<char>) -> bool {
    path == from || from.push('/').is_prefix_of(path)
}

/// The path that `path`, at or below `from`, has once `from` is `to`.
pub open spec fn renamed(path: Seq<char>, from: Seq<char>, to: Seq<char>) -> Seq<char> {
    if from.push('/').is_prefix_of(path) {
        to.push('/') + path.skip((from.len() + 1) as int)
    } else {
        to
    }
}

/// The inode table.
pub struct Inodes {
    pub path_to_ino: DashMap<String, u64>,
    pub ino_to_path: DashMap<u64, String>,
    pub next_ino: u64,
}

impl View for Inodes {
    type V = InodeView;

    open spec fn view(&self) -> InodeView {
        InodeView {
            by_path: self.path_to_ino.rows(),
            by_ino: self.ino_to_path.rows().map_values(|s: String| s@),
            next: self.next_ino,
        }
    }
}

/// The path and number in each of a list of rows.
pub open spec fn row_views(rows: Seq<(String, u64)>) -> Seq<(Seq<char>, u64)> {
    rows.map_values(|r: (String, u64)| (r.0@, r.1))
}

impl Inodes {
    pub fn new() -> (inodes: Self)
        ensures
            inodes@ == InodeView::initial(),
    {
        let mut inodes = Self { path_to_ino: new_inos(), ino_to_path: new_paths(), next_ino: 2 };
        let root = "/".to_owned();
        table_insert(&mut inodes.path_to_ino, root.clone(), FUSE_ROOT_INO);
        table_insert(&mut inodes.ino_to_path, FUSE_ROOT_INO, root);
        assert(inodes@.by_path =~= InodeView::initial().by_path);
        assert(inodes@.by_ino =~= InodeView::initial().by_ino);
        inodes
    }

    /// The inode of `path`; a path that has none gets the next number.
    pub fn get_or_assign_ino(&mut self, path: &str) -> (ino: u64)
        ensures
            ino == old(self)@.ino_of(path@),
            final(self)@ == old(self)@.with(path@),
    {
        let key = path.to_owned();
        if let Some(ino) = table_get(&self.path_to_ino, &key) {
            return ino;
        }
        let ino = self.next_ino;
        self.next_ino = ino.wrapping_add(1);
        table_insert(&mut self.path_to_ino, key.clone(), ino);
        table_insert(&mut self.ino_to_path, ino, key);
        assert(self@.by_path =~= old(self)@.with(path@).by_path);
        assert(self@.by_ino =~= old(self)@.with(path@).by_ino);
        ino
    }

    /// The path of an inode.
    pub fn get_path(&self, ino: u64) -> (r: Option<String>)
        ensures
            (match r {
                Some(path) => self@.path_of(ino) == Some(path@),
                None => self@.path_of(ino) is None,
            }),
    {
        table_get(&self.ino_to_path, &ino)
    }

    /// Moves the inode mapping for `from`, and for everything below it, to `to`.
    ///
    /// The kernel keeps its dentry across a rename, so the inode it holds has
    /// to resolve to the new path or every later call on the renamed file
    /// fails.
    pub fn rekey_paths(&mut self, from: &str, to: &str)
        ensures
            old(self)@.rekeyed(final(self)@, from@, to@),
            old(self)@.exact() && apart(from@, to@) ==> final(self)@ == old(self)@.relocated(
                old(self)@.paths_under(from@),
                from@,
                to@,
            ),
            old(self)@.consistent() ==> final(self)@.consistent(),
    {
        let rows = self.rows_under(from);
        self.rekey_rows(&rows, from, to);
        proof {
            if old(self)@.exact() && apart(from@, to@) {
                law_rename_moves_the_subtree(old(self)@, row_views(rows@), from@, to@);
            }
            if old(self)@.consistent() {
                law_rename_keeps_consistency(old(self)@, row_views(rows@), from@, to@);
            }
        }
    }

    /// The rows at or below `from`.
    fn rows_under(&self, from: &str) -> (rows: Vec<(String, u64)>)
        ensures
            self@.are_rows_under(row_views(rows@), from@),
    {
        let mut dir = from.to_owned();
        dir.append("/");
        proof {
            reveal_strlit("/");
            assert(dir@ =~= from@.push('/'));
        }
        let pairs = table_pairs(&self.path_to_ino);
        let mut rows: Vec<(String, u64)> = Vec::new();
        let mut places: Ghost<Seq<int>> = Ghost(Seq::empty());
        let mut i: usize = 0;
        while i < pairs.len()
            invariant
                i <= pairs.len(),
                dir@ == from@.push('/'),
                places@.len() == rows@.len(),
                forall|k: int|
                    0 <= k < rows@.len() ==> {
                        &&& 0 <= #[trigger] places@[k] < i
                        &&& rows@[k].0@ == pairs@[places@[k]].0@
                        &&& rows@[k].1 == pairs@[places@[k]].1
                        &&& is_under(rows@[k].0@, from@)
                    },
                forall|k: int, l: int|
                    0 <= k < l < rows@.len() ==> #[trigger] places@[k] < #[trigger] places@[l],
                forall|j: int|
                    0 <= j < i && is_under((#[trigger] pairs@[j]).0@, from@)
                        ==> places@.contains(j),
            decreases pairs.len() - i,
        {
            let path = pairs[i].0.as_str();
            if same_text(path, from) || starts_with(path, dir.as_str()) {
                let ghost before = places@;
                let found = pairs[i].0.clone();
                assert(found@ == path@);
                assert(is_under(found@, from@));
                rows.push((found, pairs[i].1));
                proof {
                    places@ = places@.push(i as int);
                    assert forall|k: int| 0 <= k < rows@.len() implies {
                        &&& 0 <= #[trigger] places@[k] < i + 1
                        &&& rows@[k].0@ == pairs@[places@[k]].0@
                        &&& rows@[k].1 == pairs@[places@[k]].1
                        &&& is_under(rows@[k].0@, from@)
                    } by {
                        if k < before.len() {
                            assert(places@[k] == before[k]);
                        }
                    }
                    assert(places@[before.len() as int] == i);
                    assert forall|j: int|
                        0 <= j < i + 1 && is_under((#[trigger] pairs@[j]).0@, from@)
                        implies places@.contains(j) by {
                        if j < i {
                            assert(before.contains(j));
                            let k = choose|k: int| 0 <= k < before.len() && before[k] == j;
                            assert(places@[k] == j);
                        }
                    }
                }
            }
            i += 1;
        }
        proof {
            let shown = row_views(rows@);
            assert forall|i: int| 0 <= i < shown.len() implies {
                &&& is_under((#[trigger] shown[i]).0, from@)
                &&& self@.by_path.contains_key(shown[i].0)
                &&& self@.by_path[shown[i].0] == shown[i].1
            } by {
                assert(rows@[i].0@ == pairs@[places@[i]].0@);
            }
            assert forall|i: int, j: int| 0 <= i < j < shown.len() implies (
            #[trigger] shown[i]).0 != (#[trigger] shown[j]).0 by {
                assert(places@[i] < places@[j]);
                assert(pairs@[places@[i]].0@ != pairs@[places@[j]].0@);
            }
            assert forall|path: Seq<char>|
                #![trigger self@.by_path.contains_key(path)]
                self@.by_path.contains_key(path) && is_under(path, from@) implies exists|i: int|
                0 <= i < shown.len() && (#[trigger] shown[i]).0 == path by {
                let j = choose|j: int| 0 <= j < pairs@.len() && (#[trigger] pairs@[j]).0@ == path;
                assert(is_under(pairs@[j].0@, from@));
                assert(places@.contains(j));
                let k = choose|k: int| 0 <= k < places@.len() && places@[k] == j;
                assert(shown[k].0 == path);
            }
        }
        rows
    }

    /// Moves the given rows, one after the other.
    pub fn rekey_rows(&mut self, rows: &Vec<(String, u64)>, from: &str, to: &str)
        ensures
            final(self)@ == old(self)@.all_moved(row_views(rows@), from@, to@),
    {
        let mut dir = from.to_owned();
        dir.append("/");
        let mut base = to.to_owned();
        base.append("/");
        proof {
            reveal_strlit("/");
            assert(dir@ =~= from@.push('/'));
            assert(base@ =~= to@.push('/'));
        }
        let dir_chars = chars_of(dir.as_str());
        let mut i: usize = 0;
        assert(self@ == old(self)@.all_moved(row_views(rows@).take(0), from@, to@));
        while i < rows.len()
            invariant
                i <= rows.len(),
                dir@ == from@.push('/'),
                dir_chars@ == dir@,
                base@ == to@.push('/'),
                self@ == old(self)@.all_moved(row_views(rows@).take(i as int), from@, to@),
            decreases rows.len() - i,
        {
            let path = rows[i].0.as_str();
            let ino = rows[i].1;
            let new = if starts_with(path, dir.as_str()) {
                let chars = chars_of(path);
                let mut new = base.clone();
                let rest = text_between(&chars, dir_chars.len(), chars.len());
                new.append(rest.as_str());
                assert(rest@ =~= path@.skip((from@.len() + 1) as int));
                new
            } else {
                to.to_owned()
            };
            assert(new@ == renamed(path@, from@, to@));
            let ghost before = self@;
            table_remove(&mut self.path_to_ino, &rows[i].0);
            // Renaming onto an existing file leaves that file's inode
            // unreachable, which is what the kernel expects: it is gone.
            if let Some(replaced) = table_remove(&mut self.path_to_ino, &new) {
                table_remove(&mut self.ino_to_path, &replaced);
            }
            table_insert(&mut self.path_to_ino, new.clone(), ino);
            table_insert(&mut self.ino_to_path, ino, new);
            assert(self@.by_path =~= before.moved(path@, new@, ino).by_path);
            assert(self@.by_ino =~= before.moved(path@, new@, ino).by_ino);
            assert(row_views(rows@).take(i + 1).drop_last() =~= row_views(rows@).take(i as int));
            i += 1;
        }
        assert(row_views(rows@).take(i as int) =~= row_views(rows@));
    }
}

// ---- laws ----

proof fn lemma_renaming_back(path: Seq<char>, from: Seq<char>, to: Seq<char>)
    requires
        is_under(path, from),
    ensures
        is_under(renamed(path, from, to), to),
        renamed(renamed(path, from, to), to, from) == path,
{
    let new = renamed(path, from, to);
    if from.push('/').is_prefix_of(path) {
        let rest = path.skip((from.len() + 1) as int);
        assert(new.subrange(0, (to.len() + 1) as int) =~= to.push('/'));
        assert(new.skip((to.len() + 1) as int) =~= rest);
        assert(path =~= from.push('/') + rest);
    } else {
        assert(new == to);
        if to.push('/').is_prefix_of(new) {
            assert(to.push('/').len() <= to.len());
        }
    }
}

/// What lies below `to` does not lie below `from`, where the two are apart.
proof fn lemma_apart(path: Seq<char>, from: Seq<char>, to: Seq<char>)
    requires
        apart(from, to),
        is_under(path, to),
    ensures
        !is_under(path, from),
{
    if is_under(path, from) {
        let below_from = from.push('/').is_prefix_of(path);
        let below_to = to.push('/').is_prefix_of(path);
        if below_from && below_to {
            if from.len() < to.len() {
                assert(to.subrange(0, (from.len() + 1) as int) =~= path.subrange(
                    0,
                    (to.len() + 1) as int,
                ).subrange(0, (from.len() + 1) as int));
                assert(from.push('/').is_prefix_of(to));
            } else if to.len() < from.len() {
                assert(from.subrange(0, (to.len() + 1) as int) =~= path.subrange(
                    0,
                    (from.len() + 1) as int,
                ).subrange(0, (to.len() + 1) as int));
                assert(to.push('/').is_prefix_of(from));
            } else {
                assert(from.push('/') == to.push('/'));
                assert(from =~= from.push('/').drop_last());
                assert(to =~= to.push('/').drop_last());
            }
        }
    }
}

proof fn lemma_relocated_step(
    v: InodeView,
    moved: Set<Seq<char>>,
    from: Seq<char>,
    to: Seq<char>,
    path: Seq<char>,
)
    requires
        v.exact(),
        apart(from, to),
        moved.subset_of(v.paths_under(from)),
        v.paths_under(from).contains(path),
        !moved.contains(path),
    ensures
        v.relocated(moved, from, to).moved(path, renamed(path, from, to), v.by_path[path])
            == v.relocated(moved.insert(path), from, to),
{
    let ino = v.by_path[path];
    let new = renamed(path, from, to);
    let before = v.relocated(moved, from, to);
    let after = v.relocated(moved.insert(path), from, to);
    let step = before.moved(path, new, ino);
    lemma_renaming_back(path, from, to);
    lemma_apart(new, from, to);
    assert(v.path_of(ino) == Some(path));
    assert(!before.by_path.contains_key(new) || before.by_path[new] == v.by_path[new]);
    assert(before.by_path.contains_key(new) == v.by_path.contains_key(new));
    assert forall|q: Seq<char>| #![auto] q != new implies InodeView::arrives(
        q,
        moved.insert(path),
        from,
        to,
    ) == InodeView::arrives(q, moved, from, to) by {
        if is_under(q, to) {
            lemma_renaming_back(q, to, from);
        }
    }
    assert forall|q: Seq<char>| InodeView::arrives(q, moved, from, to) implies q != path by {
        lemma_apart(q, from, to);
    }
    assert(step.by_path =~= after.by_path);
    if v.by_path.contains_key(new) {
        assert(v.path_of(v.by_path[new]) == Some(new));
    }
    assert(step.by_ino =~= after.by_ino);
}

proof fn lemma_all_moved(
    v: InodeView,
    rows: Seq<(Seq<char>, u64)>,
    from: Seq<char>,
    to: Seq<char>,
    n: nat,
)
    requires
        v.exact(),
        apart(from, to),
        v.are_rows_under(rows, from),
        n <= rows.len(),
    ensures
        v.all_moved(rows.take(n as int), from, to) == v.relocated(
            Set::new(|path: Seq<char>| exists|i: int| 0 <= i < n && (#[trigger] rows[i]).0 == path),
            from,
            to,
        ),
    decreases n,
{
    let moved = Set::new(
        |path: Seq<char>| exists|i: int| 0 <= i < n && (#[trigger] rows[i]).0 == path,
    );
    if n == 0 {
        assert(v.relocated(moved, from, to).by_path =~= v.by_path);
        assert(v.relocated(moved, from, to).by_ino =~= v.by_ino);
    } else {
        let m = (n - 1) as nat;
        let fewer = Set::new(
            |path: Seq<char>| exists|i: int| 0 <= i < m && (#[trigger] rows[i]).0 == path,
        );
        lemma_all_moved(v, rows, from, to, m);
        assert(rows.take(n as int).drop_last() =~= rows.take(m as int));
        let path = rows[m as int].0;
        assert(moved =~= fewer.insert(path)) by {
            assert forall|p: Seq<char>| moved.contains(p) implies fewer.insert(path).contains(
                p,
            ) by {
                let i = choose|i: int| 0 <= i < n && (#[trigger] rows[i]).0 == p;
                if i < m {
                    assert(fewer.contains(p));
                }
            }
        }
        assert(!fewer.contains(path));
        lemma_relocated_step(v, fewer, from, to, path);
    }
}

/// A rename takes the inode of the renamed path, and those of everything below
/// it, to their new paths. Inodes that lay where these arrive are gone, all
/// others keep their paths, and the order in which the table is walked makes
/// no difference.
pub proof fn law_rename_moves_the_subtree(
    v: InodeView,
    rows: Seq<(Seq<char>, u64)>,
    from: Seq<char>,
    to: Seq<char>,
)
    requires
        v.exact(),
        apart(from, to),
        v.are_rows_under(rows, from),
    ensures
        v.all_moved(rows, from, to) == v.relocated(v.paths_under(from), from, to),
{
    lemma_all_moved(v, rows, from, to, rows.len());
    assert(rows.take(rows.len() as int) =~= rows);
    assert(v.paths_under(from) =~= Set::new(
        |path: Seq<char>|
            exists|i: int| 0 <= i < rows.len() && (#[trigger] rows[i]).0 == path,
    ));
}

/// After a rename the kernel's inode resolves to the new path, the new path
/// resolves to that inode, and a file created at the old path is another one.
pub proof fn law_rename_keeps_the_inode(
    v: InodeView,
    from: Seq<char>,
    to: Seq<char>,
    path: Seq<char>,
)
    requires
        v.exact(),
        apart(from, to),
        v.by_path.contains_key(path),
        is_under(path, from),
    ensures
        ({
            let w = v.relocated(v.paths_under(from), from, to);
            let ino = v.by_path[path];
            &&& w.path_of(ino) == Some(renamed(path, from, to))
            &&& w.ino_of(renamed(path, from, to)) == ino
            &&& w.ino_of(path) != ino
        }),
{
    lemma_renaming_back(path, from, to);
    assert(v.path_of(v.by_path[path]) == Some(path));
    if is_under(path, to) {
        lemma_apart(path, from, to);
    }
}

/// A rename leaves paths outside both ends, siblings that share their
/// characters among them, with the inodes they have.
pub proof fn law_rename_leaves_the_rest(
    v: InodeView,
    from: Seq<char>,
    to: Seq<char>,
    path: Seq<char>,
)
    requires
        v.exact(),
        v.by_path.contains_key(path),
        !is_under(path, from),
        !is_under(path, to),
    ensures
        ({
            let w = v.relocated(v.paths_under(from), from, to);
            &&& w.ino_of(path) == v.by_path[path]
            &&& w.path_of(v.by_path[path]) == Some(path)
        }),
{
    assert(v.path_of(v.by_path[path]) == Some(path));
}

/// Renaming onto a file makes that file's inode unreachable.
pub proof fn law_replaced_inode_is_gone(v: InodeView, from: Seq<char>, to: Seq<char>)
    requires
        v.exact(),
        apart(from, to),
        v.by_path.contains_key(from),
        v.by_path.contains_key(to),
    ensures
        v.relocated(v.paths_under(from), from, to).path_of(v.by_path[to]) is None,
{
    assert(v.path_of(v.by_path[to]) == Some(to));
    lemma_renaming_back(from, from, to);
    if from.push('/').is_prefix_of(from) {
        assert(from.push('/').len() <= from.len());
    }
}

/// A rename keeps the two sides of the table in step.
pub proof fn law_rename_keeps_exact(v: InodeView, from: Seq<char>, to: Seq<char>)
    requires
        v.exact(),
        apart(from, to),
    ensures
        v.relocated(v.paths_under(from), from, to).exact(),
{
    let moved = v.paths_under(from);
    let w = v.relocated(moved, from, to);
    assert forall|path: Seq<char>| #[trigger] w.by_path.contains_key(path) implies w.path_of(
        w.by_path[path],
    ) == Some(path) by {
        if InodeView::arrives(path, moved, from, to) {
            lemma_renaming_back(path, to, from);
            let source = renamed(path, to, from);
            assert(v.path_of(v.by_path[source]) == Some(source));
        } else {
            assert(v.path_of(v.by_path[path]) == Some(path));
        }
    }
    assert forall|ino: u64| #[trigger] w.by_ino.contains_key(ino) implies {
        &&& w.by_path.contains_key(w.by_ino[ino])
        &&& w.by_path[w.by_ino[ino]] == ino
    } by {
        let path = v.by_ino[ino];
        assert(v.by_ino.contains_key(ino));
        if moved.contains(path) {
            lemma_renaming_back(path, from, to);
        }
    }
}

/// Whatever the two ends of a rename are, and in whatever order the table is
/// walked, every path that has an inode is the path of that inode afterwards.
pub proof fn law_rename_keeps_consistency(
    v: InodeView,
    rows: Seq<(Seq<char>, u64)>,
    from: Seq<char>,
    to: Seq<char>,
)
    requires
        v.consistent(),
        v.are_rows_under(rows, from),
    ensures
        v.all_moved(rows, from, to).consistent(),
{
    lemma_prefix_consistent(v, rows, from, to, rows.len());
    assert(rows.take(rows.len() as int) =~= rows);
}

proof fn lemma_prefix_consistent(
    v: InodeView,
    rows: Seq<(Seq<char>, u64)>,
    from: Seq<char>,
    to: Seq<char>,
    n: nat,
)
    requires
        v.consistent(),
        v.are_rows_under(rows, from),
        n <= rows.len(),
    ensures
        ({
            let w = v.all_moved(rows.take(n as int), from, to);
            &&& w.consistent()
            &&& w.next == v.next
            &&& forall|path: Seq<char>| #[trigger]
                w.by_path.contains_key(path) ==> {
                    ||| v.by_path.contains_key(path) && v.by_path[path] == w.by_path[path]
                    ||| exists|i: int| 0 <= i < n && (#[trigger] rows[i]).1 == w.by_path[path]
                }
        }),
    decreases n,
{
    if n > 0 {
        let m = (n - 1) as nat;
        lemma_prefix_consistent(v, rows, from, to, m);
        assert(rows.take(n as int).drop_last() =~= rows.take(m as int));
        let before = v.all_moved(rows.take(m as int), from, to);
        let after = v.all_moved(rows.take(n as int), from, to);
        let (path, ino) = rows[m as int];
        let new = renamed(path, from, to);
        assert(after == before.moved(path, new, ino));
        assert(v.path_of(ino) == Some(path));
        // The inode being moved has no other path.
        assert forall|p: Seq<char>| #[trigger]
            before.by_path.contains_key(p) && before.by_path[p] == ino implies p == path by {
            if !(v.by_path.contains_key(p) && v.by_path[p] == ino) {
                let i = choose|i: int| 0 <= i < m && (#[trigger] rows[i]).1 == ino;
                assert(v.path_of(rows[i].1) == Some(rows[i].0));
            } else {
                assert(v.path_of(v.by_path[p]) == Some(p));
            }
        }
        assert forall|p: Seq<char>| #[trigger] after.by_path.contains_key(p) implies {
            &&& after.path_of(after.by_path[p]) == Some(p)
            &&& {
                ||| v.by_path.contains_key(p) && v.by_path[p] == after.by_path[p]
                ||| exists|i: int| 0 <= i < n && (#[trigger] rows[i]).1 == after.by_path[p]
            }
        } by {
            if p == new {
                assert(rows[m as int].1 == after.by_path[p]);
            } else {
                assert(before.by_path.contains_key(p));
                assert(before.path_of(before.by_path[p]) == Some(p));
                if before.by_path.remove(path).contains_key(new) {
                    assert(before.path_of(before.by_path[new]) == Some(new));
                }
                if !(v.by_path.contains_key(p) && v.by_path[p] == before.by_path[p]) {
                    let i = choose|i: int| 0 <= i < m && (#[trigger] rows[i]).1 == before.by_path[p];
                    assert(rows[i].1 == after.by_path[p]);
                }
            }
        }
    } else {
        assert(rows.take(0).len() == 0);
    }
}

/// Handing out a number keeps the two sides of the table in step, as long as
/// there are numbers left.
pub proof fn law_assigning_keeps_step(v: InodeView, path: Seq<char>)
    requires
        v.next < u64::MAX,
    ensures
        v.kept_in_step(v.with(path)),
{
    let w = v.with(path);
    if v.consistent() && !v.by_path.contains_key(path) {
        assert(!v.by_ino.contains_key(v.next));
        assert forall|p: Seq<char>| #[trigger] w.by_path.contains_key(p) implies w.path_of(
            w.by_path[p],
        ) == Some(p) by {
            if p != path {
                assert(v.path_of(v.by_path[p]) == Some(p));
            }
        }
        assert forall|ino: u64| #[trigger] w.by_ino.contains_key(ino) implies {
            &&& ino < w.next
            &&& v.exact() ==> w.by_path.contains_key(w.by_ino[ino])
            &&& v.exact() ==> w.by_path[w.by_ino[ino]] == ino
        } by {
            if ino != v.next {
                assert(v.by_ino.contains_key(ino));
            }
        }
    }
}

/// The table starts out in step, with the root in it.
pub proof fn law_initial_is_exact()
    ensures
        InodeView::initial().exact(),
        InodeView::initial().ino_of("/"@) == FUSE_ROOT_INO,
{
}

/// A path keeps the inode it once got, whatever other paths get one.
pub proof fn law_inode_is_stable(v: InodeView, path: Seq<char>, other: Seq<char>)
    ensures
        v.with(path).ino_of(path) == v.ino_of(path),
        v.with(path).with(path) == v.with(path),
        v.with(path).with(other).ino_of(path) == v.ino_of(path),
{
}

/// Different paths have different inodes, and each inode resolves to its path.
pub proof fn law_inodes_are_distinct(v: InodeView, path: Seq<char>, other: Seq<char>)
    requires
        v.exact(),
        v.next < u64::MAX,
        path != other,
    ensures
        v.with(path).path_of(v.ino_of(path)) == Some(path),
        v.with(path).with(other).ino_of(path) != v.with(path).ino_of(other),
{
    law_assigning_keeps_step(v, path);
    let w = v.with(path);
    assert(w.by_path.contains_key(path));
    assert(w.path_of(w.by_path[path]) == Some(path));
    if w.by_path.contains_key(other) {
        assert(w.path_of(w.by_path[other]) == Some(other));
    } else {
        assert(!w.by_ino.contains_key(w.next));
    }
}

/// What lies in a directory is what its path and a slash start, and a rename
/// puts the new path in place of the old one and leaves what follows it alone.
pub proof fn law_renaming_changes_the_start(
    from: Seq<char>,
    to: Seq<char>,
    rest: Seq<char>,
    path: Seq<char>,
)
    ensures
        is_under(from, from),
        is_under(from + seq!['/'] + rest, from),
        is_under(path, from) ==> path == from || exists|tail: Seq<char>|
            path == #[trigger] (from + seq!['/'] + tail),
        renamed(from, from, to) == to,
        renamed(from + seq!['/'] + rest, from, to) == to + seq!['/'] + rest,
{
    let dir = from + seq!['/'];
    assert(dir =~= from.push('/'));
    assert((dir + rest).subrange(0, dir.len() as int) =~= dir);
    assert((dir + rest).skip((from.len() + 1) as int) =~= rest);
    assert(to.push('/') =~= to + seq!['/']);
    if from.push('/').is_prefix_of(path) {
        let tail = path.skip((from.len() + 1) as int);
        assert(path =~= dir + tail);
    }
}

/// A path that has no inode yet gets a new number, which leads back to it; a
/// path that has one keeps it. No other path or number changes.
pub proof fn law_a_new_path_gets_the_next_number(
    v: InodeView,
    path: Seq<char>,
    other: Seq<char>,
    number: u64,
)
    ensures
        v.by_path.contains_key(path) ==> v.with(path) == v && v.ino_of(path) == v.by_path[path],
        !v.by_path.contains_key(path) ==> {
            let w = v.with(path);
            &&& v.ino_of(path) == v.next
            &&& w.numbers(path, v.next)
            &&& w.path_of(v.next) == Some(path)
            &&& v.next < u64::MAX ==> w.next == v.next + 1
            &&& other != path ==> w.by_path.contains_key(other) == v.by_path.contains_key(other)
            &&& other != path ==> w.by_path[other] == v.by_path[other]
            &&& number != v.next ==> w.path_of(number) == v.path_of(number)
        },
{
}

/// The root has the first number, and the next path gets the second.
pub proof fn law_the_root_is_first()
    ensures
        InodeView::initial().path_of(1) == Some(seq!['/']),
        InodeView::initial().numbers(seq!['/'], 1),
        InodeView::initial().next == 2,
        forall|path: Seq<char>| #[trigger]
            InodeView::initial().by_path.contains_key(path) ==> path == seq!['/'],
        forall|ino: u64| #[trigger] InodeView::initial().by_ino.contains_key(ino) ==> ino == 1,
{
    reveal_strlit("/");
    assert("/"@ =~= seq!['/']);
}

/// A rename that found `rows` leaves every other path and number alone where
/// its ends lie apart, and moves each of `rows` to where it belongs.
pub proof fn law_renaming_moves_every_row(
    v: InodeView,
    w: InodeView,
    from: Seq<char>,
    to: Seq<char>,
    path: Seq<char>,
)
    requires
        v.exact(),
        apart(from, to),
        v.rekeyed(w, from, to),
        v.by_path.contains_key(path),
    ensures
        w.next == v.next,
        is_under(path, from) ==> w.path_of(v.by_path[path]) == Some(renamed(path, from, to))
            && w.numbers(renamed(path, from, to), v.by_path[path]) && !w.by_path.contains_key(path),
        !is_under(path, from) && !is_under(path, to) ==> w.numbers(path, v.by_path[path])
            && w.path_of(v.by_path[path]) == Some(path),
{
    let rows = choose|rows: Seq<(Seq<char>, u64)>|
        #[trigger] v.are_rows_under(rows, from) && w == v.all_moved(rows, from, to);
    law_rename_moves_the_subtree(v, rows, from, to);
    assert(v.path_of(v.by_path[path]) == Some(path));
    if is_under(path, from) {
        lemma_renaming_back(path, from, to);
        law_rename_keeps_the_inode(v, from, to, path);
        if is_under(path, to) {
            lemma_apart(path, from, to);
        }
    } else if !is_under(path, to) {
        law_rename_leaves_the_rest(v, from, to, path);
    }
}

/// The tables are what the filesystem goes by: a row for each path and for each
/// inode, and the number that is next. Numbers count up, and start again behind
/// the last that there is.
pub proof fn law_the_tables_hold_the_inodes(inodes: Inodes, ino: u64, n: u64)
    ensures
        inodes@.by_path == inodes.path_to_ino.rows(),
        inodes@.by_ino.contains_key(ino) == inodes.ino_to_path.rows().contains_key(ino),
        inodes.ino_to_path.rows().contains_key(ino) ==> inodes@.by_ino[ino]
            == inodes.ino_to_path.rows()[ino]@,
        inodes@.next == inodes.next_ino,
        n < u64::MAX ==> successor(n) == n + 1,
        successor(u64::MAX) == 0,
{
}

} // verus!
