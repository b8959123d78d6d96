//! What holds of the filesystem as a whole.

use crate::adb::{AdbDevice, Exchange};
use crate::attr::{attr_of, open_bits};
use crate::cache::{
    age_of, at_or_below, dir_prefix, found, rows_outside, since, CacheEntry, MetadataCache,
};
use crate::escape::shell_words;
use crate::fs::dirs::{
    all_assigned, all_described, all_listed, all_noted, dir_opened, rows_from,
};
use crate::fs::files::{
    created, cut, cut_begun, emptied, handle_given, open_begun, open_on, released, settled,
    settled_by_clock, written,
};
use crate::fs::names::{
    attr_found, attr_reply, dir_made, entered, entry_reply, link_read, link_reply, looked_up,
    lookup_reply, moved, node_made, node_path, queried, removed, with_answered,
};
use crate::fs::step::{
    held_by, Created, Entry, LocalWork, Opened, Step, Task, TaskView, WorkView,
};
use crate::fs::{
    acquired, answered, child, fetched, flushed, local_path, pulled, sent, unpopulated, AdbFs,
    CopyInit,
};
use crate::handles::{
    law_a_note_is_kept, law_a_reference_is_counted, law_closing_closes_one_handle,
    law_closing_is_balanced, law_giving_back_is_balanced, law_handle_has_its_copy,
    law_references_can_be_counted, law_the_last_reference_takes_the_copy, uses, DirEntryView, HandleView,
};
use crate::inodes::{
    apart, is_under, law_assigning_keeps_step, law_rename_keeps_the_inode, law_the_root_is_first,
    renamed, InodeView,
};
use crate::mount_opts::FsOptions;
use crate::ops::{
    described, entries_in, fault_errno, law_a_change_is_made_and_told,
    law_making_and_removing_name_the_path, law_queries_list_the_path,
    law_rename_moves_the_first_to_the_second, law_times_are_set_by_touch, message_in,
    metadata_command, mkdir_command, mv_command, performed, times_set, touch_command, DeviceOps,
    Fault,
};
use crate::parse::{
    law_a_text_parts_at_the_pattern, law_links_lead_back_to_the_root, rerooted, MetaView,
};
use crate::sys::Errno;
use crate::text::{
    count_of, decimal, law_decimal_is_short, law_decimal_reads_back, occurs_at, texts,
};
use crate::time::{resolved, FileTime, Span, TimeOrNow};
use std::time::Instant;
use vstd::prelude::*;

verus! {

/// The copies of two files are never the same local file, nor are two special
/// files with different numbers, nor a copy and a special file.
pub proof fn law_local_paths_do_not_collide(tmp_dir: Seq<char>, a: u64, b: u64)
    ensures
        local_path(tmp_dir, a) == local_path(tmp_dir, b) ==> a == b,
        node_path(tmp_dir, a) == node_path(tmp_dir, b) ==> a == b,
        local_path(tmp_dir, a) != node_path(tmp_dir, b),
{
    let dir = dir_prefix(tmp_dir);
    let skip = dir.len() as int;
    reveal_strlit("node");
    law_decimal_reads_back(a as nat);
    law_decimal_reads_back(b as nat);
    assert(local_path(tmp_dir, a).skip(skip) =~= decimal(a as nat));
    assert(local_path(tmp_dir, b).skip(skip) =~= decimal(b as nat));
    assert(node_path(tmp_dir, a).skip(skip).skip(4) =~= decimal(a as nat));
    assert(node_path(tmp_dir, b).skip(skip).skip(4) =~= decimal(b as nat));
    assert(node_path(tmp_dir, b).skip(skip)[0] == 'n');
}

/// The name of a local copy has at most 20 characters, however long the path on
/// the device is.
pub proof fn law_local_names_are_short(tmp_dir: Seq<char>, ino: u64)
    ensures
        local_path(tmp_dir, ino).len() <= dir_prefix(tmp_dir).len() + 20,
{
    law_decimal_is_short(ino);
}

/// The first open of a file pulls it once, to the inode's local file.
pub proof fn law_first_open_pulls_once(
    before: Seq<Exchange>,
    after: Seq<Exchange>,
    v: HandleView,
    w: HandleView,
    tmp_dir: Seq<char>,
    ino: u64,
    path: Seq<char>,
    r: Result<(), Errno>,
)
    requires
        !v.copies.contains_key(ino),
        acquired(before, after, v, w, ino, path, local_path(tmp_dir, ino), CopyInit::Pull, r),
    ensures
        after.len() == before.len() + 1,
        (after.last() matches Exchange::Pull { remote, local, .. } && remote == path && local
            == local_path(tmp_dir, ino)),
        r is Ok ==> w.refs(ino) == 1 && !w.copies[ino].dirty,
{
}

/// An open of a file that is open already pulls nothing: both handles share
/// one local copy.
pub proof fn law_later_opens_share_the_copy(
    before: Seq<Exchange>,
    after: Seq<Exchange>,
    v: HandleView,
    w: HandleView,
    tmp_dir: Seq<char>,
    ino: u64,
    path: Seq<char>,
    r: Result<(), Errno>,
)
    requires
        v.balanced(None),
        v.copies.contains_key(ino),
        acquired(before, after, v, w, ino, path, local_path(tmp_dir, ino), CopyInit::Pull, r),
    ensures
        after == before,
        r is Ok,
        w.refs(ino) == v.refs(ino) + 1,
        w.copies[ino].path == v.copies[ino].path,
        w.copies[ino].dirty == v.copies[ino].dirty,
{
    law_references_can_be_counted(v, ino);
}

/// A failed pull leaves no copy behind for the next open to take for the
/// file's contents.
pub proof fn law_failed_pull_leaves_no_copy(
    before: Seq<Exchange>,
    after: Seq<Exchange>,
    v: HandleView,
    w: HandleView,
    tmp_dir: Seq<char>,
    ino: u64,
    path: Seq<char>,
    r: Result<(), Errno>,
)
    requires
        v.balanced(None),
        acquired(before, after, v, w, ino, path, local_path(tmp_dir, ino), CopyInit::Pull, r),
        r is Err,
    ensures
        !w.copies.contains_key(ino),
        w == v,
{
    assert(unpopulated(v, ino).copies =~= v.copies);
}

/// A handle that is open across a rename pushes to the new path.
pub proof fn law_writes_go_to_the_renamed_path(
    before: Seq<Exchange>,
    after: Seq<Exchange>,
    rows: Map<Seq<char>, CacheEntry>,
    rows_after: Map<Seq<char>, CacheEntry>,
    inodes: InodeView,
    v: HandleView,
    w: HandleView,
    path: Seq<char>,
    from: Seq<char>,
    to: Seq<char>,
    r: Result<(), Errno>,
)
    requires
        inodes.exact(),
        apart(from, to),
        inodes.by_path.contains_key(path),
        is_under(path, from),
        v.copies[inodes.by_path[path]].dirty,
        flushed(
            before,
            after,
            rows,
            rows_after,
            v,
            w,
            inodes.by_path[path],
            inodes.relocated(inodes.paths_under(from), from, to).path_of(inodes.by_path[path]),
            r,
        ),
    ensures
        before.len() < after.len(),
        (after[before.len() as int] matches Exchange::Push { local, remote, .. } && local
            == v.copies[inodes.by_path[path]].path && remote == renamed(path, from, to)),
        r is Ok ==> !w.copies[inodes.by_path[path]].dirty,
{
    law_rename_keeps_the_inode(inodes, from, to, path);
}

/// What was brought to the device is not brought there again.
pub proof fn law_flushing_twice_pushes_once(
    before: Seq<Exchange>,
    between: Seq<Exchange>,
    after: Seq<Exchange>,
    rows: Map<Seq<char>, CacheEntry>,
    rows_between: Map<Seq<char>, CacheEntry>,
    rows_after: Map<Seq<char>, CacheEntry>,
    v: HandleView,
    w: HandleView,
    u: HandleView,
    ino: u64,
    path: Option<Seq<char>>,
    later_path: Option<Seq<char>>,
    r: Result<(), Errno>,
    later: Result<(), Errno>,
)
    requires
        flushed(before, between, rows, rows_between, v, w, ino, path, r),
        r is Ok,
        flushed(between, after, rows_between, rows_after, w, u, ino, later_path, later),
    ensures
        after == between,
        rows_after == rows_between,
        u == w,
        later is Ok,
{
}

/// Writes that could not be brought to the device are not taken for done.
pub proof fn law_failed_flush_stays_dirty(
    before: Seq<Exchange>,
    after: Seq<Exchange>,
    rows: Map<Seq<char>, CacheEntry>,
    rows_after: Map<Seq<char>, CacheEntry>,
    v: HandleView,
    w: HandleView,
    ino: u64,
    path: Option<Seq<char>>,
    r: Result<(), Errno>,
)
    requires
        flushed(before, after, rows, rows_after, v, w, ino, path, r),
        r is Err,
    ensures
        v.copies[ino].dirty,
        w == v,
        rows_after == rows,
{
}

/// A file that was created is on the device when its creation is answered: it
/// was pushed and flushed to storage, and its copy holds nothing more.
pub proof fn law_created_file_is_on_the_device(
    before: Seq<Exchange>,
    after: Seq<Exchange>,
    rows: Map<Seq<char>, CacheEntry>,
    rows_after: Map<Seq<char>, CacheEntry>,
    v: HandleView,
    w: HandleView,
    opts: FsOptions,
    ino: u64,
    path: Seq<char>,
    r: Step<Created>,
)
    requires
        v.copies[ino].dirty,
        created(before, after, rows, rows_after, v, w, opts, ino, path, Some(path), r),
        r matches Step::Done { reply, .. } && reply is Ok,
    ensures
        after.len() == before.len() + 3,
        (after[before.len() as int] matches Exchange::Push { local, remote, done } && local
            == v.copies[ino].path && remote == path && done is Ok),
        (after[before.len() as int + 1] matches Exchange::Sync { done } && done is Ok),
        (after[before.len() as int + 2] matches Exchange::Run { command, .. } && command
            == metadata_command(path)),
        !w.copies[ino].dirty,
        w.files.contains_key(v.next_fh) && w.files[v.next_fh] == ino,
{
    let (mid, rows_mid, v_mid, done) = choose|
        mid: Seq<Exchange>,
        rows_mid: Map<Seq<char>, CacheEntry>,
        v_mid: HandleView,
        done: Result<(), Errno>,
    | #[trigger] flushed(before, mid, rows, rows_mid, v, v_mid, ino, Some(path), done) && (match done {
        Ok(_) => after.drop_last() == mid && w == v_mid.opened(ino),
        Err(_) => false,
    });
    assert(after.drop_last() == mid);
    assert(mid.len() == before.len() + 2);
    assert(after[before.len() as int] == mid[before.len() as int]);
    assert(after[before.len() as int + 1] == mid[before.len() as int + 1]);
}

/// What was learned of a path, that there is no such file included, is given
/// again without a call for as long as it counts.
pub proof fn law_fetching_again_asks_nothing(
    before: Seq<Exchange>,
    between: Seq<Exchange>,
    after: Seq<Exchange>,
    cache: MetadataCache,
    cache_between: MetadataCache,
    rows_after: Map<Seq<char>, CacheEntry>,
    path: Seq<char>,
    now: Instant,
    later: Instant,
    first: Result<MetaView, Fault>,
    second: Result<MetaView, Fault>,
)
    requires
        fetched(before, between, cache, cache_between.rows(), path, now, first),
        first is Ok || first->Err_0 is NotFound,
        age_of(cache_between.rows(), path, later).length() <= cache_between.ttl.length(),
        fetched(between, after, cache_between, rows_after, path, later, second),
    ensures
        after == between,
        rows_after == cache_between.rows(),
        second is Ok == first is Ok,
        first is Ok ==> second == first,
        second matches Err(fault) ==> fault == (Fault::NotFound { path }),
{
}

/// Once a directory was listed, the metadata of the files in it is known
/// without a call for as long as it counts.
pub proof fn law_listing_answers_for_its_files(
    before: Seq<Exchange>,
    after: Seq<Exchange>,
    rows: Map<Seq<char>, CacheEntry>,
    cache: MetadataCache,
    rows_after: Map<Seq<char>, CacheEntry>,
    dir: Seq<char>,
    entries: Seq<(Seq<char>, Option<MetaView>)>,
    path: Seq<char>,
    now: Instant,
    result: Result<MetaView, Fault>,
)
    requires
        all_noted(rows, cache.rows(), all_described(dir, entries)),
        all_described(dir, entries).contains_key(path),
        age_of(cache.rows(), path, now).length() <= cache.ttl.length(),
        fetched(before, after, cache, rows_after, path, now, result),
    ensures
        after == before,
        result == Ok::<MetaView, Fault>(all_described(dir, entries)[path]),
{
    assert(cache.rows().contains_key(path));
    assert(found(cache.rows(), path, age_of(cache.rows(), path, now), cache.ttl) is Some);
}

/// Listing a directory keeps the table of inodes in step, as long as there are
/// numbers left.
pub proof fn law_listing_keeps_step(
    v: InodeView,
    dir: Seq<char>,
    entries: Seq<(Seq<char>, Option<MetaView>)>,
)
    requires
        entries.len() <= u64::MAX,
        v.next <= all_assigned(v, dir, entries).next,
    ensures
        v.kept_in_step(all_assigned(v, dir, entries)),
{
    lemma_listing_counts_on(v, dir, entries);
}

/// A listing counts the number of the next inode on by at most one for each
/// entry. Where it does not wrap around, it keeps the table in step.
proof fn lemma_listing_counts_on(
    v: InodeView,
    dir: Seq<char>,
    entries: Seq<(Seq<char>, Option<MetaView>)>,
)
    requires
        entries.len() <= u64::MAX,
    ensures
        ({
            let w = all_assigned(v, dir, entries);
            ||| v.next <= w.next <= v.next + entries.len() && v.kept_in_step(w)
            ||| w.next < v.next && w.next + u64::MAX + 1 <= v.next + entries.len()
        }),
    decreases entries.len(),
{
    if entries.len() > 0 {
        lemma_listing_counts_on(v, dir, entries.drop_last());
        let mid = all_assigned(v, dir, entries.drop_last());
        let path = child(dir, entries.last().0);
        if mid.next < u64::MAX {
            law_assigning_keeps_step(mid, path);
        } else if mid.by_path.contains_key(path) {
            assert(mid.with(path) == mid);
        }
    }
}

/// A directory that is read in pieces, each from the offset that the last row
/// of the one before gave, is read whole and without repetition.
pub proof fn law_reading_goes_on_where_it_stopped(
    listing: Seq<DirEntryView>,
    offset: u64,
    count: int,
)
    requires
        0 < count <= rows_from(listing, offset).len(),
        listing.len() <= u64::MAX,
    ensures
        rows_from(listing, offset) == rows_from(listing, offset).take(count) + rows_from(
            listing,
            rows_from(listing, offset)[count - 1].0,
        ),
        rows_from(listing, 0).len() == listing.len(),
{
    let rows = rows_from(listing, offset);
    assert(rows =~= rows.take(count) + rows_from(listing, rows[count - 1].0));
}

/// A file lies below the directory it is in, so that what is forgotten of the
/// directory is forgotten of the file.
pub proof fn law_child_is_below(parent: Seq<char>, name: Seq<char>)
    ensures
        at_or_below(child(parent, name), parent),
        parent != "/"@ ==> is_under(child(parent, name), parent),
{
    reveal_strlit("/");
    if parent == "/"@ {
        assert(child(parent, name).subrange(0, 1) =~= "/"@);
        assert(dir_prefix(parent) == parent);
    } else {
        assert(child(parent, name).subrange(0, (parent.len() + 1) as int) =~= parent.push('/'));
        if parent.len() > 0 && parent.last() == '/' {
            assert(child(parent, name).subrange(0, parent.len() as int) =~= parent);
        }
    }
}

/// Different names in one directory are different paths.
pub proof fn law_children_are_distinct(parent: Seq<char>, a: Seq<char>, b: Seq<char>)
    requires
        a != b,
    ensures
        child(parent, a) != child(parent, b),
{
    let prefix = if parent == "/"@ {
        "/"@
    } else {
        parent + "/"@
    };
    if child(parent, a) == child(parent, b) {
        assert(child(parent, a).skip(prefix.len() as int) =~= a);
        assert(child(parent, b).skip(prefix.len() as int) =~= b);
    }
}

/// After a rename nothing stale is known at or below either of its ends.
pub proof fn law_rename_forgets_both_ends(
    before: Seq<Exchange>,
    after: Seq<Exchange>,
    rows: Map<Seq<char>, CacheEntry>,
    rows_after: Map<Seq<char>, CacheEntry>,
    v: InodeView,
    w: InodeView,
    from: Seq<char>,
    to: Seq<char>,
    notices: Seq<Seq<char>>,
    path: Seq<char>,
)
    requires
        moved(before, after, rows, rows_after, v, w, from, to, notices, Ok(())),
        at_or_below(path, from) || at_or_below(path, to),
    ensures
        !rows_after.contains_key(path),
{
}

/// After something was removed nothing is known of it, nor of what was below
/// it where it was a directory; of everything else what was known still is.
pub proof fn law_removal_forgets_what_is_gone(
    before: Seq<Exchange>,
    after: Seq<Exchange>,
    rows: Map<Seq<char>, CacheEntry>,
    rows_after: Map<Seq<char>, CacheEntry>,
    command: Seq<char>,
    notices: Seq<Seq<char>>,
    path: Seq<char>,
    directory: bool,
    other: Seq<char>,
)
    requires
        removed(before, after, rows, rows_after, command, notices, path, directory, Ok(())),
    ensures
        !rows_after.contains_key(path),
        directory && at_or_below(other, path) ==> !rows_after.contains_key(other),
        !at_or_below(other, path) ==> rows_after.contains_key(other) == rows.contains_key(other),
{
    assert(at_or_below(path, path));
}

// ---- paths ----

/// A file in a directory has the directory's path, a slash and its name; in the
/// root there is no second slash.
pub proof fn law_a_child_is_behind_a_slash(parent: Seq<char>, name: Seq<char>)
    ensures
        child(seq!['/'], name) == seq!['/'] + name,
        parent != seq!['/'] ==> child(parent, name) == parent + seq!['/'] + name,
{
    reveal_strlit("/");
    assert("/"@ =~= seq!['/']);
}

/// A local copy lies in the directory of the copies, under the number of its
/// inode; a special file under its own number behind `node`.
pub proof fn law_copies_lie_in_their_directory(tmp_dir: Seq<char>, ino: u64)
    requires
        tmp_dir.len() > 0,
        tmp_dir.last() != '/',
    ensures
        local_path(tmp_dir, ino) == tmp_dir + seq!['/'] + decimal(ino as nat),
        local_path(tmp_dir + seq!['/'], ino) == tmp_dir + seq!['/'] + decimal(ino as nat),
        node_path(tmp_dir, ino) == tmp_dir + seq!['/', 'n', 'o', 'd', 'e'] + decimal(ino as nat),
{
    reveal_strlit("node");
    assert(tmp_dir.push('/') =~= tmp_dir + seq!['/']);
    assert((tmp_dir + seq!['/']).last() == '/');
    assert(node_path(tmp_dir, ino) =~= tmp_dir + seq!['/', 'n', 'o', 'd', 'e'] + decimal(
        ino as nat,
    ));
}

// ---- what the device is given ----

/// A push is followed by a flush of the device's writes, and counts only where
/// both went through; where the push did not, there is no flush.
pub proof fn law_a_push_is_flushed(
    before: Seq<Exchange>,
    after: Seq<Exchange>,
    local: Seq<char>,
    remote: Seq<char>,
    result: Result<(), Fault>,
)
    requires
        sent(before, after, local, remote, result),
    ensures
        before.len() < after.len() <= before.len() + 2,
        forall|i: int| 0 <= i < before.len() ==> #[trigger] after[i] == before[i],
        (after[before.len() as int] matches Exchange::Push { local: a, remote: b, done } && {
            &&& a == local
            &&& b == remote
            &&& done is Ok ==> after.len() == before.len() + 2
            &&& done is Ok ==> (after[before.len() as int + 1] matches Exchange::Sync {
                done: flushed,
            } && (result is Ok <==> flushed is Ok) && (flushed matches Err(e) ==> result == Err::<
                (),
                Fault,
            >(Fault::Adb(e))))
            &&& done matches Err(e) ==> after.len() == before.len() + 1 && result == Err::<
                (),
                Fault,
            >(Fault::Adb(e))
        }),
{
    let from = before.len() as int;
    assert forall|i: int| 0 <= i < before.len() implies #[trigger] after[i] == before[i] by {
        assert(after.take(from)[i] == after[i]);
    }
}

/// A pull is one call, from the path on the device to the local file.
pub proof fn law_a_pull_is_one_call(
    before: Seq<Exchange>,
    after: Seq<Exchange>,
    remote: Seq<char>,
    local: Seq<char>,
    result: Result<(), Fault>,
)
    requires
        pulled(before, after, remote, local, result),
    ensures
        after.len() == before.len() + 1,
        after.drop_last() == before,
        (after.last() matches Exchange::Pull { remote: a, local: b, done } && {
            &&& a == remote
            &&& b == local
            &&& result is Ok <==> done is Ok
            &&& done matches Err(e) ==> result == Err::<(), Fault>(Fault::Adb(e))
        }),
{
}

// ---- what is known of a file ----

/// What is in the cache and still counts is the answer, without a call: the
/// metadata, or that there is no such file.
pub proof fn law_what_is_known_is_not_asked(
    before: Seq<Exchange>,
    after: Seq<Exchange>,
    cache: MetadataCache,
    rows_after: Map<Seq<char>, CacheEntry>,
    path: Seq<char>,
    now: Instant,
    result: Result<MetaView, Fault>,
)
    requires
        fetched(before, after, cache, rows_after, path, now, result),
        cache.rows().contains_key(path),
        since(cache.rows()[path].inserted_at, now).length() <= cache.ttl.length(),
    ensures
        after == before,
        rows_after == cache.rows(),
        cache.rows()[path].meta matches Some(meta) ==> result == Ok::<MetaView, Fault>(meta@),
        cache.rows()[path].meta is None ==> result == Err::<MetaView, Fault>(
            Fault::NotFound { path },
        ),
{
}

/// What is not in the cache, or no longer counts, is asked of the device by one
/// `ls` of the path. What that says of the file is the answer and is remembered,
/// and so is that there is none; no other failure is. Of other paths the cache
/// says what it did.
pub proof fn law_what_is_not_known_is_asked(
    before: Seq<Exchange>,
    after: Seq<Exchange>,
    cache: MetadataCache,
    rows_after: Map<Seq<char>, CacheEntry>,
    path: Seq<char>,
    now: Instant,
    result: Result<MetaView, Fault>,
    other: Seq<char>,
)
    requires
        fetched(before, after, cache, rows_after, path, now, result),
        cache.rows().contains_key(path) ==> since(
            cache.rows()[path].inserted_at,
            now,
        ).length() > cache.ttl.length(),
    ensures
        after.len() == before.len() + 1,
        after.drop_last() == before,
        (after.last() matches Exchange::Run { command, output } && {
            &&& shell_words(command) == Some(seq!["ls"@, "-l"@, "-a"@, "-d"@, path])
            &&& output matches Ok(o) ==> result == described(path, o)
            &&& output matches Err(e) ==> result == Err::<MetaView, Fault>(Fault::Adb(e))
        }),
        result matches Ok(meta) ==> rows_after.contains_key(path) && (
        rows_after[path].meta matches Some(m) && m@ == meta),
        (result is Err && result->Err_0 is NotFound) ==> rows_after.contains_key(path)
            && rows_after[path].meta is None,
        (result is Err && !(result->Err_0 is NotFound)) ==> !rows_after.contains_key(path),
        other != path ==> rows_after.contains_key(other) == cache.rows().contains_key(other),
        other != path && rows_after.contains_key(other) ==> rows_after[other]
            == cache.rows()[other],
{
    law_queries_list_the_path(path);
}

/// Asking the device about a path is one `ls` of it; what it says of a file is
/// remembered, and nothing else changes.
pub proof fn law_a_query_is_remembered(
    before: Seq<Exchange>,
    after: Seq<Exchange>,
    rows: Map<Seq<char>, CacheEntry>,
    rows_after: Map<Seq<char>, CacheEntry>,
    path: Seq<char>,
    other: Seq<char>,
)
    requires
        queried(before, after, rows, rows_after, path),
    ensures
        after.len() == before.len() + 1,
        after.drop_last() == before,
        (after.last() matches Exchange::Run { command, output } && {
            &&& shell_words(command) == Some(seq!["ls"@, "-l"@, "-a"@, "-d"@, path])
            &&& output matches Ok(o) ==> answered(path, after) == described(path, o)
            &&& output matches Err(e) ==> answered(path, after) == Err::<MetaView, Fault>(
                Fault::Adb(e),
            )
        }),
        answered(path, after) matches Ok(meta) ==> rows_after.contains_key(path) && (
        rows_after[path].meta matches Some(m) && m@ == meta),
        answered(path, after) is Err ==> rows_after == rows,
        other != path ==> rows_after.contains_key(other) == rows.contains_key(other),
        other != path && rows.contains_key(other) ==> rows_after[other] == rows[other],
{
    law_queries_list_the_path(path);
}

// ---- what a request is answered ----

/// A file is answered with its attributes, for as long as the mount options say
/// for attributes and for entries; a failure with its error.
pub proof fn law_answers_are_the_attributes(
    opts: FsOptions,
    ino: u64,
    meta: MetaView,
    fault: Fault,
)
    ensures
        attr_reply(opts, ino, Ok(meta)) == Ok::<Entry, Errno>(
            Entry { ttl: opts.attr_timeout, attr: attr_of(opts, ino, meta) },
        ),
        entry_reply(opts, ino, Ok(meta)) == Ok::<Entry, Errno>(
            Entry { ttl: opts.entry_timeout, attr: attr_of(opts, ino, meta) },
        ),
        lookup_reply(opts, ino, Ok(meta)) == entry_reply(opts, ino, Ok(meta)),
        attr_reply(opts, ino, Err(fault)) == Err::<Entry, Errno>(fault_errno(fault)),
        entry_reply(opts, ino, Err(fault)) == Err::<Entry, Errno>(fault_errno(fault)),
{
}

/// A lookup that finds no file is an error, unless the mount options let the
/// kernel keep misses: then it is an entry without an inode, for that long. Any
/// other failure is an error in either case.
pub proof fn law_misses_may_be_kept(opts: FsOptions, ino: u64, path: Seq<char>, fault: Fault)
    ensures
        opts.negative_timeout.length() == 0 ==> lookup_reply(
            opts,
            ino,
            Err(Fault::NotFound { path }),
        ) == Err::<Entry, Errno>(Errno::ENOENT),
        opts.negative_timeout.length() != 0 ==> (lookup_reply(
            opts,
            ino,
            Err(Fault::NotFound { path }),
        ) matches Ok(entry) && entry.ttl == opts.negative_timeout && entry.attr.ino == 0),
        !(fault is NotFound) ==> lookup_reply(opts, ino, Err(fault)) == Err::<Entry, Errno>(
            fault_errno(fault),
        ),
{
}

/// A link is answered with what follows the first arrow in its line, led back
/// to the root of the device from the directory that the link lies in. What has
/// no arrow is no link.
pub proof fn law_a_link_is_answered_with_its_target(
    path: Seq<char>,
    meta: MetaView,
    head: Seq<char>,
    target: Seq<char>,
    fault: Fault,
)
    requires
        meta.raw_line == head + " -> "@ + target,
        forall|j: int| j < head.len() ==> !occurs_at(meta.raw_line, " -> "@, j),
    ensures
        link_reply(path, Ok(meta)) == Ok::<Seq<char>, Errno>(
            rerooted(target, count_of(path, '/')),
        ),
        link_reply(path, Err(fault)) == Err::<Seq<char>, Errno>(fault_errno(fault)),
{
    law_a_text_parts_at_the_pattern(head, " -> "@, target);
}

/// What has no arrow in its line is no link.
pub proof fn law_what_has_no_arrow_is_no_link(path: Seq<char>, meta: MetaView)
    requires
        forall|j: int| !occurs_at(meta.raw_line, " -> "@, j),
    ensures
        link_reply(path, Ok(meta)) == Err::<Seq<char>, Errno>(Errno::ENOSYS),
{
}

/// A link at an absolute path with `n` slashes, to an absolute target, is
/// answered with `n - 1` times `../` and the target without its slashes in
/// front: one step up for each directory that the link lies in.
pub proof fn law_an_absolute_link_climbs_to_the_root(
    path: Seq<char>,
    meta: MetaView,
    head: Seq<char>,
    lead: nat,
    below: Seq<char>,
)
    requires
        count_of(path, '/') >= 1,
        lead > 0,
        below.len() > 0 ==> below[0] != '/',
        meta.raw_line == head + " -> "@ + (Seq::new(lead, |i: int| '/') + below),
        forall|j: int| j < head.len() ==> !occurs_at(meta.raw_line, " -> "@, j),
    ensures
        ({
            let up = count_of(path, '/') - 1;
            &&& link_reply(path, Ok(meta)) matches Ok(r)
            &&& r.len() == 3 * up + below.len()
            &&& forall|j: int|
                0 <= j < 3 * up ==> r[j] == (if j % 3 == 2 {
                    '/'
                } else {
                    '.'
                })
            &&& r.skip(3 * up) == below
        }),
{
    let target = Seq::new(lead, |i: int| '/') + below;
    law_a_link_is_answered_with_its_target(path, meta, head, target, Fault::NoDevice);
    law_links_lead_back_to_the_root(lead, below, count_of(path, '/'));
}

/// A file that is there gets an inode, which leads back to its path; what is
/// not there gets none.
pub proof fn law_only_what_is_there_gets_an_inode(
    v: InodeView,
    path: Seq<char>,
    meta: MetaView,
    fault: Fault,
)
    ensures
        with_answered(v, path, Ok(meta)).numbers(path, v.ino_of(path)),
        with_answered(v, path, Ok(meta)) == v.with(path),
        with_answered(v, path, Err(fault)) == v,
{
}

// ---- what a request does ----

/// A directory is made by one `mkdir` of its path; only where that went through
/// is it asked about, and what was known of the path is forgotten. Where it did
/// not, nothing has changed.
pub proof fn law_a_directory_is_made_on_the_device(
    before: Seq<Exchange>,
    after: Seq<Exchange>,
    rows: Map<Seq<char>, CacheEntry>,
    rows_after: Map<Seq<char>, CacheEntry>,
    v: InodeView,
    w: InodeView,
    opts: FsOptions,
    path: Seq<char>,
    r: Result<Entry, Errno>,
)
    requires
        dir_made(before, after, rows, rows_after, v, w, opts, path, r),
    ensures
        before.len() < after.len() <= before.len() + 2,
        (after[before.len() as int] matches Exchange::Run { command, .. } && shell_words(command)
            == Some(seq!["mkdir"@, path])),
        after.len() == before.len() + 1 ==> r is Err && w == v && rows_after == rows,
        after.len() == before.len() + 2 ==> {
            &&& after[before.len() as int] matches Exchange::Run { output: Ok(o), .. }
            &&& message_in(o) is None && o.exit_code == 0
            &&& after.last() matches Exchange::Run { command, .. }
            &&& shell_words(command) == Some(seq!["ls"@, "-l"@, "-a"@, "-d"@, path])
        },
        r is Ok ==> after.len() == before.len() + 2 && w.numbers(path, v.ino_of(path)),
        r matches Ok(entry) ==> entry.attr.ino == v.ino_of(path) && entry.ttl
            == opts.entry_timeout,
{
    law_making_and_removing_name_the_path(path);
    law_queries_list_the_path(path);
    let (mid, done) = choose|mid: Seq<Exchange>, done: Result<(), Fault>|
        {
            &&& #[trigger] performed(before, mid, mkdir_command(path), Seq::empty(), done)
            &&& match done {
                Ok(_) => entered(mid, after, rows.remove(path), rows_after, v, w, opts, path, r),
                Err(fault) => {
                    &&& after == mid
                    &&& rows_after == rows
                    &&& w == v
                    &&& r == Err::<Entry, Errno>(fault_errno(fault))
                },
            }
        };
    law_a_change_is_made_and_told(before, mid, mkdir_command(path), Seq::empty(), done);
    if done is Ok {
        assert(after.drop_last() == mid);
        assert(after[before.len() as int] == after.drop_last()[before.len() as int]);
    } else {
        assert(mid.len() == before.len() + 1);
    }
}

/// Something is removed by its command alone, and the media scanner is told
/// only where that went through. Where it did not, what was known still is.
pub proof fn law_a_removal_is_made_on_the_device(
    before: Seq<Exchange>,
    after: Seq<Exchange>,
    rows: Map<Seq<char>, CacheEntry>,
    rows_after: Map<Seq<char>, CacheEntry>,
    command: Seq<char>,
    notices: Seq<Seq<char>>,
    path: Seq<char>,
    directory: bool,
    r: Result<(), Errno>,
)
    requires
        removed(before, after, rows, rows_after, command, notices, path, directory, r),
    ensures
        before.len() < after.len(),
        (after[before.len() as int] matches Exchange::Run { command: c, output } && c == command
            && (r is Ok ==> (output matches Ok(o) && message_in(o) is None && o.exit_code == 0))),
        r is Ok ==> after.len() == before.len() + 1 + notices.len(),
        r is Ok ==> forall|i: int|
            0 <= i < notices.len() ==> (#[trigger] after[before.len() + 1 + i] matches
                Exchange::Shell { command: c, lines } && c == notices[i] && lines is Ok),
        r is Ok ==> !rows_after.contains_key(path),
        r is Err ==> rows_after == rows,
{
    let done = choose|done: Result<(), Fault>|
        {
            &&& #[trigger] performed(before, after, command, notices, done)
            &&& match done {
                Ok(_) => {
                    &&& r is Ok
                    &&& rows_after == (if directory {
                        rows_outside(rows, path)
                    } else {
                        rows.remove(path)
                    })
                },
                Err(fault) => {
                    &&& r == Err::<(), Errno>(fault_errno(fault))
                    &&& rows_after == rows
                },
            }
        };
    law_a_change_is_made_and_told(before, after, command, notices, done);
    assert(at_or_below(path, path));
}

/// A rename gives the device `mv`, the old path and the new one. Only where
/// that went through do the inodes move and is anything forgotten.
pub proof fn law_a_rename_is_made_on_the_device(
    before: Seq<Exchange>,
    after: Seq<Exchange>,
    rows: Map<Seq<char>, CacheEntry>,
    rows_after: Map<Seq<char>, CacheEntry>,
    v: InodeView,
    w: InodeView,
    from: Seq<char>,
    to: Seq<char>,
    notices: Seq<Seq<char>>,
    r: Result<(), Errno>,
    other: Seq<char>,
)
    requires
        moved(before, after, rows, rows_after, v, w, from, to, notices, r),
    ensures
        before.len() < after.len(),
        (after[before.len() as int] matches Exchange::Run { command, output } && shell_words(command)
            == Some(seq!["mv"@, from, to]) && (r is Ok ==> (output matches Ok(o) && message_in(o)
            is None && o.exit_code == 0))),
        r is Ok ==> after.len() == before.len() + 1 + notices.len(),
        r is Ok ==> forall|i: int|
            0 <= i < notices.len() ==> (#[trigger] after[before.len() + 1 + i] matches
                Exchange::Shell { command: c, lines } && c == notices[i] && lines is Ok),
        r is Ok ==> v.rekeyed(w, from, to),
        r is Ok && !at_or_below(other, from) && !at_or_below(other, to) ==> {
            &&& rows_after.contains_key(other) == rows.contains_key(other)
            &&& rows.contains_key(other) ==> rows_after[other] == rows[other]
        },
        r is Err ==> w == v && rows_after == rows,
{
    law_rename_moves_the_first_to_the_second(from, to);
    let done = choose|done: Result<(), Fault>|
        {
            &&& #[trigger] performed(before, after, mv_command(from, to), notices, done)
            &&& match done {
                Ok(_) => {
                    &&& r is Ok
                    &&& v.rekeyed(w, from, to)
                    &&& rows_after == rows_outside(rows_outside(rows, from), to)
                },
                Err(fault) => {
                    &&& r == Err::<(), Errno>(fault_errno(fault))
                    &&& w == v
                    &&& rows_after == rows
                },
            }
        };
    law_a_change_is_made_and_told(before, after, mv_command(from, to), notices, done);
}

/// A special file that was made locally is pushed to its path, and the device
/// is then asked about it.
pub proof fn law_a_special_file_is_pushed(
    before: Seq<Exchange>,
    after: Seq<Exchange>,
    rows: Map<Seq<char>, CacheEntry>,
    rows_after: Map<Seq<char>, CacheEntry>,
    v: InodeView,
    w: InodeView,
    opts: FsOptions,
    local: Seq<char>,
    path: Seq<char>,
    r: Result<Entry, Errno>,
)
    requires
        node_made(before, after, rows, rows_after, v, w, opts, local, path, r),
    ensures
        before.len() < after.len(),
        (after[before.len() as int] matches Exchange::Push { local: a, remote: b, .. } && a == local
            && b == path),
        r is Ok ==> {
            &&& after.len() == before.len() + 3
            &&& after[before.len() as int + 1] matches Exchange::Sync { done: Ok(_) }
            &&& after[before.len() as int + 2] matches Exchange::Run { command, .. }
            &&& shell_words(command) == Some(seq!["ls"@, "-l"@, "-a"@, "-d"@, path])
            &&& w.numbers(path, v.ino_of(path))
        },
        r matches Ok(entry) ==> entry.attr.ino == v.ino_of(path) && entry.ttl
            == opts.entry_timeout,
{
    law_queries_list_the_path(path);
    let (mid, done) = choose|mid: Seq<Exchange>, done: Result<(), Fault>|
        {
            &&& #[trigger] sent(before, mid, local, path, done)
            &&& match done {
                Ok(_) => entered(mid, after, rows.remove(path), rows_after, v, w, opts, path, r),
                Err(fault) => {
                    &&& after == mid
                    &&& rows_after == rows
                    &&& w == v
                    &&& r == Err::<Entry, Errno>(fault_errno(fault))
                },
            }
        };
    law_a_push_is_flushed(before, mid, local, path, done);
    if done is Ok {
        assert(after.drop_last() == mid);
        assert(after[before.len() as int] == after.drop_last()[before.len() as int]);
        assert(mid.len() == before.len() + 2);
        assert(after[before.len() as int + 1] == after.drop_last()[before.len() as int + 1]);
    }
}

/// A directory is opened by one `ls` of what is in it. Where that went through
/// there is a new handle that lists its entries; otherwise nothing has changed.
pub proof fn law_a_directory_is_listed_once(
    before: Seq<Exchange>,
    after: Seq<Exchange>,
    rows: Map<Seq<char>, CacheEntry>,
    rows_after: Map<Seq<char>, CacheEntry>,
    v: InodeView,
    w: InodeView,
    handles: HandleView,
    handles_after: HandleView,
    ino: u64,
    path: Seq<char>,
    r: Result<Opened, Errno>,
)
    requires
        handles.next_fh < u64::MAX,
        dir_opened(
            before,
            after,
            rows,
            rows_after,
            v,
            w,
            handles,
            handles_after,
            ino,
            path,
            r,
        ),
    ensures
        after.len() == before.len() + 1,
        after.drop_last() == before,
        (after.last() matches Exchange::Shell { command, lines } && {
            &&& shell_words(command) == Some(seq!["ls"@, "-l"@, "-a"@, path])
            &&& r is Ok <==> lines is Ok
            &&& lines matches Ok(l) ==> {
                &&& r == Ok::<Opened, Errno>(Opened { fh: handles.next_fh, flags: 0 })
                &&& handles_after.dirs.contains_key(handles.next_fh)
                &&& handles_after.dirs[handles.next_fh] == all_listed(
                    v,
                    ino,
                    path,
                    entries_in(texts(l@)),
                )
                &&& w == all_assigned(v, path, entries_in(texts(l@)))
                &&& all_noted(rows, rows_after, all_described(path, entries_in(texts(l@))))
            }
            &&& lines is Err ==> {
                &&& r == Err::<Opened, Errno>(Errno::EIO)
                &&& handles_after == handles
                &&& w == v
                &&& rows_after == rows
            }
        }),
{
    law_queries_list_the_path(path);
}

/// What a listing notes is known afterwards, and what it does not speak of is as
/// it was.
pub proof fn law_a_listing_is_noted(
    before: Map<Seq<char>, CacheEntry>,
    after: Map<Seq<char>, CacheEntry>,
    news: Map<Seq<char>, MetaView>,
    path: Seq<char>,
)
    requires
        all_noted(before, after, news),
    ensures
        news.contains_key(path) ==> after.contains_key(path) && (after[path].meta matches Some(m)
            && m@ == news[path]),
        !news.contains_key(path) ==> after.contains_key(path) == before.contains_key(path),
        !news.contains_key(path) && before.contains_key(path) ==> after[path] == before[path],
{
    assert(after.contains_key(path) <==> before.contains_key(path) || news.contains_key(path));
}

// ---- the contents of files ----

/// A write that went through is answered with its length, and leaves the copy
/// of the file with something that the device lacks, whatever else is open. One
/// that did not, or through no handle, changes nothing.
pub proof fn law_a_write_is_noted(
    v: HandleView,
    w: HandleView,
    fh: u64,
    outcome: Result<usize, Errno>,
    r: Result<u32, Errno>,
)
    requires
        written(v, w, fh, outcome, r),
    ensures
        !v.files.contains_key(fh) ==> r == Err::<u32, Errno>(Errno::EBADF) && w == v,
        v.files.contains_key(fh) ==> match outcome {
            Ok(n) => {
                &&& n <= u32::MAX ==> r == Ok::<u32, Errno>(n as u32)
                &&& r is Ok
                &&& w.copies[v.files[fh]].dirty
                &&& w.copies[v.files[fh]].path == v.copies[v.files[fh]].path
                &&& w.files == v.files
            },
            Err(e) => r == Err::<u32, Errno>(e) && w == v,
        },
{
    if v.files.contains_key(fh) {
        law_a_note_is_kept(v, v.files[fh], true, 0);
    }
}

/// What was written through a handle is brought to the path of its file by the
/// next flush: that begins with a push of the copy, and where it goes through
/// the device lacks nothing more.
pub proof fn law_what_was_written_is_pushed(
    v: HandleView,
    mid: HandleView,
    w: HandleView,
    fh: u64,
    count: usize,
    r: Result<u32, Errno>,
    before: Seq<Exchange>,
    after: Seq<Exchange>,
    rows: Map<Seq<char>, CacheEntry>,
    rows_after: Map<Seq<char>, CacheEntry>,
    path: Seq<char>,
    done: Result<(), Errno>,
)
    requires
        v.files.contains_key(fh),
        written(v, mid, fh, Ok(count), r),
        flushed(before, after, rows, rows_after, mid, w, v.files[fh], Some(path), done),
    ensures
        before.len() < after.len(),
        (after[before.len() as int] matches Exchange::Push { local, remote, .. } && local
            == v.copies[v.files[fh]].path && remote == path),
        done is Ok ==> {
            &&& after.len() == before.len() + 2
            &&& after[before.len() as int] matches Exchange::Push { done: Ok(_), .. }
            &&& after[before.len() as int + 1] matches Exchange::Sync { done: Ok(_) }
            &&& !w.copies[v.files[fh]].dirty
            &&& !rows_after.contains_key(path)
        },
        done is Err ==> w.copies[v.files[fh]].dirty,
{
    let ino = v.files[fh];
    law_a_write_is_noted(v, mid, fh, Ok(count), r);
    let sent_so = choose|d: Result<(), Fault>|
        {
            &&& #[trigger] sent(before, after, mid.copies[ino].path, path, d)
            &&& match d {
                Ok(_) => {
                    &&& done is Ok
                    &&& w == mid.marked(ino, false)
                    &&& rows_after == rows.remove(path)
                },
                Err(fault) => {
                    &&& done == Err::<(), Errno>(fault_errno(fault))
                    &&& w == mid
                    &&& rows_after == rows
                },
            }
        };
    law_a_push_is_flushed(before, after, mid.copies[ino].path, path, sent_so);
    law_a_note_is_kept(mid, ino, false, 0);
}

/// A flush of a copy that holds no writes calls nothing and changes nothing.
pub proof fn law_a_clean_copy_is_not_pushed(
    before: Seq<Exchange>,
    after: Seq<Exchange>,
    rows: Map<Seq<char>, CacheEntry>,
    rows_after: Map<Seq<char>, CacheEntry>,
    v: HandleView,
    w: HandleView,
    ino: u64,
    path: Option<Seq<char>>,
    r: Result<(), Errno>,
)
    requires
        !v.copies[ino].dirty,
        flushed(before, after, rows, rows_after, v, w, ino, path, r),
    ensures
        after == before,
        rows_after == rows,
        w == v,
        r is Ok,
{
}

/// Writes to a file that has no path any more cannot be brought anywhere.
pub proof fn law_a_copy_without_a_path_stays(
    before: Seq<Exchange>,
    after: Seq<Exchange>,
    rows: Map<Seq<char>, CacheEntry>,
    rows_after: Map<Seq<char>, CacheEntry>,
    v: HandleView,
    w: HandleView,
    ino: u64,
    r: Result<(), Errno>,
)
    requires
        v.copies[ino].dirty,
        flushed(before, after, rows, rows_after, v, w, ino, None, r),
    ensures
        after == before,
        w == v,
        r == Err::<(), Errno>(Errno::ENOENT),
{
}

/// Emptying a file takes a reference on its copy without a call to the device:
/// the copy holds the file, and something that the device lacks. Where the local
/// file could not be made, no reference is taken.
pub proof fn law_an_emptied_copy_is_not_pulled(
    before: Seq<Exchange>,
    after: Seq<Exchange>,
    v: HandleView,
    w: HandleView,
    ino: u64,
    path: Seq<char>,
    local: Seq<char>,
    created: Result<(), Errno>,
    r: Result<(), Errno>,
)
    requires
        v.refs(ino) < u64::MAX,
        acquired(before, after, v, w, ino, path, local, CopyInit::Empty { created }, r),
    ensures
        after == before,
        r is Ok <==> created is Ok,
        created matches Err(e) ==> r == Err::<(), Errno>(e) && w.refs(ino) == v.refs(ino),
        r is Ok ==> w.copies[ino].dirty && w.copies[ino].pulled && w.refs(ino) == v.refs(ino) + 1,
        r is Ok && !v.copies.contains_key(ino) ==> w.copies[ino].path == local,
        r is Ok && v.copies.contains_key(ino) ==> w.copies[ino].path == v.copies[ino].path,
{
    law_a_reference_is_counted(v, ino, local, true, 0);
}

/// Closing a handle closes that one alone. The local copy, and the local file
/// with it, goes with the last handle on it and not before.
pub proof fn law_the_last_close_deletes_the_copy(
    v: HandleView,
    w: HandleView,
    fh: u64,
    other: u64,
    remove: Option<Seq<char>>,
)
    requires
        v.balanced(None),
        released(v, w, fh, remove),
        other != fh,
    ensures
        !w.files.contains_key(fh),
        w.files.contains_key(other) == v.files.contains_key(other),
        w.files[other] == v.files[other],
        !v.files.contains_key(fh) ==> remove is None && w == v,
        v.files.contains_key(fh) ==> {
            let ino = v.files[fh];
            &&& remove is Some <==> uses(v.closed(fh).files, ino) == 0
            &&& remove matches Some(path) ==> path == v.copies[ino].path
                && !w.copies.contains_key(ino)
            &&& remove is None ==> w.copies.contains_key(ino) && w.copies[ino].dirty
                == v.copies[ino].dirty && w.copies[ino].path == v.copies[ino].path
        },
{
    if v.files.contains_key(fh) {
        let ino = v.files[fh];
        law_closing_is_balanced(v, fh);
        law_closing_closes_one_handle(v, fh, other);
        law_giving_back_is_balanced(v.closed(fh), ino);
        assert(v.closed(fh).refs(ino) > 0);
        law_the_last_reference_takes_the_copy(v.closed(fh), ino, other);
    }
}

/// Opening a file gives it the next handle, with the flags of the mount
/// options; where its local copy could not be opened, the error is the answer
/// and the reference is given back.
pub proof fn law_an_open_file_has_a_handle(
    v: HandleView,
    w: HandleView,
    opts: FsOptions,
    ino: u64,
    outcome: Result<(), Errno>,
    r: Step<Opened>,
)
    requires
        v.next_fh < u64::MAX,
        v.copies.contains_key(ino),
        v.copies[ino].refs > 0,
        handle_given(v, w, opts, ino, outcome, r),
    ensures
        outcome is Ok ==> {
            &&& r matches Step::Done { reply: Ok(opened), remove: None }
            &&& opened.fh == v.next_fh
            &&& opened.flags == open_bits(opts)
            &&& w.files.contains_key(opened.fh)
            &&& w.files[opened.fh] == ino
            &&& w.next_fh == v.next_fh + 1
            &&& w.refs(ino) == v.refs(ino)
        },
        outcome matches Err(e) ==> {
            &&& r matches Step::Done { reply, .. }
            &&& reply == Err::<Opened, Errno>(e)
            &&& w.files == v.files
            &&& w.refs(ino) == v.refs(ino) - 1
        },
{
    law_the_last_reference_takes_the_copy(v, ino, ino);
}

/// Setting attributes without times only asks for them. With times it sets them
/// first, and asks only where that went through.
pub proof fn law_times_are_set_before_the_answer(
    before: Seq<Exchange>,
    after: Seq<Exchange>,
    rows: Map<Seq<char>, CacheEntry>,
    rows_after: Map<Seq<char>, CacheEntry>,
    opts: FsOptions,
    rescan: bool,
    gnu: bool,
    gnu_after: bool,
    ino: u64,
    path: Seq<char>,
    atime: Option<FileTime>,
    mtime: Option<FileTime>,
    reply: Result<Entry, Errno>,
)
    requires
        settled(
            before,
            after,
            rows,
            rows_after,
            opts,
            rescan,
            gnu,
            gnu_after,
            ino,
            path,
            atime,
            mtime,
            reply,
        ),
    ensures
        before.len() < after.len(),
        atime is None && mtime is None ==> {
            &&& after.len() == before.len() + 1
            &&& after.last() matches Exchange::Run { command, .. }
            &&& shell_words(command) == Some(seq!["ls"@, "-l"@, "-a"@, "-d"@, path])
            &&& gnu_after == gnu
        },
        atime is Some || mtime is Some ==> (after[before.len() as int] matches Exchange::Run {
            command,
            ..
        } && command == touch_command(path, atime, mtime, gnu)),
        reply matches Ok(entry) ==> {
            &&& entry.ttl == opts.attr_timeout
            &&& entry.attr.ino == ino
            &&& after.last() matches Exchange::Run { command, .. }
            &&& shell_words(command) == Some(seq!["ls"@, "-l"@, "-a"@, "-d"@, path])
        },
{
    law_queries_list_the_path(path);
    if atime is Some || mtime is Some {
        let (mid, done) = choose|mid: Seq<Exchange>, done: Result<(), Fault>|
            {
                &&& before.len() <= mid.len()
                &&& mid.take(before.len() as int) == before
                &&& #[trigger] times_set(
                    mid,
                    before.len() as int,
                    path,
                    atime,
                    mtime,
                    gnu,
                    rescan,
                    done,
                    gnu_after,
                )
                &&& match done {
                    Ok(_) => {
                        &&& queried(mid, after, rows.remove(path), rows_after, path)
                        &&& reply == attr_reply(opts, ino, answered(path, after))
                    },
                    Err(fault) => {
                        &&& after == mid
                        &&& rows_after == rows
                        &&& reply == Err::<Entry, Errno>(fault_errno(fault))
                    },
                }
            };
        law_times_are_set_by_touch(
            mid,
            before.len() as int,
            path,
            atime,
            mtime,
            gnu,
            rescan,
            done,
            gnu_after,
        );
        if done is Ok {
            assert(after.drop_last() == mid);
            assert(after[before.len() as int] == after.drop_last()[before.len() as int]);
        }
    }
}

/// A file that was cut is pushed to its path, and its copy is given back
/// whatever comes of that; only where the push went through is anything else
/// done.
pub proof fn law_a_cut_file_is_pushed(
    before: Seq<Exchange>,
    after: Seq<Exchange>,
    rows: Map<Seq<char>, CacheEntry>,
    rows_after: Map<Seq<char>, CacheEntry>,
    v: HandleView,
    w: HandleView,
    opts: FsOptions,
    rescan: bool,
    gnu: bool,
    gnu_after: bool,
    ino: u64,
    path: Seq<char>,
    atime: Option<TimeOrNow>,
    mtime: Option<TimeOrNow>,
    reply: Result<Entry, Errno>,
    remove: Option<Seq<char>>,
)
    requires
        v.copies.contains_key(ino),
        v.copies[ino].refs > 0,
        cut(
            before,
            after,
            rows,
            rows_after,
            v,
            w,
            opts,
            rescan,
            gnu,
            gnu_after,
            ino,
            path,
            atime,
            mtime,
            reply,
            remove,
        ),
    ensures
        before.len() < after.len(),
        (after[before.len() as int] matches Exchange::Push { local, remote, .. } && local
            == v.copies[ino].path && remote == path),
        w.refs(ino) == v.refs(ino) - 1,
        v.copies[ino].refs == 1 ==> remove == Some(v.copies[ino].path),
        v.copies[ino].refs > 1 ==> remove is None,
        reply is Ok ==> {
            &&& after.len() >= before.len() + 3
            &&& after[before.len() as int] matches Exchange::Push { done: Ok(_), .. }
            &&& after[before.len() as int + 1] matches Exchange::Sync { done: Ok(_) }
            &&& w.copies.contains_key(ino) ==> !w.copies[ino].dirty
        },
{
    let marked = v.marked(ino, true);
    law_a_note_is_kept(v, ino, true, 0);
    let (mid, rows_mid, v_mid, done) = choose|
        mid: Seq<Exchange>,
        rows_mid: Map<Seq<char>, CacheEntry>,
        v_mid: HandleView,
        done: Result<(), Errno>,
    |
        {
            &&& #[trigger] flushed(before, mid, rows, rows_mid, marked, v_mid, ino, Some(path), done)
            &&& w == v_mid.given_back(ino)
            &&& remove == v_mid.left_over(ino)
            &&& match done {
                Ok(_) => settled_by_clock(
                    mid,
                    after,
                    rows_mid,
                    rows_after,
                    opts,
                    rescan,
                    gnu,
                    gnu_after,
                    ino,
                    path,
                    atime,
                    mtime,
                    reply,
                ),
                Err(e) => {
                    &&& after == mid
                    &&& rows_after == rows_mid
                    &&& gnu_after == gnu
                    &&& reply == Err::<Entry, Errno>(e)
                },
            }
        };
    let sent_so = choose|d: Result<(), Fault>|
        {
            &&& #[trigger] sent(before, mid, marked.copies[ino].path, path, d)
            &&& match d {
                Ok(_) => {
                    &&& done is Ok
                    &&& v_mid == marked.marked(ino, false)
                    &&& rows_mid == rows.remove(path)
                },
                Err(fault) => {
                    &&& done == Err::<(), Errno>(fault_errno(fault))
                    &&& v_mid == marked
                    &&& rows_mid == rows
                },
            }
        };
    law_a_push_is_flushed(before, mid, marked.copies[ino].path, path, sent_so);
    law_a_note_is_kept(marked, ino, false, 0);
    law_the_last_reference_takes_the_copy(v_mid, ino, ino);
    if done is Ok {
        let (at, mt) = choose|at: Option<FileTime>, mt: Option<FileTime>|
            {
                &&& resolved(atime, at)
                &&& resolved(mtime, mt)
                &&& #[trigger] settled(
                    mid,
                    after,
                    rows_mid,
                    rows_after,
                    opts,
                    rescan,
                    gnu,
                    gnu_after,
                    ino,
                    path,
                    at,
                    mt,
                    reply,
                )
            };
        lemma_settled_goes_on(
            mid,
            after,
            rows_mid,
            rows_after,
            opts,
            rescan,
            gnu,
            gnu_after,
            ino,
            path,
            at,
            mt,
            reply,
        );
        assert(after[before.len() as int] == after.take(mid.len() as int)[before.len() as int]);
        assert(after[before.len() as int + 1] == after.take(mid.len() as int)[before.len() as int
            + 1]);
    }
}

/// Setting times calls after what was called before.
proof fn lemma_settled_goes_on(
    before: Seq<Exchange>,
    after: Seq<Exchange>,
    rows: Map<Seq<char>, CacheEntry>,
    rows_after: Map<Seq<char>, CacheEntry>,
    opts: FsOptions,
    rescan: bool,
    gnu: bool,
    gnu_after: bool,
    ino: u64,
    path: Seq<char>,
    atime: Option<FileTime>,
    mtime: Option<FileTime>,
    reply: Result<Entry, Errno>,
)
    requires
        settled(
            before,
            after,
            rows,
            rows_after,
            opts,
            rescan,
            gnu,
            gnu_after,
            ino,
            path,
            atime,
            mtime,
            reply,
        ),
    ensures
        before.len() < after.len(),
        after.take(before.len() as int) == before,
{
    law_times_are_set_before_the_answer(
        before,
        after,
        rows,
        rows_after,
        opts,
        rescan,
        gnu,
        gnu_after,
        ino,
        path,
        atime,
        mtime,
        reply,
    );
    if atime is None && mtime is None {
        assert(after.take(before.len() as int) =~= after.drop_last());
    } else {
        let (mid, done) = choose|mid: Seq<Exchange>, done: Result<(), Fault>|
            {
                &&& before.len() <= mid.len()
                &&& mid.take(before.len() as int) == before
                &&& #[trigger] times_set(
                    mid,
                    before.len() as int,
                    path,
                    atime,
                    mtime,
                    gnu,
                    rescan,
                    done,
                    gnu_after,
                )
                &&& match done {
                    Ok(_) => {
                        &&& queried(mid, after, rows.remove(path), rows_after, path)
                        &&& reply == attr_reply(opts, ino, answered(path, after))
                    },
                    Err(fault) => {
                        &&& after == mid
                        &&& rows_after == rows
                        &&& reply == Err::<Entry, Errno>(fault_errno(fault))
                    },
                }
            };
        if done is Ok {
            assert(after.take(before.len() as int) =~= after.drop_last().take(
                before.len() as int,
            ));
        }
    }
}

// ---- whole requests ----

/// Whether the device was asked nothing, or about this path alone.
pub open spec fn asked_at_most(
    before: Seq<Exchange>,
    after: Seq<Exchange>,
    path: Seq<char>,
) -> bool {
    after == before || {
        &&& after.len() == before.len() + 1
        &&& after.drop_last() == before
        &&& after.last() matches Exchange::Run { command, .. }
        &&& shell_words(command) == Some(seq!["ls"@, "-l"@, "-a"@, "-d"@, path])
    }
}

/// The attributes of a file are asked of the device at most once. Where it was
/// asked and described the file, the answer is that description: its size is
/// the file's and its inode the one asked about.
pub proof fn law_attributes_come_from_the_device(
    before: Seq<Exchange>,
    after: Seq<Exchange>,
    cache: MetadataCache,
    rows_after: Map<Seq<char>, CacheEntry>,
    opts: FsOptions,
    ino: u64,
    path: Seq<char>,
    r: Result<Entry, Errno>,
)
    requires
        attr_found(before, after, cache, rows_after, opts, ino, path, r),
    ensures
        asked_at_most(before, after, path),
        r matches Ok(entry) ==> entry.ttl == opts.attr_timeout && entry.attr.ino == ino,
        after == before ==> cache.rows().contains_key(path),
        after == before ==> (match cache.rows()[path].meta {
            Some(meta) => r matches Ok(entry) && entry.attr == attr_of(opts, ino, meta@),
            None => r == Err::<Entry, Errno>(Errno::ENOENT),
        }),
        (after != before && (after.last() matches Exchange::Run { output: Ok(o), .. } && described(
            path,
            o,
        ) is Ok)) ==> {
            let meta = described(path, after.last()->Run_output->Ok_0)->Ok_0;
            &&& r matches Ok(entry)
            &&& entry.attr == attr_of(opts, ino, meta)
            &&& entry.attr.size == meta.size
        },
        (after != before && (after.last() matches Exchange::Run { output: Ok(o), .. } && described(
            path,
            o,
        ) is Err)) ==> r == Err::<Entry, Errno>(
            fault_errno(described(path, after.last()->Run_output->Ok_0)->Err_0),
        ),
{
    law_queries_list_the_path(path);
}

/// A lookup asks the device at most once. A file that is there gets an inode,
/// and that is the one in the answer; a path that has one keeps it.
pub proof fn law_a_lookup_gives_the_inode(
    before: Seq<Exchange>,
    after: Seq<Exchange>,
    cache: MetadataCache,
    rows_after: Map<Seq<char>, CacheEntry>,
    v: InodeView,
    w: InodeView,
    opts: FsOptions,
    path: Seq<char>,
    r: Result<Entry, Errno>,
)
    requires
        looked_up(before, after, cache, rows_after, v, w, opts, path, r),
    ensures
        asked_at_most(before, after, path),
        w == v || w == v.with(path),
        (after != before && (after.last() matches Exchange::Run { output: Ok(o), .. } && described(
            path,
            o,
        ) is Ok)) ==> {
            let meta = described(path, after.last()->Run_output->Ok_0)->Ok_0;
            &&& r matches Ok(entry)
            &&& entry.ttl == opts.entry_timeout
            &&& entry.attr == attr_of(opts, v.ino_of(path), meta)
            &&& w.numbers(path, entry.attr.ino)
        },
        r is Err ==> w == v,
        r matches Ok(entry) ==> (entry.attr.ino == v.ino_of(path) && entry.ttl
            == opts.entry_timeout && w.numbers(path, entry.attr.ino)) || (entry.attr.ino == 0
            && entry.ttl == opts.negative_timeout && w == v),
{
    law_queries_list_the_path(path);
}

/// The target of a link is asked of the device at most once, and is read from
/// the line that the device printed for it.
pub proof fn law_a_link_is_read_from_its_line(
    before: Seq<Exchange>,
    after: Seq<Exchange>,
    cache: MetadataCache,
    rows_after: Map<Seq<char>, CacheEntry>,
    path: Seq<char>,
    r: Result<Seq<char>, Errno>,
)
    requires
        link_read(before, after, cache, rows_after, path, r),
    ensures
        asked_at_most(before, after, path),
        (after != before && (after.last() matches Exchange::Run { output: Ok(o), .. } && described(
            path,
            o,
        ) is Ok)) ==> r == link_reply(path, described(path, after.last()->Run_output->Ok_0)),
        (after == before && cache.rows()[path].meta is Some) ==> r == link_reply(
            path,
            Ok(cache.rows()[path].meta->0@),
        ),
{
    law_queries_list_the_path(path);
}

/// Opening a file ends in work on its local copy, which is held then, or in the
/// error of the pull, with nothing held.
pub proof fn law_opening_waits_for_the_local_file(
    before: Seq<Exchange>,
    after: Seq<Exchange>,
    v: HandleView,
    w: HandleView,
    tmp_dir: Seq<char>,
    ino: u64,
    path: Seq<char>,
    pending: Option<Task>,
    r: Step<Opened>,
)
    requires
        v.balanced(None),
        open_begun(before, after, v, w, tmp_dir, ino, path, pending, r),
    ensures
        pending is Some ==> {
            &&& pending == Some(Task::Open { ino })
            &&& r matches Step::Work(LocalWork::Open { path: local })
            &&& local@ == local_path(tmp_dir, ino)
            &&& w.refs(ino) == v.refs(ino) + 1
        },
        pending is None ==> {
            &&& r matches Step::Done { reply, remove: None }
            &&& reply is Err
            &&& w == v
        },
        v.copies.contains_key(ino) ==> after == before && pending is Some,
        !v.copies.contains_key(ino) ==> {
            &&& after.len() == before.len() + 1
            &&& after.last() matches Exchange::Pull { remote, local, done }
            &&& remote == path && local == local_path(tmp_dir, ino)
            &&& pending is Some <==> done is Ok
        },
{
    law_references_can_be_counted(v, ino);
    assert(unpopulated(v, ino).copies =~= v.copies);
}

/// Emptying the copy of a file waits for the next piece of work with the copy
/// held and unpushed; where the copy could not be made, that is the answer.
pub proof fn law_emptying_goes_on_or_fails<T>(
    before: Seq<Exchange>,
    after: Seq<Exchange>,
    v: HandleView,
    w: HandleView,
    tmp_dir: Seq<char>,
    ino: u64,
    path: Seq<char>,
    outcome: Result<(), Errno>,
    next: WorkView,
    task: TaskView,
    pending: Option<Task>,
    r: Step<T>,
)
    requires
        v.refs(ino) < u64::MAX,
        emptied(before, after, v, w, tmp_dir, ino, path, outcome, next, task, pending, r),
    ensures
        after == before,
        outcome is Ok ==> {
            &&& r matches Step::Work(work)
            &&& work@ == next
            &&& pending matches Some(t)
            &&& t@ == task
            &&& w.refs(ino) == v.refs(ino) + 1
            &&& w.copies[ino].dirty
        },
        outcome matches Err(e) ==> {
            &&& r matches Step::Done { reply, remove: None }
            &&& reply == Err::<T, Errno>(e)
            &&& pending is None
            &&& w == v
        },
{
    law_a_reference_is_counted(v, ino, local_path(tmp_dir, ino), true, 0);
}

/// Cutting a file waits for work on its local copy, to the length asked for,
/// with the copy held; where it could not be pulled, that is the answer.
pub proof fn law_cutting_waits_for_the_local_file(
    before: Seq<Exchange>,
    after: Seq<Exchange>,
    v: HandleView,
    w: HandleView,
    tmp_dir: Seq<char>,
    ino: u64,
    path: Seq<char>,
    len: u64,
    task: TaskView,
    pending: Option<Task>,
    r: Step<Entry>,
)
    requires
        v.balanced(None),
        cut_begun(before, after, v, w, tmp_dir, ino, path, len, task, pending, r),
    ensures
        pending matches Some(t) ==> {
            &&& t@ == task
            &&& r matches Step::Work(LocalWork::SetLen { path: local, len: n })
            &&& local@ == local_path(tmp_dir, ino)
            &&& n == len
            &&& w.refs(ino) == v.refs(ino) + 1
        },
        pending is None ==> {
            &&& r matches Step::Done { reply, remove: None }
            &&& reply is Err
            &&& w == v
        },
        v.copies.contains_key(ino) ==> after == before && pending is Some,
        !v.copies.contains_key(ino) ==> {
            &&& after.len() == before.len() + 1
            &&& after.last() matches Exchange::Pull { remote, local, done }
            &&& remote == path && local == local_path(tmp_dir, ino)
            &&& pending is Some <==> done is Ok
        },
{
    law_references_can_be_counted(v, ino);
    assert(unpopulated(v, ino).copies =~= v.copies);
}

/// Where nothing was touched, the device was given no call, the cache, the
/// inodes and the handles are as they were, and so is every setting.
pub proof fn law_untouched_is_unchanged<D: AdbDevice>(a: AdbFs<D>, b: AdbFs<D>)
    requires
        a.untouched(&b),
    ensures
        a.ops.adb.history() == b.ops.adb.history(),
        a.cache.rows() == b.cache.rows(),
        a.cache.ttl == b.cache.ttl,
        a.inodes@ == b.inodes@,
        a.handles@ == b.handles@,
        a.tmp_dir == b.tmp_dir,
        a.opts == b.opts,
        a.next_node == b.next_node,
        a.ops.rescan == b.ops.rescan,
        a.ops.touch_gnu_mode == b.ops.touch_gnu_mode,
{
}

/// A filesystem in order has its copies in balance with its handles and each
/// copy where its inode says, so that every open handle has one.
pub proof fn law_an_open_handle_has_its_local_file<D: AdbDevice>(fs: AdbFs<D>, fh: u64)
    requires
        fs.well_formed(),
        fs.handles@.files.contains_key(fh),
    ensures
        fs.handles@.copies.contains_key(fs.handles@.files[fh]),
        fs.handles@.copies[fs.handles@.files[fh]].path == local_path(
            fs.tmp_dir@,
            fs.handles@.files[fh],
        ),
        fs.handles@.copies[fs.handles@.files[fh]].pulled,
        fs.handles@.refs(fs.handles@.files[fh]) >= 1,
        0 < fh < fs.handles@.next_fh,
{
    law_handle_has_its_copy(fs.handles@, fh, held_by(fs.pending));
}

/// A handle is open on the inode that it was opened for until it is closed, and
/// is a bad one otherwise.
pub proof fn law_a_handle_is_open_until_it_is_closed(v: HandleView, ino: u64, fh: u64)
    requires
        v.next_fh < u64::MAX,
    ensures
        open_on(v.opened(ino), v.next_fh) == Ok::<u64, Errno>(ino),
        fh != v.next_fh ==> open_on(v.opened(ino), fh) == open_on(v, fh),
        open_on(v.closed(fh), fh) == Err::<u64, Errno>(Errno::EBADF),
        !v.files.contains_key(fh) ==> open_on(v, fh) == Err::<u64, Errno>(Errno::EBADF),
        v.files.contains_key(fh) ==> open_on(v, fh) == Ok::<u64, Errno>(v.files[fh]),
{
}

/// A new filesystem has nothing open and knows nothing but the root, and has
/// what it was given: the device, the time for which metadata counts, the mount
/// options and the directory of the copies.
pub proof fn law_a_filesystem_starts_empty<D: AdbDevice>(
    fs: AdbFs<D>,
    ops: DeviceOps<D>,
    ttl: Span,
    opts: FsOptions,
    tmp_dir: Seq<char>,
    path: Seq<char>,
)
    requires
        fs.started(ops, ttl, opts, tmp_dir),
    ensures
        fs.ops == ops,
        fs.cache.ttl == ttl,
        fs.opts == opts,
        fs.tmp_dir@ == tmp_dir,
        !fs.cache.rows().contains_key(path),
        fs.inodes@.path_of(1) == Some(seq!['/']),
        path != seq!['/'] ==> !fs.inodes@.by_path.contains_key(path),
        fs.handles@.files.len() == 0 && fs.handles@.dirs.len() == 0 && fs.handles@.copies.len()
            == 0,
        fs.pending is None,
        fs.next_node == 0,
{
    law_the_root_is_first();
}

/// Times that are given are set as they are given; only the present one is left
/// to the clock.
pub proof fn law_given_times_are_set(
    before: Seq<Exchange>,
    after: Seq<Exchange>,
    rows: Map<Seq<char>, CacheEntry>,
    rows_after: Map<Seq<char>, CacheEntry>,
    opts: FsOptions,
    rescan: bool,
    gnu: bool,
    gnu_after: bool,
    ino: u64,
    path: Seq<char>,
    at: FileTime,
    mt: FileTime,
    reply: Result<Entry, Errno>,
)
    requires
        settled_by_clock(
            before,
            after,
            rows,
            rows_after,
            opts,
            rescan,
            gnu,
            gnu_after,
            ino,
            path,
            Some(TimeOrNow::SpecificTime(at)),
            Some(TimeOrNow::SpecificTime(mt)),
            reply,
        ),
    ensures
        before.len() < after.len(),
        (after[before.len() as int] matches Exchange::Run { command, .. } && command
            == touch_command(path, Some(at), Some(mt), gnu)),
{
    law_times_are_set_before_the_answer(
        before,
        after,
        rows,
        rows_after,
        opts,
        rescan,
        gnu,
        gnu_after,
        ino,
        path,
        Some(at),
        Some(mt),
        reply,
    );
}

} // verus!
