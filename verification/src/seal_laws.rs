//! What sealing leaves on disk: where the file system does what it reports, work that ends well
//! has sealed every entry, and the check for sealed metadata accepts the tree.

use vstd::prelude::*;

use crate::abs_path::{trimmed, upper};
use crate::archive::ErrorV;
use crate::disk::{
    mode_is_executable, mode_is_writable, sealed_time, DiskBody, DiskChild, DiskNode, DiskStatus,
    Timestamp,
};
use crate::entry::{names_are_members, EntryV};
use crate::materialize::{first_stage, locking, next_stage, stage_asks, StageV};
use crate::paths::{is_single_entry, join_text};
use crate::realization_laws::run_stages;
use crate::sealed::{normalized, normalized_list};
use crate::store_output::{
    lock_plan, lock_text, metadata_plan, seal_members, seal_plan, temp_text, work_plan, JobV,
};
use crate::task::{expand, request_of, sealed_mode, ReplyV, Request, Task, TaskV};
use crate::work::{advance, asks, begun, raise, settle, WorkV};
use crate::work_laws::{
    build_place_is_apart, building_stays_beside_the_store_path, builds_beside, changes,
    every_task_has_its_turn, first_error_stands, is_honest, is_honest_run, is_native_path,
    lemma_asks_unless_finished, lemma_build_begins, lemma_build_goes_on, lemma_honest_take,
    lemma_run_split, lemma_stages_split, lemma_step, publication_is_last, publish_task, run_work,
    stays_within, success_is_publication, under,
};

verus! {

/// The metadata of an entry on disk.
pub struct Meta {
    pub is_dir: bool,
    pub mode: u32,
    pub modified: Timestamp,
}

/// The metadata of all entries on disk.
pub type Disk = Map<Seq<char>, Meta>;

/// The disk after the tree at `from` was renamed to `to`.
pub open spec fn renamed(disk: Disk, from: Seq<char>, to: Seq<char>) -> Disk {
    Map::new(
        |path: Seq<char>|
            if under(path, to) {
                disk.contains_key(from + path.skip(to.len() as int))
            } else {
                !under(path, from) && disk.contains_key(path)
            },
        |path: Seq<char>|
            if under(path, to) {
                disk[from + path.skip(to.len() as int)]
            } else {
                disk[path]
            },
    )
}

/// A directory above the path. What is added there or taken away gives it another modification
/// time.
pub open spec fn above(directory: Seq<char>, path: Seq<char>) -> bool {
    &&& directory != path
    &&& under(path, directory) || directory == seq!['/']
}

/// The entry is as it was but perhaps for its modification time, and for that only if it may.
pub open spec fn is_kept(before: Meta, after: Meta, touched: bool) -> bool {
    if touched {
        after.is_dir == before.is_dir && after.mode == before.mode
    } else {
        after == before
    }
}

/// The tree at `from` was renamed to `to`; of the rest, only directories above the two have
/// another modification time.
pub open spec fn was_renamed(before: Disk, after: Disk, from: Seq<char>, to: Seq<char>) -> bool {
    let exact = renamed(before, from, to);
    forall|p: Seq<char>|
        {
            &&& #[trigger] after.contains_key(p) == exact.contains_key(p)
            &&& exact.contains_key(p) ==> is_kept(
                exact[p],
                after[p],
                !under(p, to) && (above(p, from) || above(p, to)),
            )
        }
}

/// Nothing but what is at or below the path has changed, except that directories above it may
/// have another modification time.
pub open spec fn same_outside(before: Disk, after: Disk, path: Seq<char>) -> bool {
    forall|p: Seq<char>|
        !under(p, path) ==> {
            &&& #[trigger] after.contains_key(p) == before.contains_key(p)
            &&& before.contains_key(p) ==> is_kept(before[p], after[p], above(p, path))
        }
}

/// What was there has stayed as it was, except that directories above the path may have another
/// modification time; what is new is the path or lies above it.
pub open spec fn only_above(before: Disk, after: Disk, path: Seq<char>) -> bool {
    forall|p: Seq<char>| #[trigger]
        after.contains_key(p) || before.contains_key(p) ==> {
            if before.contains_key(p) {
                after.contains_key(p) && is_kept(before[p], after[p], above(p, path))
            } else {
                under(path, p)
            }
        }
}

/// The file system does what it reports. A request that only looks changes nothing, nor does a
/// renaming that failed. Creating directories only adds the path and directories above it; any
/// other request changes nothing outside the place that it is about. Directories above such a place
/// may get another modification time.
pub open spec fn disk_step(
    before: Disk,
    request: Request<Seq<char>>,
    reply: ReplyV,
    after: Disk,
) -> bool {
    match (request, reply) {
        (Request::Inspect(path), ReplyV::Metadata { is_dir, mode, modified }) => {
            &&& after == before
            &&& before.contains_key(path)
            &&& before[path] == Meta { is_dir, mode, modified }
        },
        (Request::SetMode { path, mode }, ReplyV::Done) => {
            &&& before.contains_key(path)
            &&& after == before.insert(
                path,
                Meta { is_dir: before[path].is_dir, mode, modified: before[path].modified },
            )
        },
        (Request::SetModified { path, modified }, ReplyV::Done) => {
            &&& before.contains_key(path)
            &&& after == before.insert(
                path,
                Meta { is_dir: before[path].is_dir, mode: before[path].mode, modified },
            )
        },
        (Request::SetSymlinkModified { path, modified }, ReplyV::Done) => {
            &&& before.contains_key(path)
            &&& after == before.insert(
                path,
                Meta { is_dir: before[path].is_dir, mode: before[path].mode, modified },
            )
        },
        (Request::TryExists(path), ReplyV::Exists(exists_now)) => {
            &&& after == before
            &&& exists_now == before.contains_key(path)
        },
        (Request::Rename { from, to }, ReplyV::Done) => was_renamed(before, after, from, to),
        (Request::CreateDirAll(path), _) => only_above(before, after, path),
        _ => match changes(request) {
            Some(path) => same_outside(before, after, path),
            None => after == before,
        },
    }
}

/// `disks` are the states of the disk before, between and after the replies of a run. Nobody else
/// changes the disk meanwhile.
pub open spec fn disk_run(work: WorkV, replies: Seq<ReplyV>, disks: Seq<Disk>) -> bool {
    &&& disks.len() == replies.len() + 1
    &&& forall|k: int|
        0 <= k < replies.len() ==> match asks(#[trigger] run_work(work, replies.take(k))) {
            Some(request) => disk_step(disks[k], request, replies[k], disks[k + 1]),
            None => disks[k + 1] == disks[k],
        }
}

/// A symbolic link of an entry that stands at `base`.
pub open spec fn is_link_path(entry: EntryV, base: Seq<char>, path: Seq<char>) -> bool
    decreases entry,
{
    match entry {
        EntryV::Dir(members) => exists|j: int|
            0 <= j < members.len() && is_link_path(
                (#[trigger] members[j]).1,
                join_text(base, members[j].0),
                path,
            ),
        EntryV::File { .. } => false,
        _ => path == base,
    }
}

/// The entry carries the sealed modification time and, if it is native, no write bit.
pub open spec fn is_sealed_at(disk: Disk, path: Seq<char>, native: bool) -> bool {
    &&& disk.contains_key(path)
    &&& disk[path].modified == sealed_time()
    &&& native ==> !mode_is_writable(disk[path].mode)
}

/// A task that only ever seals.
spec fn only_seals(task: TaskV) -> bool {
    match task {
        Task::Seal(_) => true,
        Task::Do(Request::SetModified { modified, .. }) => modified == sealed_time(),
        Task::Do(Request::SetSymlinkModified { modified, .. }) => modified == sealed_time(),
        Task::Do(Request::SetMode { mode, .. }) => !mode_is_writable(mode),
        _ => false,
    }
}

spec fn all_seal(agenda: Seq<TaskV>) -> bool {
    forall|i: int| 0 <= i < agenda.len() ==> only_seals(#[trigger] agenda[i])
}

spec fn sets_time(task: TaskV, path: Seq<char>) -> bool {
    match task {
        Task::Seal(p) => p == path,
        Task::Do(Request::SetModified { path: p, .. }) => p == path,
        Task::Do(Request::SetSymlinkModified { path: p, .. }) => p == path,
        _ => false,
    }
}

spec fn sets_mode(task: TaskV, path: Seq<char>) -> bool {
    match task {
        Task::Seal(p) => p == path,
        Task::Do(Request::SetMode { path: p, .. }) => p == path,
        _ => false,
    }
}

/// The modification time is sealed, or one of the tasks will seal it.
spec fn time_due(agenda: Seq<TaskV>, disk: Disk, path: Seq<char>) -> bool {
    ||| disk.contains_key(path) && disk[path].modified == sealed_time()
    ||| exists|i: int| 0 <= i < agenda.len() && sets_time(#[trigger] agenda[i], path)
}

/// The mode is the one that the entry had at first without its write bits, or one of the tasks
/// will make it that.
spec fn mode_due(agenda: Seq<TaskV>, disk: Disk, path: Seq<char>, first: u32) -> bool {
    &&& disk.contains_key(path) ==> disk[path].mode == first || disk[path].mode == sealed_mode(
        first,
    )
    &&& {
        ||| disk.contains_key(path) && disk[path].mode == sealed_mode(first)
        ||| exists|i: int| 0 <= i < agenda.len() && sets_mode(#[trigger] agenda[i], path)
    }
    &&& forall|i: int|
        0 <= i < agenda.len() ==> match #[trigger] agenda[i] {
            Task::Do(Request::SetMode { path: p, mode }) => p == path ==> mode == sealed_mode(
                first,
            ),
            _ => true,
        }
}

/// A mode without its write bits is not writable.
pub proof fn sealed_modes_are_not_writable(mode: u32)
    ensures
        !mode_is_writable(sealed_mode(mode)),
{
    assert((mode & !0o222u32) & 0o222u32 == 0u32) by (bit_vector);
}

/// Sealing keeps every bit of a mode but the write bits; what was executable stays so.
pub proof fn sealing_keeps_the_other_bits(mode: u32)
    ensures
        sealed_mode(mode) & !0o222u32 == mode & !0o222u32,
        mode_is_executable(sealed_mode(mode)) == mode_is_executable(mode),
        sealed_mode(sealed_mode(mode)) == sealed_mode(mode),
{
    assert((mode & !0o222u32) & !0o222u32 == mode & !0o222u32) by (bit_vector);
    assert((mode & !0o222u32) & 0o111u32 == mode & 0o111u32) by (bit_vector);
}

proof fn lemma_seal_step(
    agenda: Seq<TaskV>,
    reply: ReplyV,
    before: Disk,
    after: Disk,
    path: Seq<char>,
    native: bool,
    first: u32,
)
    requires
        agenda.len() > 0,
        all_seal(agenda),
        time_due(agenda, before, path),
        native ==> mode_due(agenda, before, path, first),
        expand(agenda[0], reply) is Ok,
        request_of(agenda[0]) is Some,
        disk_step(before, request_of(agenda[0])->0, reply, after),
    ensures
        ({
            let next = expand(agenda[0], reply)->Ok_0 + agenda.drop_first();
            &&& all_seal(next)
            &&& time_due(next, after, path)
            &&& native ==> mode_due(next, after, path, first)
            &&& after.contains_key(path) == before.contains_key(path)
        }),
{
    let task = agenda[0];
    let tasks = expand(task, reply)->Ok_0;
    let next = tasks + agenda.drop_first();
    assert(only_seals(task));
    if let ReplyV::Metadata { mode, .. } = reply {
        sealed_modes_are_not_writable(mode);
    }
    sealing_keeps_the_other_bits(first);
    assert forall|i: int| 0 <= i < next.len() implies only_seals(#[trigger] next[i]) by {
        if i >= tasks.len() {
            assert(next[i] == agenda[i - tasks.len() + 1]);
        } else {
            assert(next[i] == tasks[i]);
        }
    }
    let time_done = before.contains_key(path) && before[path].modified == sealed_time();
    if !time_done {
        let i = choose|i: int| 0 <= i < agenda.len() && sets_time(#[trigger] agenda[i], path);
        if i > 0 {
            assert(next[tasks.len() + i - 1] == agenda[i]);
        } else if task is Seal {
            assert(next[0] == tasks[0]);
            assert(sets_time(next[0], path));
        }
    }
    if native {
        let mode_done = before.contains_key(path) && before[path].mode == sealed_mode(first);
        if !mode_done {
            let i = choose|i: int| 0 <= i < agenda.len() && sets_mode(#[trigger] agenda[i], path);
            if i > 0 {
                assert(next[tasks.len() + i - 1] == agenda[i]);
            } else if task is Seal {
                assert(next[1] == tasks[1]);
                assert(sets_mode(next[1], path));
            }
        }
        assert forall|i: int| 0 <= i < next.len() implies match #[trigger] next[i] {
            Task::Do(Request::SetMode { path: p, mode }) => p == path ==> mode == sealed_mode(
                first,
            ),
            _ => true,
        } by {
            if i >= tasks.len() {
                assert(next[i] == agenda[i - tasks.len() + 1]);
            } else {
                assert(next[i] == tasks[i]);
            }
        }
    }
}

/// The rest of a run over disks is a run over disks.
pub proof fn lemma_run_suffix(work: WorkV, replies: Seq<ReplyV>, disks: Seq<Disk>)
    requires
        replies.len() > 0,
        disk_run(work, replies, disks),
    ensures
        disk_run(advance(work, replies[0]), replies.drop_first(), disks.drop_first()),
        match asks(work) {
            Some(request) => disk_step(disks[0], request, replies[0], disks[1]),
            None => disks[1] == disks[0],
        },
{
    assert(replies.take(0) =~= seq![]);
    assert(run_work(work, replies.take(0)) == work);
    let rest = replies.drop_first();
    let next = advance(work, replies[0]);
    assert forall|k: int| 0 <= k < rest.len() implies match asks(
        #[trigger] run_work(next, rest.take(k)),
    ) {
        Some(request) => disk_step(
            disks.drop_first()[k],
            request,
            rest[k],
            disks.drop_first()[k + 1],
        ),
        None => disks.drop_first()[k + 1] == disks.drop_first()[k],
    } by {
        assert(replies.take(k + 1).drop_first() =~= rest.take(k));
        assert(run_work(work, replies.take(k + 1)) == run_work(next, rest.take(k)));
    }
}

/// The entry was there before and was sealed: it has the sealed modification time, and a native
/// entry its mode from before without the write bits.
pub open spec fn was_sealed(
    before: Disk,
    at: Seq<char>,
    after: Disk,
    path: Seq<char>,
    native: bool,
) -> bool {
    &&& before.contains_key(at)
    &&& after.contains_key(path)
    &&& after[path].modified == sealed_time()
    &&& native ==> after[path].mode == sealed_mode(before[at].mode)
}

/// What was sealed is sealed.
pub proof fn what_was_sealed_is_sealed(
    before: Disk,
    at: Seq<char>,
    after: Disk,
    path: Seq<char>,
    native: bool,
)
    requires
        was_sealed(before, at, after, path, native),
    ensures
        is_sealed_at(after, path, native),
{
    sealed_modes_are_not_writable(before[at].mode);
}

/// Once the sealing tasks in front are through, the entry is sealed.
proof fn lemma_seal_through(
    seals: Seq<TaskV>,
    tail: Seq<TaskV>,
    guard: Option<Seq<char>>,
    replies: Seq<ReplyV>,
    disks: Seq<Disk>,
    path: Seq<char>,
    native: bool,
    first: u32,
) -> (t: int)
    requires
        all_seal(seals),
        disk_run(settle(WorkV::Running { agenda: seals + tail, guard }), replies, disks),
        run_work(settle(WorkV::Running { agenda: seals + tail, guard }), replies)
            == WorkV::Finished(Ok(())),
        time_due(seals, disks[0], path),
        native ==> mode_due(seals, disks[0], path, first),
    ensures
        0 <= t <= replies.len(),
        disks[0].contains_key(path),
        disks[t].contains_key(path),
        disks[t][path].modified == sealed_time(),
        native ==> disks[t][path].mode == sealed_mode(first),
        run_work(settle(WorkV::Running { agenda: seals + tail, guard }), replies.take(t))
            == settle(WorkV::Running { agenda: tail, guard }),
    decreases replies.len(),
{
    let all = seals + tail;
    let start = settle(WorkV::Running { agenda: all, guard });
    if seals.len() == 0 {
        assert(all =~= tail);
        assert(replies.take(0) =~= seq![]);
        0
    } else {
        assert(all[0] == seals[0]);
        assert(only_seals(seals[0]));
        assert(start == WorkV::Running { agenda: all, guard });
        assert(replies.len() > 0);
        lemma_run_suffix(start, replies, disks);
        match expand(all[0], replies[0]) {
            Err(e) => {
                first_error_stands(raise(guard, e), replies.drop_first(), e);
                0
            },
            Ok(tasks) => {
                lemma_seal_step(seals, replies[0], disks[0], disks[1], path, native, first);
                let next = tasks + seals.drop_first();
                assert(tasks + all.drop_first() =~= next + tail);
                let t = lemma_seal_through(
                    next,
                    tail,
                    guard,
                    replies.drop_first(),
                    disks.drop_first(),
                    path,
                    native,
                    first,
                );
                assert(replies.take(t + 1).drop_first() =~= replies.drop_first().take(t));
                t + 1
            },
        }
    }
}

proof fn lemma_seal_plan_seals(entry: EntryV, dest: Seq<char>)
    ensures
        all_seal(seal_plan(entry, dest)),
        seal_plan(entry, dest).len() > 0,
    decreases entry,
{
    if let EntryV::Dir(members) = entry {
        lemma_seal_members_seal(members, dest);
    }
}

proof fn lemma_seal_members_seal(members: Seq<(Seq<char>, EntryV)>, dest: Seq<char>)
    ensures
        all_seal(seal_members(members, dest)),
    decreases members,
{
    if members.len() > 0 {
        lemma_seal_members_seal(members.drop_last(), dest);
        lemma_seal_plan_seals(members.last().1, join_text(dest, members.last().0));
    }
}

spec fn on_path(entry: EntryV, base: Seq<char>, path: Seq<char>, native: bool) -> bool {
    if native {
        is_native_path(entry, base, path)
    } else {
        is_link_path(entry, base, path)
    }
}

spec fn seals_path(task: TaskV, path: Seq<char>, native: bool) -> bool {
    if native {
        task == Task::Seal(path)
    } else {
        sets_time(task, path)
    }
}

proof fn lemma_in_seal_plan(entry: EntryV, dest: Seq<char>, path: Seq<char>, native: bool) -> (i:
    int)
    requires
        on_path(entry, dest, path, native),
    ensures
        0 <= i < seal_plan(entry, dest).len(),
        seals_path(seal_plan(entry, dest)[i], path, native),
    decreases entry, 0nat,
{
    match entry {
        EntryV::Dir(members) => {
            if native && path == dest {
                seal_members(members, dest).len() as int
            } else {
                let j = choose|j: int|
                    0 <= j < members.len() && on_path(
                        (#[trigger] members[j]).1,
                        join_text(dest, members[j].0),
                        path,
                        native,
                    );
                assert(0 <= j < members.len() && on_path(
                    members[j].1,
                    join_text(dest, members[j].0),
                    path,
                    native,
                )) by {
                    if native {
                        let k = choose|k: int|
                            0 <= k < members.len() && is_native_path(
                                (#[trigger] members[k]).1,
                                join_text(dest, members[k].0),
                                path,
                            );
                        assert(on_path(
                            members[k].1,
                            join_text(dest, members[k].0),
                            path,
                            native,
                        ));
                    } else {
                        let k = choose|k: int|
                            0 <= k < members.len() && is_link_path(
                                (#[trigger] members[k]).1,
                                join_text(dest, members[k].0),
                                path,
                            );
                        assert(on_path(
                            members[k].1,
                            join_text(dest, members[k].0),
                            path,
                            native,
                        ));
                    }
                }
                lemma_in_seal_members(members, dest, path, native, j)
            }
        },
        _ => 0,
    }
}

proof fn lemma_in_seal_members(
    members: Seq<(Seq<char>, EntryV)>,
    dest: Seq<char>,
    path: Seq<char>,
    native: bool,
    j: int,
) -> (i: int)
    requires
        0 <= j < members.len(),
        on_path(members[j].1, join_text(dest, members[j].0), path, native),
    ensures
        0 <= i < seal_members(members, dest).len(),
        seals_path(seal_members(members, dest)[i], path, native),
    decreases members, members.len(),
{
    let before = seal_members(members.drop_last(), dest);
    if j == members.len() - 1 {
        let i = lemma_in_seal_plan(
            members[j].1,
            join_text(dest, members[j].0),
            path,
            native,
        );
        before.len() + i
    } else {
        assert(members.drop_last()[j] == members[j]);
        lemma_in_seal_members(members.drop_last(), dest, path, native, j)
    }
}

proof fn lemma_plan_is_due(
    entry: EntryV,
    dest: Seq<char>,
    disk: Disk,
    path: Seq<char>,
    native: bool,
)
    requires
        on_path(entry, dest, path, native),
    ensures
        all_seal(seal_plan(entry, dest)),
        time_due(seal_plan(entry, dest), disk, path),
        native ==> mode_due(seal_plan(entry, dest), disk, path, disk[path].mode),
{
    lemma_seal_plan_seals(entry, dest);
    let i = lemma_in_seal_plan(entry, dest, path, native);
    let plan = seal_plan(entry, dest);
    assert(sets_time(plan[i], path));
    if native {
        assert(sets_mode(plan[i], path));
        lemma_plan_sets_no_mode(entry, dest);
    }
}

spec fn sets_no_mode(agenda: Seq<TaskV>) -> bool {
    forall|i: int|
        0 <= i < agenda.len() ==> match #[trigger] agenda[i] {
            Task::Do(Request::SetMode { .. }) => false,
            _ => true,
        }
}

proof fn lemma_plan_sets_no_mode(entry: EntryV, dest: Seq<char>)
    ensures
        sets_no_mode(seal_plan(entry, dest)),
    decreases entry,
{
    if let EntryV::Dir(members) = entry {
        lemma_members_set_no_mode(members, dest);
    }
}

proof fn lemma_members_set_no_mode(members: Seq<(Seq<char>, EntryV)>, dest: Seq<char>)
    ensures
        sets_no_mode(seal_members(members, dest)),
    decreases members,
{
    if members.len() > 0 {
        lemma_members_set_no_mode(members.drop_last(), dest);
        lemma_plan_sets_no_mode(members.last().1, join_text(dest, members.last().0));
    }
}

/// Once work is finished, the disk stays as it is.
pub proof fn lemma_disk_stays(work: WorkV, replies: Seq<ReplyV>, disks: Seq<Disk>, t: int, k: int)
    requires
        disk_run(work, replies, disks),
        0 <= t <= k <= replies.len(),
        run_work(work, replies.take(t)) is Finished,
    ensures
        disks[k] == disks[t],
        run_work(work, replies.take(k)) == run_work(work, replies.take(t)),
    decreases k - t,
{
    if t < k {
        lemma_disk_stays(work, replies, disks, t, k - 1);
        lemma_step(work, replies, k - 1);
        assert(asks(run_work(work, replies.take(k - 1))) is None);
    }
}

/// An object that is at the store path already is sealed when the work on it ends well: every
/// directory and file of the entry has the sealed modification time and its mode from before
/// without the write bits, and every symbolic link has the sealed modification time.
pub proof fn existing_objects_are_sealed(
    job: JobV,
    replies: Seq<ReplyV>,
    disks: Seq<Disk>,
    path: Seq<char>,
    native: bool,
)
    requires
        job.seal,
        disk_run(begun(work_plan(job, true)), replies, disks),
        run_work(begun(work_plan(job, true)), replies) == WorkV::Finished(Ok(())),
        if native {
            is_native_path(job.entry, job.store, path)
        } else {
            is_link_path(job.entry, job.store, path)
        },
    ensures
        was_sealed(disks[0], path, disks.last(), path, native),
        is_sealed_at(disks.last(), path, native),
{
    let plan = seal_plan(job.entry, job.store);
    let none = Seq::<TaskV>::empty();
    assert(plan + none =~= plan);
    lemma_plan_is_due(job.entry, job.store, disks[0], path, native);
    let first = disks[0][path].mode;
    let t = lemma_seal_through(plan, none, None, replies, disks, path, native, first);
    lemma_disk_stays(begun(plan), replies, disks, t, replies.len() as int);
    what_was_sealed_is_sealed(disks[0], path, disks.last(), path, native);
}

/// An object that is put in place is sealed before it is renamed to the store path: every
/// directory and file of the entry has the sealed modification time, and the mode that it had
/// when it was complete without the write bits; every symbolic link has the sealed modification
/// time.
pub proof fn published_objects_are_sealed(
    job: JobV,
    replies: Seq<ReplyV>,
    disks: Seq<Disk>,
    path: Seq<char>,
    native: bool,
) -> (turn: (int, int))
    requires
        job.seal,
        disk_run(begun(work_plan(job, false)), replies, disks),
        run_work(begun(work_plan(job, false)), replies) == WorkV::Finished(Ok(())),
        if native {
            is_native_path(job.entry, temp_text(job.store), path)
        } else {
            is_link_path(job.entry, temp_text(job.store), path)
        },
    ensures
        ({
            let (built, k) = turn;
            &&& 0 <= built <= k < replies.len()
            &&& run_work(begun(work_plan(job, false)), replies.take(built)) matches WorkV::Running {
                agenda,
                ..
            } && agenda == metadata_plan(job) + seq![publish_task(job)]
            &&& asks(run_work(begun(work_plan(job, false)), replies.take(k))) == Some(
                Request::Rename { from: temp_text(job.store), to: job.store },
            )
            &&& replies[k] is Done
            &&& was_sealed(disks[built], path, disks[k], path, native)
            &&& is_sealed_at(disks[k], path, native)
        }),
{
    let plan = work_plan(job, false);
    let start = begun(plan);
    let seals = metadata_plan(job);
    let tail = seq![publish_task(job)];
    lemma_seal_plan_seals(job.entry, temp_text(job.store));
    assert(plan.skip(4) =~= seals + tail);
    assert(plan[4] == seals[0]);
    assert(only_seals(seals[0]));
    let (k, guard) = every_task_has_its_turn(plan, None, replies, 4);
    let middle = WorkV::Running { agenda: seals + tail, guard };
    let rest = replies.skip(k);
    lemma_run_split(start, replies, k);
    lemma_disk_run_split(start, replies, disks, k);
    lemma_plan_is_due(job.entry, temp_text(job.store), disks.skip(k)[0], path, native);
    assert((seals + tail)[0] == seals[0]);
    assert(settle(middle) == middle);
    let first = disks[k][path].mode;
    let t = lemma_seal_through(seals, tail, guard, rest, disks.skip(k), path, native, first);
    lemma_run_split(start, replies.take(k + t), k);
    assert(replies.take(k + t).take(k) =~= replies.take(k));
    assert(replies.take(k + t).skip(k) =~= rest.take(t));
    lemma_run_split(start, replies, k + t);
    assert(run_work(start, replies.take(k + t)) == WorkV::Running { agenda: tail, guard });
    let last = replies.skip(k + t);
    if last.len() == 0 {
        assert(replies.take(k + t) =~= replies);
    }
    assert(last[0] == replies[k + t]);
    if let Err(e) = expand(tail[0], last[0]) {
        first_error_stands(raise(guard, e), last.drop_first(), e);
    }
    what_was_sealed_is_sealed(disks[k], path, disks[k + t], path, native);
    (k, k + t)
}

/// The places of an entry below one path are those below another, moved.
proof fn lemma_moved(
    entry: EntryV,
    base: Seq<char>,
    other: Seq<char>,
    path: Seq<char>,
    native: bool,
)
    requires
        names_are_members(entry),
        base.len() > 0,
        base.last() != '/',
        other.len() > 0,
        other.last() != '/',
        on_path(entry, base, path, native),
    ensures
        under(path, base),
        on_path(entry, other, other + path.skip(base.len() as int), native),
    decreases entry,
{
    if path == base {
        assert(other + path.skip(base.len() as int) =~= other);
    }
    if let EntryV::Dir(members) = entry {
        if !(native && path == base) {
            let j = lemma_member_on_path(members, base, path, native);
            let name = members[j].0;
            reveal_strlit("/");
            assert("/"@ =~= seq!['/']);
            assert(is_single_entry(name) && names_are_members(members[j].1));
            let a = join_text(base, name);
            let b = join_text(other, name);
            assert(a =~= base + seq!['/'] + name);
            assert(b =~= other + seq!['/'] + name);
            assert(name[name.len() - 1] == name.last());
            assert(a.last() == name.last() && b.last() == name.last());
            lemma_moved(members[j].1, a, b, path, native);
            assert forall|i: int| 0 <= i < a.len() implies path[i] == a[i] by {
                if path != a {
                    assert(path.take(a.len() as int)[i] == a[i]);
                }
            }
            assert(path.take(base.len() as int) =~= base);
            assert(path[base.len() as int] == '/');
            let moved = other + path.skip(base.len() as int);
            assert(b + path.skip(a.len() as int) =~= moved);
            lemma_on_path_member(entry, other, moved, native, j);
        }
    }
}

proof fn lemma_member_on_path(
    members: Seq<(Seq<char>, EntryV)>,
    base: Seq<char>,
    path: Seq<char>,
    native: bool,
) -> (j: int)
    requires
        on_path(EntryV::Dir(members), base, path, native),
        !(native && path == base),
    ensures
        0 <= j < members.len(),
        on_path(members[j].1, join_text(base, members[j].0), path, native),
{
    if native {
        choose|j: int|
            0 <= j < members.len() && is_native_path(
                (#[trigger] members[j]).1,
                join_text(base, members[j].0),
                path,
            )
    } else {
        choose|j: int|
            0 <= j < members.len() && is_link_path(
                (#[trigger] members[j]).1,
                join_text(base, members[j].0),
                path,
            )
    }
}

proof fn lemma_on_path_member(
    entry: EntryV,
    base: Seq<char>,
    path: Seq<char>,
    native: bool,
    j: int,
)
    requires
        entry is Dir,
        0 <= j < entry->Dir_0.len(),
        on_path(entry->Dir_0[j].1, join_text(base, entry->Dir_0[j].0), path, native),
    ensures
        on_path(entry, base, path, native),
{
    let member = entry->Dir_0[j];
    if native {
        assert(is_native_path(member.1, join_text(base, member.0), path));
    } else {
        assert(is_link_path(member.1, join_text(base, member.0), path));
    }
}

/// The path of what is to become `path` while the object is still being built.
pub open spec fn built_path(store: Seq<char>, path: Seq<char>) -> Seq<char> {
    temp_text(store) + path.skip(store.len() as int)
}

/// An object that was put in place is sealed at its store path: every directory and file of the
/// entry has the sealed modification time, and the mode that it had when it was complete without
/// the write bits; every symbolic link has the sealed modification time.
pub proof fn placed_objects_are_sealed(
    job: JobV,
    replies: Seq<ReplyV>,
    disks: Seq<Disk>,
    path: Seq<char>,
    native: bool,
) -> (built: int)
    requires
        job.seal,
        job.store.len() > 0,
        job.store.last() != '/',
        names_are_members(job.entry),
        disk_run(begun(work_plan(job, false)), replies, disks),
        run_work(begun(work_plan(job, false)), replies) == WorkV::Finished(Ok(())),
        if native {
            is_native_path(job.entry, job.store, path)
        } else {
            is_link_path(job.entry, job.store, path)
        },
    ensures
        0 <= built < replies.len(),
        run_work(begun(work_plan(job, false)), replies.take(built)) matches WorkV::Running {
            agenda,
            ..
        } && agenda == metadata_plan(job) + seq![publish_task(job)],
        was_sealed(disks[built], built_path(job.store, path), disks.last(), path, native),
        is_sealed_at(disks.last(), path, native),
{
    reveal_strlit(".buck2.tmp");
    let start = begun(work_plan(job, false));
    let temp = temp_text(job.store);
    let from = built_path(job.store, path);
    assert(temp.last() == 'p');
    assert(on_path(job.entry, job.store, path, native));
    lemma_moved(job.entry, job.store, temp, path, native);
    let (built, k) = published_objects_are_sealed(job, replies, disks, from, native);
    publication_is_last(job, replies.take(k));
    lemma_step(start, replies, k);
    assert(asks(run_work(start, replies.take(k))) is Some);
    assert(was_renamed(disks[k], disks[k + 1], temp, job.store));
    assert(disks[k + 1].contains_key(path));
    lemma_disk_stays(start, replies, disks, k + 1, replies.len() as int);
    what_was_sealed_is_sealed(disks[built], from, disks.last(), path, native);
    built
}

/// Nothing is at or below the path.
pub open spec fn nothing_at(disk: Disk, path: Seq<char>) -> bool {
    forall|p: Seq<char>| under(p, path) ==> !#[trigger] disk.contains_key(p)
}

/// What is below a place is below whatever that place is below.
pub proof fn lemma_under_transitive(a: Seq<char>, b: Seq<char>, c: Seq<char>)
    requires
        under(a, b),
        under(b, c),
    ensures
        under(a, c),
{
    if a != b && b != c {
        assert forall|i: int| 0 <= i < b.len() implies a[i] == b[i] by {
            assert(a.take(b.len() as int)[i] == b[i]);
        }
        assert(a.take(c.len() as int) =~= b.take(c.len() as int));
    }
}

/// A request that keeps to the place where an object is built leaves the store path empty.
proof fn lemma_store_stays_empty(
    store: Seq<char>,
    before: Disk,
    request: Request<Seq<char>>,
    reply: ReplyV,
    after: Disk,
)
    requires
        store.len() > 0,
        store.last() != '/',
        nothing_at(before, store),
        stays_within(request, temp_text(store)),
        disk_step(before, request, reply, after),
    ensures
        nothing_at(after, store),
{
    assert forall|p: Seq<char>| under(p, store) implies !#[trigger] after.contains_key(p) by {
        assert(!before.contains_key(p));
        if let Some(path) = changes(request) {
            build_place_is_apart(store, path);
            if under(p, path) {
                lemma_under_transitive(p, path, temp_text(store));
                build_place_is_apart(store, p);
            }
            if under(path, p) {
                lemma_under_transitive(path, p, store);
            }
        }
    }
}

/// At every moment of the work on an object that was not there, the store path is either empty or
/// holds the whole object: all that was in the place where it was built, which is then gone. It
/// holds the object exactly when the work has ended well; so a failure leaves it empty.
pub proof fn the_store_path_is_empty_or_whole(
    job: JobV,
    replies: Seq<ReplyV>,
    disks: Seq<Disk>,
    t: int,
) -> (k: int)
    requires
        job.store.len() > 0,
        job.store.last() != '/',
        names_are_members(job.entry),
        is_honest_run(begun(work_plan(job, false)), replies),
        disk_run(begun(work_plan(job, false)), replies, disks),
        nothing_at(disks[0], job.store),
        0 <= t <= replies.len(),
    ensures
        if run_work(begun(work_plan(job, false)), replies.take(t)) == WorkV::Finished(Ok(())) {
            &&& 0 <= k < t
            &&& asks(run_work(begun(work_plan(job, false)), replies.take(k))) == Some(
                Request::Rename { from: temp_text(job.store), to: job.store },
            )
            &&& replies[k] is Done
            &&& was_renamed(disks[k], disks[t], temp_text(job.store), job.store)
            &&& nothing_at(disks[t], temp_text(job.store))
        } else {
            nothing_at(disks[t], job.store)
        },
    decreases t,
{
    let start = begun(work_plan(job, false));
    let temp = temp_text(job.store);
    if t == 0 {
        assert(replies.take(0) =~= seq![]);
        assert(work_plan(job, false)[0] is RemoveTree);
        0
    } else {
        let k = the_store_path_is_empty_or_whole(job, replies, disks, t - 1);
        let before = run_work(start, replies.take(t - 1));
        lemma_step(start, replies, t - 1);
        lemma_honest_take(start, replies, t - 1);
        building_stays_beside_the_store_path(job, replies.take(t - 1));
        match asks(before) {
            None => {
                lemma_asks_unless_finished(job, replies.take(t - 1));
                k
            },
            Some(request) => {
                if request is Rename {
                    publication_is_last(job, replies.take(t - 1));
                    if replies[t - 1] is Done {
                        assert forall|p: Seq<char>| under(p, temp) implies !#[trigger] disks[t]
                            .contains_key(p) by {
                            build_place_is_apart(job.store, p);
                        }
                    } else {
                        assert(disks[t] == disks[t - 1]);
                    }
                    t - 1
                } else {
                    lemma_store_stays_empty(
                        job.store,
                        disks[t - 1],
                        request,
                        replies[t - 1],
                        disks[t],
                    );
                    if run_work(start, replies.take(t)) == WorkV::Finished(Ok(())) {
                        let m = success_is_publication(job, replies.take(t));
                        assert(replies.take(t).take(m) =~= replies.take(m));
                        assert(replies.take(t)[m] == replies[m]);
                        if m < t - 1 {
                            publication_is_last(job, replies.take(m));
                            lemma_step(start, replies, m);
                            lemma_disk_stays(start, replies, disks, m + 1, t - 1);
                        }
                    }
                    k
                }
            },
        }
    }
}

/// What follows the first replies of a run over disks is a run over disks.
pub proof fn lemma_disk_run_split(work: WorkV, replies: Seq<ReplyV>, disks: Seq<Disk>, k: int)
    requires
        0 <= k <= replies.len(),
        disk_run(work, replies, disks),
    ensures
        disk_run(run_work(work, replies.take(k)), replies.skip(k), disks.skip(k)),
{
    let middle = run_work(work, replies.take(k));
    let rest = replies.skip(k);
    assert forall|i: int| 0 <= i < rest.len() implies match asks(
        #[trigger] run_work(middle, rest.take(i)),
    ) {
        Some(request) => disk_step(disks.skip(k)[i], request, rest[i], disks.skip(k)[i + 1]),
        None => disks.skip(k)[i + 1] == disks.skip(k)[i],
    } by {
        lemma_run_split(work, replies.take(k + i), k);
        assert(replies.take(k + i).take(k) =~= replies.take(k));
        assert(replies.take(k + i).skip(k) =~= rest.take(i));
        assert(run_work(work, replies.take(k + i)) == run_work(middle, rest.take(i)));
    }
}

/// `disks` are the states of the disk before, between and after the replies to a job. Nobody else
/// changes the disk meanwhile, and listings are honest.
pub open spec fn job_disk_run(job: JobV, replies: Seq<ReplyV>, disks: Seq<Disk>) -> bool {
    &&& disks.len() == replies.len() + 1
    &&& forall|k: int|
        0 <= k < replies.len() ==> match stage_asks(
            job,
            #[trigger] run_stages(job, first_stage(job), replies.take(k)),
        ) {
            Some(request) => {
                &&& disk_step(disks[k], request, replies[k], disks[k + 1])
                &&& is_honest(Some(request), replies[k])
            },
            None => disks[k + 1] == disks[k],
        }
}

/// The path is shorter than the store path, and the path of the lock begins with it.
pub open spec fn is_above_lock(path: Seq<char>, store: Seq<char>) -> bool {
    &&& path.len() < store.len()
    &&& path == lock_text(store).take(path.len() as int)
}

/// A task that takes the lock.
spec fn takes_lock(task: TaskV, store: Seq<char>) -> bool {
    match task {
        Task::Do(Request::CreateDirAll(path)) => is_above_lock(path, store),
        Task::Do(Request::CreateLock(path)) => path == lock_text(store),
        Task::Do(Request::LockExclusive) => true,
        _ => false,
    }
}

/// Work that takes the lock of a store path.
pub closed spec fn locks(work: WorkV, store: Seq<char>) -> bool {
    match work {
        WorkV::Running { agenda, guard } => {
            &&& guard is None
            &&& agenda.len() > 0
            &&& forall|i: int| 0 <= i < agenda.len() ==> takes_lock(#[trigger] agenda[i], store)
        },
        _ => false,
    }
}

proof fn lemma_trimmed_prefix(text: Seq<char>)
    ensures
        trimmed(text).len() <= text.len(),
        trimmed(text) == text.take(trimmed(text).len() as int),
    decreases text.len(),
{
    if text.len() > 1 && text.last() == '/' {
        lemma_trimmed_prefix(text.drop_last());
        let n = trimmed(text).len() as int;
        assert(text.drop_last().take(n) =~= text.take(n));
    } else {
        assert(text.take(text.len() as int) =~= text);
    }
}

proof fn lemma_upper_prefix(text: Seq<char>)
    ensures
        upper(text).len() <= text.len(),
        upper(text) == text.take(upper(text).len() as int),
    decreases text.len(),
{
    if text.len() > 0 && text.last() != '/' {
        lemma_upper_prefix(text.drop_last());
        let n = upper(text).len() as int;
        assert(text.drop_last().take(n) =~= text.take(n));
    } else {
        assert(text.take(text.len() as int) =~= text);
    }
}

proof fn lemma_upper_suffix(text: Seq<char>, suffix: Seq<char>)
    requires
        forall|i: int| 0 <= i < suffix.len() ==> #[trigger] suffix[i] != '/',
    ensures
        upper(text + suffix) == upper(text),
    decreases suffix.len(),
{
    if suffix.len() == 0 {
        assert(text + suffix =~= text);
    } else {
        let short = suffix.drop_last();
        assert forall|i: int| 0 <= i < short.len() implies #[trigger] short[i] != '/' by {
            assert(short[i] == suffix[i]);
        }
        assert(suffix[suffix.len() - 1] != '/');
        assert((text + suffix).last() == suffix.last());
        assert((text + suffix).drop_last() =~= text + short);
        lemma_upper_suffix(text, short);
    }
}

/// The plan for the lock begins such work.
pub proof fn lemma_lock_plan(store: Seq<char>)
    requires
        store.len() > 0,
        store.last() != '/',
    ensures
        locks(begun(lock_plan(store)), store),
{
    reveal_strlit(".buck2.lock");
    let lock = lock_text(store);
    let plan = lock_plan(store);
    assert(lock.last() == 'k');
    assert(trimmed(lock) == lock);
    lemma_upper_suffix(store, ".buck2.lock"@);
    lemma_upper_prefix(store.drop_last());
    lemma_upper_prefix(lock);
    lemma_trimmed_prefix(upper(lock));
    let n = trimmed(upper(lock)).len() as int;
    assert(upper(lock).take(n) =~= lock.take(n));
    assert forall|i: int| 0 <= i < plan.len() implies takes_lock(#[trigger] plan[i], store) by {}
    assert(takes_lock(plan[0], store));
}

/// Such work asks for directories above the store path and for the lock, and goes on as such.
pub proof fn lemma_lock_goes_on(work: WorkV, store: Seq<char>, reply: ReplyV)
    requires
        locks(work, store),
    ensures
        match asks(work) {
            Some(Request::CreateDirAll(path)) => is_above_lock(path, store),
            Some(Request::CreateLock(path)) => path == lock_text(store),
            Some(Request::LockExclusive) => true,
            _ => false,
        },
        locks(advance(work, reply), store) || advance(work, reply) is Finished,
        locking(advance(work, reply)) is Locking ==> locks(advance(work, reply), store),
        !(locking(advance(work, reply)) is Working),
        locking(advance(work, reply)) matches StageV::Finished(result) ==> result is Err,
{
    let agenda = work->Running_agenda;
    let rest = agenda.drop_first();
    assert(takes_lock(agenda[0], store));
    if let Ok(tasks) = expand(agenda[0], reply) {
        assert(tasks + rest =~= rest);
        assert forall|i: int| 0 <= i < rest.len() implies takes_lock(#[trigger] rest[i], store) by {
            assert(rest[i] == agenda[i + 1]);
        }
        if rest.len() > 0 {
            assert(takes_lock(rest[0], store));
        }
    }
}

/// Taking the lock leaves the store path empty.
proof fn lemma_lock_step(work: WorkV, store: Seq<char>, before: Disk, reply: ReplyV, after: Disk)
    requires
        store.len() > 0,
        locks(work, store),
        nothing_at(before, store),
        asks(work) matches Some(request) && disk_step(before, request, reply, after),
    ensures
        nothing_at(after, store),
        locks(advance(work, reply), store) || advance(work, reply) is Finished,
{
    reveal_strlit(".buck2.lock");
    let agenda = work->Running_agenda;
    assert(takes_lock(agenda[0], store));
    assert forall|p: Seq<char>| under(p, store) implies !#[trigger] after.contains_key(p) by {
        assert(!before.contains_key(p));
        if let Task::Do(Request::CreateLock(path)) = agenda[0] {
            if under(p, path) {
                let lock = lock_text(store);
                assert(lock[store.len() as int] == '.');
                if p != lock {
                    assert(p.take(lock.len() as int)[store.len() as int] == '.');
                }
            }
        }
    }
    lemma_lock_goes_on(work, store, reply);
}

/// What holds in every stage of a job that found nothing at its store path.
spec fn stage_is_fresh(job: JobV, stage: StageV, disk: Disk) -> bool {
    match stage {
        StageV::Locking(work) => locks(work, job.store) && nothing_at(disk, job.store),
        StageV::Checking => nothing_at(disk, job.store),
        StageV::Working(work) => {
            &&& builds_beside(job, work)
            &&& !(work is Finished)
            &&& nothing_at(disk, job.store)
        },
        StageV::Finished(Err(_)) => nothing_at(disk, job.store),
        StageV::Finished(Ok(_)) => true,
    }
}

/// At every moment of a job that begins with nothing at its store path, the store path is either
/// empty or holds the whole object: all that was in the place where it was built, which is then
/// gone. It holds the object exactly when the job has ended well; so a failure leaves it empty.
pub proof fn a_job_leaves_the_store_path_empty_or_whole(
    job: JobV,
    replies: Seq<ReplyV>,
    disks: Seq<Disk>,
    t: int,
) -> (k: int)
    requires
        job.store.len() > 0,
        job.store.last() != '/',
        names_are_members(job.entry),
        job_disk_run(job, replies, disks),
        nothing_at(disks[0], job.store),
        0 <= t <= replies.len(),
    ensures
        match run_stages(job, first_stage(job), replies.take(t)) {
            StageV::Finished(Ok(())) => {
                &&& 0 <= k < t
                &&& stage_asks(job, run_stages(job, first_stage(job), replies.take(k))) == Some(
                    Request::Rename { from: temp_text(job.store), to: job.store },
                )
                &&& replies[k] is Done
                &&& was_renamed(disks[k], disks[t], temp_text(job.store), job.store)
                &&& nothing_at(disks[t], temp_text(job.store))
            },
            _ => nothing_at(disks[t], job.store),
        },
{
    lemma_fresh_job(job, replies, disks, t)
}

proof fn lemma_fresh_job(job: JobV, replies: Seq<ReplyV>, disks: Seq<Disk>, t: int) -> (k: int)
    requires
        job.store.len() > 0,
        job.store.last() != '/',
        names_are_members(job.entry),
        job_disk_run(job, replies, disks),
        nothing_at(disks[0], job.store),
        0 <= t <= replies.len(),
    ensures
        stage_is_fresh(job, run_stages(job, first_stage(job), replies.take(t)), disks[t]),
        run_stages(job, first_stage(job), replies.take(t)) matches StageV::Finished(Ok(_)) ==> {
            &&& 0 <= k < t
            &&& stage_asks(job, run_stages(job, first_stage(job), replies.take(k))) == Some(
                Request::Rename { from: temp_text(job.store), to: job.store },
            )
            &&& replies[k] is Done
            &&& was_renamed(disks[k], disks[t], temp_text(job.store), job.store)
            &&& nothing_at(disks[t], temp_text(job.store))
        },
    decreases t,
{
    let start = first_stage(job);
    let temp = temp_text(job.store);
    if t == 0 {
        assert(replies.take(0) =~= seq![]);
        lemma_lock_plan(job.store);
        0
    } else {
        let k = lemma_fresh_job(job, replies, disks, t - 1);
        let stage = run_stages(job, start, replies.take(t - 1));
        let reply = replies[t - 1];
        lemma_stages_split(job, start, replies.take(t), t - 1);
        assert(replies.take(t).take(t - 1) =~= replies.take(t - 1));
        assert(replies.take(t).skip(t - 1) =~= seq![reply]);
        assert(seq![reply].drop_first() =~= seq![]);
        let next = next_stage(job, stage, reply);
        assert(run_stages(job, stage, seq![reply]) == run_stages(
            job,
            next,
            seq![reply].drop_first(),
        ));
        assert(run_stages(job, start, replies.take(t)) == next);
        match stage {
            StageV::Locking(work) => {
                lemma_lock_goes_on(work, job.store, reply);
                lemma_lock_step(work, job.store, disks[t - 1], reply, disks[t]);
                k
            },
            StageV::Checking => {
                assert(under(job.store, job.store));
                assert(!disks[t - 1].contains_key(job.store));
                lemma_build_begins(job);
                k
            },
            StageV::Working(work) => {
                lemma_build_goes_on(job, work, reply);
                if asks(work) matches Some(request) && request is Rename {
                    if reply is Done {
                        assert forall|p: Seq<char>| under(p, temp) implies !#[trigger] disks[t]
                            .contains_key(p) by {
                            build_place_is_apart(job.store, p);
                        }
                    } else {
                        assert(disks[t] == disks[t - 1]);
                    }
                    t - 1
                } else {
                    lemma_store_stays_empty(
                        job.store,
                        disks[t - 1],
                        asks(work)->0,
                        reply,
                        disks[t],
                    );
                    k
                }
            },
            StageV::Finished(_) => k,
        }
    }
}

/// Reading the disk at `path` gives `node`: the metadata on disk, and the kinds and members of
/// the entry.
pub open spec fn reads_as(node: DiskNode, entry: EntryV, path: Seq<char>, disk: Disk) -> bool
    decreases node,
{
    match node.status {
        DiskStatus::Unreadable(_) => false,
        DiskStatus::Present { mode, modified, body } => {
            &&& disk.contains_key(path)
            &&& disk[path].mode == mode
            &&& disk[path].modified == modified
            &&& match (body, entry) {
                (DiskBody::Directory(Ok(children)), EntryV::Dir(members)) => {
                    forall|i: int|
                        0 <= i < children@.len() ==> match #[trigger] children@[i] {
                            DiskChild::Failed(_) => false,
                            DiskChild::Entry { node: child, .. } => exists|j: int|
                                0 <= j < members.len() && reads_as(
                                    child,
                                    (#[trigger] members[j]).1,
                                    join_text(path, members[j].0),
                                    disk,
                                ),
                        }
                },
                (DiskBody::File(_), EntryV::File { .. }) => true,
                (DiskBody::Symlink(_), EntryV::Symlink(_)) => true,
                (DiskBody::Symlink(_), EntryV::ExternalSymlink(_)) => true,
                _ => false,
            }
        },
    }
}

/// Every entry below `base` is sealed on disk.
pub open spec fn tree_is_sealed(disk: Disk, entry: EntryV, base: Seq<char>) -> bool {
    &&& forall|path: Seq<char>|
        #[trigger] is_native_path(entry, base, path) ==> is_sealed_at(disk, path, true)
    &&& forall|path: Seq<char>|
        #[trigger] is_link_path(entry, base, path) ==> is_sealed_at(disk, path, false)
}

proof fn lemma_list_normalized(list: Seq<DiskChild>)
    requires
        forall|i: int|
            0 <= i < list.len() ==> (#[trigger] list[i] matches DiskChild::Entry { node, .. }
                && normalized(node) == Ok::<bool, ErrorV>(true)),
    ensures
        normalized_list(list) == Ok::<bool, ErrorV>(true),
    decreases list.len(),
{
    if list.len() > 0 {
        assert(list[0] is Entry);
        assert forall|i: int| 0 <= i < list.drop_first().len() implies (
        #[trigger] list.drop_first()[i] matches DiskChild::Entry { node, .. } && normalized(node)
            == Ok::<bool, ErrorV>(true)) by {
            assert(list.drop_first()[i] == list[i + 1]);
        }
        lemma_list_normalized(list.drop_first());
    }
}

/// The check for sealed metadata accepts a tree that was sealed.
pub proof fn sealed_trees_are_recognized(
    node: DiskNode,
    entry: EntryV,
    path: Seq<char>,
    disk: Disk,
)
    requires
        tree_is_sealed(disk, entry, path),
        reads_as(node, entry, path, disk),
    ensures
        normalized(node) == Ok::<bool, ErrorV>(true),
    decreases node,
{
    match node.status {
        DiskStatus::Present { body, .. } => match (body, entry) {
            (DiskBody::Directory(Ok(children)), EntryV::Dir(members)) => {
                assert(is_native_path(entry, path, path));
                assert forall|i: int| 0 <= i < children@.len() implies (
                #[trigger] children@[i] matches DiskChild::Entry { node: child, .. } && normalized(
                    child,
                ) == Ok::<bool, ErrorV>(true)) by {
                    if let DiskChild::Entry { node: child, .. } = children@[i] {
                        let j = choose|j: int|
                            0 <= j < members.len() && reads_as(
                                child,
                                (#[trigger] members[j]).1,
                                join_text(path, members[j].0),
                                disk,
                            );
                        let below = join_text(path, members[j].0);
                        assert(tree_is_sealed(disk, members[j].1, below)) by {
                            assert forall|p: Seq<char>| #[trigger]
                                is_native_path(members[j].1, below, p) implies is_sealed_at(
                                disk,
                                p,
                                true,
                            ) by {
                                assert(is_native_path(entry, path, p));
                            }
                            assert forall|p: Seq<char>| #[trigger]
                                is_link_path(members[j].1, below, p) implies is_sealed_at(
                                disk,
                                p,
                                false,
                            ) by {
                                assert(is_link_path(entry, path, p));
                            }
                        }
                        sealed_trees_are_recognized(child, members[j].1, below, disk);
                    }
                }
                lemma_list_normalized(children@);
            },
            (DiskBody::File(_), _) => {
                assert(is_native_path(entry, path, path));
            },
            (DiskBody::Symlink(_), _) => {
                assert(is_link_path(entry, path, path));
            },
            _ => {},
        },
        _ => {},
    }
}

/// Sealing and checking agree: an object that was sealed, whether it was at the store path before
/// (`exists_before`) or was put there, passes the check for sealed metadata when it is read back.
pub proof fn sealed_objects_pass_the_check(
    job: JobV,
    exists_before: bool,
    replies: Seq<ReplyV>,
    disks: Seq<Disk>,
    node: DiskNode,
)
    requires
        job.seal,
        !exists_before ==> {
            &&& job.store.len() > 0
            &&& job.store.last() != '/'
            &&& names_are_members(job.entry)
        },
        disk_run(begun(work_plan(job, exists_before)), replies, disks),
        run_work(begun(work_plan(job, exists_before)), replies) == WorkV::Finished(Ok(())),
        reads_as(node, job.entry, job.store, disks.last()),
    ensures
        normalized(node) == Ok::<bool, ErrorV>(true),
{
    let disk = disks.last();
    assert forall|path: Seq<char>| #[trigger]
        is_native_path(job.entry, job.store, path) implies is_sealed_at(disk, path, true) by {
        if exists_before {
            existing_objects_are_sealed(job, replies, disks, path, true);
        } else {
            let built = placed_objects_are_sealed(job, replies, disks, path, true);
        }
    }
    assert forall|path: Seq<char>| #[trigger]
        is_link_path(job.entry, job.store, path) implies is_sealed_at(disk, path, false) by {
        if exists_before {
            existing_objects_are_sealed(job, replies, disks, path, false);
        } else {
            let built = placed_objects_are_sealed(job, replies, disks, path, false);
        }
    }
    sealed_trees_are_recognized(node, job.entry, job.store, disk);
}

} // verus!
