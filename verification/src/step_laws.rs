//! What each piece of work does with a reply, in bits, times and paths, and that work which is
//! answered well ends well.

use vstd::prelude::*;

use crate::abs_path::parent_text;
use crate::disk::Timestamp;
use crate::entry::{same_entry, EntryV};
use crate::materialize::{
    first_stage, locking, materializing, next_run, next_stage, run_asks, stage_asks, working,
    RunReply, RunRequest, RunV, StageV,
};
use crate::paths::join_text;
use crate::realization_laws::{run_job, run_stages};
use crate::seal_laws::is_link_path;
use crate::store_output::{
    lock_plan, lock_text, metadata_plan, preserve_members, preserve_plan, seal_members, seal_plan,
    temp_text, work_plan, JobV, ReadBack,
};
use crate::task::{
    expand, request_of, visits, ListedEntry, OutputErrorV, Reply, ReplyV, Request, StoreOutputError,
    Task, TaskV,
};
use crate::work::{advance, asks, begun, settle, WorkV};
use crate::work_laws::{is_native_path, lemma_finished_stage};

verus! {

/// Sealing an entry sets its time to one second after the epoch and then a mode that has no write
/// bit and else is the mode that was found.
pub proof fn sealing_sets_the_time_and_takes_the_write_bits(
    path: Seq<char>,
    is_dir: bool,
    mode: u32,
    modified: Timestamp,
)
    ensures
        request_of(Task::Seal(path)) == Some(Request::Inspect(path)),
        expand(Task::Seal(path), ReplyV::Metadata { is_dir, mode, modified }) matches Ok(tasks) && {
            &&& tasks.len() == 2
            &&& tasks[0] matches Task::Do(Request::SetModified { path: p, modified: m }) && p == path
                && m.secs == 1 && m.nanos == 0
            &&& tasks[1] matches Task::Do(Request::SetMode { path: p, mode: m }) && p == path && m
                & 0o222 == 0 && m | (mode & 0o222) == mode
        },
{
    assert((mode & !0o222u32) & 0o222u32 == 0u32) by (bit_vector);
    assert((mode & !0o222u32) | (mode & 0o222u32) == mode) by (bit_vector);
}

/// Carrying metadata over looks at the source. A directory or a file that anybody may write is
/// refused, and no other; the copy gets exactly the time of the source, and a directory then
/// exactly its mode. A symbolic link is refused exactly if its time is before the epoch, and gets
/// exactly the time of the source.
pub proof fn metadata_are_carried_over_exactly(
    src: Seq<char>,
    dest: Seq<char>,
    directory: bool,
    is_dir: bool,
    mode: u32,
    modified: Timestamp,
)
    ensures
        request_of(Task::PreserveNative { src, dest, directory }) == Some(Request::Inspect(src)),
        request_of(Task::PreserveSymlink { src, dest }) == Some(Request::Inspect(src)),
        ({
            let reply = ReplyV::Metadata { is_dir, mode, modified };
            let native = expand(Task::PreserveNative { src, dest, directory }, reply);
            let link = expand(Task::PreserveSymlink { src, dest }, reply);
            let set_time: TaskV = Task::Do(Request::SetModified { path: dest, modified });
            let set_mode: TaskV = Task::Do(Request::SetMode { path: dest, mode });
            let set_link: TaskV = Task::Do(Request::SetSymlinkModified { path: dest, modified });
            &&& mode & 0o222 != 0 ==> native == Err::<Seq<TaskV>, OutputErrorV>(
                StoreOutputError::WritablePath(src),
            )
            &&& mode & 0o222 == 0 && directory ==> native == Ok::<Seq<TaskV>, OutputErrorV>(
                seq![set_time, set_mode],
            )
            &&& mode & 0o222 == 0 && !directory ==> native == Ok::<Seq<TaskV>, OutputErrorV>(
                seq![set_time],
            )
            &&& modified.secs < 0 ==> link == Err::<Seq<TaskV>, OutputErrorV>(
                StoreOutputError::BeforeEpoch(dest),
            )
            &&& modified.secs >= 0 ==> link == Ok::<Seq<TaskV>, OutputErrorV>(seq![set_link])
        }),
{
}

/// A tree is removed at once, or, where a permission is refused, once its directories were made
/// removable; a directory gets all permissions for its owner and keeps its other bits, unless it
/// has them, and is then listed. What is no directory stays as it is.
pub proof fn refused_removals_relax_directories(
    path: Seq<char>,
    error: Seq<char>,
    mode: u32,
    modified: Timestamp,
)
    ensures
        request_of(Task::RemoveTree(path)) == Some(Request::RemoveAll(path)),
        request_of(Task::MakeRemovable(path)) == Some(Request::Inspect(path)),
        request_of(Task::VisitDirectory(path)) == Some(Request::ReadDir(path)),
        expand(Task::RemoveTree(path), ReplyV::Done) == Ok::<Seq<TaskV>, OutputErrorV>(seq![]),
        expand(Task::RemoveTree(path), ReplyV::Failed { permission_denied: true, error }) == Ok::<
            Seq<TaskV>,
            OutputErrorV,
        >(seq![Task::MakeRemovable(path), Task::Do(Request::RemoveAll(path))]),
        expand(Task::MakeRemovable(path), ReplyV::Metadata { is_dir: false, mode, modified })
            == Ok::<Seq<TaskV>, OutputErrorV>(seq![]),
        expand(
            Task::MakeRemovable(path),
            ReplyV::Metadata { is_dir: true, mode, modified },
        ) matches Ok(tasks) && tasks.len() > 0 && tasks.last() == Task::VisitDirectory(path) && if mode
            & 0o700 == 0o700 {
            tasks.len() == 1
        } else {
            tasks.len() == 2 && (tasks[0] matches Task::Do(Request::SetMode { path: p, mode: m })
                && p == path && m & 0o700 == 0o700 && m & !0o700u32 == mode & !0o700u32)
        },
{
    assert((mode | 0o700u32) & 0o700u32 == 0o700u32) by (bit_vector);
    assert((mode | 0o700u32) & !0o700u32 == mode & !0o700u32) by (bit_vector);
    assert(mode & 0o700u32 == 0o700u32 <==> mode | 0o700u32 == mode) by (bit_vector);
}

/// A listing is gone through item by item, in its order: each directory is made removable, each
/// item that could not be read is a failure, and nothing else is done.
pub proof fn listings_are_gone_through_in_order(
    a: Seq<ListedEntry<Seq<char>>>,
    b: Seq<ListedEntry<Seq<char>>>,
    text: Seq<char>,
    directory: Seq<char>,
)
    ensures
        expand(Task::VisitDirectory(directory), ReplyV::Listing(a)) == Ok::<
            Seq<TaskV>,
            OutputErrorV,
        >(visits(a)),
        visits(seq![]) == Seq::<TaskV>::empty(),
        visits(seq![ListedEntry::Directory(text)]) == seq![Task::MakeRemovable(text)],
        visits(seq![ListedEntry::Failed(text)]) == seq![Task::Fail(text)],
        visits(seq![ListedEntry::Other]) == Seq::<TaskV>::empty(),
        visits(a + b) == visits(a) + visits(b),
    decreases b.len(),
{
    let none = Seq::<ListedEntry<Seq<char>>>::empty();
    let one: Seq<ListedEntry<Seq<char>>> = seq![ListedEntry::Directory(text)];
    let two: Seq<ListedEntry<Seq<char>>> = seq![ListedEntry::Failed(text)];
    let three: Seq<ListedEntry<Seq<char>>> = seq![ListedEntry::Other];
    assert(one.drop_last() =~= none && two.drop_last() =~= none && three.drop_last() =~= none);
    assert(visits(none) =~= seq![]);
    assert(visits(one) =~= seq![Task::MakeRemovable(text)]);
    assert(visits(two) =~= seq![Task::Fail(text)]);
    assert(visits(three) =~= seq![]);
    if b.len() == 0 {
        assert(a + b =~= a);
        assert(visits(a) + visits(b) =~= visits(a));
    } else {
        listings_are_gone_through_in_order(a, b.drop_last(), text, directory);
        assert((a + b).drop_last() =~= a + b.drop_last());
        assert(visits(a + b) =~= visits(a) + visits(b));
    }
}

/// A failure that is no refused permission to remove is the error of the task that it answers, as
/// it came.
pub proof fn failures_are_passed_on(task: TaskV, permission_denied: bool, error: Seq<char>)
    requires
        !(task is RemoveTree && permission_denied),
    ensures
        expand(task, ReplyV::Failed { permission_denied, error }) == Err::<
            Seq<TaskV>,
            OutputErrorV,
        >(StoreOutputError::Failed(error)),
{
}

/// The lock and the place where an object is built are beside the store path: its text with a
/// suffix. The directory of the lock is made first, if it has one, then the lock, and then it is
/// taken.
pub proof fn the_lock_is_made_and_then_taken(store: Seq<char>)
    ensures
        lock_text(store) == store + seq!['.', 'b', 'u', 'c', 'k', '2', '.', 'l', 'o', 'c', 'k'],
        temp_text(store) == store + seq!['.', 'b', 'u', 'c', 'k', '2', '.', 't', 'm', 'p'],
        ({
            let plan = lock_plan(store);
            let n = plan.len() as int;
            &&& n >= 2
            &&& plan[n - 1] == Task::Do(Request::<Seq<char>>::LockExclusive)
            &&& plan[n - 2] == Task::Do(Request::CreateLock(lock_text(store)))
            &&& match parent_text(lock_text(store)) {
                Some(parent) => n == 3 && plan[0] == Task::Do(Request::CreateDirAll(parent)),
                None => n == 2,
            }
        }),
{
    reveal_strlit(".buck2.lock");
    reveal_strlit(".buck2.tmp");
    assert(lock_text(store) =~= store + seq![
        '.',
        'b',
        'u',
        'c',
        'k',
        '2',
        '.',
        'l',
        'o',
        'c',
        'k',
    ]);
    assert(temp_text(store) =~= store + seq!['.', 'b', 'u', 'c', 'k', '2', '.', 't', 'm', 'p']);
}

/// A build clears its place, makes directories and links there, copies the files from the staged
/// tree, gives the metadata, and at last renames its place to the store path; from the first write
/// on, a failure removes the place. An object that is there is sealed or left alone.
pub proof fn a_build_goes_in_this_order(job: JobV)
    ensures
        ({
            let plan = work_plan(job, false);
            let temp = temp_text(job.store);
            let n = plan.len() as int;
            &&& n >= 5
            &&& plan[0] == Task::RemoveTree(temp)
            &&& plan[1] == Task::<Seq<char>>::Arm(temp)
            &&& plan[2] == Task::Do(Request::MaterializeDirsAndSymlinks { dest: temp })
            &&& plan[3] == Task::Do(Request::MaterializeFiles { src: job.staged, dest: temp })
            &&& plan.subrange(4, n - 1) == if job.seal {
                seal_plan(job.entry, temp)
            } else {
                preserve_plan(job.entry, job.staged, temp)
            }
            &&& plan[n - 1] == Task::Do(Request::Rename { from: temp, to: job.store })
        }),
        work_plan(job, true) == if job.seal {
            seal_plan(job.entry, job.store)
        } else {
            seq![]
        },
{
    let plan = work_plan(job, false);
    let n = plan.len() as int;
    assert(plan.subrange(4, n - 1) =~= metadata_plan(job));
}

/// A directory gets its metadata after its members, each member after those listed before it, and
/// each entry once: a directory and a file by one task, a link by one.
pub proof fn members_come_before_their_directory(
    members: Seq<(Seq<char>, EntryV)>,
    last: (Seq<char>, EntryV),
    src: Seq<char>,
    dest: Seq<char>,
    entry: EntryV,
)
    ensures
        seal_plan(EntryV::Dir(members), dest) == seal_members(members, dest).push(
            Task::Seal(dest),
        ),
        seal_members(seq![], dest) == Seq::<TaskV>::empty(),
        seal_members(members.push(last), dest) == seal_members(members, dest) + seal_plan(
            last.1,
            join_text(dest, last.0),
        ),
        entry is File ==> seal_plan(entry, dest) == seq![Task::Seal(dest)],
        entry is Symlink || entry is ExternalSymlink ==> seal_plan(entry, dest) == seq![
            Task::Do(
                Request::SetSymlinkModified {
                    path: dest,
                    modified: Timestamp { secs: 1, nanos: 0 },
                },
            ),
        ],
        preserve_plan(EntryV::Dir(members), src, dest) == preserve_members(
            members,
            src,
            dest,
        ).push(Task::PreserveNative { src, dest, directory: true }),
        preserve_members(seq![], src, dest) == Seq::<TaskV>::empty(),
        preserve_members(members.push(last), src, dest) == preserve_members(members, src, dest)
            + preserve_plan(
            last.1,
            join_text(src, last.0),
            join_text(dest, last.0),
        ),
        entry is File ==> preserve_plan(entry, src, dest) == seq![
            Task::PreserveNative { src, dest, directory: false },
        ],
        entry is Symlink || entry is ExternalSymlink ==> preserve_plan(entry, src, dest) == seq![
            Task::PreserveSymlink { src, dest },
        ],
{
    assert(members.push(last).drop_last() =~= members);
}

// Work that is answered well ends well.

/// A reply with which the request went well: done, told, or metadata. Where the metadata of the
/// staged tree are kept, a directory and a file in it must not be writable, and a symbolic link
/// must not have been modified before the epoch.
pub open spec fn is_good_reply(job: JobV, request: Request<Seq<char>>, reply: ReplyV) -> bool {
    match request {
        Request::TryExists(_) => reply is Exists,
        Request::Inspect(path) => reply matches ReplyV::Metadata { mode, modified, .. } && (!job.seal
            ==> {
            &&& is_native_path(job.entry, job.staged, path) ==> mode & 0o222 == 0
            &&& is_link_path(job.entry, job.staged, path) ==> modified.secs >= 0
        }),
        Request::ReadDir(_) => false,
        _ => reply is Done,
    }
}

spec fn weight(task: TaskV) -> nat {
    match task {
        Task::Do(_) => 1,
        Task::Seal(_) => 3,
        Task::PreserveNative { .. } => 3,
        Task::PreserveSymlink { .. } => 2,
        Task::RemoveTree(_) => 1,
        _ => 0,
    }
}

spec fn total(agenda: Seq<TaskV>) -> nat
    decreases agenda.len(),
{
    if agenda.len() == 0 {
        0
    } else {
        weight(agenda[0]) + total(agenda.drop_first())
    }
}

/// A task that a placement consists of, before anything went wrong.
spec fn is_plain_task(job: JobV, task: TaskV) -> bool {
    match task {
        Task::Do(Request::TryExists(_)) => false,
        Task::Do(Request::Inspect(_)) => false,
        Task::Do(Request::ReadDir(_)) => false,
        Task::Do(_) => true,
        Task::Seal(_) => true,
        Task::PreserveNative { src, .. } => !job.seal && is_native_path(job.entry, job.staged, src),
        Task::PreserveSymlink { src, .. } => !job.seal && is_link_path(job.entry, job.staged, src),
        Task::RemoveTree(_) => true,
        Task::Arm(_) => true,
        _ => false,
    }
}

spec fn all_plain(job: JobV, agenda: Seq<TaskV>) -> bool {
    forall|i: int| 0 <= i < agenda.len() ==> is_plain_task(job, #[trigger] agenda[i])
}

proof fn lemma_total_concat(a: Seq<TaskV>, b: Seq<TaskV>)
    ensures
        total(a + b) == total(a) + total(b),
    decreases a.len(),
{
    if a.len() == 0 {
        assert(a + b =~= b);
    } else {
        assert((a + b).drop_first() =~= a.drop_first() + b);
        lemma_total_concat(a.drop_first(), b);
    }
}

proof fn lemma_plain_drop(job: JobV, agenda: Seq<TaskV>)
    requires
        agenda.len() > 0,
        all_plain(job, agenda),
    ensures
        all_plain(job, agenda.drop_first()),
{
    assert forall|i: int| 0 <= i < agenda.drop_first().len() implies is_plain_task(
        job,
        #[trigger] agenda.drop_first()[i],
    ) by {
        assert(agenda.drop_first()[i] == agenda[i + 1]);
    }
}

/// Plain work is running with tasks left, or has ended well.
spec fn goes_well(job: JobV, work: WorkV, left: nat) -> bool {
    match work {
        WorkV::Running { agenda, .. } => {
            &&& agenda.len() > 0
            &&& all_plain(job, agenda)
            &&& request_of(agenda[0]) is Some
            &&& total(agenda) <= left
        },
        WorkV::CleaningUp { .. } => false,
        WorkV::Finished(result) => result is Ok,
    }
}

proof fn lemma_settle_plain(job: JobV, agenda: Seq<TaskV>, guard: Option<Seq<char>>)
    requires
        all_plain(job, agenda),
    ensures
        goes_well(job, settle(WorkV::Running { agenda, guard }), total(agenda)),
    decreases agenda.len(),
{
    if agenda.len() > 0 {
        assert(is_plain_task(job, agenda[0]));
        if let Task::Arm(path) = agenda[0] {
            lemma_plain_drop(job, agenda);
            lemma_settle_plain(job, agenda.drop_first(), Some(path));
        }
    }
}

proof fn lemma_good_step(job: JobV, work: WorkV, reply: ReplyV, left: nat)
    requires
        goes_well(job, work, left),
        work is Running,
        is_good_reply(job, asks(work)->0, reply),
    ensures
        left > 0,
        goes_well(job, advance(work, reply), (left - 1) as nat),
{
    if let WorkV::Running { agenda, guard } = work {
        let task = agenda[0];
        assert(is_plain_task(job, task));
        if let ReplyV::Metadata { mode, .. } = reply {
            assert(task is PreserveNative ==> mode & 0o222 == 0);
        }
        let tasks = expand(task, reply)->Ok_0;
        assert(expand(task, reply) is Ok);
        let rest = agenda.drop_first();
        let next = tasks + rest;
        lemma_plain_drop(job, agenda);
        assert forall|i: int| 0 <= i < next.len() implies is_plain_task(job, #[trigger] next[i]) by {
            if i < tasks.len() {
                assert(next[i] == tasks[i]);
            } else {
                assert(next[i] == rest[i - tasks.len()]);
            }
        }
        lemma_total_concat(tasks, rest);
        assert(total(tasks) < weight(task)) by {
            reveal_with_fuel(total, 3);
            if tasks.len() == 2 {
                assert(tasks.drop_first() =~= seq![tasks[1]]);
                assert(seq![tasks[1]].drop_first() =~= seq![]);
            } else if tasks.len() == 1 {
                assert(tasks.drop_first() =~= seq![]);
            }
        }
        lemma_settle_plain(job, next, guard);
    }
}

proof fn lemma_less_left(job: JobV, work: WorkV, left: nat, more: nat)
    requires
        goes_well(job, work, left),
        left <= more,
    ensures
        goes_well(job, work, more),
{
}

proof fn lemma_seal_plan_plain(job: JobV, entry: EntryV, dest: Seq<char>)
    ensures
        all_plain(job, seal_plan(entry, dest)),
    decreases entry,
{
    if let EntryV::Dir(members) = entry {
        lemma_seal_members_plain(job, members, dest);
    }
}

proof fn lemma_seal_members_plain(job: JobV, members: Seq<(Seq<char>, EntryV)>, dest: Seq<char>)
    ensures
        all_plain(job, seal_members(members, dest)),
    decreases members,
{
    if members.len() > 0 {
        lemma_seal_members_plain(job, members.drop_last(), dest);
        lemma_seal_plan_plain(
            job,
            members.last().1,
            join_text(dest, members.last().0),
        );
    }
}

/// The task looks at a directory, file or link of the entry in the staged tree.
spec fn looks_in(task: TaskV, entry: EntryV, src: Seq<char>) -> bool {
    match task {
        Task::PreserveNative { src: s, .. } => is_native_path(entry, src, s),
        Task::PreserveSymlink { src: s, .. } => is_link_path(entry, src, s),
        _ => false,
    }
}

proof fn lemma_preserve_plan_looks(entry: EntryV, src: Seq<char>, dest: Seq<char>, i: int)
    requires
        0 <= i < preserve_plan(entry, src, dest).len(),
    ensures
        looks_in(preserve_plan(entry, src, dest)[i], entry, src),
    decreases entry, 0nat,
{
    if entry is Dir {
        let members = entry->Dir_0;
        if i < preserve_members(members, src, dest).len() {
            let j = lemma_preserve_members_look(members, src, dest, i);
            let task = preserve_plan(entry, src, dest)[i];
            let below = join_text(src, members[j].0);
            assert(looks_in(task, members[j].1, below));
            match task {
                Task::PreserveNative { src: s, .. } => {
                    assert(is_native_path(members[j].1, below, s));
                },
                Task::PreserveSymlink { src: s, .. } => {
                    assert(is_link_path(members[j].1, below, s));
                },
                _ => {},
            }
        }
    }
}

proof fn lemma_preserve_members_look(
    members: Seq<(Seq<char>, EntryV)>,
    src: Seq<char>,
    dest: Seq<char>,
    i: int,
) -> (j: int)
    requires
        0 <= i < preserve_members(members, src, dest).len(),
    ensures
        0 <= j < members.len(),
        looks_in(
            preserve_members(members, src, dest)[i],
            members[j].1,
            join_text(src, members[j].0),
        ),
    decreases members, members.len(),
{
    let before = preserve_members(members.drop_last(), src, dest);
    let last = members.last();
    if i < before.len() {
        lemma_preserve_members_look(members.drop_last(), src, dest, i)
    } else {
        lemma_preserve_plan_looks(
            last.1,
            join_text(src, last.0),
            join_text(dest, last.0),
            i - before.len(),
        );
        members.len() - 1
    }
}

proof fn lemma_work_plan_plain(job: JobV, exists_before: bool)
    ensures
        all_plain(job, work_plan(job, exists_before)),
{
    let temp = temp_text(job.store);
    lemma_seal_plan_plain(job, job.entry, temp);
    lemma_seal_plan_plain(job, job.entry, job.store);
    if !job.seal {
        let plan = preserve_plan(job.entry, job.staged, temp);
        assert forall|i: int| 0 <= i < plan.len() implies is_plain_task(job, #[trigger] plan[i]) by {
            lemma_preserve_plan_looks(job.entry, job.staged, temp, i);
        }
    }
    if !exists_before {
        let plan = work_plan(job, false);
        let middle = metadata_plan(job);
        assert forall|i: int| 0 <= i < plan.len() implies is_plain_task(job, #[trigger] plan[i]) by {
            if 4 <= i < 4 + middle.len() {
                assert(plan[i] == middle[i - 4]);
            }
        }
    }
}

/// How many replies a job may still need in a stage.
spec fn work_left(job: JobV) -> nat {
    total(work_plan(job, true)) + total(work_plan(job, false))
}

spec fn stage_goes_well(job: JobV, stage: StageV, left: nat) -> bool {
    match stage {
        StageV::Locking(work) => work is Running && left >= work_left(job) + 1 && goes_well(
            job,
            work,
            (left - work_left(job) - 1) as nat,
        ),
        StageV::Checking => left >= work_left(job) + 1,
        StageV::Working(work) => work is Running && goes_well(job, work, left),
        StageV::Finished(result) => result is Ok,
    }
}

proof fn lemma_locking_well(job: JobV, work: WorkV, left: nat)
    requires
        goes_well(job, work, left),
    ensures
        stage_goes_well(job, locking(work), left + work_left(job) + 1),
{
}

proof fn lemma_working_well(job: JobV, work: WorkV, left: nat)
    requires
        goes_well(job, work, left),
    ensures
        stage_goes_well(job, working(work), left),
{
}

proof fn lemma_first_stage_well(job: JobV)
    ensures
        stage_goes_well(
            job,
            first_stage(job),
            total(lock_plan(job.store)) + work_left(job) + 1,
        ),
{
    let plan = lock_plan(job.store);
    assert forall|i: int| 0 <= i < plan.len() implies is_plain_task(job, #[trigger] plan[i]) by {}
    lemma_settle_plain(job, plan, None);
    lemma_locking_well(job, begun(plan), total(plan));
}

proof fn lemma_stage_step_well(job: JobV, stage: StageV, reply: ReplyV, left: nat)
    requires
        stage_goes_well(job, stage, left),
        stage_asks(job, stage) matches Some(request) ==> is_good_reply(job, request, reply),
    ensures
        stage is Finished || left > 0,
        stage_goes_well(
            job,
            next_stage(job, stage, reply),
            if left > 0 {
                (left - 1) as nat
            } else {
                0
            },
        ),
{
    match stage {
        StageV::Locking(work) => {
            let own = (left - work_left(job) - 1) as nat;
            lemma_good_step(job, work, reply, own);
            lemma_locking_well(job, advance(work, reply), (own - 1) as nat);
        },
        StageV::Checking => {
            if let ReplyV::Exists(there) = reply {
                let plan = work_plan(job, there);
                lemma_work_plan_plain(job, there);
                lemma_settle_plain(job, plan, None);
                assert(total(plan) <= work_left(job)) by {
                    if there {
                        assert(plan == work_plan(job, true));
                    } else {
                        assert(plan == work_plan(job, false));
                    }
                }
                lemma_less_left(job, begun(plan), total(plan), (left - 1) as nat);
                lemma_working_well(job, begun(plan), (left - 1) as nat);
            }
        },
        StageV::Working(work) => {
            lemma_good_step(job, work, reply, left);
            lemma_working_well(job, advance(work, reply), (left - 1) as nat);
        },
        StageV::Finished(_) => {},
    }
}

/// Every request of a job, from the stage on, was answered well.
pub open spec fn is_answered_well(job: JobV, stage: StageV, replies: Seq<ReplyV>) -> bool
    decreases replies.len(),
{
    replies.len() > 0 ==> {
        &&& stage_asks(job, stage) matches Some(request) ==> is_good_reply(job, request, replies[0])
        &&& is_answered_well(job, next_stage(job, stage, replies[0]), replies.drop_first())
    }
}

proof fn lemma_stages_well(job: JobV, stage: StageV, replies: Seq<ReplyV>, left: nat)
    requires
        stage_goes_well(job, stage, left),
        is_answered_well(job, stage, replies),
    ensures
        !(run_stages(job, stage, replies) matches StageV::Finished(Err(_))),
        replies.len() >= left ==> run_stages(job, stage, replies) == StageV::Finished(Ok(())),
    decreases replies.len(),
{
    if stage is Finished {
        lemma_finished_stage(job, stage, replies);
        if let StageV::Finished(Ok(unit)) = stage {
            assert(unit == ());
        }
    } else if replies.len() > 0 {
        lemma_stage_step_well(job, stage, replies[0], left);
        lemma_stages_well(
            job,
            next_stage(job, stage, replies[0]),
            replies.drop_first(),
            (left - 1) as nat,
        );
    }
}

/// A job whose requests are all answered well never fails, and ends well after finitely many
/// replies: there is no other reason to refuse an object than what was replied.
pub proof fn a_job_that_is_answered_well_ends_well(job: JobV) -> (enough: nat)
    ensures
        forall|replies: Seq<ReplyV>| #[trigger]
            is_answered_well(job, first_stage(job), replies) ==> {
                &&& !(run_stages(job, first_stage(job), replies) matches StageV::Finished(Err(_)))
                &&& replies.len() >= enough ==> run_stages(job, first_stage(job), replies)
                    == StageV::Finished(Ok(()))
            },
{
    let enough = total(lock_plan(job.store)) + work_left(job) + 1;
    lemma_first_stage_well(job);
    assert forall|replies: Seq<ReplyV>| #[trigger]
        is_answered_well(job, first_stage(job), replies) implies {
        &&& !(run_stages(job, first_stage(job), replies) matches StageV::Finished(Err(_)))
        &&& replies.len() >= enough ==> run_stages(job, first_stage(job), replies)
            == StageV::Finished(Ok(()))
    } by {
        lemma_stages_well(job, first_stage(job), replies, enough);
    }
    enough
}

/// Every request of a realization, from the moment on, was answered well; what is read back is the
/// recorded object.
pub open spec fn is_realized_well(job: JobV, run: RunV, replies: Seq<RunReply>) -> bool
    decreases replies.len(),
{
    replies.len() > 0 ==> {
        &&& match run_asks(job, run) {
            Some(RunRequest::Io(request)) => replies[0] matches RunReply::Io(reply)
                && is_good_reply(job, request, reply@),
            Some(RunRequest::ReadBack(_)) => replies[0] matches RunReply::Found(
                ReadBack::Entry(entry),
            ) && same_entry(entry@, job.entry),
            None => true,
        }
        &&& is_realized_well(job, next_run(job, run, replies[0]), replies.drop_first())
    }
}

spec fn run_goes_well(job: JobV, run: RunV, left: nat) -> bool {
    let work = total(lock_plan(job.store)) + work_left(job) + 1;
    match run {
        RunV::Looking => left >= work + 3,
        RunV::VerifyingFirst => left >= work + 2,
        RunV::Materializing(stage) => left >= 1 && !(stage is Finished) && stage_goes_well(
            job,
            stage,
            (left - 1) as nat,
        ),
        RunV::VerifyingLast => left >= 1,
        RunV::Finished(result) => result is Ok,
    }
}

proof fn lemma_more_stage(job: JobV, stage: StageV, left: nat, more: nat)
    requires
        stage_goes_well(job, stage, left),
        left <= more,
    ensures
        stage_goes_well(job, stage, more),
{
}

proof fn lemma_materializing_well(job: JobV, stage: StageV, left: nat, more: nat)
    requires
        stage_goes_well(job, stage, left),
        left + 1 <= more,
    ensures
        run_goes_well(job, materializing(stage), more),
{
    lemma_more_stage(job, stage, left, (more - 1) as nat);
}

proof fn lemma_run_well(job: JobV, run: RunV, replies: Seq<RunReply>, left: nat)
    requires
        run_goes_well(job, run, left),
        is_realized_well(job, run, replies),
    ensures
        !(run_job(job, run, replies) matches RunV::Finished(Err(_))),
        replies.len() >= left ==> run_job(job, run, replies) == RunV::Finished(Ok(())),
    decreases replies.len(),
{
    let work = total(lock_plan(job.store)) + work_left(job) + 1;
    if let RunV::Finished(result) = run {
        if let Ok(unit) = result {
            assert(unit == ());
        }
        if replies.len() > 0 {
            lemma_run_well(job, run, replies.drop_first(), 0);
        }
    } else if replies.len() > 0 {
        let next = next_run(job, run, replies[0]);
        lemma_first_stage_well(job);
        lemma_materializing_well(job, first_stage(job), work, (work + 1) as nat);
        match run {
            RunV::Looking => {
                lemma_materializing_well(job, first_stage(job), work, (left - 1) as nat);
            },
            RunV::VerifyingFirst => {
                lemma_materializing_well(job, first_stage(job), work, (left - 1) as nat);
            },
            RunV::Materializing(stage) => {
                if let RunReply::Io(reply) = replies[0] {
                    assert(left - 1 > 0) by {
                        lemma_stage_step_well(job, stage, reply@, (left - 1) as nat);
                    }
                    lemma_stage_step_well(job, stage, reply@, (left - 1) as nat);
                    lemma_materializing_well(
                        job,
                        next_stage(job, stage, reply@),
                        (left - 2) as nat,
                        (left - 1) as nat,
                    );
                }
            },
            _ => {},
        }
        lemma_run_well(job, next, replies.drop_first(), (left - 1) as nat);
    }
}

/// A realization whose requests are all answered well, and that reads the recorded object back,
/// never fails, and ends well after finitely many replies.
pub proof fn a_realization_that_is_answered_well_ends_well(job: JobV) -> (enough: nat)
    ensures
        forall|replies: Seq<RunReply>| #[trigger]
            is_realized_well(job, RunV::Looking, replies) ==> {
                &&& !(run_job(job, RunV::Looking, replies) matches RunV::Finished(Err(_)))
                &&& replies.len() >= enough ==> run_job(job, RunV::Looking, replies)
                    == RunV::Finished(Ok(()))
            },
{
    let enough = total(lock_plan(job.store)) + work_left(job) + 4;
    assert forall|replies: Seq<RunReply>| #[trigger]
        is_realized_well(job, RunV::Looking, replies) implies {
        &&& !(run_job(job, RunV::Looking, replies) matches RunV::Finished(Err(_)))
        &&& replies.len() >= enough ==> run_job(job, RunV::Looking, replies) == RunV::Finished(
            Ok(()),
        )
    } by {
        lemma_run_well(job, RunV::Looking, replies, enough);
    }
    enough
}

/// A look that failed ends a realization and a job with that failure, whatever it was about.
pub proof fn a_failed_look_is_the_result(job: JobV, permission_denied: bool, error: String)
    ensures
        next_run(
            job,
            RunV::Looking,
            RunReply::Io(Reply::Failed { permission_denied, error }),
        ) == RunV::Finished(Err(StoreOutputError::Failed(error@))),
        next_stage(
            job,
            StageV::Checking,
            ReplyV::Failed { permission_denied, error: error@ },
        ) == StageV::Finished(Err(StoreOutputError::Failed(error@))),
        run_asks(job, RunV::Looking) == Some(RunRequest::Io(Request::TryExists(job.store))),
        run_asks(job, RunV::VerifyingFirst) == Some(RunRequest::ReadBack(job.store)),
        run_asks(job, RunV::VerifyingLast) == Some(RunRequest::ReadBack(job.store)),
        stage_asks(job, StageV::Checking) == Some(Request::TryExists(job.store)),
{
    let reply = Reply::Failed { permission_denied, error };
    assert(reply@ == ReplyV::Failed { permission_denied, error: error@ });
}

/// A reply of another kind than the request asks for is an error of its own: only a request that
/// was done can be told so, only metadata answer a look, and only a listing the wish for one.
pub proof fn replies_of_the_wrong_kind_are_errors(task: TaskV, reply: ReplyV)
    requires
        !(reply is Failed),
        match task {
            Task::Do(_) => !(reply is Done),
            Task::RemoveTree(_) => !(reply is Done),
            Task::VisitDirectory(_) => !(reply is Listing),
            Task::Arm(_) => true,
            Task::Fail(_) => true,
            _ => !(reply is Metadata),
        },
    ensures
        expand(task, reply) == Err::<Seq<TaskV>, OutputErrorV>(StoreOutputError::UnexpectedReply),
{
}

/// A request that was done leaves nothing to do, and asks exactly for itself.
pub proof fn a_request_is_done_at_once(request: Request<Seq<char>>)
    ensures
        request_of(Task::Do(request)) == Some(request),
        expand(Task::Do(request), ReplyV::Done) == Ok::<Seq<TaskV>, OutputErrorV>(seq![]),
{
}

/// Work goes on with what a task left and then with the tasks behind it; it has ended well when
/// none is left. A task that fails, or stands for a failure, ends it: at once, or, once something
/// was written, after that was removed, and with the same error.
pub proof fn work_goes_through_its_tasks(
    task: TaskV,
    rest: Seq<TaskV>,
    guard: Option<Seq<char>>,
    reply: ReplyV,
    error: Seq<char>,
    path: Seq<char>,
)
    ensures
        begun(seq![]) == WorkV::Finished(Ok(())),
        ({
            let running = WorkV::Running { agenda: seq![task] + rest, guard };
            match expand(task, reply) {
                Ok(tasks) => advance(running, reply) == settle(
                    WorkV::Running { agenda: tasks + rest, guard },
                ),
                Err(e) => match guard {
                    None => advance(running, reply) == WorkV::Finished(Err(e)),
                    Some(place) => advance(running, reply) matches WorkV::CleaningUp {
                        agenda,
                        error: kept,
                    } && agenda == seq![Task::RemoveTree(place)] && kept == e,
                },
            }
        }),
        settle(WorkV::Running { agenda: seq![Task::Arm(path)] + rest, guard }) == settle(
            WorkV::Running { agenda: rest, guard: Some(path) },
        ),
        request_of(task) is Some ==> settle(WorkV::Running { agenda: seq![task] + rest, guard })
            == (WorkV::Running { agenda: seq![task] + rest, guard }) && asks(
            WorkV::Running { agenda: seq![task] + rest, guard },
        ) == request_of(task),
        settle(WorkV::Running { agenda: seq![Task::Fail(error)] + rest, guard: None })
            == WorkV::Finished(Err(StoreOutputError::Failed(error))),
        settle(WorkV::Running { agenda: seq![Task::Fail(error)] + rest, guard: Some(path) })
            matches WorkV::CleaningUp { agenda, error: kept } && agenda == seq![
            Task::RemoveTree(path),
        ] && kept == StoreOutputError::Failed(error),
{
    let agenda = seq![task] + rest;
    assert(agenda[0] == task);
    assert(agenda.drop_first() =~= rest);
    let armed = seq![Task::Arm(path)] + rest;
    assert(armed[0] == Task::<Seq<char>>::Arm(path));
    assert(armed.drop_first() =~= rest);
    let failing = seq![Task::Fail(error)] + rest;
    assert(failing[0] == Task::<Seq<char>>::Fail(error));
}

/// The replies of a part of a realization, where they are all about the file system.
pub open spec fn io_replies(replies: Seq<RunReply>) -> Seq<ReplyV> {
    Seq::new(
        replies.len(),
        |i: int|
            match replies[i] {
                RunReply::Io(reply) => reply@,
                RunReply::Found(_) => ReplyV::Done,
            },
    )
}

proof fn lemma_run_through(job: JobV, stage: StageV, replies: Seq<RunReply>) -> (j: int)
    requires
        !(stage is Finished),
        run_job(job, RunV::Materializing(stage), replies) == RunV::Finished(Ok(())),
    ensures
        0 <= j < replies.len(),
        forall|i: int| 0 <= i < j ==> #[trigger] replies[i] is Io,
        run_stages(job, stage, io_replies(replies.take(j))) == StageV::Finished(Ok(())),
        run_job(job, RunV::Materializing(stage), replies.take(j)) == RunV::VerifyingLast,
    decreases replies.len(),
{
    let run = RunV::Materializing(stage);
    let next = next_run(job, run, replies[0]);
    let rest = replies.drop_first();
    assert(run_job(job, run, replies) == run_job(job, next, rest));
    if let RunV::Finished(result) = next {
        lemma_finished_run(job, next, rest);
        assert(result is Err);
        0
    } else {
        assert(replies[0] is Io);
        let reply = replies[0]->Io_0@;
        let after = next_stage(job, stage, reply);
        if next is VerifyingLast {
            let one = replies.take(1);
            assert(one.drop_first() =~= seq![]);
            assert(run_job(job, run, one) == run_job(job, next, one.drop_first()));
            let views = io_replies(one);
            assert(views =~= seq![reply]);
            assert(views.drop_first() =~= seq![]);
            assert(run_stages(job, stage, views) == run_stages(job, after, views.drop_first()));
            if let StageV::Finished(Ok(unit)) = after {
                assert(unit == ());
            }
            if rest.len() == 0 {
                assert(run_job(job, next, rest) == next);
            }
            1
        } else {
            assert(next == RunV::Materializing(after));
            let j = lemma_run_through(job, after, rest);
            let head = replies.take(j + 1);
            assert(head.drop_first() =~= rest.take(j));
            assert(run_job(job, run, head) == run_job(job, next, head.drop_first()));
            let views = io_replies(head);
            assert(views.drop_first() =~= io_replies(rest.take(j)));
            assert(views[0] == reply);
            assert forall|i: int| 0 <= i < j + 1 implies #[trigger] replies[i] is Io by {
                if i > 0 {
                    assert(replies[i] == rest[i - 1]);
                }
            }
            j + 1
        }
    }
}

proof fn lemma_finished_run(job: JobV, run: RunV, replies: Seq<RunReply>)
    requires
        run is Finished,
    ensures
        run_job(job, run, replies) == run,
    decreases replies.len(),
{
    if replies.len() > 0 {
        lemma_finished_run(job, run, replies.drop_first());
    }
}

proof fn lemma_begins_with_the_lock(job: JobV)
    ensures
        first_stage(job) is Locking,
        materializing(first_stage(job)) == RunV::Materializing(first_stage(job)),
{
    let plan = lock_plan(job.store);
    assert(plan.len() > 0 && plan[0] is Do);
}

/// The moment at which a realization begins its job.
proof fn lemma_job_begins(job: JobV, replies: Seq<RunReply>) -> (k: int)
    requires
        run_job(job, RunV::Looking, replies) == RunV::Finished(Ok(())),
        job.seal || !(replies[0] matches RunReply::Io(Reply::Exists(true))),
    ensures
        0 < k <= replies.len(),
        run_job(job, RunV::Looking, replies.take(k)) == RunV::Materializing(first_stage(job)),
{
    lemma_begins_with_the_lock(job);
    let next = next_run(job, RunV::Looking, replies[0]);
    lemma_run_job_one(job, RunV::Looking, replies);
    lemma_run_job_split(job, RunV::Looking, replies, 1);
    match next {
        RunV::Finished(result) => {
            lemma_finished_run(job, next, replies.skip(1));
            assert(result is Err);
            0
        },
        RunV::VerifyingFirst => {
            let rest = replies.skip(1);
            let second = next_run(job, next, rest[0]);
            lemma_run_job_one(job, next, rest);
            lemma_run_job_split(job, next, rest, 1);
            lemma_run_job_split(job, RunV::Looking, replies.take(2), 1);
            assert(replies.take(2).take(1) =~= replies.take(1));
            assert(replies.take(2).skip(1) =~= rest.take(1));
            if let RunV::Finished(result) = second {
                lemma_finished_run(job, second, rest.skip(1));
                assert(result is Err);
            }
            2
        },
        _ => 1,
    }
}

proof fn lemma_run_job_one(job: JobV, run: RunV, replies: Seq<RunReply>)
    requires
        !(run is Finished),
        run_job(job, run, replies) == RunV::Finished(Ok(())),
    ensures
        replies.len() > 0,
        run_job(job, run, replies.take(1)) == next_run(job, run, replies[0]),
{
    let one = replies.take(1);
    assert(one.drop_first() =~= seq![]);
    assert(one[0] == replies[0]);
    assert(run_job(job, run, one) == run_job(job, next_run(job, run, one[0]), one.drop_first()));
}

/// A realization that ends well has done its job from beginning to end, unless it found the object
/// there and need not seal it: from the moment `turn.0` to the moment `turn.1` it did nothing else,
/// the job ended well, and the store path was read back after it.
pub proof fn a_realization_does_its_job(job: JobV, replies: Seq<RunReply>) -> (turn: (int, int))
    requires
        run_job(job, RunV::Looking, replies) == RunV::Finished(Ok(())),
        job.seal || !(replies[0] matches RunReply::Io(Reply::Exists(true))),
    ensures
        0 < turn.0 < turn.1 < replies.len(),
        forall|i: int| turn.0 <= i < turn.1 ==> #[trigger] replies[i] is Io,
        run_job(job, RunV::Looking, replies.take(turn.0)) == RunV::Materializing(first_stage(job)),
        run_stages(job, first_stage(job), io_replies(replies.subrange(turn.0, turn.1)))
            == StageV::Finished(Ok(())),
        run_job(job, RunV::Looking, replies.take(turn.1)) == RunV::VerifyingLast,
{
    lemma_begins_with_the_lock(job);
    let k = lemma_job_begins(job, replies);
    lemma_run_job_split(job, RunV::Looking, replies, k);
    let j = lemma_run_through(job, first_stage(job), replies.skip(k));
    lemma_turn_of_job(job, replies, k, j);
    (k, k + j)
}

proof fn lemma_turn_of_job(job: JobV, replies: Seq<RunReply>, k: int, j: int)
    requires
        0 <= k <= replies.len(),
        0 <= j < replies.skip(k).len(),
        run_job(job, RunV::Looking, replies.take(k)) == RunV::Materializing(first_stage(job)),
        forall|i: int| 0 <= i < j ==> #[trigger] replies.skip(k)[i] is Io,
        run_stages(job, first_stage(job), io_replies(replies.skip(k).take(j)))
            == StageV::Finished(Ok(())),
        run_job(job, RunV::Materializing(first_stage(job)), replies.skip(k).take(j))
            == RunV::VerifyingLast,
        first_stage(job) is Locking,
    ensures
        j > 0,
        forall|i: int| k <= i < k + j ==> #[trigger] replies[i] is Io,
        run_stages(job, first_stage(job), io_replies(replies.subrange(k, k + j)))
            == StageV::Finished(Ok(())),
        run_job(job, RunV::Looking, replies.take(k + j)) == RunV::VerifyingLast,
{
    assert(replies.skip(k).take(j) =~= replies.subrange(k, k + j));
    assert forall|i: int| k <= i < k + j implies #[trigger] replies[i] is Io by {
        assert(replies[i] == replies.skip(k)[i - k]);
    }
    lemma_run_job_split(job, RunV::Looking, replies.take(k + j), k);
    assert(replies.take(k + j).take(k) =~= replies.take(k));
    assert(replies.take(k + j).skip(k) =~= replies.subrange(k, k + j));
    if j == 0 {
        assert(io_replies(replies.skip(k).take(0)) =~= seq![]);
    }
}

proof fn lemma_run_job_split(job: JobV, run: RunV, replies: Seq<RunReply>, k: int)
    requires
        0 <= k <= replies.len(),
    ensures
        run_job(job, run, replies) == run_job(
            job,
            run_job(job, run, replies.take(k)),
            replies.skip(k),
        ),
    decreases k,
{
    if k == 0 {
        assert(replies.take(0) =~= seq![]);
        assert(replies.skip(0) =~= replies);
    } else {
        lemma_run_job_split(job, next_run(job, run, replies[0]), replies.drop_first(), k - 1);
        assert(replies.take(k).drop_first() =~= replies.drop_first().take(k - 1));
        assert(replies.drop_first().skip(k - 1) =~= replies.skip(k));
    }
}

} // verus!
