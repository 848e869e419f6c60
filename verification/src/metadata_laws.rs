//! What an object that keeps the metadata of its staged tree has on disk: where the file system
//! does what it reports, work that ends well leaves it with the staged times and modes.

use vstd::prelude::*;

use crate::disk::mode_is_writable;
use crate::entry::{names_are_members, EntryV};
use crate::paths::{is_single_entry, join_text};
use crate::seal_laws::{
    built_path, disk_run, disk_step, lemma_disk_run_split, lemma_disk_stays, lemma_run_suffix,
    was_renamed, Disk,
};
use crate::store_output::{
    metadata_plan, preserve_members, preserve_plan, temp_text, work_plan, JobV,
};
use crate::task::{expand, request_of, ReplyV, Request, Task, TaskV};
use crate::work::{asks, begun, raise, settle, WorkV};
use crate::work_laws::{
    every_task_has_its_turn, first_error_stands, is_pair, lemma_next_turn, lemma_pair_in_plan,
    lemma_run_split, lemma_step, preserve_task, publication_is_last, publish_task, run_work, under,
    PairKind,
};

verus! {

/// The path in the staged tree at `src` of what is at `rest` below the copy.
spec fn counterpart(src: Seq<char>, rest: Seq<char>) -> Seq<char> {
    if rest.len() == 0 {
        src
    } else if src.len() == 0 || src.last() == '/' {
        src + rest.skip(1)
    } else {
        src + rest
    }
}

proof fn lemma_member_pair(
    entry: EntryV,
    src: Seq<char>,
    dest: Seq<char>,
    from: Seq<char>,
    to: Seq<char>,
    kind: PairKind,
) -> (j: int)
    requires
        is_pair(entry, src, dest, from, to, kind),
        entry is Dir,
        !(from == src && to == dest && kind is Directory),
    ensures
        0 <= j < entry->Dir_0.len(),
        is_pair(
            entry->Dir_0[j].1,
            join_text(src, entry->Dir_0[j].0),
            join_text(dest, entry->Dir_0[j].0),
            from,
            to,
            kind,
        ),
{
    let members = entry->Dir_0;
    choose|j: int|
        0 <= j < members.len() && is_pair(
            (#[trigger] members[j]).1,
            join_text(src, members[j].0),
            join_text(dest, members[j].0),
            from,
            to,
            kind,
        )
}

/// An entry of the copy has its place below the copy, and one counterpart in the staged tree.
/// Where the copy is elsewhere, the entry is in the same place below it.
proof fn lemma_pair(
    entry: EntryV,
    src: Seq<char>,
    dest: Seq<char>,
    other: Seq<char>,
    from: Seq<char>,
    to: Seq<char>,
    kind: PairKind,
)
    requires
        names_are_members(entry),
        dest.len() > 0,
        dest.last() != '/',
        other.len() > 0,
        other.last() != '/',
        is_pair(entry, src, dest, from, to, kind),
    ensures
        under(to, dest),
        from == counterpart(src, to.skip(dest.len() as int)),
        is_pair(entry, src, other, from, other + to.skip(dest.len() as int), kind),
    decreases entry,
{
    let rest = to.skip(dest.len() as int);
    if to == dest {
        assert(other + rest =~= other);
    }
    if entry is Dir && !(from == src && to == dest && kind is Directory) {
        let j = lemma_member_pair(entry, src, dest, from, to, kind);
        let members = entry->Dir_0;
        let name = members[j].0;
        reveal_strlit("/");
        assert("/"@ =~= seq!['/']);
        assert(is_single_entry(name) && names_are_members(members[j].1));
        let s = join_text(src, name);
        let a = join_text(dest, name);
        let b = join_text(other, name);
        assert(a =~= dest + seq!['/'] + name);
        assert(b =~= other + seq!['/'] + name);
        assert(name[name.len() - 1] == name.last());
        assert(a.last() == name.last() && b.last() == name.last() && s.last() == name.last());
        lemma_pair(members[j].1, s, a, b, from, to, kind);
        assert forall|i: int| 0 <= i < a.len() implies to[i] == a[i] by {
            if to != a {
                assert(to.take(a.len() as int)[i] == a[i]);
            }
        }
        let below = to.skip(a.len() as int);
        assert(to.take(dest.len() as int) =~= dest);
        assert(to[dest.len() as int] == '/');
        assert(rest =~= seq!['/'] + name + below);
        assert(b + below =~= other + rest);
        assert(from =~= s + below);
        assert(rest.skip(1) =~= name + below);
        assert(counterpart(src, rest) =~= from);
        assert(is_pair(members[j].1, s, b, from, other + rest, kind));
    }
}

/// Every task of the plan carries the metadata of an entry over.
proof fn lemma_plan_pair(entry: EntryV, src: Seq<char>, dest: Seq<char>, i: int) -> (pair: (
    Seq<char>,
    Seq<char>,
    PairKind,
))
    requires
        0 <= i < preserve_plan(entry, src, dest).len(),
    ensures
        is_pair(entry, src, dest, pair.0, pair.1, pair.2),
        preserve_plan(entry, src, dest)[i] == preserve_task(pair.0, pair.1, pair.2),
    decreases entry, 0nat,
{
    match entry {
        EntryV::Dir(members) => {
            if i == preserve_members(members, src, dest).len() {
                (src, dest, PairKind::Directory)
            } else {
                let (j, from, to, kind) = lemma_members_pair(members, src, dest, i);
                (from, to, kind)
            }
        },
        EntryV::File { .. } => (src, dest, PairKind::File),
        _ => (src, dest, PairKind::Symlink),
    }
}

proof fn lemma_members_pair(
    members: Seq<(Seq<char>, EntryV)>,
    src: Seq<char>,
    dest: Seq<char>,
    i: int,
) -> (pair: (int, Seq<char>, Seq<char>, PairKind))
    requires
        0 <= i < preserve_members(members, src, dest).len(),
    ensures
        0 <= pair.0 < members.len(),
        is_pair(
            members[pair.0].1,
            join_text(src, members[pair.0].0),
            join_text(dest, members[pair.0].0),
            pair.1,
            pair.2,
            pair.3,
        ),
        preserve_members(members, src, dest)[i] == preserve_task(pair.1, pair.2, pair.3),
    decreases members, members.len(),
{
    let before = preserve_members(members.drop_last(), src, dest);
    let last = members.last();
    if i < before.len() {
        lemma_members_pair(members.drop_last(), src, dest, i)
    } else {
        let (from, to, kind) = lemma_plan_pair(
            last.1,
            join_text(src, last.0),
            join_text(dest, last.0),
            i - before.len(),
        );
        (members.len() - 1, from, to, kind)
    }
}

/// A task that only carries metadata over.
spec fn carries(task: TaskV) -> bool {
    match task {
        Task::PreserveNative { .. } => true,
        Task::PreserveSymlink { .. } => true,
        Task::Do(Request::SetModified { .. }) => true,
        Task::Do(Request::SetSymlinkModified { .. }) => true,
        Task::Do(Request::SetMode { .. }) => true,
        _ => false,
    }
}

spec fn gives_time(task: TaskV, path: Seq<char>) -> bool {
    match task {
        Task::PreserveNative { dest, .. } => dest == path,
        Task::PreserveSymlink { dest, .. } => dest == path,
        Task::Do(Request::SetModified { path: p, .. }) => p == path,
        Task::Do(Request::SetSymlinkModified { path: p, .. }) => p == path,
        _ => false,
    }
}

spec fn gives_mode(task: TaskV, path: Seq<char>) -> bool {
    match task {
        Task::PreserveNative { dest, directory, .. } => directory && dest == path,
        Task::Do(Request::SetMode { path: p, .. }) => p == path,
        _ => false,
    }
}

spec fn all_carry(agenda: Seq<TaskV>) -> bool {
    forall|i: int| 0 <= i < agenda.len() ==> carries(#[trigger] agenda[i])
}

spec fn none_gives_time(agenda: Seq<TaskV>, path: Seq<char>) -> bool {
    forall|i: int| 0 <= i < agenda.len() ==> !gives_time(#[trigger] agenda[i], path)
}

spec fn none_gives_mode(agenda: Seq<TaskV>, path: Seq<char>) -> bool {
    forall|i: int| 0 <= i < agenda.len() ==> !gives_mode(#[trigger] agenda[i], path)
}

/// The entry is on both disks or on neither; its time and its mode are the same as far as asked.
spec fn same_at(
    before: Disk,
    after: Disk,
    path: Seq<char>,
    same_time: bool,
    same_mode: bool,
) -> bool {
    &&& after.contains_key(path) == before.contains_key(path)
    &&& same_time && before.contains_key(path) ==> after[path].modified == before[path].modified
    &&& same_mode && before.contains_key(path) ==> after[path].mode == before[path].mode
}

proof fn lemma_carry_step(
    agenda: Seq<TaskV>,
    reply: ReplyV,
    before: Disk,
    after: Disk,
    path: Seq<char>,
)
    requires
        agenda.len() > 0,
        all_carry(agenda),
        expand(agenda[0], reply) is Ok,
        request_of(agenda[0]) is Some,
        disk_step(before, request_of(agenda[0])->0, reply, after),
    ensures
        ({
            let next = expand(agenda[0], reply)->Ok_0 + agenda.drop_first();
            &&& all_carry(next)
            &&& none_gives_time(agenda, path) ==> none_gives_time(next, path)
            &&& none_gives_mode(agenda, path) ==> none_gives_mode(next, path)
            &&& same_at(
                before,
                after,
                path,
                none_gives_time(agenda, path),
                none_gives_mode(agenda, path),
            )
        }),
{
    let tasks = expand(agenda[0], reply)->Ok_0;
    let next = tasks + agenda.drop_first();
    assert(carries(agenda[0]));
    assert forall|i: int| 0 <= i < next.len() implies {
        &&& carries(#[trigger] next[i])
        &&& none_gives_time(agenda, path) ==> !gives_time(next[i], path)
        &&& none_gives_mode(agenda, path) ==> !gives_mode(next[i], path)
    } by {
        if none_gives_time(agenda, path) {
            assert(!gives_time(agenda[0], path));
        }
        if none_gives_mode(agenda, path) {
            assert(!gives_mode(agenda[0], path));
        }
        if i >= tasks.len() {
            assert(next[i] == agenda[i - tasks.len() + 1]);
        } else {
            assert(next[i] == tasks[i]);
        }
    }
    if none_gives_time(agenda, path) {
        assert(!gives_time(agenda[0], path));
    }
    if none_gives_mode(agenda, path) {
        assert(!gives_mode(agenda[0], path));
    }
}

/// Once the carrying tasks in front are through, an entry that none of them is about is as it was.
proof fn lemma_carry_through(
    front: Seq<TaskV>,
    tail: Seq<TaskV>,
    guard: Option<Seq<char>>,
    replies: Seq<ReplyV>,
    disks: Seq<Disk>,
    path: Seq<char>,
) -> (t: int)
    requires
        all_carry(front),
        disk_run(settle(WorkV::Running { agenda: front + tail, guard }), replies, disks),
        run_work(settle(WorkV::Running { agenda: front + tail, guard }), replies)
            == WorkV::Finished(Ok(())),
    ensures
        0 <= t <= replies.len(),
        same_at(
            disks[0],
            disks[t],
            path,
            none_gives_time(front, path),
            none_gives_mode(front, path),
        ),
        run_work(settle(WorkV::Running { agenda: front + tail, guard }), replies.take(t))
            == settle(WorkV::Running { agenda: tail, guard }),
    decreases replies.len(),
{
    let all = front + tail;
    let start = settle(WorkV::Running { agenda: all, guard });
    if front.len() == 0 {
        assert(all =~= tail);
        assert(replies.take(0) =~= seq![]);
        0
    } else {
        assert(all[0] == front[0]);
        assert(carries(front[0]));
        assert(start == WorkV::Running { agenda: all, guard });
        assert(replies.len() > 0);
        lemma_run_suffix(start, replies, disks);
        match expand(all[0], replies[0]) {
            Err(e) => {
                first_error_stands(raise(guard, e), replies.drop_first(), e);
                0
            },
            Ok(tasks) => {
                lemma_carry_step(front, replies[0], disks[0], disks[1], path);
                let next = tasks + front.drop_first();
                assert(tasks + all.drop_first() =~= next + tail);
                let t = lemma_carry_through(
                    next,
                    tail,
                    guard,
                    replies.drop_first(),
                    disks.drop_first(),
                    path,
                );
                assert(replies.take(t + 1).drop_first() =~= replies.drop_first().take(t));
                assert(disks.drop_first()[t] == disks[t + 1]);
                t + 1
            },
        }
    }
}

/// What none of the tasks left is about is in the end at its place below the store path as it
/// was in the build.
proof fn lemma_published_as_it_was(
    job: JobV,
    replies: Seq<ReplyV>,
    disks: Seq<Disk>,
    k: int,
    front: Seq<TaskV>,
    guard: Option<Seq<char>>,
    path: Seq<char>,
)
    requires
        disk_run(begun(work_plan(job, false)), replies, disks),
        run_work(begun(work_plan(job, false)), replies) == WorkV::Finished(Ok(())),
        0 <= k <= replies.len(),
        run_work(begun(work_plan(job, false)), replies.take(k)) == settle(
            WorkV::Running { agenda: front + seq![publish_task(job)], guard },
        ),
        all_carry(front),
        under(path, job.store),
    ensures
        ({
            let at = built_path(job.store, path);
            let before = disks[k];
            let after = disks.last();
            &&& after.contains_key(path) == before.contains_key(at)
            &&& none_gives_time(front, at) && before.contains_key(at) ==> after[path].modified
                == before[at].modified
            &&& none_gives_mode(front, at) && before.contains_key(at) ==> after[path].mode
                == before[at].mode
        }),
{
    let start = begun(work_plan(job, false));
    let tail = seq![publish_task(job)];
    let rest = replies.skip(k);
    let at = built_path(job.store, path);
    lemma_run_split(start, replies, k);
    lemma_disk_run_split(start, replies, disks, k);
    let t = lemma_carry_through(front, tail, guard, rest, disks.skip(k), at);
    lemma_run_split(start, replies.take(k + t), k);
    assert(replies.take(k + t).take(k) =~= replies.take(k));
    assert(replies.take(k + t).skip(k) =~= rest.take(t));
    assert(run_work(start, replies.take(k + t)) == WorkV::Running { agenda: tail, guard });
    lemma_next_turn(start, replies, k + t);
    publication_is_last(job, replies.take(k + t));
    lemma_step(start, replies, k + t);
    assert(asks(run_work(start, replies.take(k + t))) is Some);
    assert(was_renamed(disks[k + t], disks[k + t + 1], temp_text(job.store), job.store));
    assert(disks[k + t + 1].contains_key(path) == disks[k + t].contains_key(at));
    lemma_disk_stays(start, replies, disks, k + t + 1, replies.len() as int);
}

/// The last task that gives the entry its time, or its mode.
proof fn lemma_last_giver(agenda: Seq<TaskV>, path: Seq<char>, mode: bool, i: int) -> (last: int)
    requires
        0 <= i < agenda.len(),
        if mode {
            gives_mode(agenda[i], path)
        } else {
            gives_time(agenda[i], path)
        },
    ensures
        i <= last < agenda.len(),
        mode ==> gives_mode(agenda[last], path) && none_gives_mode(agenda.skip(last + 1), path),
        !mode ==> gives_time(agenda[last], path) && none_gives_time(agenda.skip(last + 1), path),
    decreases agenda.len() - i,
{
    let later = agenda.skip(i + 1);
    if mode && !none_gives_mode(later, path) {
        let j = choose|j: int| 0 <= j < later.len() && gives_mode(#[trigger] later[j], path);
        assert(later[j] == agenda[i + 1 + j]);
        lemma_last_giver(agenda, path, mode, i + 1 + j)
    } else if !mode && !none_gives_time(later, path) {
        let j = choose|j: int| 0 <= j < later.len() && gives_time(#[trigger] later[j], path);
        assert(later[j] == agenda[i + 1 + j]);
        lemma_last_giver(agenda, path, mode, i + 1 + j)
    } else {
        i
    }
}

proof fn lemma_plan_carries(entry: EntryV, src: Seq<char>, dest: Seq<char>)
    ensures
        all_carry(preserve_plan(entry, src, dest)),
{
    let plan = preserve_plan(entry, src, dest);
    assert forall|i: int| 0 <= i < plan.len() implies carries(#[trigger] plan[i]) by {
        let pair = lemma_plan_pair(entry, src, dest, i);
    }
}

/// The turn of a task that carries metadata over, and what it leaves on disk.
proof fn lemma_carrying_turn(job: JobV, replies: Seq<ReplyV>, disks: Seq<Disk>, i: int) -> (turn: (
    int,
    Option<Seq<char>>,
))
    requires
        !job.seal,
        disk_run(begun(work_plan(job, false)), replies, disks),
        run_work(begun(work_plan(job, false)), replies) == WorkV::Finished(Ok(())),
        0 <= i < metadata_plan(job).len(),
    ensures
        ({
            let (k, guard) = turn;
            let start = begun(work_plan(job, false));
            let later = metadata_plan(job).skip(i + 1) + seq![publish_task(job)];
            let task = metadata_plan(job)[i];
            &&& 0 <= k < replies.len() - 1
            &&& asks(run_work(start, replies.take(k))) == request_of(task)
            &&& replies[k] matches ReplyV::Metadata { mode, modified, .. } && match task {
                Task::PreserveNative { dest, directory, .. } => {
                    let set_mode = if directory {
                        seq![Task::Do(Request::SetMode { path: dest, mode })]
                    } else {
                        seq![]
                    };
                    &&& !mode_is_writable(mode)
                    &&& run_work(start, replies.take(k + 2)) == settle(
                        WorkV::Running { agenda: set_mode + later, guard },
                    )
                    &&& disks[k + 2].contains_key(dest)
                    &&& disks[k + 2][dest].modified == modified
                    &&& directory ==> {
                        &&& k + 3 <= replies.len()
                        &&& run_work(start, replies.take(k + 3)) == settle(
                            WorkV::Running { agenda: later, guard },
                        )
                        &&& disks[k + 3].contains_key(dest)
                        &&& disks[k + 3][dest].mode == mode
                    }
                },
                Task::PreserveSymlink { dest, .. } => {
                    &&& run_work(start, replies.take(k + 2)) == settle(
                        WorkV::Running { agenda: later, guard },
                    )
                    &&& disks[k + 2].contains_key(dest)
                    &&& disks[k + 2][dest].modified == modified
                },
                _ => false,
            }
        }),
{
    let plan = work_plan(job, false);
    let start = begun(plan);
    let middle = metadata_plan(job);
    let later = middle.skip(i + 1) + seq![publish_task(job)];
    let pair = lemma_plan_pair(job.entry, job.staged, temp_text(job.store), i);
    assert(plan[4 + i] == middle[i]);
    let (k, guard) = every_task_has_its_turn(plan, None, replies, 4 + i);
    let left = plan.skip(4 + i);
    assert(left[0] == middle[i]);
    assert(left.drop_first() =~= later);
    let tasks = expand(left[0], replies[k])->Ok_0;
    lemma_step(start, replies, k);
    let next = tasks + later;
    assert(next[0] == tasks[0]);
    assert(run_work(start, replies.take(k + 1)) == WorkV::Running { agenda: next, guard });
    lemma_next_turn(start, replies, k + 1);
    lemma_step(start, replies, k + 1);
    let after = tasks.drop_first() + later;
    assert(expand(next[0], replies[k + 1])->Ok_0 + next.drop_first() =~= after);
    assert(asks(run_work(start, replies.take(k + 1))) is Some);
    if pair.2 is Directory {
        assert(tasks.drop_first() =~= seq![tasks[1]]);
        assert(after[0] == tasks[1]);
        assert(run_work(start, replies.take(k + 2)) == WorkV::Running { agenda: after, guard });
        lemma_next_turn(start, replies, k + 2);
        lemma_step(start, replies, k + 2);
        assert(expand(after[0], replies[k + 2])->Ok_0 + after.drop_first() =~= later);
        assert(asks(run_work(start, replies.take(k + 2))) is Some);
    } else {
        assert(tasks.drop_first() =~= seq![]);
        assert(after =~= later);
        assert(Seq::<TaskV>::empty() + later =~= later);
    }
    (k, guard)
}

/// An object that keeps the metadata of its staged tree has them at its store path when the work
/// on it ends well: every entry has the modification time that the look at its counterpart in the
/// staged tree gave (`turn.0`), and every directory has the mode that such a look gave (`turn.1`),
/// which is not writable. Both are one look, unless two members of a directory have one name.
pub proof fn placed_objects_keep_their_metadata(
    job: JobV,
    replies: Seq<ReplyV>,
    disks: Seq<Disk>,
    from: Seq<char>,
    path: Seq<char>,
    kind: PairKind,
) -> (turn: (int, int))
    requires
        !job.seal,
        job.store.len() > 0,
        job.store.last() != '/',
        names_are_members(job.entry),
        disk_run(begun(work_plan(job, false)), replies, disks),
        run_work(begun(work_plan(job, false)), replies) == WorkV::Finished(Ok(())),
        is_pair(job.entry, job.staged, job.store, from, path, kind),
    ensures
        disks.last().contains_key(path),
        0 <= turn.0 < replies.len(),
        asks(run_work(begun(work_plan(job, false)), replies.take(turn.0))) == Some(
            Request::Inspect(from),
        ),
        replies[turn.0] matches ReplyV::Metadata { modified, .. } && disks.last()[path].modified
            == modified,
        kind is Directory ==> {
            &&& 0 <= turn.1 < replies.len()
            &&& asks(run_work(begun(work_plan(job, false)), replies.take(turn.1))) == Some(
                Request::Inspect(from),
            )
            &&& replies[turn.1] matches ReplyV::Metadata { mode, .. } && disks.last()[path].mode
                == mode && !mode_is_writable(mode)
        },
{
    reveal_strlit(".buck2.tmp");
    let temp = temp_text(job.store);
    let at = built_path(job.store, path);
    let plan = metadata_plan(job);
    assert(temp.last() == 'p');
    lemma_pair(job.entry, job.staged, job.store, temp, from, path, kind);
    lemma_plan_carries(job.entry, job.staged, temp);
    let i = lemma_pair_in_plan(job.entry, job.staged, temp, from, at, kind);
    let n = lemma_last_giver(plan, at, false, i);
    let pair = lemma_plan_pair(job.entry, job.staged, temp, n);
    lemma_pair(job.entry, job.staged, temp, temp, pair.0, at, pair.2);
    lemma_pair(job.entry, job.staged, temp, temp, from, at, kind);
    let (k, guard) = lemma_carrying_turn(job, replies, disks, n);
    let later = plan.skip(n + 1);
    let tail = seq![publish_task(job)];
    let front = match pair.2 {
        PairKind::Directory => seq![
            Task::Do(Request::SetMode { path: at, mode: replies[k]->Metadata_mode }),
        ] + later,
        _ => later,
    };
    assert(all_carry(front));
    assert(none_gives_time(front, at));
    if pair.2 is Directory {
        assert(front + tail =~= seq![
            Task::Do(Request::SetMode { path: at, mode: replies[k]->Metadata_mode }),
        ] + (later + tail));
    } else if pair.2 is File {
        assert(Seq::<TaskV>::empty() + (later + tail) =~= later + tail);
    }
    lemma_published_as_it_was(job, replies, disks, k + 2, front, guard, path);
    let m = if kind is Directory {
        let d = lemma_last_giver(plan, at, true, i);
        let pair = lemma_plan_pair(job.entry, job.staged, temp, d);
        lemma_pair(job.entry, job.staged, temp, temp, pair.0, at, pair.2);
        let (m, guard) = lemma_carrying_turn(job, replies, disks, d);
        let later = plan.skip(d + 1);
        assert(all_carry(later));
        lemma_published_as_it_was(job, replies, disks, m + 3, later, guard, path);
        m
    } else {
        k
    };
    (k, m)
}

/// What is no directory keeps the mode with which it was copied: it has at the store path the
/// mode that it had once the copy was complete (`built`).
pub proof fn copies_keep_their_modes(
    job: JobV,
    replies: Seq<ReplyV>,
    disks: Seq<Disk>,
    from: Seq<char>,
    path: Seq<char>,
    kind: PairKind,
) -> (built: int)
    requires
        !job.seal,
        job.store.len() > 0,
        job.store.last() != '/',
        names_are_members(job.entry),
        disk_run(begun(work_plan(job, false)), replies, disks),
        run_work(begun(work_plan(job, false)), replies) == WorkV::Finished(Ok(())),
        is_pair(job.entry, job.staged, job.store, from, path, kind),
        forall|source: Seq<char>|
            !#[trigger] is_pair(
                job.entry,
                job.staged,
                job.store,
                source,
                path,
                PairKind::Directory,
            ),
    ensures
        0 <= built < replies.len(),
        run_work(begun(work_plan(job, false)), replies.take(built)) matches WorkV::Running {
            agenda,
            ..
        } && agenda == metadata_plan(job) + seq![publish_task(job)],
        disks[built].contains_key(built_path(job.store, path)),
        disks.last().contains_key(path),
        disks.last()[path].mode == disks[built][built_path(job.store, path)].mode,
{
    reveal_strlit(".buck2.tmp");
    let whole = work_plan(job, false);
    let temp = temp_text(job.store);
    let at = built_path(job.store, path);
    let plan = metadata_plan(job);
    let tail = seq![publish_task(job)];
    assert(temp.last() == 'p');
    let turn = placed_objects_keep_their_metadata(job, replies, disks, from, path, kind);
    lemma_pair(job.entry, job.staged, job.store, temp, from, path, kind);
    lemma_plan_carries(job.entry, job.staged, temp);
    let i = lemma_pair_in_plan(job.entry, job.staged, temp, from, at, kind);
    assert(whole.skip(4) =~= plan + tail);
    assert(whole[4] == plan[0]);
    assert(carries(plan[0]));
    let (built, guard) = every_task_has_its_turn(whole, None, replies, 4);
    assert((plan + tail)[0] == plan[0]);
    assert forall|n: int| 0 <= n < plan.len() implies !gives_mode(#[trigger] plan[n], at) by {
        let (source, to, other) = lemma_plan_pair(job.entry, job.staged, temp, n);
        if gives_mode(plan[n], at) {
            lemma_pair(job.entry, job.staged, temp, job.store, source, at, PairKind::Directory);
            assert(job.store + at.skip(temp.len() as int) =~= path);
        }
    }
    lemma_published_as_it_was(job, replies, disks, built, plan, guard, path);
    built
}

} // verus!
