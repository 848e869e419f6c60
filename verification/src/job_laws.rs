//! What a whole job leaves on disk, from the lock to the end: sealed objects are sealed and pass
//! the check, other objects have the metadata of the staged tree, and the rest is left alone.

use vstd::prelude::*;

use crate::archive::ErrorV;
use crate::disk::{mode_is_writable, DiskNode};
use crate::entry::{names_are_members, EntryV};
use crate::materialize::{first_stage, locking, next_stage, stage_asks, working, StageV};
use crate::metadata_laws::placed_objects_keep_their_metadata;
use crate::paths::join_text;
use crate::realization_laws::run_stages;
use crate::seal_laws::{
    a_job_leaves_the_store_path_empty_or_whole, above, built_path, disk_run, disk_step,
    existing_objects_are_sealed, is_above_lock, is_kept, is_link_path, is_sealed_at, job_disk_run,
    lemma_lock_goes_on, lemma_lock_plan, lemma_under_transitive, locks, nothing_at, only_above,
    placed_objects_are_sealed, reads_as, same_outside, sealed_trees_are_recognized, tree_is_sealed,
    was_renamed, was_sealed, Disk,
};
use crate::sealed::normalized;
use crate::store_output::{lock_text, metadata_plan, temp_text, work_plan, JobV};
use crate::task::{ReplyV, Request};
use crate::work::{advance, asks, begun, WorkV};
use crate::work_laws::{
    building_stays_beside_the_store_path, changes, is_honest, is_honest_run, is_native_path,
    is_pair, lemma_finished_stage, lemma_finished_stays, lemma_honest_take,
    lemma_stages_split, publish_task, run_work, sealing_stays_within_the_store_path, stays_within,
    under, PairKind,
};

verus! {

/// One more reply is one more stage.
proof fn lemma_stage_step(job: JobV, start: StageV, replies: Seq<ReplyV>, k: int)
    requires
        0 <= k < replies.len(),
    ensures
        run_stages(job, start, replies.take(k + 1)) == next_stage(
            job,
            run_stages(job, start, replies.take(k)),
            replies[k],
        ),
{
    let stage = run_stages(job, start, replies.take(k));
    lemma_stages_split(job, start, replies.take(k + 1), k);
    assert(replies.take(k + 1).take(k) =~= replies.take(k));
    let one = replies.take(k + 1).skip(k);
    assert(one =~= seq![replies[k]]);
    assert(one.drop_first() =~= seq![]);
    assert(run_stages(job, stage, one) == run_stages(
        job,
        next_stage(job, stage, replies[k]),
        one.drop_first(),
    ));
}

/// Once a job works on its object, the work is all that it does.
proof fn lemma_working(job: JobV, work: WorkV, replies: Seq<ReplyV>)
    ensures
        run_stages(job, working(work), replies) == working(run_work(work, replies)),
        stage_asks(job, working(work)) == asks(work),
    decreases replies.len(),
{
    if work is Finished {
        lemma_finished_stage(job, working(work), replies);
        lemma_finished_stays(work, replies);
    } else if replies.len() > 0 {
        lemma_working(job, advance(work, replies[0]), replies.drop_first());
    }
}

/// A job that ends well has looked at its store path, and was told whether something is there.
proof fn lemma_look(job: JobV, stage: StageV, replies: Seq<ReplyV>) -> (m: int)
    requires
        stage is Checking || exists|work: WorkV| stage == locking(work),
        run_stages(job, stage, replies) == StageV::Finished(Ok(())),
    ensures
        0 <= m < replies.len(),
        run_stages(job, stage, replies.take(m)) is Checking,
        replies[m] is Exists,
    decreases replies.len(),
{
    assert(replies.take(0) =~= seq![]);
    if stage is Finished {
        lemma_finished_stage(job, stage, replies);
        0
    } else if stage is Checking {
        if !(replies[0] is Exists) {
            lemma_finished_stage(job, next_stage(job, stage, replies[0]), replies.drop_first());
        }
        0
    } else {
        let next = next_stage(job, stage, replies[0]);
        let m = lemma_look(job, next, replies.drop_first());
        assert(replies.take(m + 1).drop_first() =~= replies.drop_first().take(m));
        m + 1
    }
}

/// What follows the look at the store path is the work on the object, on the disks from there on.
proof fn lemma_after_look(job: JobV, replies: Seq<ReplyV>, disks: Seq<Disk>, m: int, i: int)
    requires
        job_disk_run(job, replies, disks),
        0 <= m < replies.len(),
        run_stages(job, first_stage(job), replies.take(m)) is Checking,
        replies[m] is Exists,
        0 <= i < replies.len() - m,
    ensures
        ({
            let start = begun(work_plan(job, replies[m]->Exists_0));
            let rest = replies.skip(m + 1);
            &&& disk_run(start, rest, disks.skip(m + 1))
            &&& is_honest_run(start, rest)
            &&& disks[m + 1] == disks[m]
            &&& disks[m].contains_key(job.store) == replies[m]->Exists_0
            &&& run_stages(job, first_stage(job), replies.take(m + 1 + i)) == working(
                run_work(start, rest.take(i)),
            )
            &&& stage_asks(job, run_stages(job, first_stage(job), replies.take(m + 1 + i)))
                == asks(run_work(start, rest.take(i)))
        }),
{
    let start = begun(work_plan(job, replies[m]->Exists_0));
    let rest = replies.skip(m + 1);
    lemma_stage_step(job, first_stage(job), replies, m);
    lemma_stage_of_work(job, replies, m, i);
    assert forall|n: int| 0 <= n < rest.len() implies match asks(
        #[trigger] run_work(start, rest.take(n)),
    ) {
        Some(request) => {
            &&& disk_step(disks.skip(m + 1)[n], request, rest[n], disks.skip(m + 1)[n + 1])
            &&& is_honest(Some(request), rest[n])
        },
        None => disks.skip(m + 1)[n + 1] == disks.skip(m + 1)[n],
    } by {
        lemma_stage_of_work(job, replies, m, n);
        assert(stage_asks(job, run_stages(job, first_stage(job), replies.take(m + 1 + n))) == asks(
            run_work(start, rest.take(n)),
        ));
    }
    assert forall|n: int| 0 <= n < rest.len() implies is_honest(
        asks(#[trigger] run_work(start, rest.take(n))),
        rest[n],
    ) by {}
    lemma_honest(start, rest);
}

proof fn lemma_stage_of_work(job: JobV, replies: Seq<ReplyV>, m: int, i: int)
    requires
        0 <= m < replies.len(),
        run_stages(job, first_stage(job), replies.take(m)) is Checking,
        replies[m] is Exists,
        0 <= i < replies.len() - m,
    ensures
        ({
            let work = run_work(
                begun(work_plan(job, replies[m]->Exists_0)),
                replies.skip(m + 1).take(i),
            );
            let stage = run_stages(job, first_stage(job), replies.take(m + 1 + i));
            stage == working(work) && stage_asks(job, stage) == asks(work)
        }),
{
    let start = begun(work_plan(job, replies[m]->Exists_0));
    let rest = replies.skip(m + 1);
    lemma_stage_step(job, first_stage(job), replies, m);
    lemma_stages_split(job, first_stage(job), replies.take(m + 1 + i), m + 1);
    assert(replies.take(m + 1 + i).take(m + 1) =~= replies.take(m + 1));
    assert(replies.take(m + 1 + i).skip(m + 1) =~= rest.take(i));
    lemma_working(job, start, rest.take(i));
    lemma_working(job, run_work(start, rest.take(i)), seq![]);
}

proof fn lemma_honest(work: WorkV, replies: Seq<ReplyV>)
    requires
        forall|n: int|
            0 <= n < replies.len() ==> is_honest(
                asks(#[trigger] run_work(work, replies.take(n))),
                replies[n],
            ),
    ensures
        is_honest_run(work, replies),
    decreases replies.len(),
{
    if replies.len() > 0 {
        let next = advance(work, replies[0]);
        let rest = replies.drop_first();
        assert(replies.take(0) =~= seq![]);
        assert(run_work(work, replies.take(0)) == work);
        assert forall|n: int| 0 <= n < rest.len() implies is_honest(
            asks(#[trigger] run_work(next, rest.take(n))),
            rest[n],
        ) by {
            assert(replies.take(n + 1).drop_first() =~= rest.take(n));
            assert(run_work(work, replies.take(n + 1)) == run_work(next, rest.take(n)));
        }
        lemma_honest(next, rest);
    }
}

/// The look at the store path finds something there.
pub open spec fn finds_object(job: JobV, replies: Seq<ReplyV>) -> bool {
    exists|k: int|
        0 <= k < replies.len() && #[trigger] run_stages(job, first_stage(job), replies.take(k))
            is Checking && replies[k] == ReplyV::Exists(true)
}

/// The store path does not end in a slash, so that its build place is beside it, and the names in
/// the entry stand for one entry each.
pub open spec fn is_placeable(job: JobV) -> bool {
    &&& job.store.len() > 0
    &&& job.store.last() != '/'
    &&& names_are_members(job.entry)
}

/// A job looks at its store path once.
proof fn lemma_looks_once(job: JobV, replies: Seq<ReplyV>, m: int)
    requires
        0 <= m < replies.len(),
        run_stages(job, first_stage(job), replies.take(m)) is Checking,
        replies[m] == ReplyV::Exists(false),
    ensures
        !finds_object(job, replies),
{
    if finds_object(job, replies) {
        let k = choose|k: int|
            0 <= k < replies.len() && #[trigger] run_stages(
                job,
                first_stage(job),
                replies.take(k),
            ) is Checking && replies[k] == ReplyV::Exists(true);
        if k < m {
            lemma_stage_of_work(job, replies, k, m - k - 1);
        } else if m < k {
            lemma_stage_of_work(job, replies, m, k - m - 1);
        }
    }
}

/// The work of a job that ends well, and the moment of the look before it.
proof fn lemma_work_of_job(job: JobV, replies: Seq<ReplyV>, disks: Seq<Disk>) -> (m: int)
    requires
        job_disk_run(job, replies, disks),
        run_stages(job, first_stage(job), replies) == StageV::Finished(Ok(())),
    ensures
        0 <= m < replies.len(),
        run_stages(job, first_stage(job), replies.take(m)) is Checking,
        replies[m] is Exists,
        ({
            let start = begun(work_plan(job, replies[m]->Exists_0));
            let rest = replies.skip(m + 1);
            &&& disk_run(start, rest, disks.skip(m + 1))
            &&& run_work(start, rest) == WorkV::Finished(Ok(()))
            &&& disks.skip(m + 1).last() == disks.last()
        }),
{
    let m = lemma_look(job, first_stage(job), replies);
    let rest = replies.skip(m + 1);
    let n = rest.len() as int;
    lemma_after_look(job, replies, disks, m, n);
    assert(rest.take(n) =~= rest);
    assert(replies.take(m + 1 + n) =~= replies);
    let work = run_work(begun(work_plan(job, replies[m]->Exists_0)), rest);
    if let WorkV::Finished(Ok(unit)) = work {
        assert(unit == ());
    }
    m
}

/// A job that seals its object and ends well leaves it sealed: every directory and file of the
/// entry has the sealed modification time and no write bit, every symbolic link has the sealed
/// modification time. The modes are else those from before: of an object that the look at the
/// store path (`turn.0`) found, those that it had then; of one that was built, those that it had
/// when it was complete (`turn.1`).
pub proof fn a_sealing_job_leaves_a_sealed_object(
    job: JobV,
    replies: Seq<ReplyV>,
    disks: Seq<Disk>,
    path: Seq<char>,
    native: bool,
) -> (turn: (int, int))
    requires
        job.seal,
        !finds_object(job, replies) ==> is_placeable(job),
        job_disk_run(job, replies, disks),
        run_stages(job, first_stage(job), replies) == StageV::Finished(Ok(())),
        if native {
            is_native_path(job.entry, job.store, path)
        } else {
            is_link_path(job.entry, job.store, path)
        },
    ensures
        is_sealed_at(disks.last(), path, native),
        0 <= turn.0 < replies.len(),
        run_stages(job, first_stage(job), replies.take(turn.0)) is Checking,
        match replies[turn.0] {
            ReplyV::Exists(true) => was_sealed(
                disks[turn.0],
                path,
                disks.last(),
                path,
                native,
            ),
            ReplyV::Exists(false) => {
                &&& turn.0 < turn.1 < replies.len()
                &&& run_stages(job, first_stage(job), replies.take(turn.1)) matches StageV::Working(
                    WorkV::Running { agenda, .. },
                ) && agenda == metadata_plan(job) + seq![publish_task(job)]
                &&& was_sealed(
                    disks[turn.1],
                    built_path(job.store, path),
                    disks.last(),
                    path,
                    native,
                )
            },
            _ => false,
        },
{
    let m = lemma_work_of_job(job, replies, disks);
    let rest = replies.skip(m + 1);
    let after = disks.skip(m + 1);
    lemma_after_look(job, replies, disks, m, 0);
    assert(after[0] == disks[m + 1]);
    if replies[m]->Exists_0 {
        existing_objects_are_sealed(job, rest, after, path, native);
        (m, 0)
    } else {
        lemma_looks_once(job, replies, m);
        let built = placed_objects_are_sealed(job, rest, after, path, native);
        lemma_after_look(job, replies, disks, m, built);
        (m, m + 1 + built)
    }
}

/// Sealing and checking agree: what a sealing job that ended well left at its store path passes
/// the check for sealed metadata when it is read back.
pub proof fn what_a_job_seals_passes_the_check(
    job: JobV,
    replies: Seq<ReplyV>,
    disks: Seq<Disk>,
    node: DiskNode,
)
    requires
        job.seal,
        !finds_object(job, replies) ==> is_placeable(job),
        job_disk_run(job, replies, disks),
        run_stages(job, first_stage(job), replies) == StageV::Finished(Ok(())),
        reads_as(node, job.entry, job.store, disks.last()),
    ensures
        normalized(node) == Ok::<bool, ErrorV>(true),
{
    let disk = disks.last();
    assert forall|path: Seq<char>| #[trigger]
        is_native_path(job.entry, job.store, path) implies is_sealed_at(disk, path, true) by {
        let turn = a_sealing_job_leaves_a_sealed_object(job, replies, disks, path, true);
    }
    assert forall|path: Seq<char>| #[trigger]
        is_link_path(job.entry, job.store, path) implies is_sealed_at(disk, path, false) by {
        let turn = a_sealing_job_leaves_a_sealed_object(job, replies, disks, path, false);
    }
    assert(tree_is_sealed(disk, job.entry, job.store));
    sealed_trees_are_recognized(node, job.entry, job.store, disk);
}

/// A job that begins with nothing at its store path finds nothing there.
proof fn lemma_finds_nothing(job: JobV, replies: Seq<ReplyV>, disks: Seq<Disk>, m: int)
    requires
        is_placeable(job),
        job_disk_run(job, replies, disks),
        nothing_at(disks[0], job.store),
        0 <= m < replies.len(),
        run_stages(job, first_stage(job), replies.take(m)) is Checking,
        replies[m] is Exists,
    ensures
        replies[m] == ReplyV::Exists(false),
{
    let k = a_job_leaves_the_store_path_empty_or_whole(job, replies, disks, m);
    lemma_after_look(job, replies, disks, m, 0);
    assert(under(job.store, job.store));
}

/// A directory above a place in `base` that is not itself there is above `base`.
proof fn lemma_above_base(directory: Seq<char>, place: Seq<char>, base: Seq<char>)
    requires
        above(directory, place),
        under(place, base),
        !under(directory, base),
    ensures
        above(directory, base),
{
    if directory.len() >= base.len() && under(place, directory) {
        assert(place.take(base.len() as int) == base) by {
            if place == base {
                assert(place.take(base.len() as int) =~= base);
            }
        }
        assert(directory.take(base.len() as int) =~= place.take(base.len() as int));
        if directory.len() > base.len() {
            assert(directory[base.len() as int] == place.take(
                directory.len() as int,
            )[base.len() as int]);
        } else {
            assert(directory.take(base.len() as int) =~= directory);
        }
    } else if under(place, directory) {
        let n = directory.len() as int;
        assert(base.take(n) =~= place.take(n)) by {
            if place != base {
                assert(place.take(base.len() as int).take(n) =~= place.take(n));
            }
        }
        assert(base[n] == place.take(base.len() as int)[n] || place == base);
    }
}

proof fn lemma_outside_step(
    base: Seq<char>,
    before: Disk,
    request: Request<Seq<char>>,
    reply: ReplyV,
    after: Disk,
    path: Seq<char>,
)
    requires
        stays_within(request, base),
        disk_step(before, request, reply, after),
        !under(path, base),
        before.contains_key(path),
    ensures
        after.contains_key(path),
        is_kept(before[path], after[path], above(path, base)),
{
    if let Some(place) = changes(request) {
        assert(under(place, base));
        if under(path, place) {
            lemma_under_transitive(path, place, base);
        }
        if above(path, place) {
            lemma_above_base(path, place, base);
        }
        assert(path != place);
        match (request, reply) {
            (Request::SetMode { .. }, ReplyV::Done) => {
                assert(after[path] == before[path]);
            },
            (Request::SetModified { .. }, ReplyV::Done) => {
                assert(after[path] == before[path]);
            },
            (Request::SetSymlinkModified { .. }, ReplyV::Done) => {
                assert(after[path] == before[path]);
            },
            (Request::CreateDirAll(_), _) => {
                assert(only_above(before, after, place));
                assert(after.contains_key(path));
            },
            _ => {
                assert(same_outside(before, after, place));
                assert(after.contains_key(path));
            },
        }
    } else {
        assert(after == before);
    }
}

/// The work on an object leaves the rest of the disk alone.
proof fn lemma_work_leaves_the_rest(
    job: JobV,
    exists_before: bool,
    replies: Seq<ReplyV>,
    disks: Seq<Disk>,
    t: int,
    path: Seq<char>,
)
    requires
        is_placeable(job),
        is_honest_run(begun(work_plan(job, exists_before)), replies),
        disk_run(begun(work_plan(job, exists_before)), replies, disks),
        0 <= t <= replies.len(),
        disks[0].contains_key(path),
        !under(path, job.store),
        !under(path, temp_text(job.store)),
    ensures
        disks[t].contains_key(path),
        is_kept(disks[0][path], disks[t][path], lies_over(job, path)),
    decreases t,
{
    if t > 0 {
        lemma_work_leaves_the_rest(job, exists_before, replies, disks, t - 1, path);
        let start = begun(work_plan(job, exists_before));
        let temp = temp_text(job.store);
        let done = replies.take(t - 1);
        lemma_honest_take(start, replies, t - 1);
        if let Some(request) = asks(run_work(start, done)) {
            let (before, after) = (disks[t - 1], disks[t]);
            if !exists_before {
                building_stays_beside_the_store_path(job, done);
                if request is Rename {
                    if replies[t - 1] is Done {
                        assert(was_renamed(before, after, temp, job.store));
                        assert(after.contains_key(path));
                    }
                } else {
                    lemma_outside_step(temp, before, request, replies[t - 1], after, path);
                }
            } else if job.seal {
                sealing_stays_within_the_store_path(job, done);
                lemma_outside_step(job.store, before, request, replies[t - 1], after, path);
            } else {
                lemma_finished_stays(start, done);
            }
        }
    }
}

/// A step towards the lock leaves everything but the lock alone.
proof fn lemma_locking_step(
    job: JobV,
    work: WorkV,
    reply: ReplyV,
    before: Disk,
    after: Disk,
    path: Seq<char>,
)
    requires
        locks(work, job.store),
        asks(work) is Some ==> disk_step(before, asks(work)->0, reply, after),
        before.contains_key(path),
        !under(path, lock_text(job.store)),
    ensures
        after.contains_key(path),
        is_kept(before[path], after[path], lies_over(job, path)),
        locking(advance(work, reply)) matches StageV::Locking(next) ==> locks(next, job.store),
{
    lemma_lock_goes_on(work, job.store, reply);
    match asks(work) {
        Some(Request::CreateDirAll(place)) => {
            assert(only_above(before, after, place));
            assert(after.contains_key(path));
            if above(path, place) {
                lemma_above_lock(path, place, job.store);
            }
        },
        Some(Request::CreateLock(place)) => {
            assert(same_outside(before, after, place));
            assert(after.contains_key(path));
        },
        _ => {
            assert(after == before);
        },
    }
}

/// While a job takes its lock, it is at work on that, and leaves everything but the lock alone.
proof fn lemma_locking_leaves_the_rest(
    job: JobV,
    replies: Seq<ReplyV>,
    disks: Seq<Disk>,
    t: int,
    path: Seq<char>,
)
    requires
        is_placeable(job),
        job_disk_run(job, replies, disks),
        0 <= t <= replies.len(),
        run_stages(job, first_stage(job), replies.take(t)) is Locking || run_stages(
            job,
            first_stage(job),
            replies.take(t),
        ) is Checking,
        disks[0].contains_key(path),
        !under(path, lock_text(job.store)),
    ensures
        disks[t].contains_key(path),
        is_kept(disks[0][path], disks[t][path], lies_over(job, path)),
        run_stages(job, first_stage(job), replies.take(t)) matches StageV::Locking(work) ==> locks(
            work,
            job.store,
        ),
    decreases t,
{
    let start = first_stage(job);
    if t == 0 {
        assert(replies.take(0) =~= seq![]);
        lemma_lock_plan(job.store);
    } else {
        lemma_stage_step(job, start, replies, t - 1);
        let stage = run_stages(job, start, replies.take(t - 1));
        assert(stage is Locking);
        lemma_locking_leaves_the_rest(job, replies, disks, t - 1, path);
        if let StageV::Locking(work) = stage {
            lemma_locking_step(job, work, replies[t - 1], disks[t - 1], disks[t], path);
        }
    }
}

/// A directory above one that the lock is in is above the lock.
proof fn lemma_above_lock(directory: Seq<char>, place: Seq<char>, store: Seq<char>)
    requires
        above(directory, place),
        is_above_lock(place, store),
    ensures
        above(directory, lock_text(store)),
{
    let lock = lock_text(store);
    let n = directory.len() as int;
    if under(place, directory) {
        assert(lock.take(n) =~= place.take(n));
        assert(lock[n] == lock.take(place.len() as int)[n]);
    }
    assert(store.len() > 0);
    assert(lock.len() > 1) by {
        reveal_strlit(".buck2.lock");
    }
}

/// A job leaves everything alone but the store path, the place beside it where the object is
/// built, and the lock: at every moment, what was elsewhere on disk is there as it was,
/// except that directories above these places may have another modification time.
pub proof fn a_job_leaves_the_rest_alone(
    job: JobV,
    replies: Seq<ReplyV>,
    disks: Seq<Disk>,
    t: int,
    path: Seq<char>,
)
    requires
        is_placeable(job),
        job_disk_run(job, replies, disks),
        0 <= t <= replies.len(),
        disks[0].contains_key(path),
        is_apart(job, path),
    ensures
        disks[t].contains_key(path),
        is_kept(disks[0][path], disks[t][path], lies_over(job, path)),
    decreases t,
{
    let start = first_stage(job);
    let stage = run_stages(job, start, replies.take(t));
    if stage is Locking || stage is Checking {
        lemma_locking_leaves_the_rest(job, replies, disks, t, path);
    } else if t == 0 {
        assert(replies.take(0) =~= seq![]);
        lemma_lock_plan(job.store);
    } else {
        let before = run_stages(job, start, replies.take(t - 1));
        a_job_leaves_the_rest_alone(job, replies, disks, t - 1, path);
        lemma_stage_step(job, start, replies, t - 1);
        match before {
            StageV::Finished(_) => {},
            StageV::Checking => {},
            StageV::Locking(work) => {
                lemma_locking_leaves_the_rest(job, replies, disks, t - 1, path);
                lemma_locking_step(job, work, replies[t - 1], disks[t - 1], disks[t], path);
            },
            StageV::Working(work) => {
                let m = lemma_look_before_work(job, replies, t - 1);
                let rest = replies.skip(m + 1);
                lemma_after_look(job, replies, disks, m, 0);
                a_job_leaves_the_rest_alone(job, replies, disks, m, path);
                lemma_work_leaves_the_rest(
                    job,
                    replies[m]->Exists_0,
                    rest,
                    disks.skip(m + 1),
                    t - m - 1,
                    path,
                );
            },
        }
    }
}

/// A job that works on its object has looked at its store path before.
proof fn lemma_look_before_work(job: JobV, replies: Seq<ReplyV>, t: int) -> (m: int)
    requires
        0 <= t <= replies.len(),
        run_stages(job, first_stage(job), replies.take(t)) is Working,
    ensures
        0 <= m < t,
        run_stages(job, first_stage(job), replies.take(m)) is Checking,
        replies[m] is Exists,
    decreases t,
{
    let start = first_stage(job);
    if t == 0 {
        assert(replies.take(0) =~= seq![]);
        0
    } else {
        lemma_stage_step(job, start, replies, t - 1);
        if run_stages(job, start, replies.take(t - 1)) is Checking {
            t - 1
        } else {
            lemma_look_before_work(job, replies, t - 1)
        }
    }
}

/// A job that keeps the metadata of its staged tree, finds nothing at its store path and ends
/// well leaves the object with them: every entry has the modification time that the look at its
/// counterpart in the staged tree gave (`turn.0`), and every directory has the mode that such a
/// look gave (`turn.1`), which is not writable. Where the counterpart is apart from what the job
/// works on, these are the time and the mode that it had when the job began.
pub proof fn a_job_keeps_the_staged_metadata(
    job: JobV,
    replies: Seq<ReplyV>,
    disks: Seq<Disk>,
    from: Seq<char>,
    path: Seq<char>,
    kind: PairKind,
) -> (turn: (int, int))
    requires
        !job.seal,
        is_placeable(job),
        job_disk_run(job, replies, disks),
        run_stages(job, first_stage(job), replies) == StageV::Finished(Ok(())),
        !finds_object(job, replies),
        is_pair(job.entry, job.staged, job.store, from, path, kind),
    ensures
        disks.last().contains_key(path),
        0 <= turn.0 < replies.len(),
        stage_asks(job, run_stages(job, first_stage(job), replies.take(turn.0))) == Some(
            Request::Inspect(from),
        ),
        replies[turn.0] matches ReplyV::Metadata { modified, .. } && disks.last()[path].modified
            == modified,
        kind is Directory ==> {
            &&& 0 <= turn.1 < replies.len()
            &&& stage_asks(job, run_stages(job, first_stage(job), replies.take(turn.1))) == Some(
                Request::Inspect(from),
            )
            &&& replies[turn.1] matches ReplyV::Metadata { mode, .. } && disks.last()[path].mode
                == mode && !mode_is_writable(mode)
        },
        is_apart(job, from) && !lies_over(job, from) && disks[0].contains_key(from) ==> {
            &&& disks.last()[path].modified == disks[0][from].modified
            &&& kind is Directory ==> disks.last()[path].mode == disks[0][from].mode
        },
{
    let m = lemma_work_of_job(job, replies, disks);
    assert(replies[m] == ReplyV::Exists(false)) by {
        if replies[m]->Exists_0 {
            assert(run_stages(job, first_stage(job), replies.take(m)) is Checking);
        }
    }
    let rest = replies.skip(m + 1);
    let after = disks.skip(m + 1);
    let (k, d) = placed_objects_keep_their_metadata(job, rest, after, from, path, kind);
    lemma_after_look(job, replies, disks, m, k);
    if kind is Directory {
        lemma_after_look(job, replies, disks, m, d);
    }
    if is_apart(job, from) && !lies_over(job, from) && disks[0].contains_key(from) {
        a_job_leaves_the_rest_alone(job, replies, disks, m + 1 + k, from);
        if kind is Directory {
            a_job_leaves_the_rest_alone(job, replies, disks, m + 1 + d, from);
        }
    }
    (m + 1 + k, m + 1 + d)
}

/// The path is that of a directory above the store path or the places beside it.
pub open spec fn lies_over(job: JobV, path: Seq<char>) -> bool {
    ||| above(path, job.store)
    ||| above(path, temp_text(job.store))
    ||| above(path, lock_text(job.store))
}

/// The path is neither below the store path nor below the places beside it that a job uses.
pub open spec fn is_apart(job: JobV, path: Seq<char>) -> bool {
    &&& !under(path, job.store)
    &&& !under(path, temp_text(job.store))
    &&& !under(path, lock_text(job.store))
}

proof fn lemma_pair_on_path(
    entry: EntryV,
    src: Seq<char>,
    dest: Seq<char>,
    from: Seq<char>,
    to: Seq<char>,
    kind: PairKind,
)
    requires
        is_pair(entry, src, dest, from, to, kind),
    ensures
        if kind is Symlink {
            is_link_path(entry, dest, to)
        } else {
            is_native_path(entry, dest, to)
        },
    decreases entry,
{
    if entry is Dir && !(from == src && to == dest && kind is Directory) {
        let members = entry->Dir_0;
        let j = choose|j: int|
            0 <= j < members.len() && is_pair(
                (#[trigger] members[j]).1,
                join_text(src, members[j].0),
                join_text(dest, members[j].0),
                from,
                to,
                kind,
            );
        let name = members[j].0;
        let below = join_text(dest, name);
        lemma_pair_on_path(members[j].1, join_text(src, name), below, from, to, kind);
        if kind is Symlink {
            assert(is_link_path(members[j].1, below, to));
        } else {
            assert(is_native_path(members[j].1, below, to));
        }
    }
}

proof fn lemma_job_take(job: JobV, replies: Seq<ReplyV>, disks: Seq<Disk>, t: int)
    requires
        job_disk_run(job, replies, disks),
        0 <= t <= replies.len(),
    ensures
        job_disk_run(job, replies.take(t), disks.take(t + 1)),
{
    assert forall|k: int| 0 <= k < t implies match stage_asks(
        job,
        #[trigger] run_stages(job, first_stage(job), replies.take(t).take(k)),
    ) {
        Some(request) => {
            &&& disk_step(
                disks.take(t + 1)[k],
                request,
                replies.take(t)[k],
                disks.take(t + 1)[k + 1],
            )
            &&& is_honest(Some(request), replies.take(t)[k])
        },
        None => disks.take(t + 1)[k + 1] == disks.take(t + 1)[k],
    } by {
        assert(replies.take(t).take(k) =~= replies.take(k));
    }
}

/// The entry has its final metadata: it is sealed where the job seals, and else has the time of
/// its counterpart in the staged tree and, if it is a directory, its mode, which is not writable.
pub open spec fn is_final_at(
    job: JobV,
    before: Disk,
    after: Disk,
    from: Seq<char>,
    path: Seq<char>,
    kind: PairKind,
) -> bool {
    if job.seal {
        is_sealed_at(after, path, !(kind is Symlink))
    } else {
        &&& after.contains_key(path)
        &&& after[path].modified == before[from].modified
        &&& kind is Directory ==> {
            &&& after[path].mode == before[from].mode
            &&& !mode_is_writable(after[path].mode)
        }
    }
}

/// At every moment of a job that begins with nothing at its store path, the store path is either
/// empty or holds the whole object with its final metadata: all that was in the place where it
/// was built, which is then gone, and every entry of the object sealed or with the metadata of its
/// counterpart in the staged tree. It holds the object exactly when the job has ended well; so a
/// failure leaves it empty.
pub proof fn a_job_leaves_the_store_path_empty_or_final(
    job: JobV,
    replies: Seq<ReplyV>,
    disks: Seq<Disk>,
    t: int,
    from: Seq<char>,
    path: Seq<char>,
    kind: PairKind,
) -> (k: int)
    requires
        is_placeable(job),
        job_disk_run(job, replies, disks),
        nothing_at(disks[0], job.store),
        0 <= t <= replies.len(),
        is_pair(job.entry, job.staged, job.store, from, path, kind),
        !job.seal ==> is_apart(job, from) && !lies_over(job, from) && disks[0].contains_key(from),
    ensures
        match run_stages(job, first_stage(job), replies.take(t)) {
            StageV::Finished(Ok(())) => {
                &&& 0 <= k < t
                &&& was_renamed(disks[k], disks[t], temp_text(job.store), job.store)
                &&& nothing_at(disks[t], temp_text(job.store))
                &&& is_final_at(job, disks[0], disks[t], from, path, kind)
            },
            _ => nothing_at(disks[t], job.store),
        },
{
    let done = replies.take(t);
    let k = a_job_leaves_the_store_path_empty_or_whole(job, replies, disks, t);
    if let StageV::Finished(Ok(unit)) = run_stages(job, first_stage(job), done) {
        assert(unit == ());
        let seen = disks.take(t + 1);
        lemma_job_take(job, replies, disks, t);
        assert(seen.last() == disks[t] && seen[0] == disks[0]);
        let m = lemma_work_of_job(job, done, seen);
        lemma_finds_nothing(job, done, seen, m);
        lemma_looks_once(job, done, m);
        if job.seal {
            lemma_pair_on_path(job.entry, job.staged, job.store, from, path, kind);
            let turn = a_sealing_job_leaves_a_sealed_object(
                job,
                done,
                seen,
                path,
                !(kind is Symlink),
            );
        } else {
            let turn = a_job_keeps_the_staged_metadata(job, done, seen, from, path, kind);
        }
    }
    k
}

} // verus!
