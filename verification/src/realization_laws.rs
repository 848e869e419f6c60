//! What holds of every realization of an artifact at its store path.

use vstd::prelude::*;

use crate::entry::same_entry;
use crate::materialize::{
    first_stage, locking, next_run, next_stage, run_asks, stage_asks, RunReply, RunRequest, RunV,
    StageV,
};
use crate::store_output::{lock_plan, JobV, ReadBack};
use crate::task::{ReplyV, Request, StoreOutputError};
use crate::work::{advance, begun, WorkV};
use crate::work_laws::{every_task_has_its_turn, lemma_finished_stage, run_work};

verus! {

/// Where a realization stands after a sequence of replies.
pub open spec fn run_job(job: JobV, run: RunV, replies: Seq<RunReply>) -> RunV
    decreases replies.len(),
{
    if replies.len() == 0 {
        run
    } else {
        run_job(job, next_run(job, run, replies[0]), replies.drop_first())
    }
}

/// A realization ends well only on a look at the store path that found the recorded entry.
pub proof fn success_is_verified(job: JobV, run: RunV, replies: Seq<RunReply>) -> (k: int)
    requires
        !(run is Finished),
        run_job(job, run, replies) == RunV::Finished(Ok(())),
    ensures
        0 <= k < replies.len(),
        run_asks(job, run_job(job, run, replies.take(k))) == Some(RunRequest::ReadBack(job.store)),
        replies[k] matches RunReply::Found(ReadBack::Entry(entry)) && same_entry(entry@, job.entry),
        run_job(job, run, replies.take(k + 1)) == RunV::Finished(Ok(())),
    decreases replies.len(),
{
    let next = next_run(job, run, replies[0]);
    assert(replies.take(0) =~= seq![]);
    if next is Finished {
        lemma_finished(job, next, replies.drop_first());
        assert(replies.take(1).drop_first() =~= seq![]);
        assert(run_job(job, run, replies.take(1)) == run_job(
            job,
            next,
            replies.take(1).drop_first(),
        ));
        0
    } else {
        let k = success_is_verified(job, next, replies.drop_first());
        assert(replies.take(k + 1).drop_first() =~= replies.drop_first().take(k));
        assert(replies.take(k + 2).drop_first() =~= replies.drop_first().take(k + 1));
        k + 1
    }
}

proof fn lemma_finished(job: JobV, run: RunV, replies: Seq<RunReply>)
    requires
        run is Finished,
    ensures
        run_job(job, run, replies) == run,
    decreases replies.len(),
{
    if replies.len() > 0 {
        lemma_finished(job, run, replies.drop_first());
    }
}

/// An object at the store path that is not the recorded one is refused, and nothing is asked of
/// the file system after that.
pub proof fn other_objects_are_refused(job: JobV, found: ReadBack)
    requires
        found matches ReadBack::Entry(entry) && !same_entry(entry@, job.entry),
    ensures
        next_run(job, RunV::VerifyingFirst, RunReply::Found(found)) == RunV::Finished(
            Err(StoreOutputError::Mismatch(job.store)),
        ),
        next_run(job, RunV::VerifyingLast, RunReply::Found(found)) == RunV::Finished(
            Err(StoreOutputError::Mismatch(job.store)),
        ),
{
}

/// The recorded object at the store path is enough where it is not to be sealed: nothing is asked
/// of the file system but whether it is there.
pub proof fn recorded_objects_are_kept(job: JobV, found: ReadBack)
    requires
        !job.seal,
        found matches ReadBack::Entry(entry) && same_entry(entry@, job.entry),
    ensures
        next_run(job, RunV::VerifyingFirst, RunReply::Found(found)) == RunV::Finished(Ok(())),
{
}

/// Where a job stands after a sequence of replies.
pub open spec fn run_stages(job: JobV, stage: StageV, replies: Seq<ReplyV>) -> StageV
    decreases replies.len(),
{
    if replies.len() == 0 {
        stage
    } else {
        run_stages(job, next_stage(job, stage, replies[0]), replies.drop_first())
    }
}

/// A job that is past its lock has ended the work on it well.
proof fn lemma_locking_ends(job: JobV, work: WorkV, replies: Seq<ReplyV>) -> (m: int)
    requires
        ({
            let stage = run_stages(job, locking(work), replies);
            stage is Checking || stage is Working || stage == StageV::Finished(Ok(()))
        }),
    ensures
        0 <= m <= replies.len(),
        run_work(work, replies.take(m)) == WorkV::Finished(Ok(())),
        forall|j: int| 0 <= j < m ==> !(#[trigger] run_work(work, replies.take(j)) is Finished),
    decreases replies.len(),
{
    assert(replies.take(0) =~= seq![]);
    match work {
        WorkV::Finished(Ok(unit)) => {
            assert(unit == ());
            0
        },
        WorkV::Finished(Err(e)) => {
            lemma_finished_stage(job, locking(work), replies);
            0
        },
        _ => {
            let next = advance(work, replies[0]);
            let m = lemma_locking_ends(job, next, replies.drop_first());
            assert(replies.take(m + 1).drop_first() =~= replies.drop_first().take(m));
            assert forall|j: int| 0 <= j < m + 1 implies !(#[trigger] run_work(
                work,
                replies.take(j),
            ) is Finished) by {
                if j > 0 {
                    assert(replies.take(j).drop_first() =~= replies.drop_first().take(j - 1));
                    assert(run_work(work, replies.take(j)) == run_work(
                        next,
                        replies.drop_first().take(j - 1),
                    ));
                }
            }
            m + 1
        },
    }
}

/// While the work on the lock goes on, it is all that the job does.
proof fn lemma_locking_stage(job: JobV, work: WorkV, replies: Seq<ReplyV>, j: int)
    requires
        0 <= j <= replies.len(),
        forall|i: int| 0 <= i < j ==> !(#[trigger] run_work(work, replies.take(i)) is Finished),
    ensures
        run_stages(job, locking(work), replies.take(j)) == locking(run_work(work, replies.take(j))),
    decreases j,
{
    if j == 0 {
        assert(replies.take(0) =~= seq![]);
    } else {
        let next = advance(work, replies[0]);
        let rest = replies.drop_first();
        assert(replies.take(0) =~= seq![]);
        assert(!(run_work(work, replies.take(0)) is Finished));
        assert forall|i: int| 0 <= i < j - 1 implies !(#[trigger] run_work(next, rest.take(i))
            is Finished) by {
            assert(replies.take(i + 1).drop_first() =~= rest.take(i));
            assert(run_work(work, replies.take(i + 1)) == run_work(next, rest.take(i)));
        }
        lemma_locking_stage(job, next, rest, j - 1);
        assert(replies.take(j).drop_first() =~= rest.take(j - 1));
    }
}

/// A job looks at its store path, and works on it, only once it has the exclusive lock: there is
/// a moment before at which the lock was asked for and granted.
pub proof fn the_lock_comes_first(job: JobV, replies: Seq<ReplyV>) -> (k: int)
    requires
        ({
            let stage = run_stages(job, first_stage(job), replies);
            stage is Checking || stage is Working || stage == StageV::Finished(Ok(()))
        }),
    ensures
        0 <= k < replies.len(),
        run_stages(job, first_stage(job), replies.take(k)) is Locking,
        stage_asks(job, run_stages(job, first_stage(job), replies.take(k))) == Some(
            Request::<Seq<char>>::LockExclusive,
        ),
        replies[k] is Done,
{
    let plan = lock_plan(job.store);
    let start = begun(plan);
    let m = lemma_locking_ends(job, start, replies);
    let i = plan.len() - 1;
    let (k, guard) = every_task_has_its_turn(plan, None, replies.take(m), i);
    assert(replies.take(m).take(k) =~= replies.take(k));
    assert(replies.take(m)[k] == replies[k]);
    lemma_locking_stage(job, start, replies, k);
    assert(plan.skip(i)[0] == plan[i]);
    k
}

} // verus!
