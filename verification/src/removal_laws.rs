//! What holds of the removal of a tree, whatever the file system replies.

use vstd::prelude::*;

use crate::task::{
    expand, removable_mode, request_of, visits, ListedEntry, ReplyV, Request, StoreOutputError,
    Task, TaskV,
};
use crate::work::{advance, asks, begun, raise, settle, WorkV};
use crate::work_laws::{
    every_task_has_its_turn, first_error_stands, lemma_next_turn, lemma_run_split, lemma_step,
    run_work,
};

verus! {

/// The removal of the tree at `path`, before its first request.
pub open spec fn removal(path: Seq<char>) -> WorkV {
    begun(seq![Task::RemoveTree(path)])
}

/// A removal that ends well has asked for the tree to be removed, and was told that it is.
pub proof fn removal_removes(path: Seq<char>, replies: Seq<ReplyV>) -> (k: int)
    requires
        run_work(removal(path), replies) == WorkV::Finished(Ok(())),
    ensures
        0 <= k < replies.len(),
        asks(run_work(removal(path), replies.take(k))) == Some(Request::RemoveAll(path)),
        replies[k] is Done,
{
    let plan = seq![Task::RemoveTree(path)];
    let start = removal(path);
    assert(start == WorkV::Running { agenda: plan, guard: None });
    if replies[0] is Done {
        assert(replies.take(0) =~= seq![]);
        0
    } else {
        match expand(plan[0], replies[0]) {
            Err(e) => {
                first_error_stands(raise(None, e), replies.drop_first(), e);
                0
            },
            Ok(tasks) => {
                let next = tasks + plan.drop_first();
                assert(next =~= tasks);
                let (k, guard) = every_task_has_its_turn(
                    next,
                    None,
                    replies.drop_first(),
                    1,
                );
                assert(replies.take(k + 1).drop_first() =~= replies.drop_first().take(k));
                assert(next.skip(1)[0] == tasks[1]);
                k + 1
            },
        }
    }
}

/// Only a refused permission is answered with another attempt: any other failure of the first
/// attempt is the result.
pub proof fn other_failures_end_a_removal(path: Seq<char>, error: Seq<char>)
    ensures
        advance(removal(path), ReplyV::Failed { permission_denied: false, error })
            == WorkV::Finished(Err(StoreOutputError::Failed(error))),
{
}

proof fn lemma_listed_is_visited(list: Seq<ListedEntry<Seq<char>>>, i: int) -> (j: int)
    requires
        0 <= i < list.len(),
        list[i] is Directory,
    ensures
        0 <= j < visits(list).len(),
        visits(list)[j] == Task::MakeRemovable(list[i]->Directory_0),
    decreases list.len(),
{
    let before = visits(list.drop_last());
    if i == list.len() - 1 {
        before.len() as int
    } else {
        assert(list.drop_last()[i] == list[i]);
        lemma_listed_is_visited(list.drop_last(), i)
    }
}

/// The turn of a task in work that is under way, counted from the start of the run.
proof fn lemma_turn(start: WorkV, replies: Seq<ReplyV>, k: int, j: int) -> (t: int)
    requires
        0 <= k <= replies.len(),
        run_work(start, replies) == WorkV::Finished(Ok(())),
        run_work(start, replies.take(k)) matches WorkV::Running { agenda, guard } && settle(
            WorkV::Running { agenda, guard },
        ) == run_work(start, replies.take(k)) && 0 <= j < agenda.len() && request_of(agenda[j])
            is Some,
    ensures
        k <= t < replies.len(),
        run_work(start, replies.take(t)) matches WorkV::Running { agenda, .. } && agenda
            == run_work(start, replies.take(k))->Running_agenda.skip(j),
        expand(run_work(start, replies.take(k))->Running_agenda[j], replies[t]) is Ok,
{
    let middle = run_work(start, replies.take(k));
    let agenda = middle->Running_agenda;
    let rest = replies.skip(k);
    lemma_run_split(start, replies, k);
    let (t, guard) = every_task_has_its_turn(agenda, middle->Running_guard, rest, j);
    lemma_run_split(start, replies.take(k + t), k);
    assert(replies.take(k + t).take(k) =~= replies.take(k));
    assert(replies.take(k + t).skip(k) =~= rest.take(t));
    assert(rest[t] == replies[k + t]);
    k + t
}

proof fn lemma_still_running(start: WorkV, replies: Seq<ReplyV>, k: int)
    requires
        0 <= k < replies.len(),
        run_work(start, replies) == WorkV::Finished(Ok(())),
        asks(run_work(start, replies.take(k))) is Some,
    ensures
        run_work(start, replies.take(k)) is Running,
{
    lemma_run_split(start, replies, k);
    if let WorkV::CleaningUp { error, .. } = run_work(start, replies.take(k)) {
        first_error_stands(run_work(start, replies.take(k)), replies.skip(k), error);
    }
}

/// A task of the removal's second part.
spec fn is_relaxing(task: TaskV) -> bool {
    match task {
        Task::MakeRemovable(_) => true,
        Task::VisitDirectory(_) => true,
        Task::Do(Request::SetMode { .. }) => true,
        Task::Do(Request::RemoveAll(_)) => true,
        Task::Fail(_) => true,
        Task::RemoveTree(_) => true,
        _ => false,
    }
}

spec fn is_relaxing_work(work: WorkV) -> bool {
    match work {
        WorkV::Running { agenda, guard } => {
            &&& guard is None
            &&& forall|i: int| 0 <= i < agenda.len() ==> is_relaxing(#[trigger] agenda[i])
            &&& settle(work) == work
        },
        _ => work is Finished,
    }
}

proof fn lemma_visits_relax(list: Seq<ListedEntry<Seq<char>>>)
    ensures
        forall|i: int| 0 <= i < visits(list).len() ==> is_relaxing(#[trigger] visits(list)[i]),
    decreases list.len(),
{
    if list.len() > 0 {
        let before = visits(list.drop_last());
        lemma_visits_relax(list.drop_last());
        assert forall|i: int| 0 <= i < visits(list).len() implies is_relaxing(
            #[trigger] visits(list)[i],
        ) by {
            if i < before.len() {
                assert(visits(list)[i] == before[i]);
            }
        }
    }
}

proof fn lemma_relaxing_run(path: Seq<char>, replies: Seq<ReplyV>, k: int)
    requires
        0 <= k <= replies.len(),
    ensures
        is_relaxing_work(run_work(removal(path), replies.take(k))),
    decreases k,
{
    let start = removal(path);
    if k == 0 {
        assert(replies.take(0) =~= seq![]);
    } else {
        lemma_relaxing_run(path, replies, k - 1);
        lemma_step(start, replies, k - 1);
        let work = run_work(start, replies.take(k - 1));
        let reply = replies[k - 1];
        if let WorkV::Running { agenda, guard } = work {
            if let Ok(tasks) = expand(agenda[0], reply) {
                let next = tasks + agenda.drop_first();
                if let ReplyV::Listing(list) = reply {
                    lemma_visits_relax(list);
                }
                assert(agenda.len() > 0);
                assert(is_relaxing(agenda[0]));
                assert forall|i: int| 0 <= i < next.len() implies is_relaxing(
                    #[trigger] next[i],
                ) by {
                    if i < tasks.len() {
                        assert(next[i] == tasks[i]);
                    } else {
                        assert(next[i] == agenda[i - tasks.len() + 1]);
                    }
                }
                if next.len() > 0 {
                    assert(is_relaxing(next[0]));
                }
            }
        }
    }
}

/// A directory is listed in a removal that ends well: each directory in the listing is looked at
/// in its turn. If it is still a directory, it has a mode with which its owner can change it, or
/// is given one, before it is listed itself.
pub proof fn listed_directories_are_made_removable(
    path: Seq<char>,
    replies: Seq<ReplyV>,
    k: int,
    i: int,
) -> (turn: (int, int))
    requires
        run_work(removal(path), replies) == WorkV::Finished(Ok(())),
        0 <= k < replies.len(),
        asks(run_work(removal(path), replies.take(k))) matches Some(request) && request is ReadDir,
        replies[k] matches ReplyV::Listing(list) && 0 <= i < list.len() && list[i] is Directory,
    ensures
        ({
            let child = replies[k]->Listing_0[i]->Directory_0;
            let (seen, entered) = turn;
            &&& k < seen < replies.len()
            &&& asks(run_work(removal(path), replies.take(seen))) == Some(Request::Inspect(child))
            &&& replies[seen] matches ReplyV::Metadata { is_dir, mode, .. } && (is_dir ==> {
                &&& seen < entered < replies.len()
                &&& asks(run_work(removal(path), replies.take(entered))) == Some(
                    Request::ReadDir(child),
                )
                &&& replies[entered] is Listing
                &&& removable_mode(mode) != mode ==> {
                    &&& asks(run_work(removal(path), replies.take(seen + 1))) == Some(
                        Request::SetMode { path: child, mode: removable_mode(mode) },
                    )
                    &&& replies[seen + 1] is Done
                }
            })
        }),
{
    let start = removal(path);
    let list = replies[k]->Listing_0;
    let child = list[i]->Directory_0;
    lemma_still_running(start, replies, k);
    lemma_relaxing_run(path, replies, k);
    lemma_relaxing_run(path, replies, k + 1);
    lemma_step(start, replies, k);
    let agenda = run_work(start, replies.take(k))->Running_agenda;
    assert(is_relaxing(agenda[0]));
    let directory = agenda[0]->VisitDirectory_0;
    assert(agenda[0] == Task::VisitDirectory(directory));
    let tasks = visits(list);
    let j = lemma_listed_is_visited(list, i);
    let next = tasks + agenda.drop_first();
    assert(next[j] == tasks[j]);
    let after = settle(WorkV::Running { agenda: next, guard: None });
    assert(run_work(start, replies.take(k + 1)) == after);
    lemma_run_split(start, replies, k + 1);
    let (t, g) = every_task_has_its_turn(next, None, replies.skip(k + 1), j);
    let seen = k + 1 + t;
    lemma_run_split(start, replies.take(seen), k + 1);
    assert(replies.take(seen).take(k + 1) =~= replies.take(k + 1));
    assert(replies.take(seen).skip(k + 1) =~= replies.skip(k + 1).take(t));
    assert(replies.skip(k + 1)[t] == replies[seen]);
    let at = run_work(start, replies.take(seen));
    assert(at->Running_agenda == next.skip(j));
    assert(next.skip(j)[0] == next[j]);
    assert(replies[seen] is Metadata);
    let mode = replies[seen]->Metadata_mode;
    if !replies[seen]->Metadata_is_dir {
        (seen, 0)
    } else {
        lemma_relaxing_run(path, replies, seen);
        lemma_relaxing_run(path, replies, seen + 1);
        lemma_step(start, replies, seen);
        let left = at->Running_agenda.drop_first();
        let now = run_work(start, replies.take(seen + 1));
        if removable_mode(mode) != mode {
            let two: Seq<TaskV> = seq![
                Task::Do(Request::SetMode { path: child, mode: removable_mode(mode) }),
                Task::VisitDirectory(child),
            ];
            assert(now == WorkV::Running { agenda: two + left, guard: None });
            assert((two + left)[0] == two[0]);
            assert((two + left)[1] == two[1]);
            let set = lemma_turn(start, replies, seen + 1, 0);
            lemma_next_turn(start, replies, seen + 1);
            let entered = lemma_turn(start, replies, seen + 1, 1);
            assert((two + left).skip(1)[0] == two[1]);
            assert(entered > seen);
            (seen, entered)
        } else {
            let one: Seq<TaskV> = seq![Task::VisitDirectory(child)];
            assert(now == WorkV::Running { agenda: one + left, guard: None });
            assert((one + left)[0] == one[0]);
            let entered = lemma_turn(start, replies, seen + 1, 0);
            assert((one + left).skip(0) =~= one + left);
            (seen, entered)
        }
    }
}

} // verus!
