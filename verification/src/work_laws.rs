//! What holds of every run of work on the file system, whatever the file system replies.

use vstd::prelude::*;

use crate::disk::{mode_is_writable, Timestamp};
use crate::entry::{members_are_named, names_are_members, EntryV};
use crate::materialize::{first_stage, next_stage, stage_asks, StageV};
use crate::paths::{is_single_entry, join_text, lemma_pieces_join, lemma_pieces_single, pieces};
use crate::realization_laws::run_stages;
use crate::store_output::{
    lock_plan, metadata_plan, preserve_members, preserve_plan, seal_members, seal_plan, temp_text,
    work_plan, JobV,
};
use crate::task::{
    expand, request_of, visits, ListedEntry, OutputErrorV, ReplyV, Request, StoreOutputError, Task,
    TaskV,
};
use crate::work::{advance, asks, begun, is_settled, lemma_settle, raise, settle, WorkV};

verus! {

/// Where work stands after a sequence of replies.
pub open spec fn run_work(work: WorkV, replies: Seq<ReplyV>) -> WorkV
    decreases replies.len(),
{
    if replies.len() == 0 {
        work
    } else {
        run_work(advance(work, replies[0]), replies.drop_first())
    }
}

/// The work has failed with this error, and at most cleans up.
pub open spec fn has_failed(work: WorkV, error: OutputErrorV) -> bool {
    match work {
        WorkV::Running { .. } => false,
        WorkV::CleaningUp { error: e, .. } => e == error,
        WorkV::Finished(result) => result == Err::<(), OutputErrorV>(error),
    }
}

proof fn lemma_settle_failed(work: WorkV, error: OutputErrorV)
    requires
        has_failed(work, error),
    ensures
        has_failed(settle(work), error),
    decreases
            match work {
                WorkV::CleaningUp { agenda, .. } => agenda.len(),
                _ => 0,
            },
{
    if let WorkV::CleaningUp { agenda, error: e } = work {
        if agenda.len() > 0 && agenda[0] is Arm {
            lemma_settle_failed(WorkV::CleaningUp { agenda: agenda.drop_first(), error: e }, error);
        }
    }
}

/// The first error of a run is its result: whatever the clean-up meets, it neither turns the
/// failure into a success nor replaces the error.
pub proof fn first_error_stands(work: WorkV, replies: Seq<ReplyV>, error: OutputErrorV)
    requires
        has_failed(work, error),
    ensures
        has_failed(run_work(work, replies), error),
    decreases replies.len(),
{
    if replies.len() > 0 {
        if let WorkV::CleaningUp { agenda, error: e } = work {
            if let Ok(tasks) = expand(agenda[0], replies[0]) {
                lemma_settle_failed(
                    WorkV::CleaningUp { agenda: tasks + agenda.drop_first(), error: e },
                    error,
                );
            }
        }
        first_error_stands(advance(work, replies[0]), replies.drop_first(), error);
    }
}

proof fn lemma_run_take(work: WorkV, replies: Seq<ReplyV>, k: int)
    requires
        replies.len() > 0,
        0 <= k < replies.len(),
    ensures
        run_work(work, replies.take(k + 1)) == run_work(
            advance(work, replies[0]),
            replies.drop_first().take(k),
        ),
{
    assert(replies.take(k + 1).drop_first() =~= replies.drop_first().take(k));
}

/// A run is its first replies, and then the others.
pub proof fn lemma_run_split(work: WorkV, replies: Seq<ReplyV>, k: int)
    requires
        0 <= k <= replies.len(),
    ensures
        run_work(work, replies) == run_work(run_work(work, replies.take(k)), replies.skip(k)),
    decreases k,
{
    if k == 0 {
        assert(replies.take(0) =~= seq![]);
        assert(replies.skip(0) =~= replies);
    } else {
        lemma_run_split(advance(work, replies[0]), replies.drop_first(), k - 1);
        assert(replies.take(k).drop_first() =~= replies.drop_first().take(k - 1));
        assert(replies.drop_first().skip(k - 1) =~= replies.skip(k));
    }
}

/// One more reply is one more step.
pub proof fn lemma_step(start: WorkV, replies: Seq<ReplyV>, k: int)
    requires
        0 <= k < replies.len(),
    ensures
        run_work(start, replies.take(k + 1)) == advance(
            run_work(start, replies.take(k)),
            replies[k],
        ),
{
    lemma_run_split(start, replies.take(k + 1), k);
    assert(replies.take(k + 1).take(k) =~= replies.take(k));
    let one = replies.take(k + 1).skip(k);
    assert(one =~= seq![replies[k]]);
    assert(one.drop_first() =~= seq![]);
    assert(run_work(run_work(start, replies.take(k)), one) == run_work(
        advance(run_work(start, replies.take(k)), replies[k]),
        one.drop_first(),
    ));
}

/// In a run that ends well, the task that is next is answered next, and not with a failure.
pub proof fn lemma_next_turn(start: WorkV, replies: Seq<ReplyV>, k: int)
    requires
        0 <= k <= replies.len(),
        run_work(start, replies) == WorkV::Finished(Ok(())),
        run_work(start, replies.take(k)) is Running,
    ensures
        k < replies.len(),
        expand(run_work(start, replies.take(k))->Running_agenda[0], replies[k]) is Ok,
{
    if k == replies.len() {
        assert(replies.take(k) =~= replies);
    }
    lemma_step(start, replies, k);
    lemma_run_split(start, replies, k + 1);
    let work = run_work(start, replies.take(k));
    if let Err(e) = expand(work->Running_agenda[0], replies[k]) {
        first_error_stands(raise(work->Running_guard, e), replies.skip(k + 1), e);
    }
}

/// Work that ends well has done each of its tasks: there is a moment at which the task is the
/// next one, with those behind it still to come, and the reply to it was no failure.
pub proof fn every_task_has_its_turn(
    agenda: Seq<TaskV>,
    guard: Option<Seq<char>>,
    replies: Seq<ReplyV>,
    i: int,
) -> (turn: (int, Option<Seq<char>>))
    requires
        0 <= i < agenda.len(),
        request_of(agenda[i]) is Some,
        run_work(settle(WorkV::Running { agenda, guard }), replies) == WorkV::Finished(Ok(())),
    ensures
        0 <= turn.0 < replies.len(),
        run_work(settle(WorkV::Running { agenda, guard }), replies.take(turn.0))
            == (WorkV::Running { agenda: agenda.skip(i), guard: turn.1 }),
        expand(agenda[i], replies[turn.0]) is Ok,
    decreases replies.len(), agenda.len(),
{
    let start = settle(WorkV::Running { agenda, guard });
    match agenda[0] {
        Task::Arm(path) => {
            let turn = every_task_has_its_turn(agenda.drop_first(), Some(path), replies, i - 1);
            assert(agenda.drop_first().skip(i - 1) =~= agenda.skip(i));
            turn
        },
        Task::Fail(e) => {
            first_error_stands(start, replies, StoreOutputError::Failed(e));
            (0, None)
        },
        _ => {
            assert(start == WorkV::Running { agenda, guard });
            match expand(agenda[0], replies[0]) {
                Err(e) => {
                    first_error_stands(raise(guard, e), replies.drop_first(), e);
                    (0, None)
                },
                Ok(tasks) => {
                    if i == 0 {
                        assert(agenda.skip(0) =~= agenda);
                        assert(replies.take(0) =~= seq![]);
                        (0, guard)
                    } else {
                        let rest = tasks + agenda.drop_first();
                        let j = tasks.len() + i - 1;
                        assert(rest[j] == agenda[i]);
                        let (k, g) = every_task_has_its_turn(
                            rest,
                            guard,
                            replies.drop_first(),
                            j,
                        );
                        lemma_run_take(start, replies, k);
                        assert(rest.skip(j) =~= agenda.skip(i));
                        (k + 1, g)
                    }
                },
            }
        },
    }
}

/// The place that a request changes, other than a renaming.
pub open spec fn changes(request: Request<Seq<char>>) -> Option<Seq<char>> {
    match request {
        Request::CreateDirAll(p) => Some(p),
        Request::CreateLock(p) => Some(p),
        Request::RemoveAll(p) => Some(p),
        Request::SetMode { path, .. } => Some(path),
        Request::SetModified { path, .. } => Some(path),
        Request::SetSymlinkModified { path, .. } => Some(path),
        Request::MaterializeDirsAndSymlinks { dest } => Some(dest),
        Request::MaterializeFiles { dest, .. } => Some(dest),
        _ => None,
    }
}

/// The text consists of proper names with a slash between each two.
pub open spec fn only_names(text: Seq<char>) -> bool {
    forall|i: int| 0 <= i < pieces(text).len() ==> is_single_entry(#[trigger] pieces(text)[i])
}

/// The path is `base`, or leads down from `base` through proper names: neither `.` nor `..` is
/// among them.
pub open spec fn within(path: Seq<char>, base: Seq<char>) -> bool {
    path == base || {
        &&& path.len() > base.len()
        &&& path.take(base.len() as int) == base
        &&& path[base.len() as int] == '/'
        &&& only_names(path.skip(base.len() as int + 1))
    }
}

/// The request leaves everything outside `base` alone.
pub open spec fn stays_within(request: Request<Seq<char>>, base: Seq<char>) -> bool {
    &&& !(request is Rename)
    &&& match changes(request) {
        Some(path) => within(path, base),
        None => true,
    }
}

/// The path is that of an entry of the directory.
pub open spec fn is_entry_path(path: Seq<char>, directory: Seq<char>) -> bool {
    exists|name: Seq<char>|
        is_single_entry(name) && path == #[trigger] join_text(directory, name)
}

/// A listing holds entries of the directory that was listed.
pub open spec fn is_honest(request: Option<Request<Seq<char>>>, reply: ReplyV) -> bool {
    match (request, reply) {
        (Some(Request::ReadDir(directory)), ReplyV::Listing(list)) => {
            forall|i: int|
                0 <= i < list.len() ==> match #[trigger] list[i] {
                    ListedEntry::Directory(path) => is_entry_path(path, directory),
                    _ => true,
                }
        },
        _ => true,
    }
}

/// Every listing in a run is honest.
pub open spec fn is_honest_run(work: WorkV, replies: Seq<ReplyV>) -> bool
    decreases replies.len(),
{
    replies.len() > 0 ==> {
        &&& is_honest(asks(work), replies[0])
        &&& is_honest_run(advance(work, replies[0]), replies.drop_first())
    }
}

/// A run whose listings are honest was honest up to each moment.
pub proof fn lemma_honest_take(work: WorkV, replies: Seq<ReplyV>, k: int)
    requires
        0 <= k <= replies.len(),
        is_honest_run(work, replies),
    ensures
        is_honest_run(work, replies.take(k)),
    decreases k,
{
    if k > 0 {
        lemma_honest_take(advance(work, replies[0]), replies.drop_first(), k - 1);
        assert(replies.take(k).drop_first() =~= replies.drop_first().take(k - 1));
        assert(replies.take(k)[0] == replies[0]);
    }
}

proof fn lemma_only_names_end(text: Seq<char>)
    requires
        only_names(text),
    ensures
        text.len() > 0,
        text.last() != '/',
{
    if text.len() == 0 {
        assert(pieces(text)[0].len() == 0);
    } else if text.last() == '/' {
        let n = pieces(text).len() - 1;
        assert(pieces(text)[n].len() == 0);
    }
}

proof fn lemma_join_within(base: Seq<char>, path: Seq<char>, name: Seq<char>)
    requires
        base.len() > 0,
        base.last() != '/',
        within(path, base),
        is_single_entry(name),
    ensures
        within(join_text(path, name), base),
{
    reveal_strlit("/");
    assert("/"@ =~= seq!['/']);
    let j = join_text(path, name);
    let n = base.len() as int;
    lemma_pieces_single(name);
    if path == base {
        assert(j =~= base + seq!['/'] + name);
        assert(j.take(n) =~= base);
        assert(j.skip(n + 1) =~= name);
    } else {
        let rest = path.skip(n + 1);
        lemma_only_names_end(rest);
        assert(path.last() == rest.last());
        assert(j =~= path + seq!['/'] + name);
        assert(j.take(n) =~= path.take(n));
        assert(j[n] == path[n]);
        assert(j.skip(n + 1) =~= rest + seq!['/'] + name);
        lemma_pieces_join(rest, name);
        assert forall|i: int| 0 <= i < pieces(j.skip(n + 1)).len() implies is_single_entry(
            #[trigger] pieces(j.skip(n + 1))[i],
        ) by {
            if i < pieces(rest).len() {
                assert(pieces(j.skip(n + 1))[i] == pieces(rest)[i]);
            } else {
                assert(pieces(j.skip(n + 1))[i] == name);
            }
        }
    }
}

/// The path is `base` or begins with it and a slash.
pub open spec fn under(path: Seq<char>, base: Seq<char>) -> bool {
    path == base || {
        &&& path.len() > base.len()
        &&& path.take(base.len() as int) == base
        &&& path[base.len() as int] == '/'
    }
}

/// The place where an object is built is apart from the store path: nothing is below both.
pub proof fn build_place_is_apart(store: Seq<char>, path: Seq<char>)
    requires
        store.len() > 0,
        store.last() != '/',
        under(path, temp_text(store)),
    ensures
        !under(path, store),
{
    reveal_strlit(".buck2.tmp");
    let temp = temp_text(store);
    assert(temp[store.len() as int] == '.');
    if path != temp {
        assert(path.take(temp.len() as int)[store.len() as int] == '.');
    }
}

/// What is known of work: the place that it stays in, the one task that may leave it as the last,
/// whether a failure is bound to be cleaned up after, and whether places are looked at at all.
ghost struct Bounds {
    base: Seq<char>,
    last: Option<TaskV>,
    guarded: bool,
    places: bool,
}

spec fn are_bounds(bounds: Bounds) -> bool {
    &&& bounds.base.len() > 0
    &&& bounds.base.last() != '/'
    &&& bounds.last is Some ==> bounds.last->0 is Do
}

/// The task keeps to the place, and so does all that it may come to. Where places are not looked
/// at, it is no renaming.
spec fn task_within(task: TaskV, bounds: Bounds) -> bool {
    let base = bounds.base;
    match task {
        Task::Do(r) => if bounds.places {
            stays_within(r, base)
        } else {
            !(r is Rename)
        },
        Task::Seal(p) => bounds.places ==> within(p, base),
        Task::PreserveNative { dest, .. } => bounds.places ==> within(dest, base),
        Task::PreserveSymlink { dest, .. } => bounds.places ==> within(dest, base),
        Task::RemoveTree(p) => bounds.places ==> within(p, base),
        Task::MakeRemovable(p) => bounds.places ==> within(p, base),
        Task::VisitDirectory(p) => bounds.places ==> within(p, base),
        Task::Arm(p) => p == base,
        Task::Fail(_) => true,
    }
}

/// All tasks keep to the place, but for a last one.
spec fn agenda_within(agenda: Seq<TaskV>, bounds: Bounds) -> bool {
    forall|i: int|
        0 <= i < agenda.len() ==> task_within(#[trigger] agenda[i], bounds) || (i == agenda.len()
            - 1 && bounds.last == Some(agenda[i]))
}

spec fn without_last(bounds: Bounds) -> Bounds {
    Bounds { last: None, ..bounds }
}

spec fn work_within(work: WorkV, bounds: Bounds) -> bool {
    match work {
        WorkV::Running { agenda, guard } => {
            &&& agenda_within(agenda, bounds)
            &&& match guard {
                Some(g) => g == bounds.base,
                None => bounds.guarded ==> agenda.contains(Task::Arm(bounds.base)),
            }
        },
        WorkV::CleaningUp { agenda, .. } => agenda_within(agenda, without_last(bounds)),
        WorkV::Finished(_) => true,
    }
}

proof fn lemma_visits(list: Seq<ListedEntry<Seq<char>>>, bounds: Bounds)
    requires
        forall|i: int|
            0 <= i < list.len() ==> match #[trigger] list[i] {
                ListedEntry::Directory(path) => bounds.places ==> within(path, bounds.base),
                _ => true,
            },
    ensures
        forall|i: int|
            0 <= i < visits(list).len() ==> task_within(#[trigger] visits(list)[i], bounds),
    decreases list.len(),
{
    if list.len() > 0 {
        let short = list.drop_last();
        assert forall|i: int| 0 <= i < short.len() implies match #[trigger] short[i] {
            ListedEntry::Directory(path) => bounds.places ==> within(path, bounds.base),
            _ => true,
        } by {
            assert(short[i] == list[i]);
        }
        lemma_visits(short, bounds);
        assert(list[list.len() - 1] == list.last());
        assert forall|i: int| 0 <= i < visits(list).len() implies task_within(
            #[trigger] visits(list)[i],
            bounds,
        ) by {
            if i < visits(short).len() {
                assert(visits(list)[i] == visits(short)[i]);
            }
        }
    }
}

proof fn lemma_expand_within(task: TaskV, reply: ReplyV, bounds: Bounds)
    requires
        are_bounds(bounds),
        task_within(task, bounds),
        bounds.places ==> is_honest(request_of(task), reply),
        expand(task, reply) is Ok,
    ensures
        forall|i: int|
            0 <= i < expand(task, reply)->Ok_0.len() ==> task_within(
                #[trigger] expand(task, reply)->Ok_0[i],
                bounds,
            ),
{
    match (task, reply) {
        (Task::VisitDirectory(p), ReplyV::Listing(list)) => {
            assert forall|i: int| 0 <= i < list.len() implies match #[trigger] list[i] {
                ListedEntry::Directory(path) => bounds.places ==> within(path, bounds.base),
                _ => true,
            } by {
                if let ListedEntry::Directory(path) = list[i] {
                    if bounds.places {
                        assert(is_entry_path(path, p));
                        let name = choose|name: Seq<char>|
                            is_single_entry(name) && path == #[trigger] join_text(p, name);
                        lemma_join_within(bounds.base, p, name);
                    }
                }
            }
            lemma_visits(list, bounds);
        },
        _ => {},
    }
}

proof fn lemma_drop_within(agenda: Seq<TaskV>, bounds: Bounds)
    requires
        agenda.len() > 0,
        agenda_within(agenda, bounds),
    ensures
        agenda_within(agenda.drop_first(), bounds),
{
    let rest = agenda.drop_first();
    assert forall|i: int| 0 <= i < rest.len() implies task_within(#[trigger] rest[i], bounds) || (i
        == rest.len() - 1 && bounds.last == Some(rest[i])) by {
        assert(rest[i] == agenda[i + 1]);
    }
}

proof fn lemma_settle_within(work: WorkV, bounds: Bounds)
    requires
        are_bounds(bounds),
        work_within(work, bounds),
    ensures
        work_within(settle(work), bounds),
    decreases
            match work {
                WorkV::Running { agenda, .. } => agenda.len(),
                WorkV::CleaningUp { agenda, .. } => agenda.len(),
                WorkV::Finished(_) => 0,
            },
{
    match work {
        WorkV::Running { agenda, guard } => {
            if agenda.len() > 0 {
                if let Task::Arm(path) = agenda[0] {
                    assert(task_within(agenda[0], bounds));
                    lemma_drop_within(agenda, bounds);
                    lemma_settle_within(
                        WorkV::Running { agenda: agenda.drop_first(), guard: Some(path) },
                        bounds,
                    );
                }
            }
        },
        WorkV::CleaningUp { agenda, error } => {
            if agenda.len() > 0 && agenda[0] is Arm {
                lemma_drop_within(agenda, without_last(bounds));
                lemma_settle_within(
                    WorkV::CleaningUp { agenda: agenda.drop_first(), error },
                    bounds,
                );
            }
        },
        WorkV::Finished(_) => {},
    }
}

proof fn lemma_next_agenda_within(agenda: Seq<TaskV>, reply: ReplyV, bounds: Bounds)
    requires
        agenda.len() > 0,
        agenda_within(agenda, bounds),
        are_bounds(bounds),
        bounds.places ==> is_honest(request_of(agenda[0]), reply),
        expand(agenda[0], reply) is Ok,
    ensures
        agenda_within(expand(agenda[0], reply)->Ok_0 + agenda.drop_first(), bounds),
{
    let tasks = expand(agenda[0], reply)->Ok_0;
    let next = tasks + agenda.drop_first();
    if task_within(agenda[0], bounds) {
        lemma_expand_within(agenda[0], reply, bounds);
    }
    assert forall|i: int| 0 <= i < next.len() implies task_within(#[trigger] next[i], bounds) || (i
        == next.len() - 1 && bounds.last == Some(next[i])) by {
        if i < tasks.len() {
            assert(next[i] == tasks[i]);
        } else {
            assert(next[i] == agenda[i - tasks.len() + 1]);
        }
    }
}

proof fn lemma_advance_within(work: WorkV, reply: ReplyV, bounds: Bounds)
    requires
        work_within(work, bounds),
        is_settled(work),
        are_bounds(bounds),
        bounds.places ==> is_honest(asks(work), reply),
    ensures
        work_within(advance(work, reply), bounds),
        is_settled(advance(work, reply)),
{
    match work {
        WorkV::Running { agenda, guard } => match expand(agenda[0], reply) {
            Ok(tasks) => {
                lemma_next_agenda_within(agenda, reply, bounds);
                let next = tasks + agenda.drop_first();
                if guard is None && bounds.guarded {
                    let k = choose|k: int|
                        0 <= k < agenda.len() && agenda[k] == Task::Arm(bounds.base);
                    assert(next[tasks.len() + k - 1] == Task::<Seq<char>>::Arm(bounds.base));
                }
                lemma_settle_within(WorkV::Running { agenda: next, guard }, bounds);
                lemma_settle(WorkV::Running { agenda: next, guard });
            },
            Err(e) => {
                if let Some(g) = guard {
                    assert(within(g, bounds.base));
                }
            },
        },
        WorkV::CleaningUp { agenda, error } => {
            if let Ok(tasks) = expand(agenda[0], reply) {
                lemma_next_agenda_within(agenda, reply, without_last(bounds));
                let next = tasks + agenda.drop_first();
                lemma_settle_within(WorkV::CleaningUp { agenda: next, error }, bounds);
                lemma_settle(WorkV::CleaningUp { agenda: next, error });
            }
        },
        WorkV::Finished(_) => {},
    }
}

proof fn lemma_run_within(work: WorkV, replies: Seq<ReplyV>, bounds: Bounds)
    requires
        work_within(work, bounds),
        is_settled(work),
        are_bounds(bounds),
        bounds.places ==> is_honest_run(work, replies),
    ensures
        work_within(run_work(work, replies), bounds),
        is_settled(run_work(work, replies)),
    decreases replies.len(),
{
    if replies.len() > 0 {
        lemma_advance_within(work, replies[0], bounds);
        lemma_run_within(advance(work, replies[0]), replies.drop_first(), bounds);
    }
}

proof fn lemma_begun_within(plan: Seq<TaskV>, bounds: Bounds)
    requires
        are_bounds(bounds),
        agenda_within(plan, bounds),
        bounds.guarded ==> plan.contains(Task::Arm(bounds.base)),
    ensures
        work_within(begun(plan), bounds),
        is_settled(begun(plan)),
{
    let start = WorkV::Running { agenda: plan, guard: None };
    lemma_settle_within(start, bounds);
    lemma_settle(start);
}

proof fn lemma_seal_plan_within(entry: EntryV, dest: Seq<char>, bounds: Bounds)
    requires
        are_bounds(bounds),
        bounds.places ==> names_are_members(entry) && within(dest, bounds.base),
    ensures
        agenda_within(seal_plan(entry, dest), without_last(bounds)),
    decreases entry,
{
    if let EntryV::Dir(members) = entry {
        lemma_seal_members_within(members, dest, bounds);
    }
}

proof fn lemma_seal_members_within(
    members: Seq<(Seq<char>, EntryV)>,
    dest: Seq<char>,
    bounds: Bounds,
)
    requires
        are_bounds(bounds),
        bounds.places ==> members_are_named(members) && within(dest, bounds.base),
    ensures
        agenda_within(seal_members(members, dest), without_last(bounds)),
    decreases members,
{
    if members.len() > 0 {
        let name = members.last().0;
        if bounds.places {
            lemma_last_named(members);
            lemma_join_within(bounds.base, dest, name);
        }
        lemma_seal_members_within(members.drop_last(), dest, bounds);
        lemma_seal_plan_within(members.last().1, join_text(dest, name), bounds);
    }
}

proof fn lemma_last_named(members: Seq<(Seq<char>, EntryV)>)
    requires
        members.len() > 0,
        members_are_named(members),
    ensures
        members_are_named(members.drop_last()),
        is_single_entry(members.last().0),
        names_are_members(members.last().1),
{
    let short = members.drop_last();
    assert(members[members.len() - 1] == members.last());
    assert forall|i: int| 0 <= i < short.len() implies is_single_entry((#[trigger] short[i]).0)
        && names_are_members(short[i].1) by {
        assert(short[i] == members[i]);
    }
}

proof fn lemma_preserve_plan_within(
    entry: EntryV,
    src: Seq<char>,
    dest: Seq<char>,
    bounds: Bounds,
)
    requires
        are_bounds(bounds),
        bounds.places ==> names_are_members(entry) && within(dest, bounds.base),
    ensures
        agenda_within(preserve_plan(entry, src, dest), without_last(bounds)),
    decreases entry,
{
    if let EntryV::Dir(members) = entry {
        lemma_preserve_members_within(members, src, dest, bounds);
    }
}

proof fn lemma_preserve_members_within(
    members: Seq<(Seq<char>, EntryV)>,
    src: Seq<char>,
    dest: Seq<char>,
    bounds: Bounds,
)
    requires
        are_bounds(bounds),
        bounds.places ==> members_are_named(members) && within(dest, bounds.base),
    ensures
        agenda_within(preserve_members(members, src, dest), without_last(bounds)),
    decreases members,
{
    if members.len() > 0 {
        let name = members.last().0;
        if bounds.places {
            lemma_last_named(members);
            lemma_join_within(bounds.base, dest, name);
        }
        lemma_preserve_members_within(members.drop_last(), src, dest, bounds);
        lemma_preserve_plan_within(
            members.last().1,
            join_text(src, name),
            join_text(dest, name),
            bounds,
        );
    }
}

/// The task that puts a built object in place.
pub open spec fn publish_task(job: JobV) -> TaskV {
    Task::Do(Request::Rename { from: temp_text(job.store), to: job.store })
}

spec fn build_bounds(job: JobV, places: bool) -> Bounds {
    Bounds { base: temp_text(job.store), last: Some(publish_task(job)), guarded: true, places }
}

proof fn lemma_build_plan_within(job: JobV, places: bool)
    requires
        places ==> names_are_members(job.entry),
    ensures
        are_bounds(build_bounds(job, places)),
        work_within(begun(work_plan(job, false)), build_bounds(job, places)),
        is_settled(begun(work_plan(job, false))),
{
    reveal_strlit(".buck2.tmp");
    let bounds = build_bounds(job, places);
    let temp = temp_text(job.store);
    let plan = work_plan(job, false);
    assert(temp.last() == 'p');
    lemma_seal_plan_within(job.entry, temp, bounds);
    lemma_preserve_plan_within(job.entry, job.staged, temp, bounds);
    let middle = metadata_plan(job);
    assert(agenda_within(middle, without_last(bounds)));
    assert forall|i: int| 0 <= i < plan.len() implies task_within(#[trigger] plan[i], bounds) || (i
        == plan.len() - 1 && bounds.last == Some(plan[i])) by {
        if 4 <= i < 4 + middle.len() {
            assert(plan[i] == middle[i - 4]);
            assert(task_within(middle[i - 4], without_last(bounds)));
        }
    }
    assert(plan[1] == Task::<Seq<char>>::Arm(temp));
    lemma_begun_within(plan, bounds);
}

proof fn lemma_asks_within(work: WorkV, bounds: Bounds)
    requires
        work_within(work, bounds),
        is_settled(work),
        are_bounds(bounds),
        bounds.places,
    ensures
        match asks(work) {
            Some(request) => stays_within(request, bounds.base) || bounds.last == Some(
                Task::Do(request),
            ),
            None => true,
        },
{
    match work {
        WorkV::Running { agenda, .. } => {
            assert(task_within(agenda[0], bounds) || bounds.last == Some(agenda[0]));
        },
        WorkV::CleaningUp { agenda, .. } => {
            assert(task_within(agenda[0], without_last(bounds)));
        },
        WorkV::Finished(_) => {},
    }
}

/// Until it is complete, an object is built beside its store path: each request changes nothing
/// outside the place where it is built, but for the one that renames that place to the store
/// path.
pub proof fn building_stays_beside_the_store_path(job: JobV, replies: Seq<ReplyV>)
    requires
        names_are_members(job.entry),
        is_honest_run(begun(work_plan(job, false)), replies),
    ensures
        match asks(run_work(begun(work_plan(job, false)), replies)) {
            Some(request) => {
                ||| stays_within(request, temp_text(job.store))
                ||| request == (Request::Rename { from: temp_text(job.store), to: job.store })
            },
            None => true,
        },
{
    lemma_build_plan_within(job, true);
    lemma_run_within(begun(work_plan(job, false)), replies, build_bounds(job, true));
    lemma_asks_within(run_work(begun(work_plan(job, false)), replies), build_bounds(job, true));
}

/// Work that builds an object asks something until it is finished.
pub proof fn lemma_asks_unless_finished(job: JobV, replies: Seq<ReplyV>)
    ensures
        asks(run_work(begun(work_plan(job, false)), replies)) is None <==> run_work(
            begun(work_plan(job, false)),
            replies,
        ) is Finished,
{
    lemma_build_plan_within(job, false);
    lemma_run_within(begun(work_plan(job, false)), replies, build_bounds(job, false));
}

/// Where work asks for a renaming, the renaming is all that is left of it.
proof fn lemma_rename_is_last(work: WorkV, bounds: Bounds)
    requires
        work_within(work, bounds),
        is_settled(work),
        are_bounds(bounds),
        asks(work) matches Some(request) && request is Rename,
    ensures
        work is Running,
        bounds.last is Some,
        work->Running_agenda == seq![bounds.last->0],
        bounds.guarded ==> work->Running_guard == Some(bounds.base),
{
    match work {
        WorkV::Running { agenda, guard } => {
            assert(task_within(agenda[0], bounds) || (0 == agenda.len() - 1 && bounds.last == Some(
                agenda[0],
            )));
            assert(agenda =~= seq![bounds.last->0]);
            if guard is None && bounds.guarded {
                let k = choose|k: int| 0 <= k < agenda.len() && agenda[k] == Task::Arm(bounds.base);
            }
        },
        WorkV::CleaningUp { agenda, .. } => {
            assert(task_within(agenda[0], without_last(bounds)));
        },
        WorkV::Finished(_) => {},
    }
}

/// The renaming is the last that is asked: it is asked with nothing else left to do, and a
/// failure of it is cleaned up after.
pub proof fn publication_is_last(job: JobV, replies: Seq<ReplyV>)
    requires
        asks(run_work(begun(work_plan(job, false)), replies)) matches Some(request)
            && request is Rename,
    ensures
        run_work(begun(work_plan(job, false)), replies) == (WorkV::Running {
            agenda: seq![publish_task(job)],
            guard: Some(temp_text(job.store)),
        }),
{
    lemma_build_plan_within(job, false);
    lemma_run_within(begun(work_plan(job, false)), replies, build_bounds(job, false));
    lemma_rename_is_last(
        run_work(begun(work_plan(job, false)), replies),
        build_bounds(job, false),
    );
}

/// Finished work stays as it is.
pub proof fn lemma_finished_stays(work: WorkV, replies: Seq<ReplyV>)
    requires
        work is Finished,
    ensures
        run_work(work, replies) == work,
    decreases replies.len(),
{
    if replies.len() > 0 {
        lemma_finished_stays(work, replies.drop_first());
    }
}

/// Work that does not end well publishes nothing: wherever the renaming to the store path was
/// asked for, the reply was not that it is done.
pub proof fn a_failed_build_publishes_nothing(job: JobV, replies: Seq<ReplyV>, k: int)
    requires
        run_work(begun(work_plan(job, false)), replies) != WorkV::Finished(Ok(())),
        0 <= k < replies.len(),
        asks(run_work(begun(work_plan(job, false)), replies.take(k))) matches Some(request)
            && request is Rename,
    ensures
        !(replies[k] is Done),
{
    let start = begun(work_plan(job, false));
    publication_is_last(job, replies.take(k));
    lemma_step(start, replies, k);
    lemma_run_split(start, replies, k + 1);
    if replies[k] is Done {
        let after = run_work(start, replies.take(k + 1));
        assert(after == WorkV::Finished(Ok(())));
        lemma_finished_stays(after, replies.skip(k + 1));
    }
}

/// Work that builds an object, has not published it, and is bound to publish it last.
pub closed spec fn builds_beside(job: JobV, work: WorkV) -> bool {
    &&& work_within(work, build_bounds(job, true))
    &&& is_settled(work)
    &&& work is Running ==> work->Running_agenda.last() == publish_task(job)
}

proof fn lemma_settle_keeps_last(work: WorkV, job: JobV)
    requires
        work matches WorkV::Running { agenda, .. } && agenda.len() > 0 && agenda.last()
            == publish_task(job),
    ensures
        settle(work) is Running ==> settle(work)->Running_agenda.last() == publish_task(job),
        settle(work) is Finished ==> settle(work)->Finished_0 is Err,
    decreases work->Running_agenda.len(),
{
    if let WorkV::Running { agenda, guard } = work {
        if let Task::Arm(path) = agenda[0] {
            let rest = agenda.drop_first();
            assert(agenda.len() > 1);
            assert(rest.last() == agenda.last());
            lemma_settle_keeps_last(WorkV::Running { agenda: rest, guard: Some(path) }, job);
        }
    }
}

/// The work begins as such work.
pub proof fn lemma_build_begins(job: JobV)
    requires
        names_are_members(job.entry),
    ensures
        builds_beside(job, begun(work_plan(job, false))),
        begun(work_plan(job, false)) is Running,
{
    let plan = work_plan(job, false);
    lemma_build_plan_within(job, true);
    assert(plan.last() == publish_task(job));
    lemma_settle_keeps_last(WorkV::Running { agenda: plan, guard: None }, job);
    assert(plan[0] is RemoveTree);
}

/// The work stays such work, and ends well only on the renaming.
pub proof fn lemma_build_goes_on(job: JobV, work: WorkV, reply: ReplyV)
    requires
        builds_beside(job, work),
        !(work is Finished),
        names_are_members(job.entry),
        is_honest(asks(work), reply),
    ensures
        builds_beside(job, advance(work, reply)),
        match asks(work) {
            Some(Request::Rename { from, to }) => {
                &&& from == temp_text(job.store)
                &&& to == job.store
                &&& (reply is Done <==> advance(work, reply) == WorkV::Finished(Ok(())))
                &&& (advance(work, reply) matches WorkV::Finished(result) ==> reply is Done)
            },
            Some(request) => {
                &&& stays_within(request, temp_text(job.store))
                &&& (advance(work, reply) matches WorkV::Finished(result) ==> result is Err)
            },
            None => false,
        },
{
    let bounds = build_bounds(job, true);
    lemma_build_plan_within(job, true);
    lemma_advance_within(work, reply, bounds);
    lemma_asks_within(work, bounds);
    if asks(work) matches Some(request) && request is Rename {
        lemma_rename_is_last(work, bounds);
    } else if let WorkV::Running { agenda, guard } = work {
        assert(agenda.len() > 1) by {
            if agenda.len() == 1 {
                assert(agenda[0] == agenda.last());
            }
        }
        if let Ok(tasks) = expand(agenda[0], reply) {
            let next = tasks + agenda.drop_first();
            assert(next.last() == agenda.last());
            lemma_settle_keeps_last(WorkV::Running { agenda: next, guard }, job);
        }
    } else if let WorkV::CleaningUp { agenda, error } = work {
        if let Ok(tasks) = expand(agenda[0], reply) {
            lemma_settle_failed(
                WorkV::CleaningUp { agenda: tasks + agenda.drop_first(), error },
                error,
            );
        }
    }
}

spec fn lock_bounds(job: JobV) -> Bounds {
    Bounds { base: temp_text(job.store), last: None, guarded: false, places: false }
}

/// No stage of a job asks for a renaming but as the last thing in the build.
spec fn stage_within(job: JobV, stage: StageV) -> bool {
    match stage {
        StageV::Locking(work) => work_within(work, lock_bounds(job)) && is_settled(work),
        StageV::Working(work) => {
            ||| work_within(work, lock_bounds(job)) && is_settled(work)
            ||| work_within(work, build_bounds(job, false)) && is_settled(work)
        },
        _ => true,
    }
}

proof fn lemma_stage_within(job: JobV, stage: StageV, reply: ReplyV)
    requires
        stage_within(job, stage),
    ensures
        stage_within(job, next_stage(job, stage, reply)),
{
    lemma_build_plan_within(job, false);
    match stage {
        StageV::Locking(work) => {
            lemma_advance_within(work, reply, lock_bounds(job));
        },
        StageV::Checking => {
            if reply == ReplyV::Exists(true) {
                let plan = work_plan(job, true);
                lemma_seal_plan_within(job.entry, job.store, lock_bounds(job));
                assert(without_last(lock_bounds(job)) == lock_bounds(job));
                lemma_begun_within(plan, lock_bounds(job));
            }
        },
        StageV::Working(work) => {
            if work_within(work, lock_bounds(job)) {
                lemma_advance_within(work, reply, lock_bounds(job));
            } else {
                lemma_advance_within(work, reply, build_bounds(job, false));
            }
        },
        StageV::Finished(_) => {},
    }
}

proof fn lemma_stages_within(job: JobV, stage: StageV, replies: Seq<ReplyV>)
    requires
        stage_within(job, stage),
    ensures
        stage_within(job, run_stages(job, stage, replies)),
    decreases replies.len(),
{
    if replies.len() > 0 {
        lemma_stage_within(job, stage, replies[0]);
        lemma_stages_within(job, next_stage(job, stage, replies[0]), replies.drop_first());
    }
}

proof fn lemma_first_stage_within(job: JobV)
    ensures
        stage_within(job, first_stage(job)),
{
    lemma_build_plan_within(job, false);
    lemma_begun_within(lock_plan(job.store), lock_bounds(job));
}

/// A job that does not end well publishes nothing: wherever it asked for a renaming, the reply
/// was not that it is done.
pub proof fn a_failed_job_publishes_nothing(job: JobV, replies: Seq<ReplyV>, k: int)
    requires
        run_stages(job, first_stage(job), replies) != StageV::Finished(Ok(())),
        0 <= k < replies.len(),
        stage_asks(job, run_stages(job, first_stage(job), replies.take(k))) matches Some(request)
            && request is Rename,
    ensures
        !(replies[k] is Done),
{
    let start = first_stage(job);
    let stage = run_stages(job, start, replies.take(k));
    lemma_first_stage_within(job);
    lemma_stages_within(job, start, replies.take(k));
    lemma_build_plan_within(job, false);
    lemma_stages_split(job, start, replies, k);
    lemma_stages_split(job, stage, replies.skip(k), 1);
    assert(replies.skip(k).take(1) =~= seq![replies[k]]);
    assert(seq![replies[k]].drop_first() =~= seq![]);
    let after = next_stage(job, stage, replies[k]);
    assert(run_stages(job, stage, seq![replies[k]]) == run_stages(
        job,
        next_stage(job, stage, replies[k]),
        seq![replies[k]].drop_first(),
    ));
    match stage {
        StageV::Locking(work) => {
            lemma_rename_is_last(work, lock_bounds(job));
        },
        StageV::Working(work) => {
            if work_within(work, lock_bounds(job)) {
                lemma_rename_is_last(work, lock_bounds(job));
            } else {
                lemma_rename_is_last(work, build_bounds(job, false));
                if replies[k] is Done {
                    assert(after == StageV::Finished(Ok(())));
                    lemma_finished_stage(job, after, replies.skip(k).skip(1));
                }
            }
        },
        _ => {},
    }
}

/// A finished job stays as it is.
pub proof fn lemma_finished_stage(job: JobV, stage: StageV, replies: Seq<ReplyV>)
    requires
        stage is Finished,
    ensures
        run_stages(job, stage, replies) == stage,
    decreases replies.len(),
{
    if replies.len() > 0 {
        lemma_finished_stage(job, stage, replies.drop_first());
    }
}

/// A job goes through its first replies, and then the others.
pub proof fn lemma_stages_split(job: JobV, stage: StageV, replies: Seq<ReplyV>, k: int)
    requires
        0 <= k <= replies.len(),
    ensures
        run_stages(job, stage, replies) == run_stages(
            job,
            run_stages(job, stage, replies.take(k)),
            replies.skip(k),
        ),
    decreases k,
{
    if k == 0 {
        assert(replies.take(0) =~= seq![]);
        assert(replies.skip(0) =~= replies);
    } else {
        lemma_stages_split(
            job,
            next_stage(job, stage, replies[0]),
            replies.drop_first(),
            k - 1,
        );
        assert(replies.take(k).drop_first() =~= replies.drop_first().take(k - 1));
        assert(replies.drop_first().skip(k - 1) =~= replies.skip(k));
    }
}

/// A failure while an object is built leads to the removal of what was built, and the error
/// stands. Work that has not come that far has built nothing: the place where it builds is still
/// to be cleared.
pub proof fn a_failed_build_is_removed(job: JobV, replies: Seq<ReplyV>, reply: ReplyV)
    requires
        run_work(begun(work_plan(job, false)), replies) matches WorkV::Running { agenda, guard }
            && expand(agenda[0], reply) is Err,
    ensures
        ({
            let work = run_work(begun(work_plan(job, false)), replies);
            let error = expand(work->Running_agenda[0], reply)->Err_0;
            ||| advance(work, reply) == (WorkV::CleaningUp {
                agenda: seq![Task::RemoveTree(temp_text(job.store))],
                error,
            })
            ||| work->Running_agenda.contains(Task::Arm(temp_text(job.store))) && advance(
                work,
                reply,
            ) == WorkV::Finished(Err(error))
        }),
{
    lemma_build_plan_within(job, false);
    lemma_run_within(begun(work_plan(job, false)), replies, build_bounds(job, false));
}

/// Work on an object that is not there ends well only with the renaming done, as the last thing.
pub proof fn success_is_publication(job: JobV, replies: Seq<ReplyV>) -> (k: int)
    requires
        run_work(begun(work_plan(job, false)), replies) == WorkV::Finished(Ok(())),
    ensures
        0 <= k < replies.len(),
        asks(run_work(begun(work_plan(job, false)), replies.take(k))) == Some(
            Request::Rename { from: temp_text(job.store), to: job.store },
        ),
        replies[k] is Done,
{
    let plan = work_plan(job, false);
    let i = plan.len() - 1;
    assert(plan[i] == publish_task(job));
    let (k, guard) = every_task_has_its_turn(plan, None, replies, i);
    assert(plan.skip(i)[0] == plan[i]);
    k
}

/// A directory or a regular file of an entry that stands at `base`.
pub open spec fn is_native_path(entry: EntryV, base: Seq<char>, path: Seq<char>) -> bool
    decreases entry,
{
    match entry {
        EntryV::Dir(members) => path == base || exists|j: int|
            0 <= j < members.len() && is_native_path(
                (#[trigger] members[j]).1,
                join_text(base, members[j].0),
                path,
            ),
        EntryV::File { .. } => path == base,
        _ => false,
    }
}

proof fn lemma_native_in_plan(
    entry: EntryV,
    src: Seq<char>,
    dest: Seq<char>,
    path: Seq<char>,
) -> (i: int)
    requires
        is_native_path(entry, src, path),
    ensures
        0 <= i < preserve_plan(entry, src, dest).len(),
        preserve_plan(entry, src, dest)[i] matches Task::PreserveNative { src: s, .. } && s == path,
    decreases entry, 0nat,
{
    match entry {
        EntryV::Dir(members) => {
            if path == src {
                preserve_members(members, src, dest).len() as int
            } else {
                let j = choose|j: int|
                    0 <= j < members.len() && is_native_path(
                        (#[trigger] members[j]).1,
                        join_text(src, members[j].0),
                        path,
                    );
                lemma_native_in_members(members, src, dest, path, j)
            }
        },
        _ => 0,
    }
}

proof fn lemma_native_in_members(
    members: Seq<(Seq<char>, EntryV)>,
    src: Seq<char>,
    dest: Seq<char>,
    path: Seq<char>,
    j: int,
) -> (i: int)
    requires
        0 <= j < members.len(),
        is_native_path(members[j].1, join_text(src, members[j].0), path),
    ensures
        0 <= i < preserve_members(members, src, dest).len(),
        preserve_members(members, src, dest)[i] matches Task::PreserveNative { src: s, .. } && s
            == path,
    decreases members, members.len(),
{
    let before = preserve_members(members.drop_last(), src, dest);
    if j == members.len() - 1 {
        let name = members[j].0;
        let i = lemma_native_in_plan(
            members[j].1,
            join_text(src, name),
            join_text(dest, name),
            path,
        );
        before.len() + i
    } else {
        assert(members.drop_last()[j] == members[j]);
        lemma_native_in_members(members.drop_last(), src, dest, path, j)
    }
}

/// No object with a writable path is published: where work that keeps the metadata of the staged
/// tree ends well, every directory and every file of the entry was looked at in the staged tree
/// and had no write bit.
pub proof fn writable_trees_are_not_published(
    job: JobV,
    replies: Seq<ReplyV>,
    path: Seq<char>,
) -> (k: int)
    requires
        !job.seal,
        run_work(begun(work_plan(job, false)), replies) == WorkV::Finished(Ok(())),
        is_native_path(job.entry, job.staged, path),
    ensures
        0 <= k < replies.len(),
        asks(run_work(begun(work_plan(job, false)), replies.take(k))) == Some(
            Request::Inspect(path),
        ),
        replies[k] matches ReplyV::Metadata { mode, .. } && !mode_is_writable(mode),
{
    let plan = work_plan(job, false);
    let i = lemma_native_in_plan(job.entry, job.staged, temp_text(job.store), path);
    assert(plan[4 + i] == metadata_plan(job)[i]);
    let (k, guard) = every_task_has_its_turn(plan, None, replies, 4 + i);
    assert(plan.skip(4 + i)[0] == plan[4 + i]);
    k
}

/// What is at the store path is left alone where it is not to be sealed: nothing more is asked.
pub proof fn existing_objects_are_reused(job: JobV)
    requires
        !job.seal,
    ensures
        next_stage(job, StageV::Checking, ReplyV::Exists(true)) == StageV::Finished(Ok(())),
{
}

/// Sealing what is at the store path changes nothing outside it.
pub proof fn sealing_stays_within_the_store_path(job: JobV, replies: Seq<ReplyV>)
    requires
        job.seal,
        job.store.len() > 0,
        job.store.last() != '/',
        names_are_members(job.entry),
        is_honest_run(begun(work_plan(job, true)), replies),
    ensures
        match asks(run_work(begun(work_plan(job, true)), replies)) {
            Some(request) => stays_within(request, job.store),
            None => true,
        },
{
    let plan = work_plan(job, true);
    let bounds = Bounds { base: job.store, last: None, guarded: false, places: true };
    lemma_seal_plan_within(job.entry, job.store, bounds);
    assert(without_last(bounds) == bounds);
    lemma_begun_within(plan, bounds);
    lemma_run_within(begun(plan), replies, bounds);
    lemma_asks_within(run_work(begun(plan), replies), bounds);
}

/// A directory, a regular file or a symbolic link of an entry: where it is in the staged tree,
/// where in the copy, and which of the three it is.
pub open spec fn is_pair(
    entry: EntryV,
    src: Seq<char>,
    dest: Seq<char>,
    from: Seq<char>,
    to: Seq<char>,
    kind: PairKind,
) -> bool
    decreases entry,
{
    match entry {
        EntryV::Dir(members) => {
            ||| from == src && to == dest && kind is Directory
            ||| exists|j: int|
                0 <= j < members.len() && is_pair(
                    (#[trigger] members[j]).1,
                    join_text(src, members[j].0),
                    join_text(dest, members[j].0),
                    from,
                    to,
                    kind,
                )
        },
        EntryV::File { .. } => from == src && to == dest && kind is File,
        _ => from == src && to == dest && kind is Symlink,
    }
}

/// The kind of an entry of a staged tree.
pub enum PairKind {
    Directory,
    File,
    Symlink,
}

/// The task that carries the metadata of an entry over.
pub open spec fn preserve_task(from: Seq<char>, to: Seq<char>, kind: PairKind) -> TaskV {
    match kind {
        PairKind::Directory => Task::PreserveNative { src: from, dest: to, directory: true },
        PairKind::File => Task::PreserveNative { src: from, dest: to, directory: false },
        PairKind::Symlink => Task::PreserveSymlink { src: from, dest: to },
    }
}

/// The metadata of every entry are carried over by a task of the plan.
pub proof fn lemma_pair_in_plan(
    entry: EntryV,
    src: Seq<char>,
    dest: Seq<char>,
    from: Seq<char>,
    to: Seq<char>,
    kind: PairKind,
) -> (i: int)
    requires
        is_pair(entry, src, dest, from, to, kind),
    ensures
        0 <= i < preserve_plan(entry, src, dest).len(),
        preserve_plan(entry, src, dest)[i] == preserve_task(from, to, kind),
    decreases entry, 0nat,
{
    match entry {
        EntryV::Dir(members) => {
            if from == src && to == dest && kind is Directory {
                preserve_members(members, src, dest).len() as int
            } else {
                let j = choose|j: int|
                    0 <= j < members.len() && is_pair(
                        (#[trigger] members[j]).1,
                        join_text(src, members[j].0),
                        join_text(dest, members[j].0),
                        from,
                        to,
                        kind,
                    );
                lemma_pair_in_members(members, src, dest, from, to, kind, j)
            }
        },
        _ => 0,
    }
}

proof fn lemma_pair_in_members(
    members: Seq<(Seq<char>, EntryV)>,
    src: Seq<char>,
    dest: Seq<char>,
    from: Seq<char>,
    to: Seq<char>,
    kind: PairKind,
    j: int,
) -> (i: int)
    requires
        0 <= j < members.len(),
        is_pair(
            members[j].1,
            join_text(src, members[j].0),
            join_text(dest, members[j].0),
            from,
            to,
            kind,
        ),
    ensures
        0 <= i < preserve_members(members, src, dest).len(),
        preserve_members(members, src, dest)[i] == preserve_task(from, to, kind),
    decreases members, members.len(),
{
    let before = preserve_members(members.drop_last(), src, dest);
    if j == members.len() - 1 {
        let name = members[j].0;
        let i = lemma_pair_in_plan(
            members[j].1,
            join_text(src, name),
            join_text(dest, name),
            from,
            to,
            kind,
        );
        before.len() + i
    } else {
        assert(members.drop_last()[j] == members[j]);
        lemma_pair_in_members(members.drop_last(), src, dest, from, to, kind, j)
    }
}

/// The request that gives the copy of an entry its modification time.
pub open spec fn time_request(
    to: Seq<char>,
    kind: PairKind,
    modified: Timestamp,
) -> Request<Seq<char>> {
    match kind {
        PairKind::Symlink => Request::SetSymlinkModified { path: to, modified },
        _ => Request::SetModified { path: to, modified },
    }
}

/// Work that keeps the metadata of the staged tree and ends well has carried them over: each
/// entry was looked at in the staged tree, the copy was given its modification time right after,
/// and the copy of a directory its mode after that.
pub proof fn metadata_is_carried_over(
    job: JobV,
    replies: Seq<ReplyV>,
    from: Seq<char>,
    to: Seq<char>,
    kind: PairKind,
) -> (k: int)
    requires
        !job.seal,
        run_work(begun(work_plan(job, false)), replies) == WorkV::Finished(Ok(())),
        is_pair(job.entry, job.staged, temp_text(job.store), from, to, kind),
    ensures
        0 <= k,
        k + 1 < replies.len(),
        asks(run_work(begun(work_plan(job, false)), replies.take(k))) == Some(
            Request::Inspect(from),
        ),
        replies[k] matches ReplyV::Metadata { mode, modified, .. } && {
            &&& asks(run_work(begun(work_plan(job, false)), replies.take(k + 1))) == Some(
                time_request(to, kind, modified),
            )
            &&& replies[k + 1] is Done
            &&& kind is Directory ==> {
                &&& k + 2 < replies.len()
                &&& asks(run_work(begun(work_plan(job, false)), replies.take(k + 2))) == Some(
                    Request::SetMode { path: to, mode },
                )
                &&& replies[k + 2] is Done
            }
        },
{
    let plan = work_plan(job, false);
    let start = begun(plan);
    let i = lemma_pair_in_plan(job.entry, job.staged, temp_text(job.store), from, to, kind);
    assert(plan[4 + i] == metadata_plan(job)[i]);
    let (k, guard) = every_task_has_its_turn(plan, None, replies, 4 + i);
    let left = plan.skip(4 + i);
    assert(left[0] == plan[4 + i]);
    let tasks = expand(left[0], replies[k])->Ok_0;
    lemma_step(start, replies, k);
    let next = tasks + left.drop_first();
    assert(next[0] == tasks[0]);
    assert(run_work(start, replies.take(k + 1)) == WorkV::Running { agenda: next, guard });
    lemma_next_turn(start, replies, k + 1);
    if kind is Directory {
        lemma_step(start, replies, k + 1);
        let more = expand(next[0], replies[k + 1])->Ok_0;
        let after = more + next.drop_first();
        assert(after[0] == tasks[1]);
        assert(run_work(start, replies.take(k + 2)) == WorkV::Running { agenda: after, guard });
        lemma_next_turn(start, replies, k + 2);
    }
    k
}

} // verus!
