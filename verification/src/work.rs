//! Work on the file system: a list of tasks that are done one after the other, and what happens
//! when one of them fails.

use vstd::prelude::*;
use vstd::string::*;

use crate::task::{
    expand, request_of, tasks_view, OutputErrorV, Reply, ReplyV, Request, StoreOutputError, Task,
    TaskV,
};

verus! {

/// How far work has come.
pub enum WorkV {
    /// The tasks that are left, and the tree that a failure removes.
    Running { agenda: Seq<TaskV>, guard: Option<Seq<char>> },
    /// A task failed, and what it had built is being removed.
    CleaningUp { agenda: Seq<TaskV>, error: OutputErrorV },
    Finished(Result<(), OutputErrorV>),
}

/// What a failure leads to.
pub open spec fn raise(guard: Option<Seq<char>>, error: OutputErrorV) -> WorkV {
    match guard {
        None => WorkV::Finished(Err(error)),
        Some(path) => WorkV::CleaningUp { agenda: seq![Task::RemoveTree(path)], error },
    }
}

/// Work goes on by itself until it asks something or is finished.
pub open spec fn settle(work: WorkV) -> WorkV
    decreases
            match work {
                WorkV::Running { agenda, .. } => agenda.len(),
                WorkV::CleaningUp { agenda, .. } => agenda.len(),
                WorkV::Finished(_) => 0,
            },
{
    match work {
        WorkV::Running { agenda, guard } => if agenda.len() == 0 {
            WorkV::Finished(Ok(()))
        } else {
            match agenda[0] {
                Task::Arm(path) => settle(
                    WorkV::Running { agenda: agenda.drop_first(), guard: Some(path) },
                ),
                Task::Fail(e) => raise(guard, StoreOutputError::Failed(e)),
                _ => work,
            }
        },
        WorkV::CleaningUp { agenda, error } => if agenda.len() == 0 {
            WorkV::Finished(Err(error))
        } else {
            match agenda[0] {
                Task::Arm(_) => settle(
                    WorkV::CleaningUp { agenda: agenda.drop_first(), error },
                ),
                Task::Fail(_) => WorkV::Finished(Err(error)),
                _ => work,
            }
        },
        WorkV::Finished(_) => work,
    }
}

/// The work with these tasks, before its first request.
pub open spec fn begun(tasks: Seq<TaskV>) -> WorkV {
    settle(WorkV::Running { agenda: tasks, guard: None })
}

/// What the work asks, unless it is finished.
pub open spec fn asks(work: WorkV) -> Option<Request<Seq<char>>> {
    match work {
        WorkV::Running { agenda, .. } => request_of(agenda[0]),
        WorkV::CleaningUp { agenda, .. } => request_of(agenda[0]),
        WorkV::Finished(_) => None,
    }
}

/// How the work goes on after the reply to what it asked. A failure while it cleans up ends the
/// clean-up, and the first error stands.
pub open spec fn advance(work: WorkV, reply: ReplyV) -> WorkV {
    match work {
        WorkV::Running { agenda, guard } => match expand(agenda[0], reply) {
            Ok(tasks) => settle(
                WorkV::Running { agenda: tasks + agenda.drop_first(), guard },
            ),
            Err(e) => raise(guard, e),
        },
        WorkV::CleaningUp { agenda, error } => match expand(agenda[0], reply) {
            Ok(tasks) => settle(
                WorkV::CleaningUp { agenda: tasks + agenda.drop_first(), error },
            ),
            Err(_) => WorkV::Finished(Err(error)),
        },
        WorkV::Finished(_) => work,
    }
}

/// The work has something to ask, or is finished.
pub open spec fn is_settled(work: WorkV) -> bool {
    match work {
        WorkV::Running { agenda, .. } => agenda.len() > 0 && request_of(agenda[0]) is Some,
        WorkV::CleaningUp { agenda, .. } => agenda.len() > 0 && request_of(agenda[0]) is Some,
        WorkV::Finished(_) => true,
    }
}

/// Settling ends in a settled state.
pub proof fn lemma_settle(work: WorkV)
    ensures
        is_settled(settle(work)),
    decreases
            match work {
                WorkV::Running { agenda, .. } => agenda.len(),
                WorkV::CleaningUp { agenda, .. } => agenda.len(),
                WorkV::Finished(_) => 0,
            },
{
    match work {
        WorkV::Running { agenda, guard } => {
            if agenda.len() > 0 {
                if let Task::Arm(path) = agenda[0] {
                    lemma_settle(
                        WorkV::Running { agenda: agenda.drop_first(), guard: Some(path) },
                    );
                }
            }
        },
        WorkV::CleaningUp { agenda, error } => {
            if agenda.len() > 0 && agenda[0] is Arm {
                lemma_settle(WorkV::CleaningUp { agenda: agenda.drop_first(), error });
            }
        },
        WorkV::Finished(_) => {},
    }
}

#[derive(Debug)]
enum State {
    Running { stack: Vec<Task<String>>, guard: Option<String> },
    CleaningUp { stack: Vec<Task<String>>, error: StoreOutputError<String> },
    Finished(Result<(), StoreOutputError<String>>),
}

/// Work under way. The caller sends each request to the file system and hands back the reply.
#[derive(Debug)]
pub struct Work {
    state: State,
}

/// The tasks of a stack, the next one first.
spec fn agenda_of(stack: Seq<Task<String>>) -> Seq<TaskV> {
    tasks_view(stack).reverse()
}

spec fn text_option(text: Option<String>) -> Option<Seq<char>> {
    match text {
        Some(t) => Some(t@),
        None => None,
    }
}

spec fn state_view(state: State) -> WorkV {
    match state {
        State::Running { stack, guard } => WorkV::Running {
            agenda: agenda_of(stack@),
            guard: text_option(guard),
        },
        State::CleaningUp { stack, error } => WorkV::CleaningUp {
            agenda: agenda_of(stack@),
            error: error@,
        },
        State::Finished(Ok(())) => WorkV::Finished(Ok(())),
        State::Finished(Err(e)) => WorkV::Finished(Err(e@)),
    }
}

impl View for Work {
    type V = WorkV;

    closed spec fn view(&self) -> WorkV {
        state_view(self.state)
    }
}

/// Puts tasks in front of those on a stack.
fn put_first(stack: &mut Vec<Task<String>>, tasks: Vec<Task<String>>)
    ensures
        agenda_of(final(stack)@) == tasks_view(tasks@) + agenda_of(old(stack)@),
{
    let ghost all = tasks@;
    let mut tasks = tasks;
    assert(all.take(all.len() as int) =~= all);
    assert(tasks_view(all).skip(all.len() as int) + agenda_of(stack@) =~= agenda_of(stack@));
    while tasks.len() > 0
        invariant
            tasks@.len() <= all.len(),
            tasks@ == all.take(tasks@.len() as int),
            agenda_of(stack@) == tasks_view(all).skip(tasks@.len() as int) + agenda_of(
                old(stack)@,
            ),
        decreases tasks.len(),
    {
        let ghost n = tasks@.len() as int;
        let ghost before = stack@;
        if let Some(task) = tasks.pop() {
            assert(task == all[n - 1]);
            stack.push(task);
            proof {
                assert(agenda_of(stack@) =~= seq![task@] + agenda_of(before));
                assert(tasks_view(all).skip(n - 1) =~= seq![task@] + tasks_view(all).skip(n));
                assert(tasks@ =~= all.take(n - 1));
            }
        }
    }
    assert(tasks_view(all).skip(0) =~= tasks_view(all));
}

fn raised(guard: Option<String>, error: StoreOutputError<String>) -> (res: State)
    ensures
        state_view(res) == raise(text_option(guard), error@),
{
    match guard {
        None => State::Finished(Err(error)),
        Some(path) => {
            let mut stack: Vec<Task<String>> = Vec::new();
            stack.push(Task::RemoveTree(path));
            assert(agenda_of(stack@) =~= seq![Task::RemoveTree(path@)]);
            State::CleaningUp { stack, error }
        },
    }
}

proof fn lemma_top(stack: Seq<Task<String>>)
    requires
        stack.len() > 0,
    ensures
        agenda_of(stack).len() == stack.len(),
        agenda_of(stack)[0] == stack.last()@,
        agenda_of(stack).drop_first() == agenda_of(stack.drop_last()),
{
    assert(agenda_of(stack).drop_first() =~= agenda_of(stack.drop_last()));
}

fn settled_running(stack: Vec<Task<String>>, guard: Option<String>) -> (res: State)
    ensures
        state_view(res) == settle(
            WorkV::Running { agenda: agenda_of(stack@), guard: text_option(guard) },
        ),
{
    let ghost start = settle(
        WorkV::Running { agenda: agenda_of(stack@), guard: text_option(guard) },
    );
    let mut rest = stack;
    let mut armed = guard;
    loop
        invariant
            start == settle(WorkV::Running { agenda: agenda_of(stack@), guard: text_option(guard) }),
            start == settle(WorkV::Running { agenda: agenda_of(rest@), guard: text_option(armed) }),
        decreases rest@.len(),
    {
        let n: usize = rest.len();
        if n == 0 {
            return State::Finished(Ok(()));
        }
        proof {
            lemma_top(rest@);
        }
        match &rest[n - 1] {
            Task::Arm(path) => {
                armed = Some(path.clone());
            },
            Task::Fail(e) => {
                return raised(armed, StoreOutputError::Failed(e.clone()));
            },
            _ => {
                return State::Running { stack: rest, guard: armed };
            },
        }
        rest.pop();
    }
}

fn settled_cleaning(stack: Vec<Task<String>>, error: StoreOutputError<String>) -> (res: State)
    ensures
        state_view(res) == settle(
            WorkV::CleaningUp { agenda: agenda_of(stack@), error: error@ },
        ),
{
    let ghost start = settle(WorkV::CleaningUp { agenda: agenda_of(stack@), error: error@ });
    let mut rest = stack;
    loop
        invariant
            start == settle(WorkV::CleaningUp { agenda: agenda_of(stack@), error: error@ }),
            start == settle(WorkV::CleaningUp { agenda: agenda_of(rest@), error: error@ }),
        decreases rest@.len(),
    {
        let n: usize = rest.len();
        if n == 0 {
            return State::Finished(Err(error));
        }
        proof {
            lemma_top(rest@);
        }
        match &rest[n - 1] {
            Task::Arm(_) => {},
            Task::Fail(_) => {
                return State::Finished(Err(error));
            },
            _ => {
                return State::CleaningUp { stack: rest, error };
            },
        }
        rest.pop();
    }
}

impl Work {
    #[verifier::type_invariant]
    spec fn wf(self) -> bool {
        is_settled(state_view(self.state))
    }

    /// Begins the work that consists of these tasks.
    pub fn begin(tasks: Vec<Task<String>>) -> (res: Work)
        ensures
            res@ == begun(tasks_view(tasks@)),
    {
        let mut stack: Vec<Task<String>> = Vec::new();
        let ghost list = tasks_view(tasks@);
        put_first(&mut stack, tasks);
        proof {
            assert(agenda_of(stack@) =~= list);
            lemma_settle(WorkV::Running { agenda: list, guard: None });
        }
        Work { state: settled_running(stack, None) }
    }

    /// What the work asks next. Finished work asks nothing.
    pub fn request(&self) -> (res: Option<Request<String>>)
        ensures
            match asks(self@) {
                Some(r) => res is Some && res->0@ == r,
                None => res is None,
            },
            res is None <==> self@ is Finished,
    {
        proof {
            use_type_invariant(self);
        }
        match &self.state {
            State::Running { stack, .. } => {
                proof {
                    lemma_top(stack@);
                }
                stack[stack.len() - 1].request()
            },
            State::CleaningUp { stack, .. } => {
                proof {
                    lemma_top(stack@);
                }
                stack[stack.len() - 1].request()
            },
            State::Finished(_) => None,
        }
    }

    /// Goes on after the reply to what the work asked.
    pub fn step(self, reply: &Reply) -> (res: Work)
        ensures
            res@ == advance(self@, reply@),
    {
        proof {
            use_type_invariant(&self);
        }
        match self.state {
            State::Running { stack, guard } => {
                let ghost agenda = agenda_of(stack@);
                let mut stack = stack;
                proof {
                    lemma_top(stack@);
                }
                let state = match stack[stack.len() - 1].proceed(reply) {
                    Ok(tasks) => {
                        stack.pop();
                        let ghost next = WorkV::Running {
                            agenda: tasks_view(tasks@) + agenda.drop_first(),
                            guard: text_option(guard),
                        };
                        put_first(&mut stack, tasks);
                        proof {
                            lemma_settle(next);
                        }
                        settled_running(stack, guard)
                    },
                    Err(e) => raised(guard, e),
                };
                Work { state }
            },
            State::CleaningUp { stack, error } => {
                let ghost agenda = agenda_of(stack@);
                let mut stack = stack;
                proof {
                    lemma_top(stack@);
                }
                let state = match stack[stack.len() - 1].proceed(reply) {
                    Ok(tasks) => {
                        stack.pop();
                        let ghost next = WorkV::CleaningUp {
                            agenda: tasks_view(tasks@) + agenda.drop_first(),
                            error: error@,
                        };
                        put_first(&mut stack, tasks);
                        proof {
                            lemma_settle(next);
                        }
                        settled_cleaning(stack, error)
                    },
                    Err(_) => State::Finished(Err(error)),
                };
                Work { state }
            },
            State::Finished(result) => Work { state: State::Finished(result) },
        }
    }

    /// The result of finished work; work that is under way comes back.
    pub fn finish(self) -> (res: Result<Result<(), StoreOutputError<String>>, Work>)
        ensures
            match self@ {
                WorkV::Finished(Ok(())) => res is Ok && res->Ok_0 is Ok,
                WorkV::Finished(Err(e)) => res is Ok && res->Ok_0 is Err && res->Ok_0->Err_0@ == e,
                _ => res is Err && res->Err_0@ == self@,
            },
    {
        match self.state {
            State::Finished(result) => Ok(result),
            _ => Err(self),
        }
    }
}

/// Begins to remove a tree, sealed directories not excepted.
pub fn remove_output_tree(path: &str) -> (res: Work)
    ensures
        res@ == begun(seq![Task::RemoveTree(path@)]),
{
    let mut tasks: Vec<Task<String>> = Vec::new();
    tasks.push(Task::RemoveTree(path.to_owned()));
    assert(tasks_view(tasks@) =~= seq![Task::RemoveTree(path@)]);
    Work::begin(tasks)
}

} // verus!
