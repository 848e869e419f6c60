//! Putting a store object in place: under the lock of its store path, and with a look at what is
//! there before and after.

use vstd::prelude::*;
use vstd::string::*;

use crate::abs_path::{below_text, AbsNormPathBuf, ForwardRelativePathBuf};
use crate::entry::{EntryV, StoreEntry};
use crate::paths::is_abs_norm;
use crate::store_output::{
    job_of, lock_plan, verification, verify_store_output, work_plan, JobV, MaterializeStoreOutput,
    ReadBack,
};
use crate::task::{OutputErrorV, Reply, ReplyV, Request, StoreOutputError};
use crate::work::{advance, asks, begun, Work, WorkV};

verus! {

/// How far a job has come.
pub enum StageV {
    /// Taking the lock.
    Locking(WorkV),
    /// Looking whether something is at the store path.
    Checking,
    Working(WorkV),
    Finished(Result<(), OutputErrorV>),
}

/// The stage that work on the lock has reached.
pub open spec fn locking(work: WorkV) -> StageV {
    match work {
        WorkV::Finished(Ok(())) => StageV::Checking,
        WorkV::Finished(Err(e)) => StageV::Finished(Err(e)),
        _ => StageV::Locking(work),
    }
}

/// The stage that work on the object has reached.
pub open spec fn working(work: WorkV) -> StageV {
    match work {
        WorkV::Finished(Ok(())) => StageV::Finished(Ok(())),
        WorkV::Finished(Err(e)) => StageV::Finished(Err(e)),
        _ => StageV::Working(work),
    }
}

/// The stage in which a job begins.
pub open spec fn first_stage(job: JobV) -> StageV {
    locking(begun(lock_plan(job.store)))
}

/// What a job asks in a stage.
pub open spec fn stage_asks(job: JobV, stage: StageV) -> Option<Request<Seq<char>>> {
    match stage {
        StageV::Locking(work) => asks(work),
        StageV::Checking => Some(Request::TryExists(job.store)),
        StageV::Working(work) => asks(work),
        StageV::Finished(_) => None,
    }
}

/// The stage that follows from a reply.
pub open spec fn next_stage(job: JobV, stage: StageV, reply: ReplyV) -> StageV {
    match stage {
        StageV::Locking(work) => locking(advance(work, reply)),
        StageV::Checking => match reply {
            ReplyV::Exists(exists) => working(begun(work_plan(job, exists))),
            ReplyV::Failed { error, .. } => StageV::Finished(Err(StoreOutputError::Failed(error))),
            _ => StageV::Finished(Err(StoreOutputError::UnexpectedReply)),
        },
        StageV::Working(work) => working(advance(work, reply)),
        StageV::Finished(_) => stage,
    }
}

#[derive(Debug)]
enum Stage {
    Locking(Work),
    Checking,
    Working(Work),
    Finished(Result<(), StoreOutputError<String>>),
}

spec fn stage_view(stage: Stage) -> StageV {
    match stage {
        Stage::Locking(work) => StageV::Locking(work@),
        Stage::Checking => StageV::Checking,
        Stage::Working(work) => StageV::Working(work@),
        Stage::Finished(Ok(())) => StageV::Finished(Ok(())),
        Stage::Finished(Err(e)) => StageV::Finished(Err(e@)),
    }
}

/// A job under way. The caller sends each request to the file system and hands back the reply.
/// It holds the lock until the job is finished.
#[derive(Debug)]
pub struct Materialization {
    request: MaterializeStoreOutput,
    root: AbsNormPathBuf,
    stage: Stage,
}

fn after_locking(work: Work) -> (res: Stage)
    ensures
        stage_view(res) == locking(work@),
{
    match work.finish() {
        Ok(Ok(())) => Stage::Checking,
        Ok(Err(e)) => Stage::Finished(Err(e)),
        Err(work) => Stage::Locking(work),
    }
}

fn after_working(work: Work) -> (res: Stage)
    ensures
        stage_view(res) == working(work@),
{
    match work.finish() {
        Ok(Ok(())) => Stage::Finished(Ok(())),
        Ok(Err(e)) => Stage::Finished(Err(e)),
        Err(work) => Stage::Working(work),
    }
}

impl Materialization {
    /// The job.
    pub closed spec fn job(self) -> JobV {
        job_of(self.request, self.root@)
    }

    /// How far it has come.
    pub closed spec fn stage(self) -> StageV {
        stage_view(self.stage)
    }

    /// What the job asks next. A finished job asks nothing.
    pub fn request(&self) -> (res: Option<Request<String>>)
        ensures
            match stage_asks(self.job(), self.stage()) {
                Some(r) => res is Some && res->0@ == r,
                None => res is None,
            },
    {
        match &self.stage {
            Stage::Locking(work) => work.request(),
            Stage::Checking => Some(
                Request::TryExists(self.request.store_path.as_str().to_owned()),
            ),
            Stage::Working(work) => work.request(),
            Stage::Finished(_) => None,
        }
    }

    /// Goes on after the reply to what the job asked.
    pub fn step(self, reply: &Reply) -> (res: Materialization)
        ensures
            res.job() == self.job(),
            res.stage() == next_stage(self.job(), self.stage(), reply@),
    {
        let Materialization { request, root, stage } = self;
        let next = match stage {
            Stage::Locking(work) => after_locking(work.step(reply)),
            Stage::Checking => match reply {
                Reply::Exists(exists) => after_working(
                    Work::begin(request.work_tasks(&root, *exists)),
                ),
                Reply::Failed { error, .. } => Stage::Finished(
                    Err(StoreOutputError::Failed(error.clone())),
                ),
                _ => Stage::Finished(Err(StoreOutputError::UnexpectedReply)),
            },
            Stage::Working(work) => after_working(work.step(reply)),
            Stage::Finished(result) => Stage::Finished(result),
        };
        Materialization { request, root, stage: next }
    }

    /// The result of a finished job; a job that is under way comes back.
    pub fn finish(self) -> (res: Result<Result<(), StoreOutputError<String>>, Materialization>)
        ensures
            match self.stage() {
                StageV::Finished(Ok(())) => res is Ok && res->Ok_0 is Ok,
                StageV::Finished(Err(e)) => res is Ok && res->Ok_0 is Err && res->Ok_0->Err_0@ == e,
                _ => res is Err && res->Err_0 == self,
            },
    {
        match self.stage {
            Stage::Finished(result) => Ok(result),
            _ => Err(self),
        }
    }
}

impl MaterializeStoreOutput {
    /// Begins the job in the project at `root`.
    pub fn execute(self, root: &AbsNormPathBuf) -> (res: Materialization)
        ensures
            res.job() == job_of(self, root@),
            res.stage() == first_stage(job_of(self, root@)),
    {
        let work = Work::begin(self.lock_tasks());
        Materialization { request: self, root: root.duplicate(), stage: after_locking(work) }
    }
}

/// How far the realization of an artifact has come.
pub enum RunV {
    /// Looking whether something is at the store path.
    Looking,
    /// Comparing what was there before with the recorded entry.
    VerifyingFirst,
    Materializing(StageV),
    /// Comparing what is there now with the recorded entry.
    VerifyingLast,
    Finished(Result<(), OutputErrorV>),
}

/// A request of a realization: one to the file system, or to read a store path back.
#[derive(Debug)]
pub enum RunRequest<S> {
    Io(Request<S>),
    ReadBack(S),
}

/// The reply to a [`RunRequest`].
#[derive(Debug)]
pub enum RunReply {
    Io(Reply),
    Found(ReadBack),
}

/// Where the realization stands when its job has reached a stage.
pub open spec fn materializing(stage: StageV) -> RunV {
    match stage {
        StageV::Finished(Ok(())) => RunV::VerifyingLast,
        StageV::Finished(Err(e)) => RunV::Finished(Err(e)),
        _ => RunV::Materializing(stage),
    }
}

/// What a realization asks.
pub open spec fn run_asks(job: JobV, run: RunV) -> Option<RunRequest<Seq<char>>> {
    match run {
        RunV::Looking => Some(RunRequest::Io(Request::TryExists(job.store))),
        RunV::VerifyingFirst => Some(RunRequest::ReadBack(job.store)),
        RunV::Materializing(stage) => match stage_asks(job, stage) {
            Some(r) => Some(RunRequest::Io(r)),
            None => None,
        },
        RunV::VerifyingLast => Some(RunRequest::ReadBack(job.store)),
        RunV::Finished(_) => None,
    }
}

/// How a realization goes on. What is at the store path must be the recorded object, and is then
/// left alone unless it is to be sealed; in the end it must be the recorded object again.
pub open spec fn next_run(job: JobV, run: RunV, reply: RunReply) -> RunV {
    match (run, reply) {
        (RunV::Looking, RunReply::Io(r)) => match r@ {
            ReplyV::Exists(true) => RunV::VerifyingFirst,
            ReplyV::Exists(false) => materializing(first_stage(job)),
            ReplyV::Failed { error, .. } => RunV::Finished(Err(StoreOutputError::Failed(error))),
            _ => RunV::Finished(Err(StoreOutputError::UnexpectedReply)),
        },
        (RunV::VerifyingFirst, RunReply::Found(found)) => match verification(
            job.store,
            found,
            job.entry,
        ) {
            Err(e) => RunV::Finished(Err(e)),
            Ok(()) => if job.seal {
                materializing(first_stage(job))
            } else {
                RunV::Finished(Ok(()))
            },
        },
        (RunV::Materializing(stage), RunReply::Io(r)) => materializing(next_stage(job, stage, r@)),
        (RunV::VerifyingLast, RunReply::Found(found)) => match verification(
            job.store,
            found,
            job.entry,
        ) {
            Err(e) => RunV::Finished(Err(e)),
            Ok(()) => RunV::Finished(Ok(())),
        },
        (RunV::Finished(_), _) => run,
        _ => RunV::Finished(Err(StoreOutputError::UnexpectedReply)),
    }
}

#[derive(Debug)]
enum Run {
    Looking,
    VerifyingFirst,
    Materializing(Materialization),
    VerifyingLast,
    Finished(Result<(), StoreOutputError<String>>),
}

spec fn run_view(run: Run) -> RunV {
    match run {
        Run::Looking => RunV::Looking,
        Run::VerifyingFirst => RunV::VerifyingFirst,
        Run::Materializing(m) => RunV::Materializing(m.stage()),
        Run::VerifyingLast => RunV::VerifyingLast,
        Run::Finished(Ok(())) => RunV::Finished(Ok(())),
        Run::Finished(Err(e)) => RunV::Finished(Err(e@)),
    }
}

/// The realization of an artifact at its store path. The caller answers each request.
#[derive(Debug)]
pub struct Realization {
    root: AbsNormPathBuf,
    staged_path: ForwardRelativePathBuf,
    store_path: AbsNormPathBuf,
    entry: StoreEntry,
    seal_cas_transport: bool,
    run: Run,
}

/// The job of an artifact.
pub open spec fn artifact_job(
    root: Seq<char>,
    staged_path: Seq<char>,
    store_path: Seq<char>,
    entry: EntryV,
    seal_cas_transport: bool,
) -> JobV {
    JobV {
        staged: below_text(root, staged_path),
        store: store_path,
        entry,
        seal: seal_cas_transport,
    }
}

fn after_materializing(m: Materialization) -> (res: Run)
    ensures
        run_view(res) == materializing(m.stage()),
        res is Materializing ==> res->Materializing_0.job() == m.job(),
{
    match m.finish() {
        Ok(Ok(())) => Run::VerifyingLast,
        Ok(Err(e)) => Run::Finished(Err(e)),
        Err(m) => Run::Materializing(m),
    }
}

/// Begins to realize an artifact at its store path.
pub fn materialize_store_output(
    root: &AbsNormPathBuf,
    staged_path: &ForwardRelativePathBuf,
    store_path: &str,
    artifact: StoreEntry,
    seal_cas_transport: bool,
) -> (res: Result<Realization, StoreOutputError<String>>)
    ensures
        if is_abs_norm(store_path@) {
            &&& res is Ok
            &&& res->Ok_0.run() == RunV::Looking
            &&& res->Ok_0.job() == artifact_job(
                root@,
                staged_path@,
                store_path@,
                artifact@,
                seal_cas_transport,
            )
        } else {
            res is Err && res->Err_0@ == StoreOutputError::InvalidStorePath(store_path@)
        },
{
    match AbsNormPathBuf::parse(store_path) {
        None => Err(StoreOutputError::InvalidStorePath(store_path.to_owned())),
        Some(path) => Ok(
            Realization {
                root: root.duplicate(),
                staged_path: staged_path.duplicate(),
                store_path: path,
                entry: artifact,
                seal_cas_transport,
                run: Run::Looking,
            },
        ),
    }
}

impl Realization {
    /// The job of the artifact.
    pub closed spec fn job(self) -> JobV {
        artifact_job(
            self.root@,
            self.staged_path@,
            self.store_path@,
            self.entry@,
            self.seal_cas_transport,
        )
    }

    /// How far it has come.
    pub closed spec fn run(self) -> RunV {
        run_view(self.run)
    }

    #[verifier::type_invariant]
    spec fn wf(self) -> bool {
        self.run is Materializing ==> self.run->Materializing_0.job() == self.job()
    }

    /// What the realization asks next. A finished one asks nothing.
    pub fn request(&self) -> (res: Option<RunRequest<String>>)
        ensures
            match run_asks(self.job(), self.run()) {
                Some(RunRequest::Io(r)) => res matches Some(RunRequest::Io(q)) && q@ == r,
                Some(RunRequest::ReadBack(p)) => res matches Some(RunRequest::ReadBack(q)) && q@
                    == p,
                None => res is None,
            },
    {
        proof {
            use_type_invariant(self);
        }
        match &self.run {
            Run::Looking => Some(
                RunRequest::Io(Request::TryExists(self.store_path.as_str().to_owned())),
            ),
            Run::VerifyingFirst | Run::VerifyingLast => Some(
                RunRequest::ReadBack(self.store_path.as_str().to_owned()),
            ),
            Run::Materializing(m) => match m.request() {
                Some(r) => Some(RunRequest::Io(r)),
                None => None,
            },
            Run::Finished(_) => None,
        }
    }

    fn begin_job(&self) -> (res: Run)
        ensures
            run_view(res) == materializing(first_stage(self.job())),
            res is Materializing ==> res->Materializing_0.job() == self.job(),
    {
        let request = MaterializeStoreOutput {
            staged_path: self.staged_path.duplicate(),
            store_path: self.store_path.duplicate(),
            entry: self.entry.duplicate(),
            seal_cas_transport: self.seal_cas_transport,
        };
        after_materializing(request.execute(&self.root))
    }

    /// Goes on after the reply to what the realization asked.
    pub fn step(self, reply: &RunReply) -> (res: Realization)
        ensures
            res.job() == self.job(),
            res.run() == next_run(self.job(), self.run(), *reply),
    {
        proof {
            use_type_invariant(&self);
        }
        let next = match (&self.run, reply) {
            (Run::Looking, RunReply::Io(Reply::Exists(true))) => Run::VerifyingFirst,
            (Run::Looking, RunReply::Io(Reply::Exists(false))) => self.begin_job(),
            (Run::Looking, RunReply::Io(Reply::Failed { error, .. })) => Run::Finished(
                Err(StoreOutputError::Failed(error.clone())),
            ),
            (Run::VerifyingFirst, RunReply::Found(found)) => {
                match verify_store_output(self.store_path.as_str(), found, &self.entry) {
                    Err(e) => Run::Finished(Err(e)),
                    Ok(()) => {
                        if self.seal_cas_transport {
                            self.begin_job()
                        } else {
                            Run::Finished(Ok(()))
                        }
                    },
                }
            },
            (Run::VerifyingLast, RunReply::Found(found)) => {
                match verify_store_output(self.store_path.as_str(), found, &self.entry) {
                    Err(e) => Run::Finished(Err(e)),
                    Ok(()) => Run::Finished(Ok(())),
                }
            },
            (Run::Materializing(_), RunReply::Io(_)) | (Run::Finished(_), _) => {
                return self.step_job(reply);
            },
            _ => Run::Finished(Err(StoreOutputError::UnexpectedReply)),
        };
        let Realization { root, staged_path, store_path, entry, seal_cas_transport, run: _ } = self;
        Realization { root, staged_path, store_path, entry, seal_cas_transport, run: next }
    }

    fn step_job(self, reply: &RunReply) -> (res: Realization)
        requires
            (self.run() is Materializing && *reply is Io) || self.run() is Finished,
        ensures
            res.job() == self.job(),
            res.run() == next_run(self.job(), self.run(), *reply),
    {
        proof {
            use_type_invariant(&self);
        }
        let Realization { root, staged_path, store_path, entry, seal_cas_transport, run } = self;
        let next = match (run, reply) {
            (Run::Materializing(m), RunReply::Io(r)) => after_materializing(m.step(r)),
            (run, _) => run,
        };
        Realization { root, staged_path, store_path, entry, seal_cas_transport, run: next }
    }

    /// The result of a finished realization; one that is under way comes back.
    pub fn finish(self) -> (res: Result<Result<(), StoreOutputError<String>>, Realization>)
        ensures
            match self.run() {
                RunV::Finished(Ok(())) => res is Ok && res->Ok_0 is Ok,
                RunV::Finished(Err(e)) => res is Ok && res->Ok_0 is Err && res->Ok_0->Err_0@ == e,
                _ => res is Err && res->Err_0 == self,
            },
    {
        match self.run {
            Run::Finished(result) => Ok(result),
            _ => Err(self),
        }
    }
}

} // verus!
