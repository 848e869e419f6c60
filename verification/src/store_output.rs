//! Which tasks put a store object in place, and whether what is there is what was recorded.

use vstd::prelude::*;
use vstd::string::*;

use crate::abs_path::{below_text, parent_text, AbsNormPathBuf, ForwardRelativePathBuf};
use crate::disk::{sealed_modified, sealed_time};
use crate::entry::{children_model, entry_model, same_entry, EntryV, NamedEntry, StoreEntry};
use crate::paths::{join, join_text};
use crate::task::{tasks_view, OutputErrorV, Request, StoreOutputError, Task, TaskV};

verus! {

/// The tasks that seal a tree: the members of a directory before the directory itself.
pub open spec fn seal_plan(entry: EntryV, dest: Seq<char>) -> Seq<TaskV>
    decreases entry,
{
    match entry {
        EntryV::Dir(members) => seal_members(members, dest).push(Task::Seal(dest)),
        EntryV::File { .. } => seq![Task::Seal(dest)],
        EntryV::Symlink(_) | EntryV::ExternalSymlink(_) => seq![
            Task::Do(Request::SetSymlinkModified { path: dest, modified: sealed_time() }),
        ],
    }
}

/// The tasks that seal the members of a directory, in order.
pub open spec fn seal_members(members: Seq<(Seq<char>, EntryV)>, dest: Seq<char>) -> Seq<TaskV>
    decreases members,
{
    if members.len() == 0 {
        seq![]
    } else {
        seal_members(members.drop_last(), dest) + seal_plan(
            members.last().1,
            join_text(dest, members.last().0),
        )
    }
}

/// The tasks that carry the metadata of a staged tree over to its copy: the members of a
/// directory before the directory itself.
pub open spec fn preserve_plan(entry: EntryV, src: Seq<char>, dest: Seq<char>) -> Seq<TaskV>
    decreases entry,
{
    match entry {
        EntryV::Dir(members) => preserve_members(members, src, dest).push(
            Task::PreserveNative { src, dest, directory: true },
        ),
        EntryV::File { .. } => seq![Task::PreserveNative { src, dest, directory: false }],
        EntryV::Symlink(_) | EntryV::ExternalSymlink(_) => seq![
            Task::PreserveSymlink { src, dest },
        ],
    }
}

/// The tasks that carry the metadata of the members of a directory over, in order.
pub open spec fn preserve_members(
    members: Seq<(Seq<char>, EntryV)>,
    src: Seq<char>,
    dest: Seq<char>,
) -> Seq<TaskV>
    decreases members,
{
    if members.len() == 0 {
        seq![]
    } else {
        let name = members.last().0;
        preserve_members(members.drop_last(), src, dest) + preserve_plan(
            members.last().1,
            join_text(src, name),
            join_text(dest, name),
        )
    }
}

fn add_task(out: &mut Vec<Task<String>>, task: Task<String>)
    ensures
        tasks_view(final(out)@) == tasks_view(old(out)@).push(task@),
{
    out.push(task);
    assert(tasks_view(out@) =~= tasks_view(old(out)@).push(task@));
}

proof fn lemma_take_children(list: Seq<NamedEntry>, i: int)
    requires
        0 <= i < list.len(),
    ensures
        children_model(list.take(i + 1)).drop_last() == children_model(list.take(i)),
        children_model(list.take(i + 1)).last() == (list[i].name@, entry_model(list[i].entry)),
        children_model(list.take(i + 1)).len() > 0,
{
    assert(list.take(i + 1).drop_last() =~= list.take(i));
    assert(children_model(list.take(i + 1)).drop_last() =~= children_model(list.take(i)));
}

fn seal_into(entry: &StoreEntry, dest: &str, out: &mut Vec<Task<String>>)
    ensures
        tasks_view(final(out)@) == tasks_view(old(out)@) + seal_plan(entry@, dest@),
    decreases entry,
{
    let ghost start = tasks_view(out@);
    match entry {
        StoreEntry::Dir(children) => {
            let mut i: usize = 0;
            proof {
                assert(children@.take(0) =~= seq![]);
                assert(start + seal_members(children_model(children@.take(0)), dest@) =~= start);
            }
            while i < children.len()
                invariant
                    i <= children@.len(),
                    *entry == StoreEntry::Dir(*children),
                    tasks_view(out@) == start + seal_members(
                        children_model(children@.take(i as int)),
                        dest@,
                    ),
                decreases children.len() - i,
            {
                let child_path = join(dest, &children[i].name);
                assert(decreases_to!(*entry => entry->Dir_0));
                assert(decreases_to!(*children => children@));
                assert(decreases_to!(children@ => children@[i as int]));
                assert(decreases_to!(children@[i as int] => children@[i as int].entry));
                seal_into(&children[i].entry, &child_path, out);
                proof {
                    lemma_take_children(children@, i as int);
                    assert(tasks_view(out@) =~= start + seal_members(
                        children_model(children@.take(i + 1)),
                        dest@,
                    ));
                }
                i += 1;
            }
            add_task(out, Task::Seal(dest.to_owned()));
            proof {
                assert(children@.take(i as int) =~= children@);
                assert(tasks_view(out@) =~= start + seal_plan(entry@, dest@));
            }
        },
        StoreEntry::File(_) => {
            add_task(out, Task::Seal(dest.to_owned()));
            assert(tasks_view(out@) =~= start + seal_plan(entry@, dest@));
        },
        StoreEntry::Link(_) => {
            add_task(
                out,
                Task::Do(
                    Request::SetSymlinkModified {
                        path: dest.to_owned(),
                        modified: sealed_modified(),
                    },
                ),
            );
            assert(tasks_view(out@) =~= start + seal_plan(entry@, dest@));
        },
    }
}

/// The tasks that give a tree the metadata of a sealed store object.
pub fn normalize_cas_store_output_metadata(entry: &StoreEntry, dest: &str) -> (res: Vec<
    Task<String>,
>)
    ensures
        tasks_view(res@) == seal_plan(entry@, dest@),
{
    let mut out: Vec<Task<String>> = Vec::new();
    seal_into(entry, dest, &mut out);
    assert(tasks_view(out@) =~= seal_plan(entry@, dest@));
    out
}

fn preserve_into(entry: &StoreEntry, src: &str, dest: &str, out: &mut Vec<Task<String>>)
    ensures
        tasks_view(final(out)@) == tasks_view(old(out)@) + preserve_plan(entry@, src@, dest@),
    decreases entry,
{
    let ghost start = tasks_view(out@);
    match entry {
        StoreEntry::Dir(children) => {
            let mut i: usize = 0;
            proof {
                assert(children@.take(0) =~= seq![]);
                assert(start + preserve_members(children_model(children@.take(0)), src@, dest@)
                    =~= start);
            }
            while i < children.len()
                invariant
                    i <= children@.len(),
                    *entry == StoreEntry::Dir(*children),
                    tasks_view(out@) == start + preserve_members(
                        children_model(children@.take(i as int)),
                        src@,
                        dest@,
                    ),
                decreases children.len() - i,
            {
                let child_src = join(src, &children[i].name);
                let child_dest = join(dest, &children[i].name);
                assert(decreases_to!(*entry => entry->Dir_0));
                assert(decreases_to!(*children => children@));
                assert(decreases_to!(children@ => children@[i as int]));
                assert(decreases_to!(children@[i as int] => children@[i as int].entry));
                preserve_into(&children[i].entry, &child_src, &child_dest, out);
                proof {
                    lemma_take_children(children@, i as int);
                    assert(tasks_view(out@) =~= start + preserve_members(
                        children_model(children@.take(i + 1)),
                        src@,
                        dest@,
                    ));
                }
                i += 1;
            }
            add_task(
                out,
                Task::PreserveNative { src: src.to_owned(), dest: dest.to_owned(), directory: true },
            );
            proof {
                assert(children@.take(i as int) =~= children@);
                assert(tasks_view(out@) =~= start + preserve_plan(entry@, src@, dest@));
            }
        },
        StoreEntry::File(_) => {
            add_task(
                out,
                Task::PreserveNative {
                    src: src.to_owned(),
                    dest: dest.to_owned(),
                    directory: false,
                },
            );
            assert(tasks_view(out@) =~= start + preserve_plan(entry@, src@, dest@));
        },
        StoreEntry::Link(_) => {
            add_task(out, Task::PreserveSymlink { src: src.to_owned(), dest: dest.to_owned() });
            assert(tasks_view(out@) =~= start + preserve_plan(entry@, src@, dest@));
        },
    }
}

/// The tasks that carry the metadata of a staged tree over to its copy.
pub fn preserve_store_output_metadata(entry: &StoreEntry, src: &str, dest: &str) -> (res: Vec<
    Task<String>,
>)
    ensures
        tasks_view(res@) == preserve_plan(entry@, src@, dest@),
{
    let mut out: Vec<Task<String>> = Vec::new();
    preserve_into(entry, src, dest, &mut out);
    assert(tasks_view(out@) =~= preserve_plan(entry@, src@, dest@));
    out
}

/// The lock that is held while a store object is put in place.
pub open spec fn lock_text(store: Seq<char>) -> Seq<char> {
    store + ".buck2.lock"@
}

/// Where a store object is built before it is put in place.
pub open spec fn temp_text(store: Seq<char>) -> Seq<char> {
    store + ".buck2.tmp"@
}

/// A store object that is to be put in place.
#[derive(Debug)]
pub struct MaterializeStoreOutput {
    /// Where the object was built, below the root of the project.
    pub staged_path: ForwardRelativePathBuf,
    pub store_path: AbsNormPathBuf,
    pub entry: StoreEntry,
    /// Directories that come out of a content-addressed store keep contents and execute bits,
    /// but neither the sealed modes nor the modification times that store objects carry.
    pub seal_cas_transport: bool,
}

/// A [`MaterializeStoreOutput`] with the place of the staged tree.
pub struct JobV {
    pub staged: Seq<char>,
    pub store: Seq<char>,
    pub entry: EntryV,
    pub seal: bool,
}

/// The job of a request in the project at `root`.
pub open spec fn job_of(request: MaterializeStoreOutput, root: Seq<char>) -> JobV {
    JobV {
        staged: below_text(root, request.staged_path@),
        store: request.store_path@,
        entry: request.entry@,
        seal: request.seal_cas_transport,
    }
}

/// The tasks that take the lock of a store path.
pub open spec fn lock_plan(store: Seq<char>) -> Seq<TaskV> {
    let lock = lock_text(store);
    let directory = match parent_text(lock) {
        Some(parent) => seq![Task::Do(Request::CreateDirAll(parent))],
        None => seq![],
    };
    directory + seq![Task::Do(Request::CreateLock(lock)), Task::Do(Request::LockExclusive)]
}

/// The tasks that follow once it is known whether something is at the store path. What is there
/// stays, and is sealed where that was asked. Else the object is built beside the store path and
/// renamed; from the first write on, a failure removes what was built.
pub open spec fn work_plan(job: JobV, exists: bool) -> Seq<TaskV> {
    if exists {
        if job.seal {
            seal_plan(job.entry, job.store)
        } else {
            seq![]
        }
    } else {
        let temp = temp_text(job.store);
        seq![
            Task::RemoveTree(temp),
            Task::Arm(temp),
            Task::Do(Request::MaterializeDirsAndSymlinks { dest: temp }),
            Task::Do(Request::MaterializeFiles { src: job.staged, dest: temp }),
        ] + metadata_plan(job) + seq![Task::Do(Request::Rename { from: temp, to: job.store })]
    }
}

/// The tasks that give a freshly built object its metadata.
pub open spec fn metadata_plan(job: JobV) -> Seq<TaskV> {
    if job.seal {
        seal_plan(job.entry, temp_text(job.store))
    } else {
        preserve_plan(job.entry, job.staged, temp_text(job.store))
    }
}

impl MaterializeStoreOutput {
    /// The tasks that take the lock.
    pub fn lock_tasks(&self) -> (res: Vec<Task<String>>)
        ensures
            tasks_view(res@) == lock_plan(self.store_path@),
    {
        proof {
            reveal_strlit(".buck2.lock");
        }
        let lock = self.store_path.with_suffix(".buck2.lock");
        let mut out: Vec<Task<String>> = Vec::new();
        assert(tasks_view(out@) =~= seq![]);
        if let Some(parent) = lock.parent() {
            add_task(&mut out, Task::Do(Request::CreateDirAll(parent.as_str().to_owned())));
        }
        add_task(&mut out, Task::Do(Request::CreateLock(lock.as_str().to_owned())));
        add_task(&mut out, Task::Do(Request::LockExclusive));
        assert(tasks_view(out@) =~= lock_plan(self.store_path@));
        out
    }

    /// The tasks that follow once it is known whether something is at the store path.
    pub fn work_tasks(&self, root: &AbsNormPathBuf, exists: bool) -> (res: Vec<Task<String>>)
        ensures
            tasks_view(res@) == work_plan(job_of(*self, root@), exists),
    {
        let ghost job = job_of(*self, root@);
        if exists {
            if self.seal_cas_transport {
                return normalize_cas_store_output_metadata(&self.entry, self.store_path.as_str());
            }
            let none: Vec<Task<String>> = Vec::new();
            assert(tasks_view(none@) =~= work_plan(job, exists));
            return none;
        }
        proof {
            reveal_strlit(".buck2.tmp");
        }
        let staged = root.join(&self.staged_path);
        let temp = self.store_path.with_suffix(".buck2.tmp");
        let mut out: Vec<Task<String>> = Vec::new();
        assert(tasks_view(out@) =~= seq![]);
        add_task(&mut out, Task::RemoveTree(temp.as_str().to_owned()));
        add_task(&mut out, Task::Arm(temp.as_str().to_owned()));
        add_task(
            &mut out,
            Task::Do(Request::MaterializeDirsAndSymlinks { dest: temp.as_str().to_owned() }),
        );
        add_task(
            &mut out,
            Task::Do(
                Request::MaterializeFiles {
                    src: staged.as_str().to_owned(),
                    dest: temp.as_str().to_owned(),
                },
            ),
        );
        if self.seal_cas_transport {
            seal_into(&self.entry, temp.as_str(), &mut out);
        } else {
            preserve_into(&self.entry, staged.as_str(), temp.as_str(), &mut out);
        }
        add_task(
            &mut out,
            Task::Do(
                Request::Rename {
                    from: temp.as_str().to_owned(),
                    to: self.store_path.as_str().to_owned(),
                },
            ),
        );
        assert(tasks_view(out@) =~= work_plan(job, exists));
        out
    }
}

/// What reading a store path back gave.
#[derive(Debug)]
pub enum ReadBack {
    /// It could not be read.
    Failed(String),
    /// Nothing is there.
    Absent,
    /// What is there could not be recorded.
    Unrecorded,
    Entry(StoreEntry),
}

/// What the comparison of a store path with the recorded entry gives.
pub open spec fn verification(store: Seq<char>, found: ReadBack, recorded: EntryV) -> Result<
    (),
    OutputErrorV,
> {
    match found {
        ReadBack::Failed(e) => Err(StoreOutputError::Failed(e@)),
        ReadBack::Absent => Err(StoreOutputError::Disappeared(store)),
        ReadBack::Unrecorded => Err(StoreOutputError::Unverifiable(store)),
        ReadBack::Entry(entry) => if same_entry(entry@, recorded) {
            Ok(())
        } else {
            Err(StoreOutputError::Mismatch(store))
        },
    }
}

/// Compares what is at a store path with the entry that was recorded for it.
pub fn verify_store_output(store_path: &str, found: &ReadBack, recorded: &StoreEntry) -> (res:
    Result<(), StoreOutputError<String>>)
    ensures
        match verification(store_path@, *found, recorded@) {
            Ok(()) => res is Ok,
            Err(e) => res is Err && res->Err_0@ == e,
        },
{
    match found {
        ReadBack::Failed(e) => Err(StoreOutputError::Failed(e.clone())),
        ReadBack::Absent => Err(StoreOutputError::Disappeared(store_path.to_owned())),
        ReadBack::Unrecorded => Err(StoreOutputError::Unverifiable(store_path.to_owned())),
        ReadBack::Entry(entry) => {
            if entry.same(recorded) {
                Ok(())
            } else {
                Err(StoreOutputError::Mismatch(store_path.to_owned()))
            }
        },
    }
}

} // verus!
