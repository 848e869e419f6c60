//! The tasks by which a store object is put in place or cleared away: what each asks of the file
//! system, and what follows from the reply.

use vstd::prelude::*;
use vstd::string::*;

use crate::disk::{is_writable, mode_is_writable, sealed_modified, sealed_time, Timestamp};
use crate::error::ErrorTag;
use crate::text::concat3;

verus! {

/// One request to the file system. `S` is the kind of text: `String` at run time, a sequence of
/// characters in contracts.
#[derive(Debug)]
pub enum Request<S> {
    /// Create a directory and those above it.
    CreateDirAll(S),
    /// Create the lock file, or truncate it.
    CreateLock(S),
    /// Wait for the exclusive lock on the lock file. It is held until the work is over.
    LockExclusive,
    /// Tell whether something is there.
    TryExists(S),
    /// Remove whatever is there, a directory with all that it holds. Nothing there is no failure.
    RemoveAll(S),
    /// Read the metadata of an entry; a symbolic link is not followed.
    Inspect(S),
    SetMode { path: S, mode: u32 },
    SetModified { path: S, modified: Timestamp },
    /// Set both times of a symbolic link itself.
    SetSymlinkModified { path: S, modified: Timestamp },
    /// List a directory.
    ReadDir(S),
    /// Create the directories and symbolic links of the recorded entry.
    MaterializeDirsAndSymlinks { dest: S },
    /// Copy the files of the recorded entry.
    MaterializeFiles { src: S, dest: S },
    Rename { from: S, to: S },
}

impl View for Request<String> {
    type V = Request<Seq<char>>;

    open spec fn view(&self) -> Request<Seq<char>> {
        match *self {
            Request::CreateDirAll(p) => Request::CreateDirAll(p@),
            Request::CreateLock(p) => Request::CreateLock(p@),
            Request::LockExclusive => Request::LockExclusive,
            Request::TryExists(p) => Request::TryExists(p@),
            Request::RemoveAll(p) => Request::RemoveAll(p@),
            Request::Inspect(p) => Request::Inspect(p@),
            Request::SetMode { path, mode } => Request::SetMode { path: path@, mode },
            Request::SetModified { path, modified } => Request::SetModified {
                path: path@,
                modified,
            },
            Request::SetSymlinkModified { path, modified } => Request::SetSymlinkModified {
                path: path@,
                modified,
            },
            Request::ReadDir(p) => Request::ReadDir(p@),
            Request::MaterializeDirsAndSymlinks { dest } => Request::MaterializeDirsAndSymlinks {
                dest: dest@,
            },
            Request::MaterializeFiles { src, dest } => Request::MaterializeFiles {
                src: src@,
                dest: dest@,
            },
            Request::Rename { from, to } => Request::Rename { from: from@, to: to@ },
        }
    }
}

impl Request<String> {
    /// A second copy of the request.
    pub fn duplicate(&self) -> (res: Request<String>)
        ensures
            res@ == self@,
    {
        match self {
            Request::CreateDirAll(p) => Request::CreateDirAll(p.clone()),
            Request::CreateLock(p) => Request::CreateLock(p.clone()),
            Request::LockExclusive => Request::LockExclusive,
            Request::TryExists(p) => Request::TryExists(p.clone()),
            Request::RemoveAll(p) => Request::RemoveAll(p.clone()),
            Request::Inspect(p) => Request::Inspect(p.clone()),
            Request::SetMode { path, mode } => Request::SetMode { path: path.clone(), mode: *mode },
            Request::SetModified { path, modified } => Request::SetModified {
                path: path.clone(),
                modified: *modified,
            },
            Request::SetSymlinkModified { path, modified } => Request::SetSymlinkModified {
                path: path.clone(),
                modified: *modified,
            },
            Request::ReadDir(p) => Request::ReadDir(p.clone()),
            Request::MaterializeDirsAndSymlinks { dest } => Request::MaterializeDirsAndSymlinks {
                dest: dest.clone(),
            },
            Request::MaterializeFiles { src, dest } => Request::MaterializeFiles {
                src: src.clone(),
                dest: dest.clone(),
            },
            Request::Rename { from, to } => Request::Rename { from: from.clone(), to: to.clone() },
        }
    }
}

/// One item of a directory listing.
#[derive(Debug)]
pub enum ListedEntry<S> {
    /// The item, or its file type, could not be read.
    Failed(S),
    /// Not a directory.
    Other,
    /// A directory, with its path.
    Directory(S),
}

impl View for ListedEntry<String> {
    type V = ListedEntry<Seq<char>>;

    open spec fn view(&self) -> ListedEntry<Seq<char>> {
        match *self {
            ListedEntry::Failed(e) => ListedEntry::Failed(e@),
            ListedEntry::Other => ListedEntry::Other,
            ListedEntry::Directory(p) => ListedEntry::Directory(p@),
        }
    }
}

/// The reply to a request.
#[derive(Debug)]
pub enum Reply {
    Done,
    Failed { permission_denied: bool, error: String },
    Exists(bool),
    Metadata { is_dir: bool, mode: u32, modified: Timestamp },
    Listing(Vec<ListedEntry<String>>),
}

/// A [`Reply`] over mathematical sequences.
pub enum ReplyV {
    Done,
    Failed { permission_denied: bool, error: Seq<char> },
    Exists(bool),
    Metadata { is_dir: bool, mode: u32, modified: Timestamp },
    Listing(Seq<ListedEntry<Seq<char>>>),
}

impl View for Reply {
    type V = ReplyV;

    open spec fn view(&self) -> ReplyV {
        match *self {
            Reply::Done => ReplyV::Done,
            Reply::Failed { permission_denied, error } => ReplyV::Failed {
                permission_denied,
                error: error@,
            },
            Reply::Exists(b) => ReplyV::Exists(b),
            Reply::Metadata { is_dir, mode, modified } => ReplyV::Metadata {
                is_dir,
                mode,
                modified,
            },
            Reply::Listing(list) => ReplyV::Listing(listed(list@)),
        }
    }
}

/// The model of a listing.
pub open spec fn listed(list: Seq<ListedEntry<String>>) -> Seq<ListedEntry<Seq<char>>> {
    list.map_values(|e: ListedEntry<String>| e@)
}

/// Why a store object could not be put in place.
#[derive(Debug)]
pub enum StoreOutputError<S> {
    InvalidStorePath(S),
    /// The producer left a write bit on this path.
    WritablePath(S),
    /// A symbolic link was modified before the epoch.
    BeforeEpoch(S),
    Disappeared(S),
    Unverifiable(S),
    Mismatch(S),
    /// A failure that is passed on as it came.
    Failed(S),
    /// A reply that does not belong to the request.
    UnexpectedReply,
}

/// An error over mathematical text.
pub type OutputErrorV = StoreOutputError<Seq<char>>;

impl View for StoreOutputError<String> {
    type V = OutputErrorV;

    open spec fn view(&self) -> OutputErrorV {
        match *self {
            StoreOutputError::InvalidStorePath(p) => StoreOutputError::InvalidStorePath(p@),
            StoreOutputError::WritablePath(p) => StoreOutputError::WritablePath(p@),
            StoreOutputError::BeforeEpoch(p) => StoreOutputError::BeforeEpoch(p@),
            StoreOutputError::Disappeared(p) => StoreOutputError::Disappeared(p@),
            StoreOutputError::Unverifiable(p) => StoreOutputError::Unverifiable(p@),
            StoreOutputError::Mismatch(p) => StoreOutputError::Mismatch(p@),
            StoreOutputError::Failed(e) => StoreOutputError::Failed(e@),
            StoreOutputError::UnexpectedReply => StoreOutputError::UnexpectedReply,
        }
    }
}

/// The message that belongs to an error.
pub open spec fn output_error_text(e: OutputErrorV) -> Seq<char> {
    match e {
        StoreOutputError::InvalidStorePath(p) => "store path is not absolute and normalized: `"@
            + p + "`"@,
        StoreOutputError::WritablePath(p) => "Store output producer emitted writable path `"@ + p
            + "`"@,
        StoreOutputError::BeforeEpoch(p) => "symbolic link was modified before the epoch: `"@ + p
            + "`"@,
        StoreOutputError::Disappeared(p) => "Store output disappeared while verifying `"@ + p
            + "`"@,
        StoreOutputError::Unverifiable(p) => "Unable to verify existing store output `"@ + p
            + "`"@,
        StoreOutputError::Mismatch(p) => "Existing store output `"@ + p
            + "` does not match the artifact Buck2 recorded"@,
        StoreOutputError::Failed(e) => e,
        StoreOutputError::UnexpectedReply => "the file system gave a reply of the wrong kind"@,
    }
}

impl StoreOutputError<String> {
    /// The message for people.
    pub fn message(&self) -> (res: String)
        ensures
            res@ == output_error_text(self@),
    {
        match self {
            StoreOutputError::InvalidStorePath(p) => {
                concat3("store path is not absolute and normalized: `", p, "`")
            },
            StoreOutputError::WritablePath(p) => {
                concat3("Store output producer emitted writable path `", p, "`")
            },
            StoreOutputError::BeforeEpoch(p) => {
                concat3("symbolic link was modified before the epoch: `", p, "`")
            },
            StoreOutputError::Disappeared(p) => {
                concat3("Store output disappeared while verifying `", p, "`")
            },
            StoreOutputError::Unverifiable(p) => {
                concat3("Unable to verify existing store output `", p, "`")
            },
            StoreOutputError::Mismatch(p) => {
                concat3(
                    "Existing store output `",
                    p,
                    "` does not match the artifact Buck2 recorded",
                )
            },
            StoreOutputError::Failed(e) => e.clone(),
            StoreOutputError::UnexpectedReply => {
                "the file system gave a reply of the wrong kind".to_owned()
            },
        }
    }
}

/// The tag of an error. A failure that is passed on has the tag that it came with, which is not
/// kept here.
pub open spec fn output_error_tag(e: OutputErrorV) -> Option<ErrorTag> {
    match e {
        StoreOutputError::WritablePath(_) => Some(ErrorTag::Input),
        StoreOutputError::Disappeared(_) => Some(ErrorTag::MaterializationError),
        StoreOutputError::Unverifiable(_) => Some(ErrorTag::MaterializationError),
        StoreOutputError::Mismatch(_) => Some(ErrorTag::MaterializationError),
        _ => None,
    }
}

impl StoreOutputError<String> {
    /// Whom the error is for, where the placement itself found it.
    pub fn tag(&self) -> (res: Option<ErrorTag>)
        ensures
            res == output_error_tag(self@),
    {
        match self {
            StoreOutputError::WritablePath(_) => Some(ErrorTag::Input),
            StoreOutputError::Disappeared(_) => Some(ErrorTag::MaterializationError),
            StoreOutputError::Unverifiable(_) => Some(ErrorTag::MaterializationError),
            StoreOutputError::Mismatch(_) => Some(ErrorTag::MaterializationError),
            _ => None,
        }
    }
}

/// A piece of work on the file system.
#[derive(Debug)]
pub enum Task<S> {
    /// One request that must be done.
    Do(Request<S>),
    /// Take the write bits off an entry and give it the sealed modification time.
    Seal(S),
    /// Give `dest` the modification time of `src`, and to a directory its mode too. The source
    /// must not be writable.
    PreserveNative { src: S, dest: S, directory: bool },
    /// Give the symbolic link `dest` the modification time of the symbolic link `src`.
    PreserveSymlink { src: S, dest: S },
    /// Remove a tree, sealed directories not excepted.
    RemoveTree(S),
    /// Let the owner change this directory and those below it.
    MakeRemovable(S),
    /// Let the owner change the directories in this directory.
    VisitDirectory(S),
    /// From here on a failure removes the tree at this path.
    Arm(S),
    /// Fail.
    Fail(S),
}

/// A task over mathematical text.
pub type TaskV = Task<Seq<char>>;

impl View for Task<String> {
    type V = TaskV;

    open spec fn view(&self) -> TaskV {
        match *self {
            Task::Do(r) => Task::Do(r@),
            Task::Seal(p) => Task::Seal(p@),
            Task::PreserveNative { src, dest, directory } => Task::PreserveNative {
                src: src@,
                dest: dest@,
                directory,
            },
            Task::PreserveSymlink { src, dest } => Task::PreserveSymlink { src: src@, dest: dest@ },
            Task::RemoveTree(p) => Task::RemoveTree(p@),
            Task::MakeRemovable(p) => Task::MakeRemovable(p@),
            Task::VisitDirectory(p) => Task::VisitDirectory(p@),
            Task::Arm(p) => Task::Arm(p@),
            Task::Fail(e) => Task::Fail(e@),
        }
    }
}

/// The model of a list of tasks.
pub open spec fn tasks_view(list: Seq<Task<String>>) -> Seq<TaskV> {
    list.map_values(|t: Task<String>| t@)
}

/// What a task asks first. `Arm` and `Fail` ask nothing.
pub open spec fn request_of(task: TaskV) -> Option<Request<Seq<char>>> {
    match task {
        Task::Do(r) => Some(r),
        Task::Seal(p) => Some(Request::Inspect(p)),
        Task::PreserveNative { src, .. } => Some(Request::Inspect(src)),
        Task::PreserveSymlink { src, .. } => Some(Request::Inspect(src)),
        Task::RemoveTree(p) => Some(Request::RemoveAll(p)),
        Task::MakeRemovable(p) => Some(Request::Inspect(p)),
        Task::VisitDirectory(p) => Some(Request::ReadDir(p)),
        Task::Arm(_) => None,
        Task::Fail(_) => None,
    }
}

/// A mode without write bits.
pub open spec fn sealed_mode(mode: u32) -> u32 {
    mode & !0o222u32
}

/// A mode with which the owner can change a directory.
pub open spec fn removable_mode(mode: u32) -> u32 {
    mode | 0o700u32
}

/// The directories of a listing are visited in order; an item that could not be read fails when
/// its turn comes.
pub open spec fn visits(list: Seq<ListedEntry<Seq<char>>>) -> Seq<TaskV>
    decreases list.len(),
{
    if list.len() == 0 {
        seq![]
    } else {
        visits(list.drop_last()) + match list.last() {
            ListedEntry::Failed(e) => seq![Task::Fail(e)],
            ListedEntry::Other => seq![],
            ListedEntry::Directory(p) => seq![Task::MakeRemovable(p)],
        }
    }
}

/// What is left of a task after the reply to its request.
pub open spec fn expand(task: TaskV, reply: ReplyV) -> Result<Seq<TaskV>, OutputErrorV> {
    match (task, reply) {
        (Task::RemoveTree(p), ReplyV::Failed { permission_denied: true, .. }) => Ok(
            seq![Task::MakeRemovable(p), Task::Do(Request::RemoveAll(p))],
        ),
        (_, ReplyV::Failed { error, .. }) => Err(StoreOutputError::Failed(error)),
        (Task::Do(_), ReplyV::Done) => Ok(seq![]),
        (Task::Seal(path), ReplyV::Metadata { mode, .. }) => Ok(
            seq![
                Task::Do(Request::SetModified { path, modified: sealed_time() }),
                Task::Do(Request::SetMode { path, mode: sealed_mode(mode) }),
            ],
        ),
        (Task::PreserveNative { src, dest, directory }, ReplyV::Metadata { mode, modified, .. }) =>
        if mode_is_writable(mode) {
            Err(StoreOutputError::WritablePath(src))
        } else if directory {
            Ok(
                seq![
                    Task::Do(Request::SetModified { path: dest, modified }),
                    Task::Do(Request::SetMode { path: dest, mode }),
                ],
            )
        } else {
            Ok(seq![Task::Do(Request::SetModified { path: dest, modified })])
        },
        (Task::PreserveSymlink { src, dest }, ReplyV::Metadata { modified, .. }) => if modified.secs
            < 0 {
            Err(StoreOutputError::BeforeEpoch(dest))
        } else {
            Ok(seq![Task::Do(Request::SetSymlinkModified { path: dest, modified })])
        },
        (Task::RemoveTree(_), ReplyV::Done) => Ok(seq![]),
        (Task::MakeRemovable(path), ReplyV::Metadata { is_dir, mode, .. }) => if !is_dir {
            Ok(seq![])
        } else if removable_mode(mode) != mode {
            Ok(
                seq![
                    Task::Do(Request::SetMode { path, mode: removable_mode(mode) }),
                    Task::VisitDirectory(path),
                ],
            )
        } else {
            Ok(seq![Task::VisitDirectory(path)])
        },
        (Task::VisitDirectory(_), ReplyV::Listing(list)) => Ok(visits(list)),
        _ => Err(StoreOutputError::UnexpectedReply),
    }
}

/// The outcome of a task agrees with its model.
pub open spec fn expansion_is(
    res: Result<Vec<Task<String>>, StoreOutputError<String>>,
    model: Result<Seq<TaskV>, OutputErrorV>,
) -> bool {
    match model {
        Ok(tasks) => res is Ok && tasks_view(res->Ok_0@) == tasks,
        Err(e) => res is Err && res->Err_0@ == e,
    }
}

fn one(task: Task<String>) -> (res: Vec<Task<String>>)
    ensures
        tasks_view(res@) == seq![task@],
{
    let mut list: Vec<Task<String>> = Vec::new();
    list.push(task);
    assert(tasks_view(list@) =~= seq![task@]);
    list
}

fn two(a: Task<String>, b: Task<String>) -> (res: Vec<Task<String>>)
    ensures
        tasks_view(res@) == seq![a@, b@],
{
    let mut list: Vec<Task<String>> = Vec::new();
    list.push(a);
    list.push(b);
    assert(tasks_view(list@) =~= seq![a@, b@]);
    list
}

fn none() -> (res: Vec<Task<String>>)
    ensures
        tasks_view(res@) == Seq::<TaskV>::empty(),
{
    let list: Vec<Task<String>> = Vec::new();
    assert(tasks_view(list@) =~= Seq::<TaskV>::empty());
    list
}

/// What sealing an entry with this mode does to it.
pub fn seal_cas_output_path(dest: &str, mode: u32) -> (res: Vec<Task<String>>)
    ensures
        tasks_view(res@) == seq![
            Task::Do(Request::SetModified { path: dest@, modified: sealed_time() }),
            Task::Do(Request::SetMode { path: dest@, mode: sealed_mode(mode) }),
        ],
{
    two(
        Task::Do(Request::SetModified { path: dest.to_owned(), modified: sealed_modified() }),
        Task::Do(Request::SetMode { path: dest.to_owned(), mode: mode & !0o222u32 }),
    )
}

/// What carrying the metadata of `src` over to `dest` does: refused where `src` is writable.
pub fn preserve_native_output_metadata(
    src: &str,
    dest: &str,
    directory: bool,
    mode: u32,
    modified: Timestamp,
) -> (res: Result<Vec<Task<String>>, StoreOutputError<String>>)
    ensures
        forall|is_dir: bool|
            expansion_is(
                res,
                #[trigger] expand(
                    Task::PreserveNative { src: src@, dest: dest@, directory },
                    ReplyV::Metadata { is_dir, mode, modified },
                ),
            ),
{
    if is_writable(mode) {
        return Err(StoreOutputError::WritablePath(src.to_owned()));
    }
    let times = Task::Do(Request::SetModified { path: dest.to_owned(), modified });
    if directory {
        Ok(two(times, Task::Do(Request::SetMode { path: dest.to_owned(), mode })))
    } else {
        Ok(one(times))
    }
}

/// Sets the times of a symbolic link, refused for a time before the epoch.
pub fn set_symlink_modified_time(dest: &str, modified: Timestamp) -> (res: Result<
    Vec<Task<String>>,
    StoreOutputError<String>,
>)
    ensures
        expansion_is(
            res,
            if modified.secs < 0 {
                Err(StoreOutputError::BeforeEpoch(dest@))
            } else {
                Ok(seq![Task::Do(Request::SetSymlinkModified { path: dest@, modified })])
            },
        ),
{
    if modified.secs < 0 {
        return Err(StoreOutputError::BeforeEpoch(dest.to_owned()));
    }
    Ok(one(Task::Do(Request::SetSymlinkModified { path: dest.to_owned(), modified })))
}

/// What a directory needs before it can be removed: a mode with which its owner can change it,
/// and the same for the directories in it.
pub fn make_directories_removable(path: &str, is_dir: bool, mode: u32) -> (res: Vec<Task<String>>)
    ensures
        forall|modified: Timestamp|
            #[trigger] expand(
                Task::MakeRemovable(path@),
                ReplyV::Metadata { is_dir, mode, modified },
            ) == Ok::<Seq<TaskV>, OutputErrorV>(tasks_view(res@)),
{
    if !is_dir {
        return none();
    }
    let removable: u32 = mode | 0o700u32;
    let visit = Task::VisitDirectory(path.to_owned());
    if removable != mode {
        two(Task::Do(Request::SetMode { path: path.to_owned(), mode: removable }), visit)
    } else {
        one(visit)
    }
}

fn visit_listing(list: &Vec<ListedEntry<String>>) -> (res: Vec<Task<String>>)
    ensures
        tasks_view(res@) == visits(listed(list@)),
{
    let mut tasks = none();
    let mut i: usize = 0;
    let ghost all = listed(list@);
    assert(all.take(0) =~= seq![]);
    while i < list.len()
        invariant
            i <= list@.len(),
            all == listed(list@),
            tasks_view(tasks@) == visits(all.take(i as int)),
        decreases list.len() - i,
    {
        let ghost before = tasks_view(tasks@);
        assert(all.take(i + 1).drop_last() =~= all.take(i as int));
        assert(all.take(i + 1).last() == list@[i as int]@);
        match &list[i] {
            ListedEntry::Failed(e) => {
                tasks.push(Task::Fail(e.clone()));
                assert(tasks_view(tasks@) =~= before + seq![Task::Fail(e@)]);
            },
            ListedEntry::Other => {
                assert(tasks_view(tasks@) =~= before + seq![]);
            },
            ListedEntry::Directory(p) => {
                tasks.push(Task::MakeRemovable(p.clone()));
                assert(tasks_view(tasks@) =~= before + seq![Task::MakeRemovable(p@)]);
            },
        }
        i += 1;
    }
    assert(all.take(i as int) =~= all);
    tasks
}

impl Task<String> {
    /// What the task asks first, if it asks anything.
    pub fn request(&self) -> (res: Option<Request<String>>)
        ensures
            match request_of(self@) {
                Some(r) => res is Some && res->0@ == r,
                None => res is None,
            },
    {
        match self {
            Task::Do(r) => Some(r.duplicate()),
            Task::Seal(p) => Some(Request::Inspect(p.clone())),
            Task::PreserveNative { src, .. } => Some(Request::Inspect(src.clone())),
            Task::PreserveSymlink { src, .. } => Some(Request::Inspect(src.clone())),
            Task::RemoveTree(p) => Some(Request::RemoveAll(p.clone())),
            Task::MakeRemovable(p) => Some(Request::Inspect(p.clone())),
            Task::VisitDirectory(p) => Some(Request::ReadDir(p.clone())),
            Task::Arm(_) => None,
            Task::Fail(_) => None,
        }
    }

    /// What is left to do after the reply to what the task asked.
    pub fn proceed(&self, reply: &Reply) -> (res: Result<
        Vec<Task<String>>,
        StoreOutputError<String>,
    >)
        ensures
            expansion_is(res, expand(self@, reply@)),
    {
        match (self, reply) {
            (Task::RemoveTree(p), Reply::Failed { permission_denied: true, .. }) => Ok(
                two(Task::MakeRemovable(p.clone()), Task::Do(Request::RemoveAll(p.clone()))),
            ),
            (_, Reply::Failed { error, .. }) => Err(StoreOutputError::Failed(error.clone())),
            (Task::Do(_), Reply::Done) => Ok(none()),
            (Task::Seal(p), Reply::Metadata { mode, .. }) => Ok(seal_cas_output_path(p, *mode)),
            (
                Task::PreserveNative { src, dest, directory },
                Reply::Metadata { mode, modified, is_dir },
            ) => preserve_native_output_metadata(src, dest, *directory, *mode, *modified),
            (
                Task::PreserveSymlink { src, dest },
                Reply::Metadata { modified, .. },
            ) => set_symlink_modified_time(dest, *modified),
            (Task::RemoveTree(_), Reply::Done) => Ok(none()),
            (Task::MakeRemovable(p), Reply::Metadata { is_dir, mode, modified }) => Ok(
                make_directories_removable(p, *is_dir, *mode),
            ),
            (Task::VisitDirectory(_), Reply::Listing(list)) => Ok(visit_listing(list)),
            _ => Err(StoreOutputError::UnexpectedReply),
        }
    }
}

} // verus!
