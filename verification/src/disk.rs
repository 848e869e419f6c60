//! What was read of a tree on disk, as plain values.

use vstd::prelude::*;

use crate::digest::FileDigest;
use crate::entry::LinkMember;

verus! {

/// A point in time: whole seconds since the epoch, and the nanoseconds above them.
#[derive(Debug, Clone, Copy, PartialEq, Eq, Structural)]
pub struct Timestamp {
    pub secs: i64,
    pub nanos: u32,
}

/// The modification time that every sealed store entry carries: one second after the epoch.
pub open spec fn sealed_time() -> Timestamp {
    Timestamp { secs: 1, nanos: 0 }
}

/// The modification time of sealed store entries.
pub fn sealed_modified() -> (res: Timestamp)
    ensures
        res == sealed_time(),
{
    Timestamp { secs: 1, nanos: 0 }
}

/// Some execute bit is set.
pub open spec fn mode_is_executable(mode: u32) -> bool {
    mode & 0o111 != 0
}

/// Some write bit is set.
pub open spec fn mode_is_writable(mode: u32) -> bool {
    mode & 0o222 != 0
}

/// Whether a file with this mode is executable.
pub fn is_executable(mode: u32) -> (res: bool)
    ensures
        res == mode_is_executable(mode),
{
    mode & 0o111 != 0
}

/// Whether an entry with this mode is writable for anybody.
pub fn is_writable(mode: u32) -> (res: bool)
    ensures
        res == mode_is_writable(mode),
{
    mode & 0o222 != 0
}

/// One entry of a tree on disk. `path` is how the entry is named in messages.
#[derive(Debug)]
pub struct DiskNode {
    pub path: String,
    pub status: DiskStatus,
}

/// The metadata of an entry, or why they could not be read. Symbolic links are not followed.
#[derive(Debug)]
pub enum DiskStatus {
    Unreadable(String),
    Present { mode: u32, modified: Timestamp, body: DiskBody },
}

/// What an entry holds, by its file type. `Err` is a failure to read it.
#[derive(Debug)]
pub enum DiskBody {
    Directory(Result<Vec<DiskChild>, String>),
    Symlink(Result<DiskLink, String>),
    File(DiskFile),
    Other,
}

/// One item of a directory listing, in the order in which the directory was read. `refused` says
/// why the build system does not take the name for a directory member, where it does not.
#[derive(Debug)]
pub enum DiskChild {
    Failed(String),
    Entry { name: Vec<u8>, refused: Option<String>, node: DiskNode },
}

/// The target of a symbolic link, and the directory member that stands for the link (or why
/// there can be none).
#[derive(Debug)]
pub struct DiskLink {
    pub target: Vec<u8>,
    pub member: Result<LinkMember, String>,
}

/// A regular file: the length that its metadata gave, and what reading it gave.
#[derive(Debug)]
pub struct DiskFile {
    pub len: u64,
    pub content: Result<DiskContent, String>,
}

/// The bytes of a file and their digest.
#[derive(Debug)]
pub struct DiskContent {
    pub bytes: Vec<u8>,
    pub digest: FileDigest,
}

} // verus!
