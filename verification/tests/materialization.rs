use std::collections::BTreeMap;

use buckpkgs_store::abs_path::{AbsNormPathBuf, ForwardRelativePathBuf};
use buckpkgs_store::digest::FileDigest;
use buckpkgs_store::disk::{
    is_writable, sealed_modified, DiskBody, DiskChild, DiskContent, DiskFile, DiskLink, DiskNode,
    DiskStatus, Timestamp,
};
use buckpkgs_store::entry::{FileMetadata, LinkMember, NamedEntry, StoreEntry};
use buckpkgs_store::error::ErrorTag;
use buckpkgs_store::materialize::{
    materialize_store_output, Materialization, RunReply, RunRequest,
};
use buckpkgs_store::sealed::has_normalized_sealed_store_metadata;
use buckpkgs_store::store_output::{
    normalize_cas_store_output_metadata, preserve_store_output_metadata, verify_store_output,
    MaterializeStoreOutput, ReadBack,
};
use buckpkgs_store::task::{ListedEntry, Reply, Request, StoreOutputError, Task};
use buckpkgs_store::work::{remove_output_tree, Work};

const ROOT: &str = "/project";

#[derive(Debug, Clone, PartialEq)]
enum Body {
    Dir,
    File(Vec<u8>),
    Link(String),
}

#[derive(Debug, Clone, PartialEq)]
struct Node {
    body: Body,
    mode: u32,
    modified: Timestamp,
}

/// A file system in memory. Every change of contents is stamped with a later time.
#[derive(Debug, Default)]
struct FakeDisk {
    nodes: BTreeMap<String, Node>,
    clock: i64,
    locked: bool,
    log: Vec<String>,
    fail_on: Option<String>,
}

fn failed(error: &str) -> Reply {
    Reply::Failed { permission_denied: false, error: error.to_owned() }
}

fn parent_of(path: &str) -> Option<String> {
    let cut = path.rfind('/')?;
    Some(if cut == 0 { "/".to_owned() } else { path[..cut].to_owned() })
}

fn is_below(path: &str, base: &str) -> bool {
    path.strip_prefix(base).is_some_and(|rest| rest.starts_with('/'))
}

impl FakeDisk {
    fn now(&mut self) -> Timestamp {
        self.clock += 1;
        Timestamp { secs: 1_700_000_000 + self.clock, nanos: 7 }
    }

    fn mkdir_all(&mut self, path: &str) {
        if self.nodes.contains_key(path) {
            return;
        }
        if let Some(parent) = parent_of(path) {
            if parent != path {
                self.mkdir_all(&parent);
            }
        }
        let modified = self.now();
        self.nodes.insert(path.to_owned(), Node { body: Body::Dir, mode: 0o755, modified });
    }

    fn write(&mut self, path: &str, bytes: &[u8], executable: bool) {
        self.mkdir_all(&parent_of(path).unwrap());
        let modified = self.now();
        let mode = if executable { 0o755 } else { 0o644 };
        self.nodes.insert(
            path.to_owned(),
            Node { body: Body::File(bytes.to_vec()), mode, modified },
        );
    }

    fn symlink(&mut self, path: &str, target: &str) {
        self.mkdir_all(&parent_of(path).unwrap());
        let modified = self.now();
        self.nodes.insert(
            path.to_owned(),
            Node { body: Body::Link(target.to_owned()), mode: 0o777, modified },
        );
    }

    fn seal(&mut self, path: &str) {
        self.nodes.get_mut(path).unwrap().mode &= !0o222;
    }

    fn set_modified(&mut self, path: &str, modified: Timestamp) {
        self.nodes.get_mut(path).unwrap().modified = modified;
    }

    fn holds(&self, path: &str) -> bool {
        self.nodes.contains_key(path)
    }

    fn node(&self, path: &str) -> &Node {
        &self.nodes[path]
    }

    fn children(&self, path: &str) -> Vec<String> {
        self.nodes.keys().filter(|p| parent_of(p).as_deref() == Some(path) && *p != path).cloned().collect()
    }

    fn remove_all(&mut self, path: &str) -> Reply {
        let doomed: Vec<String> =
            self.nodes.keys().filter(|p| *p == path || is_below(p, path)).cloned().collect();
        for entry in &doomed {
            if entry != path {
                let parent = self.node(&parent_of(entry).unwrap());
                if parent.mode & 0o300 != 0o300 {
                    return Reply::Failed { permission_denied: true, error: "Permission denied".to_owned() };
                }
            }
        }
        for entry in doomed {
            self.nodes.remove(&entry);
        }
        Reply::Done
    }

    fn make_dirs(&mut self, entry: &StoreEntry, dest: &str) {
        match entry {
            StoreEntry::Dir(members) => {
                self.mkdir_all(dest);
                for member in members {
                    self.make_dirs(&member.entry, &format!("{}/{}", dest, member.name));
                }
            }
            StoreEntry::Link(LinkMember::Symlink(target) | LinkMember::ExternalSymlink(target)) => {
                self.symlink(dest, target);
            }
            StoreEntry::File(_) => {}
        }
    }

    fn copy_files(&mut self, entry: &StoreEntry, src: &str, dest: &str) -> Result<(), String> {
        match entry {
            StoreEntry::Dir(members) => {
                for member in members {
                    self.copy_files(
                        &member.entry,
                        &format!("{}/{}", src, member.name),
                        &format!("{}/{}", dest, member.name),
                    )?;
                }
            }
            StoreEntry::File(_) => {
                let mut copy = self.nodes.get(src).ok_or(format!("no such file: {}", src))?.clone();
                copy.modified = self.now();
                self.nodes.insert(dest.to_owned(), copy);
            }
            StoreEntry::Link(_) => {}
        }
        Ok(())
    }

    fn serve(&mut self, request: &Request<String>, entry: &StoreEntry) -> Reply {
        self.log.push(format!("{:?}", request));
        if self.fail_on.as_ref().is_some_and(|text| format!("{:?}", request).contains(text)) {
            return failed("injected");
        }
        match request {
            Request::CreateDirAll(path) => {
                self.mkdir_all(path);
                Reply::Done
            }
            Request::CreateLock(path) => {
                self.write(path, b"", false);
                Reply::Done
            }
            Request::LockExclusive => {
                self.locked = true;
                Reply::Done
            }
            Request::TryExists(path) => Reply::Exists(self.holds(path)),
            Request::RemoveAll(path) => self.remove_all(path),
            Request::Inspect(path) => match self.nodes.get(path) {
                Some(node) => Reply::Metadata {
                    is_dir: node.body == Body::Dir,
                    mode: node.mode,
                    modified: node.modified,
                },
                None => failed("No such file or directory"),
            },
            Request::SetMode { path, mode } => match self.nodes.get_mut(path) {
                Some(node) => {
                    node.mode = *mode;
                    Reply::Done
                }
                None => failed("No such file or directory"),
            },
            Request::SetModified { path, modified }
            | Request::SetSymlinkModified { path, modified } => match self.nodes.get_mut(path) {
                Some(node) => {
                    node.modified = *modified;
                    Reply::Done
                }
                None => failed("No such file or directory"),
            },
            Request::ReadDir(path) => {
                let mut list = Vec::new();
                for child in self.children(path) {
                    list.push(if self.node(&child).body == Body::Dir {
                        ListedEntry::Directory(child)
                    } else {
                        ListedEntry::Other
                    });
                }
                Reply::Listing(list)
            }
            Request::MaterializeDirsAndSymlinks { dest } => {
                self.make_dirs(entry, dest);
                Reply::Done
            }
            Request::MaterializeFiles { src, dest } => match self.copy_files(entry, src, dest) {
                Ok(()) => Reply::Done,
                Err(error) => failed(&error),
            },
            Request::Rename { from, to } => {
                let moved: Vec<String> =
                    self.nodes.keys().filter(|p| *p == from || is_below(p, from)).cloned().collect();
                for path in moved {
                    let node = self.nodes.remove(&path).unwrap();
                    self.nodes.insert(format!("{}{}", to, &path[from.len()..]), node);
                }
                Reply::Done
            }
        }
    }

    fn snapshot(&self, path: &str) -> DiskNode {
        let node = self.node(path);
        let body = match &node.body {
            Body::Dir => DiskBody::Directory(Ok(self
                .children(path)
                .into_iter()
                .map(|child| DiskChild::Entry {
                    name: child[path.len() + 1..].as_bytes().to_vec(),
                    refused: None,
                    node: self.snapshot(&child),
                })
                .collect())),
            Body::File(bytes) => DiskBody::File(DiskFile {
                len: bytes.len() as u64,
                content: Ok(DiskContent {
                    bytes: bytes.clone(),
                    digest: FileDigest { raw: "00".to_owned(), size: bytes.len() as u64 },
                }),
            }),
            Body::Link(target) => DiskBody::Symlink(Ok(DiskLink {
                target: target.as_bytes().to_vec(),
                member: Ok(LinkMember::Symlink(target.clone())),
            })),
        };
        DiskNode {
            path: path.to_owned(),
            status: DiskStatus::Present { mode: node.mode, modified: node.modified, body },
        }
    }
}

fn drive(disk: &mut FakeDisk, work: Work) -> Result<(), StoreOutputError<String>> {
    let none = StoreEntry::Dir(Vec::new());
    let mut work = work;
    loop {
        match work.request() {
            Some(request) => {
                let reply = disk.serve(&request, &none);
                work = work.step(&reply);
            }
            None => return work.finish().unwrap(),
        }
    }
}

fn drive_job(
    disk: &mut FakeDisk,
    job: Materialization,
    entry: &StoreEntry,
) -> Result<(), StoreOutputError<String>> {
    let mut job = job;
    loop {
        match job.request() {
            Some(request) => {
                let reply = disk.serve(&request, entry);
                job = job.step(&reply);
            }
            None => match job.finish() {
                Ok(result) => return result,
                Err(_) => panic!("a job without a request is finished"),
            },
        }
    }
}

fn file() -> StoreEntry {
    StoreEntry::File(FileMetadata {
        digest: FileDigest { raw: "e3b0".to_owned(), size: 0 },
        is_executable: false,
    })
}

fn dir(members: Vec<(&str, StoreEntry)>) -> StoreEntry {
    StoreEntry::Dir(
        members
            .into_iter()
            .map(|(name, entry)| NamedEntry { name: name.to_owned(), entry })
            .collect(),
    )
}

fn abs(path: &str) -> AbsNormPathBuf {
    AbsNormPathBuf::parse(path).unwrap()
}

fn execute(
    disk: &mut FakeDisk,
    entry: &StoreEntry,
    seal_cas_transport: bool,
) -> Result<(), StoreOutputError<String>> {
    let request = MaterializeStoreOutput {
        staged_path: ForwardRelativePathBuf::parse("buck-out/v2/pkg").unwrap(),
        store_path: abs("/project/store/pkg"),
        entry: entry.duplicate(),
        seal_cas_transport,
    };
    let job = request.execute(&abs(ROOT));
    drive_job(disk, job, entry)
}

#[test]
fn materialize_store_output_copies_staged_files() {
    let mut disk = FakeDisk::default();
    disk.write("/project/buck-out/v2/pkg/bin/tool", b"", false);
    let modified = Timestamp { secs: 1, nanos: 0 };
    disk.set_modified("/project/buck-out/v2/pkg/bin/tool", modified);
    disk.set_modified("/project/buck-out/v2/pkg/bin", modified);
    disk.seal("/project/buck-out/v2/pkg/bin/tool");
    disk.seal("/project/buck-out/v2/pkg/bin");
    disk.seal("/project/buck-out/v2/pkg");
    let entry = dir(vec![("bin", dir(vec![("tool", file())]))]);

    execute(&mut disk, &entry, false).unwrap();

    assert!(disk.holds("/project/store/pkg/bin/tool"));
    assert!(disk.holds("/project/store/pkg.buck2.lock"));
    assert!(!disk.holds("/project/store/pkg.buck2.tmp"));
    assert_eq!(disk.node("/project/store/pkg/bin/tool").modified, modified);
    assert_eq!(disk.node("/project/store/pkg/bin").modified, modified);
    for path in ["/project/store/pkg", "/project/store/pkg/bin", "/project/store/pkg/bin/tool"] {
        assert_eq!(disk.node(path).mode & 0o222, 0);
    }
    assert!(disk.locked);
}

#[test]
fn materialize_store_output_preserves_symlink_modified_time() {
    let mut disk = FakeDisk::default();
    disk.write("/project/buck-out/v2/pkg/bin/tool", b"tool", false);
    disk.symlink("/project/buck-out/v2/pkg/bin/tool-link", "tool");
    let modified = Timestamp { secs: 1, nanos: 0 };
    disk.set_modified("/project/buck-out/v2/pkg/bin/tool-link", modified);
    disk.seal("/project/buck-out/v2/pkg/bin/tool");
    disk.seal("/project/buck-out/v2/pkg/bin");
    disk.seal("/project/buck-out/v2/pkg");
    let link = StoreEntry::Link(LinkMember::Symlink("tool".to_owned()));
    let entry = dir(vec![("bin", dir(vec![("tool", file()), ("tool-link", link)]))]);

    execute(&mut disk, &entry, false).unwrap();

    assert_eq!(disk.node("/project/store/pkg/bin/tool-link").modified, modified);
}

#[test]
fn materialize_store_output_rejects_writable_staged_tree() {
    let mut disk = FakeDisk::default();
    disk.write("/project/buck-out/v2/pkg/bin/tool", b"writable", false);
    let entry = dir(vec![("bin", dir(vec![("tool", file())]))]);

    let result = execute(&mut disk, &entry, false);

    assert!(result.is_err());
    assert!(!disk.holds("/project/store/pkg"));
    assert_eq!(
        result.unwrap_err().message(),
        "Store output producer emitted writable path `/project/buck-out/v2/pkg/bin/tool`"
    );
}

#[test]
fn materialize_cas_store_output_normalizes_and_seals_transport_tree() {
    let mut disk = FakeDisk::default();
    disk.write("/project/buck-out/v2/pkg/bin/tool", b"cas", true);
    let entry = dir(vec![("bin", dir(vec![("tool", file())]))]);

    execute(&mut disk, &entry, true).unwrap();

    let tool = disk.node("/project/store/pkg/bin/tool");
    assert_eq!(tool.modified, Timestamp { secs: 1, nanos: 0 });
    assert_eq!(tool.mode & 0o222, 0);
    assert_eq!(tool.mode, 0o555);
}

#[test]
fn materialize_cas_store_output_seals_authenticated_existing_tree() {
    let mut disk = FakeDisk::default();
    disk.write("/project/store/pkg/bin/tool", b"cas", true);
    let entry = dir(vec![("bin", dir(vec![("tool", file())]))]);

    execute(&mut disk, &entry, true).unwrap();

    let tool = disk.node("/project/store/pkg/bin/tool");
    assert_eq!(tool.modified, Timestamp { secs: 1, nanos: 0 });
    assert_eq!(tool.mode & 0o222, 0);
}

#[test]
fn materialize_store_output_removes_sealed_temp_subtree_after_rejection() {
    let mut disk = FakeDisk::default();
    disk.write("/project/buck-out/v2/pkg/aaa/tool", b"sealed", false);
    disk.write("/project/buck-out/v2/pkg/zzz/tool", b"writable", false);
    disk.seal("/project/buck-out/v2/pkg/aaa/tool");
    disk.seal("/project/buck-out/v2/pkg/aaa");
    let entry =
        dir(vec![("aaa", dir(vec![("tool", file())])), ("zzz", dir(vec![("tool", file())]))]);

    let result = execute(&mut disk, &entry, false);

    assert!(result.is_err());
    assert!(!disk.holds("/project/store/pkg"));
    assert!(!disk.holds("/project/store/pkg.buck2.tmp"));
    assert!(!disk.holds("/project/store/pkg.buck2.tmp/aaa"));
    assert!(disk.log.iter().any(|line| line.contains("SetMode") && line.contains("tmp/aaa")));
}

#[test]
fn materialize_store_output_reuses_existing_store_tree() {
    let mut disk = FakeDisk::default();
    disk.write("/project/buck-out/v2/pkg/bin/tool", b"new", false);
    disk.write("/project/store/pkg/bin/tool", b"existing", false);
    let entry = dir(vec![("bin", dir(vec![("tool", file())]))]);
    assert_ne!(disk.node("/project/store/pkg/bin/tool").mode & 0o222, 0);

    execute(&mut disk, &entry, false).unwrap();

    assert_eq!(disk.node("/project/store/pkg/bin/tool").body, Body::File(b"existing".to_vec()));
    assert_ne!(disk.node("/project/store/pkg/bin/tool").mode & 0o222, 0);
}

#[test]
fn materialize_store_output_does_not_publish_partial_tree() {
    let mut disk = FakeDisk::default();
    let entry = dir(vec![("bin", dir(vec![("tool", file())]))]);

    let result = execute(&mut disk, &entry, false);

    assert!(result.is_err());
    assert!(!disk.holds("/project/store/pkg"));
    assert!(!disk.holds("/project/store/pkg.buck2.tmp"));
}

#[test]
fn cleanup_removes_read_only_directory_tree() {
    let mut disk = FakeDisk::default();
    let output = "/project/buck-out/v2/pkg";
    disk.write("/project/buck-out/v2/pkg/lib/payload", b"payload", false);
    for path in ["/project/buck-out/v2/pkg/lib", output] {
        disk.nodes.get_mut(path).unwrap().mode = 0o555;
    }

    drive(&mut disk, remove_output_tree(output)).unwrap();

    assert!(!disk.holds(output));
}

#[test]
fn removal_relaxes_directories_from_the_top() {
    let mut disk = FakeDisk::default();
    disk.write("/t/a/x", b"", false);
    disk.write("/t/b/y", b"", false);
    disk.seal("/t/a");
    disk.seal("/t");

    drive(&mut disk, remove_output_tree("/t")).unwrap();

    assert_eq!(
        disk.log,
        vec![
            "RemoveAll(\"/t\")",
            "Inspect(\"/t\")",
            "SetMode { path: \"/t\", mode: 493 }",
            "ReadDir(\"/t\")",
            "Inspect(\"/t/a\")",
            "SetMode { path: \"/t/a\", mode: 493 }",
            "ReadDir(\"/t/a\")",
            "Inspect(\"/t/b\")",
            "ReadDir(\"/t/b\")",
            "RemoveAll(\"/t\")",
        ]
    );
}

#[test]
fn removal_passes_other_failures_on() {
    let work = remove_output_tree("/t").step(&failed("busy"));
    match work.finish() {
        Ok(Err(StoreOutputError::Failed(error))) => assert_eq!(error, "busy"),
        other => panic!("{:?}", other),
    }
}

#[test]
fn removal_fails_where_an_entry_cannot_be_listed() {
    let denied = Reply::Failed { permission_denied: true, error: "denied".to_owned() };
    let metadata = Reply::Metadata { is_dir: true, mode: 0o700, modified: sealed_modified() };
    let listing = Reply::Listing(vec![ListedEntry::Other, ListedEntry::Failed("gone".to_owned())]);
    let work = remove_output_tree("/t").step(&denied).step(&metadata).step(&listing);
    assert_eq!(work.finish().unwrap().unwrap_err().message(), "gone");
}

#[test]
fn removal_of_something_else_than_a_directory_tries_again() {
    let denied = Reply::Failed { permission_denied: true, error: "denied".to_owned() };
    let metadata = Reply::Metadata { is_dir: false, mode: 0o400, modified: sealed_modified() };
    let work = remove_output_tree("/t").step(&denied).step(&metadata);
    assert!(matches!(work.request(), Some(Request::RemoveAll(path)) if path == "/t"));
    let work = work.step(&Reply::Failed { permission_denied: true, error: "denied".to_owned() });
    assert_eq!(work.finish().unwrap().unwrap_err().message(), "denied");
}

#[test]
fn a_reply_of_the_wrong_kind_is_an_error() {
    let work = remove_output_tree("/t").step(&Reply::Exists(true));
    assert!(matches!(work.finish(), Ok(Err(StoreOutputError::UnexpectedReply))));
}

#[test]
fn the_requests_of_a_build_come_in_order() {
    let mut disk = FakeDisk::default();
    disk.write("/project/buck-out/v2/pkg", b"x", false);

    execute(&mut disk, &file(), true).unwrap();

    assert_eq!(
        disk.log,
        vec![
            "CreateDirAll(\"/project/store\")",
            "CreateLock(\"/project/store/pkg.buck2.lock\")",
            "LockExclusive",
            "TryExists(\"/project/store/pkg\")",
            "RemoveAll(\"/project/store/pkg.buck2.tmp\")",
            "MaterializeDirsAndSymlinks { dest: \"/project/store/pkg.buck2.tmp\" }",
            "MaterializeFiles { src: \"/project/buck-out/v2/pkg\", dest: \"/project/store/pkg.buck2.tmp\" }",
            "Inspect(\"/project/store/pkg.buck2.tmp\")",
            "SetModified { path: \"/project/store/pkg.buck2.tmp\", modified: Timestamp { secs: 1, nanos: 0 } }",
            "SetMode { path: \"/project/store/pkg.buck2.tmp\", mode: 292 }",
            "Rename { from: \"/project/store/pkg.buck2.tmp\", to: \"/project/store/pkg\" }",
        ]
    );
}

#[test]
fn every_failure_of_a_build_leaves_the_store_path_alone() {
    for point in ["CreateDirAll", "CreateLock", "Lock", "TryExists", "MaterializeDirs",
        "MaterializeFiles", "Inspect", "SetModified", "SetMode", "Rename"]
    {
        let mut disk = FakeDisk::default();
        disk.write("/project/buck-out/v2/pkg/tool", b"x", false);
        disk.fail_on = Some(point.to_owned());
        let entry = dir(vec![("tool", file())]);

        let error = execute(&mut disk, &entry, true).unwrap_err();

        assert_eq!(error.message(), "injected", "{}", point);
        assert!(!disk.holds("/project/store/pkg"), "{}", point);
        assert!(!disk.holds("/project/store/pkg.buck2.tmp"), "{}", point);
    }
}

#[test]
fn a_failure_to_clear_the_build_place_is_not_cleaned_up_after() {
    let mut disk = FakeDisk::default();
    disk.fail_on = Some("RemoveAll".to_owned());
    let error = execute(&mut disk, &file(), false).unwrap_err();
    assert_eq!(error.message(), "injected");
    assert_eq!(disk.log.iter().filter(|line| line.contains("RemoveAll")).count(), 1);
}

#[test]
fn a_sealed_tree_passes_the_check() {
    let mut disk = FakeDisk::default();
    disk.write("/project/buck-out/v2/pkg/bin/tool", b"cas", true);
    let link = StoreEntry::Link(LinkMember::ExternalSymlink("/bin/sh".to_owned()));
    let entry = dir(vec![("bin", dir(vec![("sh", link), ("tool", file())]))]);
    execute(&mut disk, &entry, true).unwrap();
    let root = Ok(Some(disk.snapshot("/project/store/pkg")));
    assert!(has_normalized_sealed_store_metadata(&root).unwrap());
    assert_eq!(disk.node("/project/store/pkg/bin/sh").mode, 0o777);
}

#[test]
fn a_built_object_has_the_staged_times_and_modes() {
    let mut disk = FakeDisk::default();
    disk.write("/project/buck-out/v2/pkg/bin/tool", b"tool", true);
    disk.symlink("/project/buck-out/v2/pkg/bin/link", "tool");
    for path in ["/bin/tool", "/bin", ""] {
        disk.seal(&format!("/project/buck-out/v2/pkg{}", path));
    }
    disk.nodes.get_mut("/project/buck-out/v2/pkg/bin").unwrap().mode = 0o550;
    let link = StoreEntry::Link(LinkMember::Symlink("tool".to_owned()));
    let entry = dir(vec![("bin", dir(vec![("link", link), ("tool", file())]))]);

    execute(&mut disk, &entry, false).unwrap();

    for path in ["", "/bin", "/bin/link", "/bin/tool"] {
        let staged = disk.node(&format!("/project/buck-out/v2/pkg{}", path));
        let placed = disk.node(&format!("/project/store/pkg{}", path));
        assert_eq!(placed, staged, "{}", path);
    }
    assert_eq!(disk.node("/project/store/pkg/bin").mode, 0o550);
}

#[test]
fn a_job_changes_only_its_own_places() {
    for (seal, there) in [(false, false), (false, true), (true, false), (true, true)] {
        let mut disk = FakeDisk::default();
        disk.write("/project/buck-out/v2/pkg/tool", b"x", false);
        disk.seal("/project/buck-out/v2/pkg/tool");
        disk.seal("/project/buck-out/v2/pkg");
        disk.write("/project/store/other/tool", b"y", false);
        disk.write("/project/store/pkg.buck2.tmp/old", b"z", false);
        if there {
            disk.write("/project/store/pkg/tool", b"x", false);
        }
        let before = disk.nodes.clone();

        execute(&mut disk, &dir(vec![("tool", file())]), seal).unwrap();

        assert!(disk.holds("/project/store/pkg/tool"));
        for (path, node) in &before {
            if !path.starts_with("/project/store/pkg") {
                assert_eq!(disk.node(path), node, "{} {} {}", path, seal, there);
            }
        }
    }
}

#[test]
fn sealing_an_object_in_place_makes_it_pass_the_check() {
    let mut disk = FakeDisk::default();
    disk.write("/project/store/pkg/bin/tool", b"cas", true);
    let entry = dir(vec![("bin", dir(vec![("tool", file())]))]);
    let root = Ok(Some(disk.snapshot("/project/store/pkg")));
    assert!(!has_normalized_sealed_store_metadata(&root).unwrap());

    execute(&mut disk, &entry, true).unwrap();

    let root = Ok(Some(disk.snapshot("/project/store/pkg")));
    assert!(has_normalized_sealed_store_metadata(&root).unwrap());
}

#[test]
fn a_symbolic_link_from_before_the_epoch_is_refused() {
    let task = Task::PreserveSymlink { src: "/a".to_owned(), dest: "/b".to_owned() };
    let modified = Timestamp { secs: -1, nanos: 999_999_999 };
    let reply = Reply::Metadata { is_dir: false, mode: 0o777, modified };
    let error = task.proceed(&reply).unwrap_err();
    assert_eq!(error.message(), "symbolic link was modified before the epoch: `/b`");
    let modified = Timestamp { secs: 0, nanos: 0 };
    let reply = Reply::Metadata { is_dir: false, mode: 0o777, modified };
    let tasks = task.proceed(&reply).unwrap();
    assert_eq!(tasks.len(), 1);
    assert!(matches!(
        &tasks[0],
        Task::Do(Request::SetSymlinkModified { path, modified: m }) if path == "/b" && *m == modified
    ));
}

#[test]
fn plans_go_through_members_before_their_directory() {
    let entry = dir(vec![("a", file()), ("d", dir(vec![("b", file())]))]);
    let sealed: Vec<String> = normalize_cas_store_output_metadata(&entry, "/s")
        .iter()
        .map(|task| format!("{:?}", task))
        .collect();
    assert_eq!(
        sealed,
        vec!["Seal(\"/s/a\")", "Seal(\"/s/d/b\")", "Seal(\"/s/d\")", "Seal(\"/s\")"]
    );
    let kept = preserve_store_output_metadata(&entry, "/from", "/to");
    assert_eq!(kept.len(), 4);
    assert!(matches!(
        &kept[3],
        Task::PreserveNative { src, dest, directory: true } if src == "/from" && dest == "/to"
    ));
    assert!(matches!(
        &kept[1],
        Task::PreserveNative { src, directory: false, .. } if src == "/from/d/b"
    ));
}

fn realize(
    disk: &mut FakeDisk,
    entry: &StoreEntry,
    found: Vec<ReadBack>,
    seal: bool,
) -> Result<(), StoreOutputError<String>> {
    let staged = ForwardRelativePathBuf::parse("buck-out/v2/pkg").unwrap();
    let mut run = materialize_store_output(
        &abs(ROOT),
        &staged,
        "/project/store/pkg",
        entry.duplicate(),
        seal,
    )
    .unwrap();
    let mut found = found.into_iter();
    loop {
        match run.request() {
            Some(RunRequest::Io(request)) => {
                let reply = disk.serve(&request, entry);
                run = run.step(&RunReply::Io(reply));
            }
            Some(RunRequest::ReadBack(path)) => {
                assert_eq!(path, "/project/store/pkg");
                disk.log.push("ReadBack".to_owned());
                run = run.step(&RunReply::Found(found.next().unwrap()));
            }
            None => match run.finish() {
                Ok(result) => {
                    assert!(found.next().is_none());
                    return result;
                }
                Err(_) => panic!("a realization without a request is finished"),
            },
        }
    }
}

#[test]
fn a_recorded_object_is_kept() {
    let mut disk = FakeDisk::default();
    disk.write("/project/store/pkg", b"x", false);
    realize(&mut disk, &file(), vec![ReadBack::Entry(file())], false).unwrap();
    assert_eq!(disk.log, vec!["TryExists(\"/project/store/pkg\")", "ReadBack"]);
}

#[test]
fn another_object_is_refused_before_anything_is_changed() {
    let mut disk = FakeDisk::default();
    disk.write("/project/store/pkg", b"x", false);
    let before = disk.nodes.clone();
    let other = ReadBack::Entry(dir(vec![]));
    let error = realize(&mut disk, &file(), vec![other], true).unwrap_err();
    assert_eq!(
        error.message(),
        "Existing store output `/project/store/pkg` does not match the artifact Buck2 recorded"
    );
    assert_eq!(disk.nodes, before);
}

#[test]
fn an_object_that_is_to_be_sealed_is_verified_twice() {
    let mut disk = FakeDisk::default();
    disk.write("/project/store/pkg", b"x", false);
    let found = vec![ReadBack::Entry(file()), ReadBack::Entry(file())];
    realize(&mut disk, &file(), found, true).unwrap();
    assert!(!is_writable(disk.node("/project/store/pkg").mode));
    assert_eq!(disk.log.iter().filter(|line| *line == "ReadBack").count(), 2);
}

#[test]
fn a_built_object_is_verified() {
    let mut disk = FakeDisk::default();
    disk.write("/project/buck-out/v2/pkg", b"x", false);
    realize(&mut disk, &file(), vec![ReadBack::Entry(file())], true).unwrap();
    assert!(disk.holds("/project/store/pkg"));

    let mut disk = FakeDisk::default();
    disk.write("/project/buck-out/v2/pkg", b"x", false);
    let error = realize(&mut disk, &file(), vec![ReadBack::Absent], true).unwrap_err();
    assert_eq!(
        error.message(),
        "Store output disappeared while verifying `/project/store/pkg`"
    );
}

#[test]
fn verification_tells_its_failures_apart() {
    let recorded = dir(vec![("a", file())]);
    assert!(verify_store_output("/s", &ReadBack::Entry(recorded.duplicate()), &recorded).is_ok());
    let text = |found: ReadBack| verify_store_output("/s", &found, &recorded).unwrap_err().message();
    assert_eq!(text(ReadBack::Failed("io".to_owned())), "io");
    assert_eq!(text(ReadBack::Unrecorded), "Unable to verify existing store output `/s`");
    let renamed = dir(vec![("b", file())]);
    assert_eq!(
        text(ReadBack::Entry(renamed)),
        "Existing store output `/s` does not match the artifact Buck2 recorded"
    );
    let link = |l: LinkMember| dir(vec![("a", StoreEntry::Link(l))]);
    assert!(!link(LinkMember::Symlink("x".to_owned()))
        .same(&link(LinkMember::ExternalSymlink("x".to_owned()))));
    assert!(link(LinkMember::Symlink("x".to_owned())).same(&link(LinkMember::Symlink("x".to_owned()))));
}

#[test]
fn a_store_path_must_be_absolute_and_normalized() {
    let staged = ForwardRelativePathBuf::parse("p").unwrap();
    for path in ["store/pkg", "/store/../pkg", "/store/./pkg", ""] {
        let error =
            materialize_store_output(&abs("/"), &staged, path, file(), false).unwrap_err();
        assert_eq!(
            error.message(),
            format!("store path is not absolute and normalized: `{}`", path)
        );
    }
}

#[test]
fn the_order_of_members_makes_no_difference() {
    let one = dir(vec![("a", file()), ("b", dir(vec![("x", file()), ("y", dir(vec![]))]))]);
    let other = dir(vec![("b", dir(vec![("y", dir(vec![])), ("x", file())])), ("a", file())]);
    assert!(one.same(&other));
    assert!(other.same(&one));
    assert!(verify_store_output("/s", &ReadBack::Entry(other), &one).is_ok());
    let swapped = dir(vec![("b", file()), ("a", dir(vec![("x", file()), ("y", dir(vec![]))]))]);
    assert!(!one.same(&swapped));
    assert!(!one.same(&dir(vec![("a", file())])));
    assert!(!dir(vec![("a", file())]).same(&one));
}

#[test]
fn execute_bits_are_kept_when_a_tree_is_sealed() {
    let mut disk = FakeDisk::default();
    disk.write("/project/buck-out/v2/pkg/plain", b"", false);
    disk.write("/project/buck-out/v2/pkg/tool", b"", true);
    let entry = dir(vec![("plain", file()), ("tool", file())]);
    execute(&mut disk, &entry, true).unwrap();
    assert_eq!(disk.node("/project/store/pkg/plain").mode, 0o444);
    assert_eq!(disk.node("/project/store/pkg/tool").mode, 0o555);
    assert_eq!(disk.node("/project/store/pkg").mode, 0o555);
}

#[test]
fn placement_errors_tell_whom_they_are_for() {
    let mut disk = FakeDisk::default();
    disk.write("/project/buck-out/v2/pkg", b"x", false);
    let writable = execute(&mut disk, &file(), false).unwrap_err();
    assert_eq!(writable.tag(), Some(ErrorTag::Input));
    for found in [ReadBack::Absent, ReadBack::Unrecorded, ReadBack::Entry(dir(vec![]))] {
        let error = verify_store_output("/s", &found, &file()).unwrap_err();
        assert_eq!(error.tag(), Some(ErrorTag::MaterializationError));
    }
    let passed = verify_store_output("/s", &ReadBack::Failed("io".to_owned()), &file()).unwrap_err();
    assert_eq!(passed.tag(), None);
}
