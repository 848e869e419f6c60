//! The canonical archive of a store object, and the check of an object against its hash.

use vstd::prelude::*;
use vstd::string::*;
use vstd::utf8::*;

use crate::digest::{
    hash_text, is_sha256_hash, is_sha256_text, sha256, sha256_digest, tree_hash_text,
};
use crate::disk::{
    is_executable, mode_is_executable, DiskBody, DiskChild, DiskFile, DiskLink, DiskNode,
    DiskStatus,
};
use crate::entry::{children_model, link_model, EntryV, FileMetadata, NamedEntry, StoreEntry};
use crate::error::StoreImportActionError;
use crate::order::{is_name_order, name_order, names_view, positions, sort_names};
use crate::paths::{is_single_entry, join, join_text, single_entry};
use crate::text::{concat3, same_text};

verus! {

pub const RECORD_END: u8 = 0;

pub const RECORD_DIRECTORY: u8 = 1;

pub const RECORD_FILE: u8 = 2;

pub const RECORD_SYMLINK: u8 = 3;

/// An import error over mathematical text.
pub type ErrorV = StoreImportActionError<Seq<char>>;

/// The bytes that open every archive.
pub open spec fn archive_magic() -> Seq<u8> {
    encode_utf8("BUCKPKGS-STORE-ARCHIVE-V1\0"@)
}

/// A number below 2 to the power of 32, most significant byte first.
pub open spec fn be32(v: int) -> Seq<u8> {
    seq![
        (v / 0x1000000) as u8,
        (v / 0x10000 % 0x100) as u8,
        (v / 0x100 % 0x100) as u8,
        (v % 0x100) as u8,
    ]
}

/// A number below 2 to the power of 64, most significant byte first.
pub open spec fn be64(v: int) -> Seq<u8> {
    be32(v / 0x100000000) + be32(v % 0x100000000)
}

fn write_be32(out: &mut Vec<u8>, v: u32)
    ensures
        final(out)@ == old(out)@ + be32(v as int),
{
    out.push((v / 0x1000000) as u8);
    out.push((v / 0x10000 % 0x100) as u8);
    out.push((v / 0x100 % 0x100) as u8);
    out.push((v % 0x100) as u8);
    assert(out@ =~= old(out)@ + be32(v as int));
}

fn write_be64(out: &mut Vec<u8>, v: u64)
    ensures
        final(out)@ == old(out)@ + be64(v as int),
{
    write_be32(out, (v / 0x100000000) as u32);
    write_be32(out, (v % 0x100000000) as u32);
    assert(out@ =~= old(out)@ + be64(v as int));
}

fn write_all(out: &mut Vec<u8>, bytes: &[u8])
    ensures
        final(out)@ == old(out)@ + bytes@,
{
    out.extend_from_slice(bytes);
    assert(out@ =~= old(out)@ + bytes@);
}

/// What `String::from_utf8_lossy` makes of a byte sequence.
pub uninterp spec fn utf8_lossy(bytes: Seq<u8>) -> Seq<char>;

/// Calls `String::from_utf8_lossy`. Claimed of it: the text depends on the bytes alone, and
/// bytes that are valid UTF-8 give the text that they encode.
#[verifier::external_body]
fn lossy_text(bytes: &[u8]) -> (res: String)
    ensures
        res@ == utf8_lossy(bytes@),
        valid_utf8(bytes@) ==> res@ == decode_utf8(bytes@),
{
    String::from_utf8_lossy(bytes).into_owned()
}

/// Calls `std::str::from_utf8`. Claimed of it: it gives a string exactly for valid UTF-8, and
/// the string is encoded by the bytes.
#[verifier::external_body]
fn utf8_text(bytes: &[u8]) -> (res: Option<&str>)
    ensures
        match res {
            Some(s) => valid_utf8(bytes@) && s@ == decode_utf8(bytes@),
            None => !valid_utf8(bytes@),
        },
{
    std::str::from_utf8(bytes).ok()
}

/// A byte sequence behind its length.
pub open spec fn sized_bytes(bytes: Seq<u8>) -> Result<Seq<u8>, ErrorV> {
    if bytes.len() > u32::MAX {
        Err(StoreImportActionError::CanonicalTreePathTooLong(utf8_lossy(bytes)))
    } else {
        Ok(be32(bytes.len() as int) + bytes)
    }
}

/// The head of a record: its kind and the path that it is about.
pub open spec fn path_record(kind: u8, relative: Seq<char>) -> Result<Seq<u8>, ErrorV> {
    match sized_bytes(encode_utf8(relative)) {
        Ok(bytes) => Ok(seq![kind] + bytes),
        Err(e) => Err(e),
    }
}

/// Appends `bytes` behind their length to the archive.
pub fn write_bytes(canonical: &mut Vec<u8>, bytes: &[u8]) -> (res: Result<
    (),
    StoreImportActionError<String>,
>)
    ensures
        match sized_bytes(bytes@) {
            Ok(b) => res is Ok && final(canonical)@ == old(canonical)@ + b,
            Err(e) => res is Err && res->Err_0@ == e && final(canonical)@ == old(canonical)@,
        },
{
    if bytes.len() as u64 > u32::MAX as u64 {
        return Err(StoreImportActionError::CanonicalTreePathTooLong(lossy_text(bytes)));
    }
    write_be32(canonical, bytes.len() as u32);
    write_all(canonical, bytes);
    assert(canonical@ =~= old(canonical)@ + (be32(bytes@.len() as int) + bytes@));
    Ok(())
}

/// Appends the head of a record to the archive.
pub fn write_path_record(canonical: &mut Vec<u8>, kind: u8, relative: &str) -> (res: Result<
    (),
    StoreImportActionError<String>,
>)
    ensures
        match path_record(kind, relative@) {
            Ok(b) => res is Ok && final(canonical)@ == old(canonical)@ + b,
            Err(e) => res is Err && res->Err_0@ == e && final(canonical)@ == old(canonical)@.push(
                kind,
            ),
        },
{
    canonical.push(kind);
    match write_bytes(canonical, relative.as_bytes()) {
        Ok(()) => {
            assert(canonical@ =~= old(canonical)@ + path_record(kind, relative@)->Ok_0);
            Ok(())
        },
        Err(e) => Err(e),
    }
}

/// The first item of a listing that could not be read.
pub open spec fn first_failure(list: Seq<DiskChild>) -> Option<Seq<char>>
    decreases list.len(),
{
    if list.len() == 0 {
        None
    } else {
        match list[0] {
            DiskChild::Failed(e) => Some(e@),
            DiskChild::Entry { .. } => first_failure(list.drop_first()),
        }
    }
}

/// The name of a listed entry.
pub open spec fn child_name(child: DiskChild) -> Seq<u8> {
    match child {
        DiskChild::Failed(_) => seq![],
        DiskChild::Entry { name, .. } => name@,
    }
}

/// The names of the listed entries.
pub open spec fn child_names(list: Seq<DiskChild>) -> Seq<Seq<u8>> {
    list.map_values(|c: DiskChild| child_name(c))
}

/// What a walk over a part of a store object gives: the records of the canonical archive and
/// the entry, or the first error.
pub open spec fn walk(node: DiskNode, relative: Seq<char>) -> Result<(Seq<u8>, EntryV), ErrorV>
    decreases node, 0nat,
{
    match node.status {
        DiskStatus::Unreadable(e) => Err(
            StoreImportActionError::Reading {
                context: "inspecting hydrated store entry `"@ + node.path@ + "`"@,
                error: e@,
            },
        ),
        DiskStatus::Present { mode, body, .. } => match body {
            DiskBody::Directory(listing) => match path_record(RECORD_DIRECTORY, relative) {
                Err(e) => Err(e),
                Ok(head) => match listing {
                    Err(e) => Err(directory_error(node.path@, e@)),
                    Ok(children) => match first_failure(children@) {
                        Some(e) => Err(directory_error(node.path@, e)),
                        None => match walk_children(
                            children@,
                            node.path@,
                            relative,
                            children@.len(),
                        ) {
                            Err(e) => Err(e),
                            Ok((records, entries)) => Ok((head + records, EntryV::Dir(entries))),
                        },
                    },
                },
            },
            DiskBody::Symlink(link) => walk_link(node.path@, link, relative),
            DiskBody::File(file) => walk_file(node.path@, mode, file, relative),
            DiskBody::Other => Err(StoreImportActionError::UnsupportedStoreEntry(node.path@)),
        },
    }
}

/// What a walk over the first `k` entries of a directory gives, taken in the order of their
/// names.
pub open spec fn walk_children(
    children: Seq<DiskChild>,
    directory: Seq<char>,
    relative: Seq<char>,
    k: nat,
) -> Result<(Seq<u8>, Seq<(Seq<char>, EntryV)>), ErrorV>
    decreases children, k,
{
    if k == 0 {
        Ok((seq![], seq![]))
    } else {
        match walk_children(children, directory, relative, (k - 1) as nat) {
            Err(e) => Err(e),
            Ok((records, entries)) => {
                let j = name_order(child_names(children))[k - 1];
                if 0 <= j < children.len() {
                    match children[j] {
                        DiskChild::Failed(e) => Err(directory_error(directory, e@)),
                        DiskChild::Entry { name, refused, node } => if !valid_utf8(name@) {
                            Err(StoreImportActionError::NonUtf8Entry { directory })
                        } else if !is_single_entry(decode_utf8(name@)) {
                            Err(StoreImportActionError::InvalidFileName(decode_utf8(name@)))
                        } else if refused is Some {
                            Err(StoreImportActionError::Failed(refused->0@))
                        } else {
                            match walk(node, join_text(relative, decode_utf8(name@))) {
                                Err(e) => Err(e),
                                Ok((r, entry)) => Ok(
                                    (records + r, entries.push((decode_utf8(name@), entry))),
                                ),
                            }
                        },
                    }
                } else {
                    arbitrary()
                }
            },
        }
    }
}

/// The error for a directory that could not be read.
pub open spec fn directory_error(directory: Seq<char>, error: Seq<char>) -> ErrorV {
    StoreImportActionError::Reading {
        context: "reading hydrated store directory `"@ + directory + "`"@,
        error,
    }
}

/// What a walk over a symbolic link gives.
pub open spec fn walk_link(
    path: Seq<char>,
    link: Result<DiskLink, String>,
    relative: Seq<char>,
) -> Result<(Seq<u8>, EntryV), ErrorV> {
    match path_record(RECORD_SYMLINK, relative) {
        Err(e) => Err(e),
        Ok(head) => match link {
            Err(e) => Err(
                StoreImportActionError::Reading {
                    context: "reading hydrated store symlink `"@ + path + "`"@,
                    error: e@,
                },
            ),
            Ok(link) => match sized_bytes(link.target@) {
                Err(e) => Err(e),
                Ok(target) => match link.member {
                    Err(e) => Err(StoreImportActionError::Failed(e@)),
                    Ok(member) => Ok((head + target, link_model(member))),
                },
            },
        },
    }
}

/// The payload of a file record: the execute flag, the length, the contents.
pub open spec fn file_payload(mode: u32, len: u64, bytes: Seq<u8>) -> Seq<u8> {
    seq![if mode_is_executable(mode) { 1u8 } else { 0u8 }] + be64(len as int) + bytes
}

/// What a walk over a regular file gives.
pub open spec fn walk_file(
    path: Seq<char>,
    mode: u32,
    file: DiskFile,
    relative: Seq<char>,
) -> Result<(Seq<u8>, EntryV), ErrorV> {
    match path_record(RECORD_FILE, relative) {
        Err(e) => Err(e),
        Ok(head) => match file.content {
            Err(e) => Err(
                StoreImportActionError::Reading {
                    context: "reading hydrated store file `"@ + path + "`"@,
                    error: e@,
                },
            ),
            Ok(content) => if content.bytes@.len() != file.len || content.digest.size != file.len {
                Err(StoreImportActionError::ChangedWhileImported(path))
            } else {
                Ok(
                    (
                        head + file_payload(mode, file.len, content.bytes@),
                        EntryV::File {
                            digest: content.digest@,
                            is_executable: mode_is_executable(mode),
                        },
                    ),
                )
            },
        },
    }
}

fn build_link(path: &str, link: &Result<DiskLink, String>, relative: &str, canonical: &mut Vec<
    u8,
>) -> (res: Result<StoreEntry, StoreImportActionError<String>>)
    ensures
        walk_done(walk_link(path@, *link, relative@), old(canonical)@, final(canonical)@, res),
{
    write_path_record(canonical, RECORD_SYMLINK, relative)?;
    let link = match link {
        Ok(link) => link,
        Err(e) => {
            return Err(
                StoreImportActionError::Reading {
                    context: concat3("reading hydrated store symlink `", path, "`"),
                    error: e.clone(),
                },
            );
        },
    };
    write_bytes(canonical, &link.target)?;
    match &link.member {
        Ok(member) => {
            assert(canonical@ =~= old(canonical)@ + (path_record(RECORD_SYMLINK, relative@)->Ok_0
                + sized_bytes(link.target@)->Ok_0));
            Ok(StoreEntry::Link(member.duplicate()))
        },
        Err(e) => Err(StoreImportActionError::Failed(e.clone())),
    }
}

fn build_file(path: &str, mode: u32, file: &DiskFile, relative: &str, canonical: &mut Vec<
    u8,
>) -> (res: Result<StoreEntry, StoreImportActionError<String>>)
    ensures
        walk_done(
            walk_file(path@, mode, *file, relative@),
            old(canonical)@,
            final(canonical)@,
            res,
        ),
{
    write_path_record(canonical, RECORD_FILE, relative)?;
    let executable: bool = is_executable(mode);
    canonical.push(
        if executable {
            1
        } else {
            0
        },
    );
    write_be64(canonical, file.len);
    let content = match &file.content {
        Ok(content) => content,
        Err(e) => {
            return Err(
                StoreImportActionError::Reading {
                    context: concat3("reading hydrated store file `", path, "`"),
                    error: e.clone(),
                },
            );
        },
    };
    write_all(canonical, &content.bytes);
    if content.bytes.len() as u64 != file.len || content.digest.size != file.len {
        return Err(StoreImportActionError::ChangedWhileImported(path.to_owned()));
    }
    assert(canonical@ =~= old(canonical)@ + (path_record(RECORD_FILE, relative@)->Ok_0
        + file_payload(mode, file.len, content.bytes@)));
    Ok(
        StoreEntry::File(
            FileMetadata { digest: content.digest.duplicate(), is_executable: executable },
        ),
    )
}

/// The outcome of a step of the walk agrees with its model: on success the records are appended
/// and the entry is returned, else the error is returned.
pub open spec fn walk_done(
    model: Result<(Seq<u8>, EntryV), ErrorV>,
    before: Seq<u8>,
    after: Seq<u8>,
    res: Result<StoreEntry, StoreImportActionError<String>>,
) -> bool {
    match model {
        Ok((records, entry)) => {
            &&& res is Ok
            &&& res->Ok_0@ == entry
            &&& after == before + records
        },
        Err(e) => res is Err && res->Err_0@ == e,
    }
}

/// Walks a part of a store object: appends its records to the archive and gives its entry.
fn build_verified_store_entry_inner(
    node: &DiskNode,
    relative: &str,
    canonical: &mut Vec<u8>,
) -> (res: Result<StoreEntry, StoreImportActionError<String>>)
    ensures
        walk_done(walk(*node, relative@), old(canonical)@, final(canonical)@, res),
    decreases node, 0nat,
{
    match &node.status {
        DiskStatus::Unreadable(e) => Err(
            StoreImportActionError::Reading {
                context: concat3("inspecting hydrated store entry `", &node.path, "`"),
                error: e.clone(),
            },
        ),
        DiskStatus::Present { mode, body, .. } => match body {
            DiskBody::Directory(listing) => {
                write_path_record(canonical, RECORD_DIRECTORY, relative)?;
                let children = match listing {
                    Ok(children) => children,
                    Err(e) => {
                        return Err(reading_directory(&node.path, e));
                    },
                };
                let entries = build_children(children, &node.path, relative, canonical)?;
                assert(canonical@ =~= old(canonical)@ + (path_record(
                    RECORD_DIRECTORY,
                    relative@,
                )->Ok_0 + walk_children(
                    children@,
                    node.path@,
                    relative@,
                    children@.len(),
                )->Ok_0.0));
                Ok(StoreEntry::Dir(entries))
            },
            DiskBody::Symlink(link) => build_link(&node.path, link, relative, canonical),
            DiskBody::File(file) => build_file(&node.path, *mode, file, relative, canonical),
            DiskBody::Other => Err(
                StoreImportActionError::UnsupportedStoreEntry(node.path.clone()),
            ),
        },
    }
}

fn reading_directory(directory: &str, error: &String) -> (res: StoreImportActionError<String>)
    ensures
        res@ == directory_error(directory@, error@),
{
    StoreImportActionError::Reading {
        context: concat3("reading hydrated store directory `", directory, "`"),
        error: error.clone(),
    }
}

/// The entries of a listing, or the first failure in it.
fn listed_names<'a>(children: &'a Vec<DiskChild>, directory: &str) -> (res: Result<
    Vec<&'a Vec<u8>>,
    StoreImportActionError<String>,
>)
    ensures
        match first_failure(children@) {
            Some(e) => res is Err && res->Err_0@ == directory_error(directory@, e),
            None => res is Ok && names_view(res->Ok_0@) == child_names(children@) && forall|i: int|
                0 <= i < children@.len() ==> #[trigger] children@[i] is Entry,
        },
{
    let mut names: Vec<&'a Vec<u8>> = Vec::new();
    let mut i: usize = 0;
    assert(children@.skip(0) =~= children@);
    while i < children.len()
        invariant
            i <= children@.len(),
            first_failure(children@) == first_failure(children@.skip(i as int)),
            names@.len() == i,
            forall|j: int|
                0 <= j < i ==> #[trigger] children@[j] is Entry && child_name(children@[j])
                    == names@[j]@,
        decreases children.len() - i,
    {
        match &children[i] {
            DiskChild::Failed(e) => {
                return Err(reading_directory(directory, e));
            },
            DiskChild::Entry { name, .. } => {
                names.push(name);
            },
        }
        assert(children@.skip(i as int).drop_first() =~= children@.skip(i + 1));
        i += 1;
    }
    assert(names_view(names@) =~= child_names(children@));
    Ok(names)
}

/// Walks the entries of a directory in the order of their names.
fn build_children(
    children: &Vec<DiskChild>,
    directory: &str,
    relative: &str,
    canonical: &mut Vec<u8>,
) -> (res: Result<Vec<NamedEntry>, StoreImportActionError<String>>)
    ensures
        match first_failure(children@) {
            Some(e) => res is Err && res->Err_0@ == directory_error(directory@, e),
            None => match walk_children(children@, directory@, relative@, children@.len()) {
                Ok((records, entries)) => {
                    &&& res is Ok
                    &&& children_model(res->Ok_0@) == entries
                    &&& final(canonical)@ == old(canonical)@ + records
                },
                Err(e) => res is Err && res->Err_0@ == e,
            },
        },
    decreases children@, children@.len() + 1,
{
    let names = listed_names(children, directory)?;
    let order = sort_names(&names);
    let mut entries: Vec<NamedEntry> = Vec::new();
    let mut k: usize = 0;
    proof {
        assert(canonical@ =~= old(canonical)@ + Seq::<u8>::empty());
    }
    while k < order.len()
        invariant
            k <= order@.len() == children@.len(),
            first_failure(children@) is None,
            positions(order@) == name_order(child_names(children@)),
            is_name_order(positions(order@), child_names(children@)),
            forall|i: int| 0 <= i < children@.len() ==> #[trigger] children@[i] is Entry,
            walk_children(children@, directory@, relative@, k as nat) is Ok,
            children_model(entries@) == walk_children(
                children@,
                directory@,
                relative@,
                k as nat,
            )->Ok_0.1,
            canonical@ == old(canonical)@ + walk_children(
                children@,
                directory@,
                relative@,
                k as nat,
            )->Ok_0.0,
        decreases order.len() - k,
    {
        let ghost done = walk_children(children@, directory@, relative@, k as nat)->Ok_0;
        let j: usize = order[k];
        assert(positions(order@)[k as int] == j as int);
        if let DiskChild::Entry { name, refused, node } = &children[j] {
            let text = match utf8_text(name) {
                Some(text) => text,
                None => {
                    proof {
                        lemma_walk_error(children@, directory@, relative@, k as nat + 1);
                    }
                    return Err(
                        StoreImportActionError::NonUtf8Entry { directory: directory.to_owned() },
                    );
                },
            };
            if !single_entry(text) {
                proof {
                    lemma_walk_error(children@, directory@, relative@, k as nat + 1);
                }
                return Err(StoreImportActionError::InvalidFileName(text.to_owned()));
            }
            if let Some(e) = refused {
                proof {
                    lemma_walk_error(children@, directory@, relative@, k as nat + 1);
                }
                return Err(StoreImportActionError::Failed(e.clone()));
            }
            let child_relative = join(relative, text);
            match build_verified_store_entry_inner(node, &child_relative, canonical) {
                Ok(entry) => {
                    let ghost old_entries = entries@;
                    entries.push(NamedEntry { name: text.to_owned(), entry });
                    proof {
                        assert(entries@.drop_last() =~= old_entries);
                        assert(canonical@ =~= old(canonical)@ + (done.0 + walk(
                            *node,
                            child_relative@,
                        )->Ok_0.0));
                    }
                },
                Err(e) => {
                    proof {
                        lemma_walk_error(children@, directory@, relative@, k as nat + 1);
                    }
                    return Err(e);
                },
            }
        }
        k += 1;
    }
    Ok(entries)
}

/// An error among the first entries is the error of the whole directory.
proof fn lemma_walk_error(
    children: Seq<DiskChild>,
    directory: Seq<char>,
    relative: Seq<char>,
    k: nat,
)
    requires
        k <= children.len(),
        walk_children(children, directory, relative, k) is Err,
    ensures
        walk_children(children, directory, relative, children.len()) == walk_children(
            children,
            directory,
            relative,
            k,
        ),
    decreases children.len() - k,
{
    if k < children.len() {
        lemma_walk_error(children, directory, relative, k + 1);
    }
}

/// The archive of a whole store object.
pub open spec fn whole_archive(records: Seq<u8>) -> Seq<u8> {
    archive_magic() + records + seq![RECORD_END]
}

/// The most bytes that an archive may have.
pub open spec fn archive_limit() -> int {
    0x1fff_ffff_ffff_ffff
}

/// What the check of a store object against its canonical hash gives.
pub open spec fn verified_entry(
    store_path: Seq<char>,
    expected_hash: Seq<char>,
    root: Result<Option<DiskNode>, String>,
) -> Result<Option<EntryV>, ErrorV> {
    if !is_sha256_text(expected_hash) {
        Err(StoreImportActionError::InvalidCanonicalTreeHash(expected_hash))
    } else {
        match root {
            Err(e) => Err(StoreImportActionError::Failed(e@)),
            Ok(None) => Ok(None),
            Ok(Some(node)) => match walk(node, seq![]) {
                Err(e) => Err(e),
                Ok((records, entry)) => {
                    let archive = whole_archive(records);
                    if archive.len() > archive_limit() {
                        Err(StoreImportActionError::ArchiveTooLarge)
                    } else if hash_text(sha256(archive)) != expected_hash {
                        Err(hash_mismatch(store_path, expected_hash, hash_text(sha256(archive))))
                    } else {
                        Ok(Some(entry))
                    }
                },
            },
        }
    }
}

/// The canonical archive of a store object, and its entry.
pub fn canonical_archive(node: &DiskNode) -> (res: Result<
    (Vec<u8>, StoreEntry),
    StoreImportActionError<String>,
>)
    ensures
        match walk(*node, seq![]) {
            Ok((records, entry)) => {
                &&& res is Ok
                &&& res->Ok_0.0@ == whole_archive(records)
                &&& res->Ok_0.1@ == entry
            },
            Err(e) => res is Err && res->Err_0@ == e,
        },
{
    let mut canonical: Vec<u8> = Vec::new();
    write_all(&mut canonical, "BUCKPKGS-STORE-ARCHIVE-V1\0".as_bytes());
    proof {
        reveal_strlit("");
        assert(""@ =~= Seq::<char>::empty());
    }
    let entry = build_verified_store_entry_inner(node, "", &mut canonical)?;
    canonical.push(RECORD_END);
    assert(canonical@ =~= whole_archive(walk(*node, seq![])->Ok_0.0));
    Ok((canonical, entry))
}

/// Holds the SHA-256 hash of an archive against the hash that is expected of the store object.
pub fn check_tree_hash(store_path: &str, expected_hash: &str, hash: &[u8]) -> (res: Result<
    (),
    StoreImportActionError<String>,
>)
    ensures
        if hash_text(hash@) == expected_hash@ {
            res is Ok
        } else {
            res is Err && res->Err_0@ == hash_mismatch(
                store_path@,
                expected_hash@,
                hash_text(hash@),
            )
        },
{
    let actual = tree_hash_text(hash);
    if same_text(&actual, expected_hash) {
        Ok(())
    } else {
        Err(
            StoreImportActionError::CanonicalTreeHashMismatch {
                store_path: store_path.to_owned(),
                expected: expected_hash.to_owned(),
                actual,
            },
        )
    }
}

/// The error for an object whose hash is not the expected one.
pub open spec fn hash_mismatch(
    store_path: Seq<char>,
    expected: Seq<char>,
    actual: Seq<char>,
) -> ErrorV {
    StoreImportActionError::CanonicalTreeHashMismatch { store_path, expected, actual }
}

/// Checks a store object against its canonical tree hash. `root` is what was found at the store
/// path: a tree, nothing, or a failure to look. An object that is not there gives `None`.
pub fn build_verified_store_entry(
    store_path: &str,
    expected_hash: &str,
    root: &Result<Option<DiskNode>, String>,
) -> (res: Result<Option<StoreEntry>, StoreImportActionError<String>>)
    ensures
        match verified_entry(store_path@, expected_hash@, *root) {
            Ok(Some(entry)) => res is Ok && res->Ok_0 is Some && res->Ok_0->0@ == entry,
            Ok(None) => res is Ok && res->Ok_0 is None,
            Err(e) => res is Err && res->Err_0@ == e,
        },
{
    if !is_sha256_hash(expected_hash) {
        return Err(StoreImportActionError::InvalidCanonicalTreeHash(expected_hash.to_owned()));
    }
    let node = match root {
        Err(e) => {
            return Err(StoreImportActionError::Failed(e.clone()));
        },
        Ok(None) => {
            return Ok(None);
        },
        Ok(Some(node)) => node,
    };
    let (archive, entry) = canonical_archive(node)?;
    if archive.len() as u64 > 0x1fff_ffff_ffff_ffff {
        return Err(StoreImportActionError::ArchiveTooLarge);
    }
    let hash = sha256_digest(&archive);
    check_tree_hash(store_path, expected_hash, &hash)?;
    Ok(Some(entry))
}

} // verus!
