//! The bytes of the canonical archive, field by field, and what makes an object pass under a hash.

use vstd::prelude::*;
use vstd::utf8::*;

use crate::archive::{
    archive_magic, be32, be64, child_names, first_failure, sized_bytes, utf8_lossy, verified_entry,
    walk, walk_children, whole_archive, ErrorV,
};
use crate::digest::{hash_text, is_sha256_text, sha256};
use crate::disk::{DiskBody, DiskChild, DiskFile, DiskLink, DiskNode, DiskStatus};
use crate::entry::EntryV;
use crate::entry_laws::is_proper_name;
use crate::error::StoreImportActionError;
use crate::order::{
    bytes_before, lemma_before_irreflexive, lemma_name_order_exists, name_order, precedes,
};
use crate::path_laws::{joined_paths_hold_directory_and_name, single_entries_are_all_other_names};
use crate::paths::join_text;

verus! {

/// The number that bytes stand for, the most significant one first.
pub open spec fn number_of(bytes: Seq<u8>) -> int
    decreases bytes.len(),
{
    if bytes.len() == 0 {
        0
    } else {
        256 * number_of(bytes.drop_last()) + bytes.last()
    }
}

proof fn lemma_number_of_concat(a: Seq<u8>, b: Seq<u8>)
    requires
        b.len() == 4,
    ensures
        number_of(a + b) == 0x1_0000_0000 * number_of(a) + number_of(b),
{
    let b3 = b.drop_last();
    let b2 = b3.drop_last();
    let b1 = b2.drop_last();
    let b0 = b1.drop_last();
    assert(b0.len() == 0);
    assert((a + b).drop_last() =~= a + b3);
    assert((a + b3).drop_last() =~= a + b2);
    assert((a + b2).drop_last() =~= a + b1);
    assert((a + b1).drop_last() =~= a);
    assert((a + b).last() == b.last() && (a + b3).last() == b3.last() && (a + b2).last()
        == b2.last() && (a + b1).last() == b1.last());
    assert(number_of(b0) == 0);
    assert(number_of(b1) == b1.last());
    assert(number_of(b2) == 256 * number_of(b1) + b2.last());
    assert(number_of(b3) == 256 * number_of(b2) + b3.last());
    assert(number_of(a + b1) == 256 * number_of(a) + b1.last());
    assert(number_of(a + b2) == 256 * number_of(a + b1) + b2.last());
    assert(number_of(a + b3) == 256 * number_of(a + b2) + b3.last());
}

/// A length field of four bytes stands for the length, the most significant byte first, and so
/// does one of eight.
pub proof fn length_fields_stand_for_the_length(v: int)
    ensures
        be32(v).len() == 4,
        0 <= v < 0x1_0000_0000 ==> ((be32(v)[0] * 256 + be32(v)[1]) * 256 + be32(v)[2]) * 256
            + be32(v)[3] == v,
        0 <= v < 0x1_0000_0000 ==> number_of(be32(v)) == v,
        be64(v).len() == 8,
        0 <= v < 0x1_0000_0000_0000_0000 ==> number_of(be64(v)) == v,
{
    if 0 <= v < 0x1_0000_0000 {
        lemma_be32_value(v);
    }
    if 0 <= v < 0x1_0000_0000_0000_0000 {
        let high = v / 0x100000000;
        let low = v % 0x100000000;
        lemma_be32_value(high);
        lemma_be32_value(low);
        lemma_number_of_concat(be32(high), be32(low));
    }
}

proof fn lemma_be32_value(v: int)
    requires
        0 <= v < 0x1_0000_0000,
    ensures
        ((be32(v)[0] * 256 + be32(v)[1]) * 256 + be32(v)[2]) * 256 + be32(v)[3] == v,
        number_of(be32(v)) == v,
{
    let b = be32(v);
    assert(b[0] == v / 0x1000000 && b[1] == v / 0x10000 % 0x100 && b[2] == v / 0x100 % 0x100 && b[3]
        == v % 0x100);
    let none = Seq::<u8>::empty();
    assert(b.drop_last() =~= seq![b[0], b[1], b[2]]);
    assert(seq![b[0], b[1], b[2]].drop_last() =~= seq![b[0], b[1]]);
    assert(seq![b[0], b[1]].drop_last() =~= seq![b[0]]);
    assert(seq![b[0]].drop_last() =~= none);
    assert(number_of(none) == 0);
    assert(number_of(seq![b[0]]) == b[0]);
    assert(number_of(seq![b[0], b[1]]) == 256 * b[0] + b[1]);
    assert(number_of(seq![b[0], b[1], b[2]]) == 256 * (256 * b[0] + b[1]) + b[2]);
}

/// Bytes come before others exactly if there is a first place at which they differ, and there the
/// bytes have ended or are smaller.
pub proof fn names_are_ordered_byte_by_byte(a: Seq<u8>, b: Seq<u8>)
    ensures
        bytes_before(a, b) <==> exists|k: int| #[trigger] differs_below(a, b, k),
    decreases a.len(),
{
    if b.len() > 0 && a.len() > 0 && a[0] == b[0] {
        let x = a.drop_first();
        let y = b.drop_first();
        names_are_ordered_byte_by_byte(x, y);
        if bytes_before(a, b) {
            let k = choose|k: int| #[trigger] differs_below(x, y, k);
            assert(x.take(k) == y.take(k));
            assert forall|i: int| 0 <= i < k + 1 implies a[i] == b[i] by {
                if i > 0 {
                    assert(a[i] == x.take(k)[i - 1]);
                    assert(b[i] == y.take(k)[i - 1]);
                }
            }
            assert(a.take(k + 1) =~= b.take(k + 1));
            assert(differs_below(a, b, k + 1));
        }
        if exists|k: int| #[trigger] differs_below(a, b, k) {
            let k = choose|k: int| #[trigger] differs_below(a, b, k);
            assert(k > 0);
            assert(x.take(k - 1) =~= y.take(k - 1)) by {
                assert forall|i: int| 0 <= i < k - 1 implies x[i] == y[i] by {
                    assert(a.take(k)[i + 1] == b.take(k)[i + 1]);
                }
            }
            assert(differs_below(x, y, k - 1));
        }
    } else {
        assert(a.take(0) =~= b.take(0));
        if bytes_before(a, b) {
            assert(differs_below(a, b, 0));
        }
        if exists|k: int| #[trigger] differs_below(a, b, k) {
            let k = choose|k: int| #[trigger] differs_below(a, b, k);
            if k > 0 {
                assert(a.take(k)[0] == b.take(k)[0]);
            }
        }
    }
}

/// Up to the place the bytes are equal, and there the first have ended or are smaller.
pub open spec fn differs_below(a: Seq<u8>, b: Seq<u8>, k: int) -> bool {
    &&& 0 <= k <= a.len()
    &&& k < b.len()
    &&& a.take(k) == b.take(k)
    &&& k == a.len() || a[k] < b[k]
}

/// An archive is its name and version with a zero byte, the records, and one more zero byte.
pub proof fn an_archive_is_framed(records: Seq<u8>)
    ensures
        whole_archive(records) == seq![
            66u8,
            85,
            67,
            75,
            80,
            75,
            71,
            83,
            45,
            83,
            84,
            79,
            82,
            69,
            45,
            65,
            82,
            67,
            72,
            73,
            86,
            69,
            45,
            86,
            49,
            0,
        ] + records + seq![0u8],
{
    let text = "BUCKPKGS-STORE-ARCHIVE-V1\0"@;
    reveal_strlit("BUCKPKGS-STORE-ARCHIVE-V1\0");
    assert(is_ascii_chars(text));
    is_ascii_chars_encode_utf8(text);
    let name = seq![
        66u8,
        85,
        67,
        75,
        80,
        75,
        71,
        83,
        45,
        83,
        84,
        79,
        82,
        69,
        45,
        65,
        82,
        67,
        72,
        73,
        86,
        69,
        45,
        86,
        49,
        0,
    ];
    assert(archive_magic() =~= name);
}

/// A record begins with its kind, the length of its path in four bytes, and the path in UTF-8.
pub open spec fn begins_record(bytes: Seq<u8>, kind: u8, path: Seq<char>) -> bool {
    let n = encode_utf8(path).len() as int;
    &&& bytes.len() >= 5 + n
    &&& bytes[0] == kind
    &&& number_of(bytes.subrange(1, 5)) == n
    &&& bytes.subrange(5, 5 + n) == encode_utf8(path)
}

/// The most bytes that a path or a link target may have.
pub open spec fn field_limit() -> int {
    0xffff_ffff
}

proof fn lemma_head(kind: u8, path: Seq<char>, rest: Seq<u8>)
    requires
        encode_utf8(path).len() <= field_limit(),
    ensures
        ({
            let n = encode_utf8(path).len() as int;
            let bytes = seq![kind] + (be32(n) + encode_utf8(path)) + rest;
            begins_record(bytes, kind, path) && bytes.len() == 5 + n + rest.len() && bytes.skip(
                5 + n,
            ) == rest
        }),
{
    let n = encode_utf8(path).len() as int;
    let bytes = seq![kind] + (be32(n) + encode_utf8(path)) + rest;
    length_fields_stand_for_the_length(n);
    assert(bytes.subrange(1, 5) =~= be32(n));
    assert(bytes.subrange(5, 5 + n) =~= encode_utf8(path));
    assert(bytes.skip(5 + n) =~= rest);
}

/// A field of bytes stands behind its length in four bytes; one of more than 2 to the power of 32
/// less one is refused.
pub proof fn fields_stand_behind_their_length(bytes: Seq<u8>)
    ensures
        match sized_bytes(bytes) {
            Ok(field) => {
                &&& bytes.len() <= field_limit()
                &&& field.len() == 4 + bytes.len()
                &&& number_of(field.take(4)) == bytes.len()
                &&& field.skip(4) == bytes
            },
            Err(e) => {
                &&& bytes.len() > field_limit()
                &&& e == StoreImportActionError::CanonicalTreePathTooLong(utf8_lossy(bytes))
            },
        },
{
    if bytes.len() <= field_limit() {
        let n = bytes.len() as int;
        length_fields_stand_for_the_length(n);
        let field = be32(n) + bytes;
        assert(field.take(4) =~= be32(n));
        assert(field.skip(4) =~= bytes);
    }
}

/// The error for a read that failed.
pub open spec fn failed_read(what: Seq<char>, path: Seq<char>, error: Seq<char>) -> ErrorV {
    StoreImportActionError::Reading { context: what + path + seq!['`'], error }
}

/// The error for a path that is too long.
pub open spec fn too_long(bytes: Seq<u8>) -> ErrorV {
    StoreImportActionError::CanonicalTreePathTooLong(utf8_lossy(bytes))
}

/// A regular file is archived with its path, a byte that is one exactly if some execute bit is set,
/// its length in eight bytes and its contents, and its entry has its digest and that flag. It is
/// refused only if its path is too long, it could not be read, or the length that its metadata gave
/// is not that of the contents and of the digest; the first of these is the error.
#[verifier::spinoff_prover]
#[verifier::rlimit(50)]
pub proof fn files_are_archived_in_full(
    node: DiskNode,
    relative: Seq<char>,
    mode: u32,
    file: DiskFile,
)
    requires
        node.status matches DiskStatus::Present { mode: m, body: DiskBody::File(f), .. } && m
            == mode && f == file,
    ensures
        ({
            let path = encode_utf8(relative);
            let n = path.len() as int;
            if n > field_limit() {
                walk(node, relative) == Err::<(Seq<u8>, EntryV), ErrorV>(too_long(path))
            } else {
                match file.content {
                    Err(e) => walk(node, relative) == Err::<(Seq<u8>, EntryV), ErrorV>(
                        failed_read("reading hydrated store file `"@, node.path@, e@),
                    ),
                    Ok(content) => if content.bytes@.len() != file.len || content.digest.size
                        != file.len {
                        walk(node, relative) == Err::<(Seq<u8>, EntryV), ErrorV>(
                            StoreImportActionError::ChangedWhileImported(node.path@),
                        )
                    } else {
                        walk(node, relative) matches Ok((record, entry)) && {
                            &&& begins_record(record, 2, relative)
                            &&& record.len() == 14 + n + content.bytes@.len()
                            &&& record[5 + n] == if mode & 0o111 != 0 {
                                1u8
                            } else {
                                0u8
                            }
                            &&& number_of(record.subrange(6 + n, 14 + n)) == file.len
                            &&& record.skip(14 + n) == content.bytes@
                            &&& entry matches EntryV::File { digest, is_executable } && digest.raw
                                == content.digest.raw@ && digest.size == content.digest.size && (
                            is_executable <==> mode & 0o111 != 0)
                        }
                    },
                }
            }
        }),
{
    reveal_strlit("`");
    assert("`"@ =~= seq!['`']);
    let path = encode_utf8(relative);
    let n = path.len() as int;
    if n <= field_limit() && file.content is Ok {
        let content = file.content->Ok_0;
        if content.bytes@.len() == file.len && content.digest.size == file.len {
            let len = file.len as int;
            length_fields_stand_for_the_length(len);
            let flag = if mode & 0o111 != 0 {
                1u8
            } else {
                0u8
            };
            let tail = seq![flag] + be64(len) + content.bytes@;
            lemma_head(2, relative, tail);
            let record = seq![2u8] + (be32(n) + path) + tail;
            assert(walk(node, relative)->Ok_0.0 == record);
            assert(record[5 + n] == tail[0]);
            assert(record.subrange(6 + n, 14 + n) =~= be64(len));
            assert(record.skip(14 + n) =~= content.bytes@);
        }
    }
}

/// A symbolic link is archived with its path and its target behind the length in four bytes, and
/// its entry is the member that stands for it. It is refused only if its path is too long, it could
/// not be read, its target is too long, or no member stands for it; the first of these is the
/// error.
#[verifier::spinoff_prover]
#[verifier::rlimit(50)]
pub proof fn links_are_archived_in_full(
    node: DiskNode,
    relative: Seq<char>,
    link: Result<DiskLink, String>,
)
    requires
        node.status matches DiskStatus::Present { body: DiskBody::Symlink(l), .. } && l == link,
    ensures
        ({
            let path = encode_utf8(relative);
            let n = path.len() as int;
            if n > field_limit() {
                walk(node, relative) == Err::<(Seq<u8>, EntryV), ErrorV>(too_long(path))
            } else {
                match link {
                    Err(e) => walk(node, relative) == Err::<(Seq<u8>, EntryV), ErrorV>(
                        failed_read("reading hydrated store symlink `"@, node.path@, e@),
                    ),
                    Ok(link) => if link.target@.len() > field_limit() {
                        walk(node, relative) == Err::<(Seq<u8>, EntryV), ErrorV>(
                            too_long(link.target@),
                        )
                    } else {
                        match link.member {
                            Err(e) => walk(node, relative) == Err::<(Seq<u8>, EntryV), ErrorV>(
                                StoreImportActionError::Failed(e@),
                            ),
                            Ok(member) => walk(node, relative) matches Ok((record, entry)) && {
                                &&& begins_record(record, 3, relative)
                                &&& record.len() == 9 + n + link.target@.len()
                                &&& number_of(record.subrange(5 + n, 9 + n)) == link.target@.len()
                                &&& record.skip(9 + n) == link.target@
                                &&& match member {
                                    crate::entry::LinkMember::Symlink(t) => entry
                                        == EntryV::Symlink(t@),
                                    crate::entry::LinkMember::ExternalSymlink(t) => entry
                                        == EntryV::ExternalSymlink(t@),
                                }
                            },
                        }
                    },
                }
            }
        }),
{
    reveal_strlit("`");
    assert("`"@ =~= seq!['`']);
    let path = encode_utf8(relative);
    let n = path.len() as int;
    if n <= field_limit() && link is Ok {
        let target = link->Ok_0.target@;
        if target.len() <= field_limit() && link->Ok_0.member is Ok {
            let tail = be32(target.len() as int) + target;
            length_fields_stand_for_the_length(target.len() as int);
            lemma_head(3, relative, tail);
            let record = seq![3u8] + (be32(n) + path) + tail;
            assert(walk(node, relative)->Ok_0.0 == record);
            assert(record.subrange(5 + n, 9 + n) =~= be32(target.len() as int));
            assert(record.skip(9 + n) =~= target);
        }
    }
}

/// Whatever is neither a directory nor a file nor a symbolic link is refused, and so is an entry
/// that could not be looked at.
pub proof fn other_entries_are_refused(node: DiskNode, relative: Seq<char>)
    ensures
        node.status matches DiskStatus::Unreadable(e) ==> walk(node, relative) == Err::<
            (Seq<u8>, EntryV),
            ErrorV,
        >(failed_read("inspecting hydrated store entry `"@, node.path@, e@)),
        node.status matches DiskStatus::Present { body: DiskBody::Other, .. } ==> walk(
            node,
            relative,
        ) == Err::<(Seq<u8>, EntryV), ErrorV>(
            StoreImportActionError::UnsupportedStoreEntry(node.path@),
        ),
{
    reveal_strlit("`");
    assert("`"@ =~= seq!['`']);
}

/// The path of an entry of a directory: its name behind the path of the directory and a slash, or
/// the name alone at the top.
pub open spec fn path_below(relative: Seq<char>, name: Seq<char>) -> Seq<char> {
    if relative.len() == 0 {
        name
    } else {
        relative + seq!['/'] + name
    }
}

/// The name of a listed entry, as text.
pub open spec fn name_text(child: DiskChild) -> Seq<char> {
    decode_utf8(child->Entry_name@)
}

/// The records of the entries at the first `k` places of an order, one after the other.
pub open spec fn records_of(
    children: Seq<DiskChild>,
    order: Seq<int>,
    relative: Seq<char>,
    k: int,
) -> Seq<u8>
    decreases k,
{
    if k <= 0 {
        seq![]
    } else {
        let child = children[order[k - 1]];
        records_of(children, order, relative, k - 1) + walk(
            child->node,
            path_below(relative, name_text(child)),
        )->Ok_0.0
    }
}

/// The positions in the order of the names, byte by byte; entries with one name in the order of
/// the listing. Every position is among them.
pub open spec fn is_order_of_names(children: Seq<DiskChild>, order: Seq<int>) -> bool {
    &&& order.len() == children.len()
    &&& order.no_duplicates()
    &&& forall|k: int| 0 <= k < order.len() ==> 0 <= #[trigger] order[k] < children.len()
    &&& forall|k: int, m: int|
        0 <= k < m < order.len() ==> {
            let a = children[#[trigger] order[k]]->Entry_name@;
            let b = children[#[trigger] order[m]]->Entry_name@;
            (exists|d: int| #[trigger] differs_below(a, b, d)) || (a == b && order[k] < order[m])
        }
}

/// The entry is one that a directory can be archived with: its name is UTF-8 and a proper name, it
/// was not refused, and it can be archived itself.
pub open spec fn is_archivable(child: DiskChild, relative: Seq<char>) -> bool {
    child matches DiskChild::Entry { name, refused, node } && valid_utf8(name@) && is_proper_name(
        decode_utf8(name@),
    ) && refused is None && walk(node, path_below(relative, decode_utf8(name@))) is Ok
}

/// Why a directory cannot be archived with the entry.
pub open spec fn obstacle(child: DiskChild, directory: Seq<char>, relative: Seq<char>) -> ErrorV {
    match child {
        DiskChild::Failed(e) => failed_read("reading hydrated store directory `"@, directory, e@),
        DiskChild::Entry { name, refused, node } => if !valid_utf8(name@) {
            StoreImportActionError::NonUtf8Entry { directory }
        } else if !is_proper_name(decode_utf8(name@)) {
            StoreImportActionError::InvalidFileName(decode_utf8(name@))
        } else if refused is Some {
            StoreImportActionError::Failed(refused->0@)
        } else {
            walk(node, path_below(relative, decode_utf8(name@)))->Err_0
        },
    }
}

proof fn lemma_order(children: Seq<DiskChild>)
    requires
        forall|i: int| 0 <= i < children.len() ==> #[trigger] children[i] is Entry,
    ensures
        is_order_of_names(children, name_order(child_names(children))),
{
    let names = child_names(children);
    let order = name_order(names);
    lemma_name_order_exists(names);
    assert forall|k: int, m: int| 0 <= k < m < order.len() implies {
        let a = children[#[trigger] order[k]]->Entry_name@;
        let b = children[#[trigger] order[m]]->Entry_name@;
        (exists|d: int| #[trigger] differs_below(a, b, d)) || (a == b && order[k] < order[m])
    } by {
        assert(precedes(names, order[k], order[m]));
        assert(children[order[k]] is Entry && children[order[m]] is Entry);
        assert(names[order[k]] == children[order[k]]->Entry_name@);
        assert(names[order[m]] == children[order[m]]->Entry_name@);
        names_are_ordered_byte_by_byte(names[order[k]], names[order[m]]);
    }
    assert(order.no_duplicates()) by {
        assert forall|k: int, m: int|
            0 <= k < order.len() && 0 <= m < order.len() && k != m implies order[k] != order[m] by {
            let (a, b) = if k < m {
                (k, m)
            } else {
                (m, k)
            };
            assert(precedes(names, order[a], order[b]));
            lemma_before_irreflexive(names[order[a]]);
        }
    }
}

spec fn is_plain(relative: Seq<char>) -> bool {
    relative.len() > 0 ==> relative.last() != '/'
}

proof fn lemma_children(
    children: Seq<DiskChild>,
    directory: Seq<char>,
    relative: Seq<char>,
    k: nat,
) -> (bad: int)
    requires
        k <= children.len(),
        is_plain(relative),
        forall|i: int| 0 <= i < children.len() ==> #[trigger] children[i] is Entry,
    ensures
        ({
            let order = name_order(child_names(children));
            match walk_children(children, directory, relative, k) {
                Ok((records, entries)) => {
                    &&& records == records_of(children, order, relative, k as int)
                    &&& entries.len() == k
                    &&& forall|i: int|
                        0 <= i < k ==> {
                            let child = children[#[trigger] order[i]];
                            &&& is_archivable(child, relative)
                            &&& entries[i] == (
                                name_text(child),
                                walk(
                                    child->node,
                                    path_below(relative, name_text(child)),
                                )->Ok_0.1,
                            )
                        }
                },
                Err(e) => {
                    &&& 0 <= bad < k
                    &&& forall|i: int|
                        0 <= i < bad ==> is_archivable(children[#[trigger] order[i]], relative)
                    &&& !is_archivable(children[order[bad]], relative)
                    &&& e == obstacle(children[order[bad]], directory, relative)
                },
            }
        }),
    decreases k,
{
    let order = name_order(child_names(children));
    lemma_order(children);
    if k == 0 {
        0
    } else {
        let bad = lemma_children(children, directory, relative, (k - 1) as nat);
        let j = order[k - 1];
        assert(0 <= j < children.len());
        assert(children[j] is Entry);
        if let DiskChild::Entry { name, refused, node } = children[j] {
            single_entries_are_all_other_names(decode_utf8(name@));
            joined_paths_hold_directory_and_name(relative, decode_utf8(name@));
            assert(join_text(relative, decode_utf8(name@)) == path_below(
                relative,
                decode_utf8(name@),
            ));
        }
        if walk_children(children, directory, relative, (k - 1) as nat) is Ok {
            if walk_children(children, directory, relative, k) is Ok {
                let old_entries = walk_children(
                    children,
                    directory,
                    relative,
                    (k - 1) as nat,
                )->Ok_0.1;
                let entries = walk_children(children, directory, relative, k)->Ok_0.1;
                assert forall|i: int| 0 <= i < k implies {
                    let child = children[#[trigger] order[i]];
                    &&& is_archivable(child, relative)
                    &&& entries[i] == (
                        name_text(child),
                        walk(child->node, path_below(relative, name_text(child)))->Ok_0.1,
                    )
                } by {
                    if i < k - 1 {
                        assert(entries[i] == old_entries[i]);
                    }
                }
            }
            k - 1
        } else {
            bad
        }
    }
}

proof fn lemma_first_failure(list: Seq<DiskChild>) -> (i: int)
    ensures
        match first_failure(list) {
            Some(e) => {
                &&& 0 <= i < list.len()
                &&& list[i] matches DiskChild::Failed(error) && error@ == e
                &&& forall|j: int| 0 <= j < i ==> #[trigger] list[j] is Entry
            },
            None => forall|j: int| 0 <= j < list.len() ==> #[trigger] list[j] is Entry,
        },
    decreases list.len(),
{
    if list.len() == 0 {
        0
    } else if list[0] is Failed {
        0
    } else {
        let rest = list.drop_first();
        let i = lemma_first_failure(rest);
        assert forall|j: int|
            0 <= j < list.len() && (first_failure(rest) is None || j < i + 1) implies #[trigger] list[j]
            is Entry by {
            if j > 0 {
                assert(list[j] == rest[j - 1]);
            }
        }
        if first_failure(rest) is Some {
            assert(list[i + 1] == rest[i]);
        }
        i + 1
    }
}

/// A directory is archived with its path and then its entries, each with all that is below it, in
/// the order of their names, byte by byte; its entry has the names and the entries in that order.
/// It is refused only if its path is too long, it could not be listed, an item of the listing could
/// not be read, or an entry stands in the way; the first of these is the error. `found.0` is the
/// order, `found.1` the place of the item or entry in the way.
pub proof fn directories_are_archived_in_the_order_of_names(
    node: DiskNode,
    relative: Seq<char>,
    listing: Result<Vec<DiskChild>, String>,
) -> (found: (Seq<int>, int))
    requires
        node.status matches DiskStatus::Present { body: DiskBody::Directory(l), .. } && l
            == listing,
        relative.len() > 0 ==> relative.last() != '/',
    ensures
        ({
            let path = encode_utf8(relative);
            let n = path.len() as int;
            if n > field_limit() {
                walk(node, relative) == Err::<(Seq<u8>, EntryV), ErrorV>(too_long(path))
            } else {
                match listing {
                    Err(e) => walk(node, relative) == Err::<(Seq<u8>, EntryV), ErrorV>(
                        failed_read("reading hydrated store directory `"@, node.path@, e@),
                    ),
                    Ok(children) => if exists|i: int|
                        0 <= i < children@.len() && #[trigger] children@[i] is Failed {
                        let i = found.1;
                        &&& 0 <= i < children@.len()
                        &&& children@[i] is Failed
                        &&& forall|j: int| 0 <= j < i ==> #[trigger] children@[j] is Entry
                        &&& walk(node, relative) == Err::<(Seq<u8>, EntryV), ErrorV>(
                            obstacle(children@[i], node.path@, relative),
                        )
                    } else {
                        let order = found.0;
                        &&& is_order_of_names(children@, order)
                        &&& match walk(node, relative) {
                            Ok((record, entry)) => {
                                &&& begins_record(record, 1, relative)
                                &&& record.skip(5 + n) == records_of(
                                    children@,
                                    order,
                                    relative,
                                    children@.len() as int,
                                )
                                &&& entry matches EntryV::Dir(members) && members.len()
                                    == children@.len() && forall|i: int|
                                    0 <= i < members.len() ==> {
                                        let child = children@[#[trigger] order[i]];
                                        &&& is_archivable(child, relative)
                                        &&& members[i] == (
                                            name_text(child),
                                            walk(
                                                child->node,
                                                path_below(relative, name_text(child)),
                                            )->Ok_0.1,
                                        )
                                    }
                            },
                            Err(e) => {
                                let bad = found.1;
                                &&& 0 <= bad < children@.len()
                                &&& forall|i: int|
                                    0 <= i < bad ==> is_archivable(
                                        children@[#[trigger] order[i]],
                                        relative,
                                    )
                                &&& !is_archivable(children@[order[bad]], relative)
                                &&& e == obstacle(children@[order[bad]], node.path@, relative)
                            },
                        }
                    },
                }
            }
        }),
{
    reveal_strlit("`");
    assert("`"@ =~= seq!['`']);
    let path = encode_utf8(relative);
    let n = path.len() as int;
    if n <= field_limit() && listing is Ok {
        let children = listing->Ok_0@;
        let order = name_order(child_names(children));
        let failed = lemma_first_failure(children);
        if first_failure(children) is Some {
            assert(children[failed] is Failed);
            (order, failed)
        } else {
            assert forall|i: int| 0 <= i < children.len() implies !(#[trigger] children[i]
                is Failed) by {
                assert(children[i] is Entry);
            }
            lemma_order(children);
            let bad = lemma_children(children, node.path@, relative, children.len());
            if walk(node, relative) is Ok {
                let records = walk_children(
                    children,
                    node.path@,
                    relative,
                    children.len(),
                )->Ok_0.0;
                lemma_head(1, relative, records);
            }
            (order, bad)
        }
    } else {
        (seq![], 0)
    }
}

/// An object that was found passes under a hash exactly if the hash has the form of one, the object
/// can be archived, the archive is short enough to be hashed, and `sha256:` with the hexadecimal
/// SHA-256 hash of the archive is the expected text. Then its entry is the result; nothing at the
/// store path gives nothing; and in every other case the first thing that is wrong is the error.
pub proof fn an_object_passes_under_its_hash(
    store: Seq<char>,
    expected: Seq<char>,
    root: Result<Option<DiskNode>, String>,
)
    ensures
        ({
            let verdict = verified_entry(store, expected, root);
            if !is_sha256_text(expected) {
                verdict == Err::<Option<EntryV>, ErrorV>(
                    StoreImportActionError::InvalidCanonicalTreeHash(expected),
                )
            } else {
                match root {
                    Err(e) => verdict == Err::<Option<EntryV>, ErrorV>(
                        StoreImportActionError::Failed(e@),
                    ),
                    Ok(None) => verdict == Ok::<Option<EntryV>, ErrorV>(None),
                    Ok(Some(node)) => match walk(node, seq![]) {
                        Err(e) => verdict == Err::<Option<EntryV>, ErrorV>(e),
                        Ok((records, entry)) => {
                            let archive = whole_archive(records);
                            let actual = hash_text(sha256(archive));
                            if archive.len() >= 0x2000_0000_0000_0000 {
                                verdict == Err::<Option<EntryV>, ErrorV>(
                                    StoreImportActionError::ArchiveTooLarge,
                                )
                            } else if actual == expected {
                                verdict == Ok::<Option<EntryV>, ErrorV>(Some(entry))
                            } else {
                                verdict == Err::<Option<EntryV>, ErrorV>(
                                    StoreImportActionError::CanonicalTreeHashMismatch {
                                        store_path: store,
                                        expected,
                                        actual,
                                    },
                                )
                            }
                        },
                    },
                }
            }
        }),
{
}

} // verus!
