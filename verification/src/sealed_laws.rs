//! What the check for sealed metadata says of the tree that it was given: of every entry, at every
//! position of every listing and at every depth.

use vstd::prelude::*;

use crate::archive::ErrorV;
use crate::disk::{DiskBody, DiskChild, DiskNode, DiskStatus};
use crate::error::StoreImportActionError;
use crate::sealed::{normalized, normalized_list};

verus! {

/// The entry of a tree that the positions in the listings lead to, from the top.
pub open spec fn node_at(node: DiskNode, place: Seq<int>) -> Option<DiskNode>
    decreases place.len(),
{
    if place.len() == 0 {
        Some(node)
    } else {
        match node.status {
            DiskStatus::Present { body: DiskBody::Directory(Ok(children)), .. } => {
                if 0 <= place[0] < children@.len() {
                    match children@[place[0]] {
                        DiskChild::Entry { node: child, .. } => node_at(child, place.drop_first()),
                        DiskChild::Failed(_) => None,
                    }
                } else {
                    None
                }
            },
            _ => None,
        }
    }
}

/// The entry was read, and if it is a directory, its listing too, with every item of it.
pub open spec fn is_readable(node: DiskNode) -> bool {
    match node.status {
        DiskStatus::Unreadable(_) => false,
        DiskStatus::Present { body, .. } => match body {
            DiskBody::Directory(Err(_)) => false,
            DiskBody::Directory(Ok(children)) => forall|i: int|
                0 <= i < children@.len() ==> #[trigger] children@[i] is Entry,
            _ => true,
        },
    }
}

/// The entry was modified one second after the epoch and, unless it is a symbolic link, nobody may
/// write it.
pub open spec fn has_sealed_metadata(node: DiskNode) -> bool {
    node.status matches DiskStatus::Present { mode, modified, body } && modified.secs == 1
        && modified.nanos == 0 && (body is Symlink || mode & 0o222 == 0)
}

/// Every entry of the tree was read.
pub open spec fn tree_is_readable(node: DiskNode) -> bool {
    forall|place: Seq<int>|
        (#[trigger] node_at(node, place)) matches Some(entry) ==> is_readable(entry)
}

/// Every entry of the tree was read and has sealed metadata.
pub open spec fn tree_has_sealed_metadata(node: DiskNode) -> bool {
    forall|place: Seq<int>|
        (#[trigger] node_at(node, place)) matches Some(entry) ==> is_readable(entry)
            && has_sealed_metadata(entry)
}

proof fn lemma_list_passes(list: Seq<DiskChild>)
    ensures
        normalized_list(list) == Ok::<bool, ErrorV>(true) <==> forall|i: int|
            0 <= i < list.len() ==> (#[trigger] list[i] matches DiskChild::Entry { node, .. }
                && normalized(node) == Ok::<bool, ErrorV>(true)),
    decreases list.len(),
{
    if list.len() > 0 {
        let rest = list.drop_first();
        lemma_list_passes(rest);
        let good = |c: DiskChild|
            c matches DiskChild::Entry { node, .. } && normalized(node) == Ok::<bool, ErrorV>(true);
        if good(list[0]) && normalized_list(rest) == Ok::<bool, ErrorV>(true) {
            assert forall|i: int| 0 <= i < list.len() implies (
            #[trigger] list[i] matches DiskChild::Entry { node, .. } && normalized(node) == Ok::<
                bool,
                ErrorV,
            >(true)) by {
                if i > 0 {
                    assert(list[i] == rest[i - 1]);
                }
            }
        }
        if normalized_list(list) == Ok::<bool, ErrorV>(true) {
            assert(good(list[0]) && normalized_list(rest) == Ok::<bool, ErrorV>(true));
        }
        if forall|i: int|
            0 <= i < list.len() ==> (#[trigger] list[i] matches DiskChild::Entry { node, .. }
                && normalized(node) == Ok::<bool, ErrorV>(true)) {
            assert(good(list[0]));
            assert forall|i: int| 0 <= i < rest.len() implies (
            #[trigger] rest[i] matches DiskChild::Entry { node, .. } && normalized(node) == Ok::<
                bool,
                ErrorV,
            >(true)) by {
                assert(rest[i] == list[i + 1]);
            }
        }
    }
}

proof fn lemma_below(node: DiskNode, i: int, place: Seq<int>)
    requires
        node.status matches DiskStatus::Present { body: DiskBody::Directory(Ok(children)), .. }
            && 0 <= i < children@.len() && children@[i] is Entry,
    ensures
        ({
            let children = node.status->body->Directory_0->Ok_0;
            node_at(node, seq![i] + place) == node_at(children@[i]->node, place)
        }),
{
    assert((seq![i] + place).drop_first() =~= place);
    assert((seq![i] + place)[0] == i);
}

/// The check passes a tree exactly if every entry of it, at every position of every listing and at
/// every depth, was read, was modified one second after the epoch, and, unless it is a symbolic
/// link, has no write bit.
pub proof fn the_check_passes_what_is_sealed_throughout(node: DiskNode)
    ensures
        normalized(node) == Ok::<bool, ErrorV>(true) <==> tree_has_sealed_metadata(node),
    decreases node,
{
    if normalized(node) == Ok::<bool, ErrorV>(true) {
        assert forall|place: Seq<int>|
            (#[trigger] node_at(node, place)) matches Some(entry) implies is_readable(
            node_at(node, place)->0,
        ) && has_sealed_metadata(node_at(node, place)->0) by {
            lemma_passed_entry(node, place);
        }
    }
    if tree_has_sealed_metadata(node) {
        assert(node_at(node, seq![]) == Some(node));
        if let DiskStatus::Present { body: DiskBody::Directory(Ok(children)), .. } = node.status {
            assert forall|i: int| 0 <= i < children@.len() implies (
            #[trigger] children@[i] matches DiskChild::Entry { node: child, .. } && normalized(
                child,
            ) == Ok::<bool, ErrorV>(true)) by {
                assert(children@[i] is Entry);
                if let DiskChild::Entry { node: child, .. } = children@[i] {
                    assert forall|place: Seq<int>|
                        (#[trigger] node_at(child, place)) matches Some(entry) implies is_readable(
                        node_at(child, place)->0,
                    ) && has_sealed_metadata(node_at(child, place)->0) by {
                        lemma_below(node, i, place);
                        assert(node_at(node, seq![i] + place) == node_at(child, place));
                    }
                    the_check_passes_what_is_sealed_throughout(child);
                }
            }
            lemma_list_passes(children@);
        }
    }
}

proof fn lemma_passed_entry(node: DiskNode, place: Seq<int>)
    requires
        normalized(node) == Ok::<bool, ErrorV>(true),
        node_at(node, place) is Some,
    ensures
        is_readable(node_at(node, place)->0),
        has_sealed_metadata(node_at(node, place)->0),
    decreases place.len(),
{
    if let DiskStatus::Present { body: DiskBody::Directory(Ok(children)), .. } = node.status {
        lemma_list_passes(children@);
    }
    if place.len() > 0 {
        if let DiskStatus::Present { body: DiskBody::Directory(Ok(children)), .. } = node.status {
            assert(children@[place[0]] is Entry);
            lemma_passed_entry(children@[place[0]]->node, place.drop_first());
        }
    }
}

proof fn lemma_readable_is_decided(node: DiskNode)
    requires
        tree_is_readable(node),
    ensures
        normalized(node) is Ok,
    decreases node,
{
    assert(node_at(node, seq![]) == Some(node));
    assert(is_readable(node));
    if let DiskStatus::Present { body: DiskBody::Directory(Ok(children)), .. } = node.status {
        assert forall|i: int| 0 <= i < children@.len() implies (
        #[trigger] children@[i] matches DiskChild::Entry { node: child, .. } && normalized(child)
            is Ok) by {
            assert(children@[i] is Entry);
            if let DiskChild::Entry { node: child, .. } = children@[i] {
                assert forall|place: Seq<int>|
                    (#[trigger] node_at(child, place)) matches Some(entry) implies is_readable(
                    node_at(child, place)->0,
                ) by {
                    lemma_below(node, i, place);
                    assert(node_at(node, seq![i] + place) == node_at(child, place));
                }
                lemma_readable_is_decided(child);
            }
        }
        lemma_list_is_decided(children@);
    }
}

proof fn lemma_list_is_decided(list: Seq<DiskChild>)
    requires
        forall|i: int|
            0 <= i < list.len() ==> (#[trigger] list[i] matches DiskChild::Entry { node, .. }
                && normalized(node) is Ok),
    ensures
        normalized_list(list) is Ok,
    decreases list.len(),
{
    if list.len() > 0 {
        assert(list[0] is Entry);
        let rest = list.drop_first();
        assert forall|i: int| 0 <= i < rest.len() implies (
        #[trigger] rest[i] matches DiskChild::Entry { node, .. } && normalized(node) is Ok) by {
            assert(rest[i] == list[i + 1]);
        }
        lemma_list_is_decided(rest);
    }
}

/// Of a tree that could be read the check always says whether it is sealed: no if one entry,
/// wherever it is, has another modification time or may be written.
pub proof fn the_check_decides_every_readable_tree(node: DiskNode)
    requires
        tree_is_readable(node),
    ensures
        normalized(node) == Ok::<bool, ErrorV>(tree_has_sealed_metadata(node)),
{
    lemma_readable_is_decided(node);
    the_check_passes_what_is_sealed_throughout(node);
    let passes = normalized(node)->Ok_0;
    assert(normalized(node) == Ok::<bool, ErrorV>(passes));
    assert(passes == tree_has_sealed_metadata(node)) by {
        if passes {
            assert(normalized(node) == Ok::<bool, ErrorV>(true));
        }
    }
}

/// The check says no only where an entry that was read has other metadata, and fails only where
/// something could not be read: an entry, a listing, or an item of a listing.
pub proof fn the_check_says_no_for_a_reason(node: DiskNode) -> (place: Seq<int>)
    requires
        normalized(node) != Ok::<bool, ErrorV>(true),
    ensures
        node_at(node, place) matches Some(entry) && match normalized(node) {
            Ok(_) => entry.status is Present && !has_sealed_metadata(entry),
            Err(error) => match entry.status {
                DiskStatus::Unreadable(e) => error == (StoreImportActionError::Reading {
                    context: "inspecting sealed store entry `"@ + entry.path@ + seq!['`'],
                    error: e@,
                }),
                DiskStatus::Present { body: DiskBody::Directory(Err(e)), .. } => error == (
                StoreImportActionError::Reading {
                    context: "reading sealed store directory `"@ + entry.path@ + seq!['`'],
                    error: e@,
                }),
                DiskStatus::Present { body: DiskBody::Directory(Ok(children)), .. } => exists|
                    i: int,
                |
                    0 <= i < children@.len() && (#[trigger] children@[i] matches DiskChild::Failed(
                        e,
                    ) && error == StoreImportActionError::Failed(e@)),
                _ => false,
            },
        },
    decreases node,
{
    reveal_strlit("`");
    assert("`"@ =~= seq!['`']);
    let top = Seq::<int>::empty();
    assert(node_at(node, top) == Some(node));
    match node.status {
        DiskStatus::Present { body: DiskBody::Directory(Ok(children)), .. } => {
            if has_sealed_metadata(node) {
                let i = lemma_first_stop(children@);
                match children@[i] {
                    DiskChild::Entry { node: child, .. } => {
                        let place = the_check_says_no_for_a_reason(child);
                        lemma_below(node, i, place);
                        seq![i] + place
                    },
                    DiskChild::Failed(e) => {
                        assert(children@[i] is Failed);
                        top
                    },
                }
            } else {
                top
            }
        },
        _ => top,
    }
}

/// The first item of a listing that stops the check, and decides it.
proof fn lemma_first_stop(list: Seq<DiskChild>) -> (i: int)
    requires
        normalized_list(list) != Ok::<bool, ErrorV>(true),
    ensures
        0 <= i < list.len(),
        forall|j: int|
            0 <= j < i ==> (#[trigger] list[j] matches DiskChild::Entry { node, .. } && normalized(
                node,
            ) == Ok::<bool, ErrorV>(true)),
        match list[i] {
            DiskChild::Entry { node, .. } => normalized(node) != Ok::<bool, ErrorV>(true)
                && normalized_list(list) == normalized(node),
            DiskChild::Failed(e) => normalized_list(list) == Err::<bool, ErrorV>(
                StoreImportActionError::Failed(e@),
            ),
        },
    decreases list.len(),
{
    match list[0] {
        DiskChild::Entry { node, .. } => {
            if normalized(node) == Ok::<bool, ErrorV>(true) {
                let rest = list.drop_first();
                let i = lemma_first_stop(rest);
                assert forall|j: int| 0 <= j < i + 1 implies (
                #[trigger] list[j] matches DiskChild::Entry { node, .. } && normalized(node)
                    == Ok::<bool, ErrorV>(true)) by {
                    if j > 0 {
                        assert(list[j] == rest[j - 1]);
                    }
                }
                assert(list[i + 1] == rest[i]);
                i + 1
            } else {
                0
            }
        },
        _ => 0,
    }
}

/// The metadata of an entry come first, and the items of a listing in their order: what is first
/// not sealed, or first not read, decides.
pub proof fn the_first_finding_decides(node: DiskNode, i: int)
    requires
        node.status matches DiskStatus::Present { body: DiskBody::Directory(Ok(children)), .. }
            && 0 <= i < children@.len() && forall|j: int|
            0 <= j < i ==> (#[trigger] children@[j] matches DiskChild::Entry { node: child, .. }
                && tree_has_sealed_metadata(child)),
    ensures
        ({
            let children = node.status->body->Directory_0->Ok_0;
            if !has_sealed_metadata(node) {
                normalized(node) == Ok::<bool, ErrorV>(false)
            } else {
                match children@[i] {
                    DiskChild::Failed(e) => normalized(node) == Err::<bool, ErrorV>(
                        StoreImportActionError::Failed(e@),
                    ),
                    DiskChild::Entry { node: child, .. } => !tree_has_sealed_metadata(child)
                        ==> normalized(node) == normalized(child),
                }
            }
        }),
{
    let children = node.status->body->Directory_0->Ok_0;
    if has_sealed_metadata(node) {
        lemma_list_passes(children@);
        assert forall|j: int| 0 <= j < i implies (
        #[trigger] children@[j] matches DiskChild::Entry { node: child, .. } && normalized(child)
            == Ok::<bool, ErrorV>(true)) by {
            if let DiskChild::Entry { node: child, .. } = children@[j] {
                the_check_passes_what_is_sealed_throughout(child);
            }
        }
        if let DiskChild::Entry { node: child, .. } = children@[i] {
            the_check_passes_what_is_sealed_throughout(child);
        }
        if normalized_list(children@) != Ok::<bool, ErrorV>(true) {
            let k = lemma_first_stop(children@);
            if k < i {
                assert(children@[k] is Entry);
            } else if i < k {
                assert(children@[i] is Entry);
            }
        } else {
            assert(children@[i] is Entry);
        }
    }
}

/// An entry that could not be read fails the check; one with another time or a write bit, unless
/// it is a symbolic link, does not pass it, whatever is below it.
pub proof fn an_entry_is_judged_by_its_own_metadata_first(node: DiskNode)
    ensures
        node.status is Unreadable ==> normalized(node) is Err,
        node.status is Present && !has_sealed_metadata(node) ==> normalized(node) == Ok::<
            bool,
            ErrorV,
        >(false),
{
}

} // verus!
