//! Whether a store object on disk carries the metadata of a sealed object.

use vstd::prelude::*;

use crate::archive::ErrorV;
use crate::disk::{
    is_writable, mode_is_writable, sealed_modified, sealed_time, DiskBody, DiskChild, DiskNode,
    DiskStatus,
};
use crate::error::StoreImportActionError;
use crate::text::concat3;

verus! {

/// Every entry has the sealed modification time and, but for symbolic links, no write bit.
/// Entries are looked at in the order of the listings; the first that fails the test, or that
/// cannot be read, decides.
pub open spec fn normalized(node: DiskNode) -> Result<bool, ErrorV>
    decreases node,
{
    match node.status {
        DiskStatus::Unreadable(e) => Err(
            StoreImportActionError::Reading {
                context: "inspecting sealed store entry `"@ + node.path@ + "`"@,
                error: e@,
            },
        ),
        DiskStatus::Present { mode, modified, body } => if modified != sealed_time() {
            Ok(false)
        } else if body is Symlink {
            Ok(true)
        } else if mode_is_writable(mode) {
            Ok(false)
        } else {
            match body {
                DiskBody::Directory(Err(e)) => Err(
                    StoreImportActionError::Reading {
                        context: "reading sealed store directory `"@ + node.path@ + "`"@,
                        error: e@,
                    },
                ),
                DiskBody::Directory(Ok(children)) => normalized_list(children@),
                _ => Ok(true),
            }
        },
    }
}

/// [`normalized`] for the entries of a listing, in order.
pub open spec fn normalized_list(list: Seq<DiskChild>) -> Result<bool, ErrorV>
    decreases list,
{
    if list.len() == 0 {
        Ok(true)
    } else {
        match list[0] {
            DiskChild::Failed(e) => Err(StoreImportActionError::Failed(e@)),
            DiskChild::Entry { node, .. } => match normalized(node) {
                Ok(true) => normalized_list(list.drop_first()),
                other => other,
            },
        }
    }
}

/// The outcome agrees with its model.
pub open spec fn verdict_is(
    res: Result<bool, StoreImportActionError<String>>,
    model: Result<bool, ErrorV>,
) -> bool {
    match model {
        Ok(b) => res is Ok && res->Ok_0 == b,
        Err(e) => res is Err && res->Err_0@ == e,
    }
}

/// Whether the object at a store path is sealed. `root` is what was found there; where nothing
/// was found, nothing is sealed.
pub fn has_normalized_sealed_store_metadata(root: &Result<Option<DiskNode>, String>) -> (res:
    Result<bool, StoreImportActionError<String>>)
    ensures
        verdict_is(
            res,
            match *root {
                Err(e) => Err(StoreImportActionError::Failed(e@)),
                Ok(None) => Ok(false),
                Ok(Some(node)) => normalized(node),
            },
        ),
{
    match root {
        Err(e) => Err(StoreImportActionError::Failed(e.clone())),
        Ok(None) => Ok(false),
        Ok(Some(node)) => has_normalized_sealed_store_metadata_inner(node),
    }
}

/// Whether a part of a store object is sealed.
pub fn has_normalized_sealed_store_metadata_inner(node: &DiskNode) -> (res: Result<
    bool,
    StoreImportActionError<String>,
>)
    ensures
        verdict_is(res, normalized(*node)),
    decreases node,
{
    match &node.status {
        DiskStatus::Unreadable(e) => Err(
            StoreImportActionError::Reading {
                context: concat3("inspecting sealed store entry `", &node.path, "`"),
                error: e.clone(),
            },
        ),
        DiskStatus::Present { mode, modified, body } => {
            if *modified != sealed_modified() {
                return Ok(false);
            }
            if let DiskBody::Symlink(_) = body {
                return Ok(true);
            }
            if is_writable(*mode) {
                return Ok(false);
            }
            match body {
                DiskBody::Directory(Err(e)) => Err(
                    StoreImportActionError::Reading {
                        context: concat3("reading sealed store directory `", &node.path, "`"),
                        error: e.clone(),
                    },
                ),
                DiskBody::Directory(Ok(children)) => {
                    let mut i: usize = 0;
                    assert(children@.skip(0) =~= children@);
                    while i < children.len()
                        invariant
                            i <= children@.len(),
                            node.status is Present,
                            node.status->body == DiskBody::Directory(Ok(*children)),
                            normalized(*node) == normalized_list(children@),
                            normalized_list(children@) == normalized_list(
                                children@.skip(i as int),
                            ),
                        decreases children.len() - i,
                    {
                        match &children[i] {
                            DiskChild::Failed(e) => {
                                return Err(StoreImportActionError::Failed(e.clone()));
                            },
                            DiskChild::Entry { node: child, .. } => {
                                if !has_normalized_sealed_store_metadata_inner(child)? {
                                    return Ok(false);
                                }
                            },
                        }
                        assert(children@.skip(i as int).drop_first() =~= children@.skip(i + 1));
                        i += 1;
                    }
                    Ok(true)
                },
                _ => Ok(true),
            }
        },
    }
}

} // verus!
