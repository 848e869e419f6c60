//! The store methods that rules call while they are analysed.

use vstd::prelude::*;
use vstd::string::*;

use crate::action::RemoteExecutorUseCase;
use crate::cas_store_import::UnregisteredCasStoreImportAction;
use crate::digest::FileDigest;
use crate::error::ErrorTag;
use crate::manifest::{ExpectedStoreManifest, ExpectedV};
use crate::registry::{
    claim_is_new, declaration, declaration_error_tag, declaration_error_text, staged_place,
    store_artifact, AnalysisRegistry, BuckOutPathKind, DeclarationError, DeclaredArtifact,
    OutputType,
};
use crate::store_import::{hint_view, UnregisteredStoreImportAction};
use crate::store_path::{identity_path, IdentityError, StarlarkStorePath};
use crate::text::{concat3, texts};

verus! {

/// Why a store method failed.
#[derive(Debug)]
pub enum StoreMethodError<S> {
    InvalidRootDigest { digest: S, error: S },
    Declaration(DeclarationError<S>),
    /// The manifest names no artifact.
    Manifest(S),
}

impl View for StoreMethodError<String> {
    type V = StoreMethodError<Seq<char>>;

    open spec fn view(&self) -> StoreMethodError<Seq<char>> {
        match *self {
            StoreMethodError::InvalidRootDigest { digest, error } =>
                StoreMethodError::InvalidRootDigest { digest: digest@, error: error@ },
            StoreMethodError::Declaration(e) => StoreMethodError::Declaration(e@),
            StoreMethodError::Manifest(e) => StoreMethodError::Manifest(e@),
        }
    }
}

/// The message that belongs to an error.
pub open spec fn method_error_text(e: StoreMethodError<Seq<char>>) -> Seq<char> {
    match e {
        StoreMethodError::InvalidRootDigest { digest, error } =>
            "Not a valid RE store root digest: `"@ + digest + "`"@ + ": "@ + error,
        StoreMethodError::Declaration(e) => declaration_error_text(e),
        StoreMethodError::Manifest(e) => e,
    }
}

impl StoreMethodError<String> {
    /// The message for people.
    pub fn message(&self) -> (res: String)
        ensures
            res@ == method_error_text(self@),
    {
        match self {
            StoreMethodError::InvalidRootDigest { digest, error } => {
                let head = concat3("Not a valid RE store root digest: `", digest, "`");
                concat3(&head, ": ", error)
            },
            StoreMethodError::Declaration(e) => e.message(),
            StoreMethodError::Manifest(e) => e.clone(),
        }
    }
}

/// The tag of an error. What is wrong with a digest or a manifest is tagged where it is found, and
/// that tag is not kept here.
pub open spec fn method_error_tag(e: StoreMethodError<Seq<char>>) -> Option<ErrorTag> {
    match e {
        StoreMethodError::Declaration(e) => declaration_error_tag(e),
        _ => None,
    }
}

impl StoreMethodError<String> {
    /// Whom the error is for, where the declaration itself found it.
    pub fn tag(&self) -> (res: Option<ErrorTag>)
        ensures
            res == method_error_tag(self@),
    {
        match self {
            StoreMethodError::Declaration(e) => e.tag(),
            _ => None,
        }
    }
}

/// What an output may be, where a rule says whether it is a directory.
pub open spec fn output_type_of(dir: bool) -> OutputType {
    if dir {
        OutputType::Directory
    } else {
        OutputType::FileOrDirectory
    }
}

fn output_type(dir: bool) -> (res: OutputType)
    ensures
        res == output_type_of(dir),
{
    if dir {
        OutputType::Directory
    } else {
        OutputType::FileOrDirectory
    }
}

/// What an import declares of its object.
#[derive(Debug)]
pub struct ImportDeclaration<'a> {
    pub package_name: &'a str,
    pub version: &'a str,
    pub output: &'a str,
    pub target_system: &'a str,
    pub references: Vec<&'a str>,
    pub runtime_store_outputs: Vec<&'a str>,
    pub canonical_tree_hash: &'a str,
}

/// The texts of a list.
pub open spec fn strs(list: Seq<&str>) -> Seq<Seq<char>> {
    list.map_values(|s: &str| s@)
}

impl<'a> View for ImportDeclaration<'a> {
    type V = ExpectedV;

    open spec fn view(&self) -> ExpectedV {
        ExpectedV {
            package_name: self.package_name@,
            version: self.version@,
            output: self.output@,
            target_system: self.target_system@,
            references: strs(self.references@),
            runtime_store_outputs: strs(self.runtime_store_outputs@),
            canonical_tree_hash: self.canonical_tree_hash@,
        }
    }
}

fn owned(list: &Vec<&str>) -> (res: Vec<String>)
    ensures
        texts(res@) == strs(list@),
{
    let mut res: Vec<String> = Vec::new();
    let mut i: usize = 0;
    while i < list.len()
        invariant
            i <= list@.len(),
            res@.len() == i,
            forall|j: int| 0 <= j < i ==> (#[trigger] res@[j])@ == list@[j]@,
        decreases list.len() - i,
    {
        res.push(list[i].to_owned());
        i += 1;
    }
    assert(texts(res@) =~= strs(list@));
    res
}

impl<'a> ImportDeclaration<'a> {
    /// What the manifest of the object must hold.
    pub fn expected_manifest(&self) -> (res: ExpectedStoreManifest)
        ensures
            res@ == self@,
    {
        ExpectedStoreManifest {
            package_name: self.package_name.to_owned(),
            version: self.version.to_owned(),
            output: self.output.to_owned(),
            target_system: self.target_system.to_owned(),
            references: owned(&self.references),
            runtime_store_outputs: owned(&self.runtime_store_outputs),
            canonical_tree_hash: self.canonical_tree_hash.to_owned(),
        }
    }
}

/// The store path of the object with this key and this name.
pub fn store_path(store_path_key: &str, store_name: &str) -> (res: Result<
    StarlarkStorePath,
    IdentityError<String>,
>)
    ensures
        match identity_path(store_path_key@, store_name@) {
            Ok(path) => res is Ok && res->Ok_0@ == path,
            Err(e) => res is Err && res->Err_0@ == e,
        },
{
    StarlarkStorePath::from_identity(store_path_key, store_name)
}

/// Declares an output that is built for a store path. `claim` is the outcome of the claim of the
/// staged path.
pub fn declare_store_output(
    state: &mut AnalysisRegistry,
    claim: &Result<(), String>,
    store_path: &StarlarkStorePath,
    dir: bool,
) -> (res: Result<DeclaredArtifact, DeclarationError<String>>)
    requires
        claim_is_new(old(state).actions, *claim, store_path@, BuckOutPathKind::Configuration),
    ensures
        declaration(
            old(state).actions,
            final(state).actions,
            *claim,
            store_path@,
            output_type_of(dir),
            BuckOutPathKind::Configuration,
            res,
        ),
{
    state.declare_store_output(claim, store_path.path(), output_type(dir))
}

/// What declaring an imported output and its action does: the output is declared first, and stays
/// declared where the manifest names no artifact.
pub open spec fn imported<A, M>(
    before: AnalysisRegistry,
    after: AnalysisRegistry,
    claim: Result<(), String>,
    store_path: Seq<char>,
    dir: bool,
    manifest: Result<M, String>,
    res: Result<(DeclaredArtifact, A), StoreMethodError<String>>,
) -> bool {
    &&& after.actions.owner() == before.actions.owner()
    &&& match (staged_place(store_path), claim) {
        (Err(e), _) => {
            &&& res is Err
            &&& res->Err_0@ == StoreMethodError::Declaration(e)
            &&& after.actions.artifacts() == before.actions.artifacts()
        },
        (Ok(_), Err(e)) => {
            &&& res is Err
            &&& res->Err_0@ == StoreMethodError::Declaration(DeclarationError::Failed(e@))
            &&& after.actions.artifacts() == before.actions.artifacts()
        },
        (Ok(staged), Ok(())) => {
            let artifact = store_artifact(
                before.actions.owner(),
                staged,
                BuckOutPathKind::ContentHash,
                store_path,
                output_type_of(dir),
            );
            &&& after.actions.artifacts() == before.actions.artifacts().push(artifact)
            &&& match manifest {
                Err(e) => res is Err && res->Err_0@ == StoreMethodError::Manifest(e@),
                Ok(_) => res is Ok && res->Ok_0.0@ == artifact,
            }
        },
    }
}

/// Declares an output that is imported from its store path, and the action that imports it.
/// `manifest` is the artifact that the manifest stands for, or why there is none.
pub fn import_store_output<M>(
    state: &mut AnalysisRegistry,
    claim: &Result<(), String>,
    store_path: &StarlarkStorePath,
    dir: bool,
    missing_hint: Option<&str>,
    manifest: Result<M, String>,
    expected: &ImportDeclaration,
) -> (res: Result<(DeclaredArtifact, UnregisteredStoreImportAction<M>), StoreMethodError<String>>)
    requires
        claim_is_new(old(state).actions, *claim, store_path@, BuckOutPathKind::ContentHash),
    ensures
        imported(*old(state), *final(state), *claim, store_path@, dir, manifest, res),
        res is Ok ==> {
            let action = res->Ok_0.1;
            &&& manifest == Ok::<M, String>(action.manifest)
            &&& action.expected_manifest@ == expected@
            &&& hint_view(action.missing_hint) == match missing_hint {
                Some(hint) => Some(hint@),
                None => None,
            }
        },
{
    let artifact = match state.declare_imported_store_output(
        claim,
        store_path.path(),
        output_type(dir),
    ) {
        Ok(artifact) => artifact,
        Err(e) => {
            return Err(StoreMethodError::Declaration(e));
        },
    };
    match manifest {
        Err(e) => Err(StoreMethodError::Manifest(e)),
        Ok(manifest) => {
            let missing_hint = match missing_hint {
                Some(hint) => Some(hint.to_owned()),
                None => None,
            };
            let action = UnregisteredStoreImportAction {
                missing_hint,
                manifest,
                expected_manifest: expected.expected_manifest(),
            };
            Ok((artifact, action))
        },
    }
}

/// Declares an output that is imported from a content-addressed store, and the action that
/// imports it. `root_digest` is what the text `cas_root_digest` stands for, or why it is no
/// digest; a text that is none is refused before anything is declared.
pub fn import_cas_store_output<M>(
    state: &mut AnalysisRegistry,
    claim: &Result<(), String>,
    store_path: &StarlarkStorePath,
    dir: bool,
    manifest: Result<M, String>,
    cas_root_digest: &str,
    root_digest: Result<FileDigest, String>,
    re_use_case: &str,
    expected: &ImportDeclaration,
) -> (res: Result<
    (DeclaredArtifact, UnregisteredCasStoreImportAction<M>),
    StoreMethodError<String>,
>)
    requires
        root_digest is Ok ==> claim_is_new(
            old(state).actions,
            *claim,
            store_path@,
            BuckOutPathKind::ContentHash,
        ),
    ensures
        match root_digest {
            Err(e) => {
                &&& res is Err
                &&& res->Err_0@ == (StoreMethodError::InvalidRootDigest {
                    digest: cas_root_digest@,
                    error: e@,
                })
                &&& *final(state) == *old(state)
            },
            Ok(digest) => {
                &&& imported(*old(state), *final(state), *claim, store_path@, dir, manifest, res)
                &&& res is Ok ==> {
                    let action = res->Ok_0.1;
                    &&& manifest == Ok::<M, String>(action.manifest)
                    &&& action.expected_manifest@ == expected@
                    &&& action.root_digest == digest
                    &&& action.re_use_case@ == re_use_case@
                }
            },
        },
{
    let digest = match root_digest {
        Ok(digest) => digest,
        Err(error) => {
            return Err(
                StoreMethodError::InvalidRootDigest { digest: cas_root_digest.to_owned(), error },
            );
        },
    };
    let artifact = match state.declare_imported_store_output(
        claim,
        store_path.path(),
        output_type(dir),
    ) {
        Ok(artifact) => artifact,
        Err(e) => {
            return Err(StoreMethodError::Declaration(e));
        },
    };
    match manifest {
        Err(e) => Err(StoreMethodError::Manifest(e)),
        Ok(manifest) => {
            let action = UnregisteredCasStoreImportAction {
                manifest,
                expected_manifest: expected.expected_manifest(),
                root_digest: digest,
                re_use_case: RemoteExecutorUseCase::new(re_use_case),
            };
            Ok((artifact, action))
        },
    }
}

} // verus!
