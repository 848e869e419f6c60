//! The import of an object that was published in a content-addressed store.

use vstd::prelude::*;
use vstd::string::*;

use crate::action::{
    outputs_view, present_declaration, remote_declaration, ActionExecutionKind, ActionKind,
    BuildArtifact, BuildArtifactV, ImportPlan, ObjectSource, PlanV, RemoteExecutorUseCase,
    StoreDeclaration, StoreDeclarationV,
};
use crate::archive::{build_verified_store_entry, verified_entry, ErrorV};
use crate::digest::{digest_text, DigestV, FileDigest};
use crate::disk::DiskNode;
use crate::entry::{
    children_model, find_bad_member, first_bad_member, EntryV, NamedEntry, StoreEntry,
};
use crate::registry::ArtifactPathV;
use crate::error::{import_error_tag, import_error_text, ErrorTag, StoreImportActionError};
use crate::manifest::{
    cas_manifest_verdict, manifest_document, manifest_verdict, verify_cas_store_manifest,
    ExpectedStoreManifest, ExpectedV,
};
use crate::sealed::{has_normalized_sealed_store_metadata, normalized};
use crate::store_import::{
    declare_present, import_output, import_plan, plan_import, single_output, wrong_reply,
    wrong_reply_error,
};
use crate::text::{concat2, concat3, decimal, decimal_text};

verus! {

/// Why an object could not be imported from a content-addressed store.
#[derive(Debug)]
pub enum CasStoreImportActionError<S> {
    WrongNumberOfOutputs(usize),
    MissingLogicalStorePath(S),
    ManifestInputNotSingleton,
    Import(StoreImportActionError<S>),
}

/// An error over mathematical text.
pub type CasErrorV = CasStoreImportActionError<Seq<char>>;

impl View for CasStoreImportActionError<String> {
    type V = CasErrorV;

    open spec fn view(&self) -> CasErrorV {
        match *self {
            CasStoreImportActionError::WrongNumberOfOutputs(n) =>
                CasStoreImportActionError::WrongNumberOfOutputs(n),
            CasStoreImportActionError::MissingLogicalStorePath(s) =>
                CasStoreImportActionError::MissingLogicalStorePath(s@),
            CasStoreImportActionError::ManifestInputNotSingleton =>
                CasStoreImportActionError::ManifestInputNotSingleton,
            CasStoreImportActionError::Import(e) => CasStoreImportActionError::Import(e@),
        }
    }
}

/// The message that belongs to an error.
pub open spec fn cas_error_text(e: CasErrorV) -> Seq<char> {
    match e {
        CasStoreImportActionError::WrongNumberOfOutputs(n) =>
            "CAS store import action should have exactly 1 output, got "@ + decimal_text(n as nat),
        CasStoreImportActionError::MissingLogicalStorePath(s) =>
            "CAS store import output does not carry a logical store path: `"@ + s + "`"@,
        CasStoreImportActionError::ManifestInputNotSingleton =>
            "CAS store import manifest input must resolve to exactly one artifact"@,
        CasStoreImportActionError::Import(e) => import_error_text(e),
    }
}

impl CasStoreImportActionError<String> {
    /// The message for people.
    pub fn message(&self) -> (res: String)
        ensures
            res@ == cas_error_text(self@),
    {
        match self {
            CasStoreImportActionError::WrongNumberOfOutputs(n) => {
                concat2(
                    "CAS store import action should have exactly 1 output, got ",
                    &decimal(*n as u64),
                )
            },
            CasStoreImportActionError::MissingLogicalStorePath(s) => {
                concat3("CAS store import output does not carry a logical store path: `", s, "`")
            },
            CasStoreImportActionError::ManifestInputNotSingleton => {
                "CAS store import manifest input must resolve to exactly one artifact".to_owned()
            },
            CasStoreImportActionError::Import(e) => e.message(),
        }
    }
}

/// The tag of an error.
pub open spec fn cas_error_tag(e: CasErrorV) -> Option<ErrorTag> {
    match e {
        CasStoreImportActionError::Import(e) => import_error_tag(e),
        _ => Some(ErrorTag::Input),
    }
}

impl CasStoreImportActionError<String> {
    /// Whom the error is for, where the import itself found it.
    pub fn tag(&self) -> (res: Option<ErrorTag>)
        ensures
            res == cas_error_tag(self@),
    {
        match self {
            CasStoreImportActionError::Import(e) => e.tag(),
            _ => Some(ErrorTag::Input),
        }
    }
}

/// The error of this import that stands for an error of the steps that all imports share.
pub open spec fn cas_error(e: ErrorV) -> CasErrorV {
    match e {
        StoreImportActionError::WrongNumberOfOutputs(n) =>
            CasStoreImportActionError::WrongNumberOfOutputs(n),
        StoreImportActionError::MissingLogicalStorePath(s) =>
            CasStoreImportActionError::MissingLogicalStorePath(s),
        StoreImportActionError::ManifestInputNotSingleton =>
            CasStoreImportActionError::ManifestInputNotSingleton,
        _ => CasStoreImportActionError::Import(e),
    }
}

fn to_cas_error(e: StoreImportActionError<String>) -> (res: CasStoreImportActionError<String>)
    ensures
        res@ == cas_error(e@),
{
    match e {
        StoreImportActionError::WrongNumberOfOutputs(n) =>
            CasStoreImportActionError::WrongNumberOfOutputs(n),
        StoreImportActionError::MissingLogicalStorePath(s) =>
            CasStoreImportActionError::MissingLogicalStorePath(s),
        StoreImportActionError::ManifestInputNotSingleton =>
            CasStoreImportActionError::ManifestInputNotSingleton,
        other => CasStoreImportActionError::Import(other),
    }
}

/// An import that has no output yet. `M` is what names the manifest.
#[derive(Debug)]
pub struct UnregisteredCasStoreImportAction<M> {
    pub manifest: M,
    pub expected_manifest: ExpectedStoreManifest,
    pub root_digest: FileDigest,
    pub re_use_case: RemoteExecutorUseCase,
}

/// The import of an object that was published in a content-addressed store.
#[derive(Debug)]
pub struct CasStoreImportAction<M> {
    pub output: BuildArtifact,
    pub inner: UnregisteredCasStoreImportAction<M>,
}

/// The one output of the import.
pub open spec fn cas_output(outputs: Seq<BuildArtifactV>) -> Result<BuildArtifactV, CasErrorV> {
    match import_output(outputs) {
        Ok(output) => Ok(output),
        Err(e) => Err(cas_error(e)),
    }
}

/// What an import that is about to run looks at.
pub open spec fn cas_plan(
    output: BuildArtifactV,
    manifests: Seq<Result<String, String>>,
) -> Result<PlanV, CasErrorV> {
    match import_plan(output, manifests) {
        Ok(plan) => Ok(plan),
        Err(e) => Err(cas_error(e)),
    }
}

/// What the check of the manifest gives: it must also name the digest of the published root.
pub open spec fn cas_manifest_check(
    plan: PlanV,
    contents: Result<String, String>,
    expected: ExpectedV,
    root_digest: DigestV,
) -> Result<(), CasErrorV> {
    match manifest_document(plan.manifest_path, contents) {
        Err(e) => Err(CasStoreImportActionError::Import(e)),
        Ok(document) => match manifest_verdict(document, plan.store_path, expected) {
            Err(e) => Err(CasStoreImportActionError::Import(e)),
            Ok(()) => match cas_manifest_verdict(document, digest_text(root_digest)) {
                Err(e) => Err(CasStoreImportActionError::Import(e)),
                Ok(()) => Ok(()),
            },
        },
    }
}

/// What the look at the store path gives: the object, if it is there, has the canonical hash and
/// is sealed; `None` if it has to be fetched. An object with another hash is an error, and not
/// replaced. `sealed` is what a second look found, after the hash was checked.
pub open spec fn existing_object(
    output: ArtifactPathV,
    plan: PlanV,
    expected_hash: Seq<char>,
    root: Result<Option<DiskNode>, String>,
    sealed: Result<Option<DiskNode>, String>,
) -> Result<Option<StoreDeclarationV>, CasErrorV> {
    match verified_entry(plan.store_path, expected_hash, root) {
        Err(e) => Err(CasStoreImportActionError::Import(e)),
        Ok(None) => Ok(None),
        Ok(Some(entry)) => sealed_object(output, plan, entry, sealed),
    }
}

/// What the second look gives for an object with the canonical hash.
pub open spec fn sealed_object(
    output: ArtifactPathV,
    plan: PlanV,
    entry: EntryV,
    sealed: Result<Option<DiskNode>, String>,
) -> Result<Option<StoreDeclarationV>, CasErrorV> {
    match sealed {
        Err(e) => Err(CasStoreImportActionError::Import(StoreImportActionError::Failed(e@))),
        Ok(None) => Ok(None),
        Ok(Some(node)) => match normalized(node) {
            Err(e) => Err(CasStoreImportActionError::Import(e)),
            Ok(true) => Ok(Some(present_declaration(output, entry, plan.store_path))),
            Ok(false) => Ok(None),
        },
    }
}

/// The error for a root directory that could not be fetched.
pub open spec fn download_error(root_digest: DigestV, error: Seq<char>) -> CasErrorV {
    CasStoreImportActionError::Import(
        StoreImportActionError::Reading {
            context: "Error downloading CAS store root directory: "@ + digest_text(root_digest),
            error,
        },
    )
}

/// The error for a tree that cannot be a directory.
pub open spec fn directory_error(error: Seq<char>) -> CasErrorV {
    CasStoreImportActionError::Import(
        StoreImportActionError::Reading { context: "Invalid CAS store directory"@, error },
    )
}

/// What a fetched tree gives.
pub open spec fn fetched_object(
    output: ArtifactPathV,
    plan: PlanV,
    directory: Result<Vec<NamedEntry>, String>,
    use_case: Seq<char>,
) -> Result<StoreDeclarationV, CasErrorV> {
    match directory {
        Err(e) => Err(directory_error(e@)),
        Ok(members) => match first_bad_member(children_model(members@)) {
            Some(name) => Err(
                directory_error(import_error_text(StoreImportActionError::InvalidFileName(name))),
            ),
            None => Ok(
                remote_declaration(
                    output,
                    EntryV::Dir(children_model(members@)),
                    plan.store_path,
                    use_case,
                ),
            ),
        },
    }
}

/// What an import comes to before a remote store is asked: a declaration, or the request for the
/// root directory.
#[derive(Debug)]
pub enum CasOutcome<'a> {
    Declared(StoreDeclaration),
    Fetch { use_case: &'a str, digest: &'a FileDigest },
}

/// How far an import has come. `D` is what the remote store calls a directory.
pub enum CasStageV<D> {
    ReadingManifest(PlanV),
    Looking(PlanV),
    LookingAgain(PlanV, EntryV),
    FetchingRoot(PlanV),
    FetchingTree(PlanV, D),
    Finished(Result<StoreDeclarationV, CasErrorV>),
}

/// An import under way. The caller answers each request.
#[derive(Debug)]
pub enum CasImportStage<D> {
    ReadingManifest(ImportPlan),
    Looking(ImportPlan),
    LookingAgain(ImportPlan, StoreEntry),
    FetchingRoot(ImportPlan),
    FetchingTree(ImportPlan, D),
    Finished(Result<StoreDeclaration, CasStoreImportActionError<String>>),
}

impl<D> View for CasImportStage<D> {
    type V = CasStageV<D>;

    open spec fn view(&self) -> CasStageV<D> {
        match *self {
            CasImportStage::ReadingManifest(plan) => CasStageV::ReadingManifest(plan@),
            CasImportStage::Looking(plan) => CasStageV::Looking(plan@),
            CasImportStage::LookingAgain(plan, entry) => CasStageV::LookingAgain(plan@, entry@),
            CasImportStage::FetchingRoot(plan) => CasStageV::FetchingRoot(plan@),
            CasImportStage::FetchingTree(plan, root) => CasStageV::FetchingTree(plan@, root),
            CasImportStage::Finished(Ok(declaration)) => CasStageV::Finished(Ok(declaration@)),
            CasImportStage::Finished(Err(e)) => CasStageV::Finished(Err(e@)),
        }
    }
}

/// What an import asks: the contents of the manifest, what is at the store path (the second time
/// only the metadata), or of the remote store the root directory and the tree below it.
#[derive(Debug)]
pub enum CasImportRequest<'a, D> {
    ReadManifest(&'a str),
    Look(&'a str),
    LookAgain(&'a str),
    FetchRoot { use_case: &'a str, digest: &'a FileDigest },
    FetchTree { use_case: &'a str, directory: &'a D },
}

/// The reply to a [`CasImportRequest`]. For a tree, the outer failure is one to fetch it, the
/// inner one says that it cannot be a directory.
#[derive(Debug)]
pub enum CasImportReply<D> {
    Manifest(Result<String, String>),
    Found(Result<Option<DiskNode>, String>),
    Directories(Result<Vec<D>, String>),
    Tree(Result<Result<Vec<NamedEntry>, String>, String>),
}

/// The stage in which an import begins.
pub open spec fn cas_begun<D>(
    output: BuildArtifactV,
    manifests: Seq<Result<String, String>>,
) -> CasStageV<D> {
    match cas_plan(output, manifests) {
        Ok(plan) => CasStageV::ReadingManifest(plan),
        Err(e) => CasStageV::Finished(Err(e)),
    }
}

/// The root directory out of the reply of the remote store.
pub open spec fn root_of<D>(response: Result<Vec<D>, String>, root_digest: DigestV) -> Result<
    D,
    CasErrorV,
> {
    match response {
        Err(e) => Err(download_error(root_digest, e@)),
        Ok(directories) => if directories@.len() == 0 {
            Err(download_error(root_digest, "RE response was empty"@))
        } else {
            Ok(directories@[0])
        },
    }
}

/// The stage that follows from a reply.
pub open spec fn cas_step<D>(
    output: BuildArtifactV,
    expected: ExpectedV,
    root_digest: DigestV,
    use_case: Seq<char>,
    stage: CasStageV<D>,
    reply: CasImportReply<D>,
) -> CasStageV<D> {
    match (stage, reply) {
        (CasStageV::ReadingManifest(plan), CasImportReply::Manifest(contents)) =>
        match cas_manifest_check(plan, contents, expected, root_digest) {
            Ok(()) => CasStageV::Looking(plan),
            Err(e) => CasStageV::Finished(Err(e)),
        },
        (CasStageV::Looking(plan), CasImportReply::Found(root)) => match verified_entry(
            plan.store_path,
            expected.canonical_tree_hash,
            root,
        ) {
            Ok(Some(entry)) => CasStageV::LookingAgain(plan, entry),
            Ok(None) => CasStageV::FetchingRoot(plan),
            Err(e) => CasStageV::Finished(Err(CasStoreImportActionError::Import(e))),
        },
        (CasStageV::LookingAgain(plan, entry), CasImportReply::Found(sealed)) =>
        match sealed_object(output.path, plan, entry, sealed) {
            Ok(Some(declaration)) => CasStageV::Finished(Ok(declaration)),
            Ok(None) => CasStageV::FetchingRoot(plan),
            Err(e) => CasStageV::Finished(Err(e)),
        },
        (CasStageV::FetchingRoot(plan), CasImportReply::Directories(response)) => match root_of(
            response,
            root_digest,
        ) {
            Ok(directory) => CasStageV::FetchingTree(plan, directory),
            Err(e) => CasStageV::Finished(Err(e)),
        },
        (CasStageV::FetchingTree(plan, _), CasImportReply::Tree(tree)) => match tree {
            Ok(directory) => match fetched_object(output.path, plan, directory, use_case) {
                Ok(declaration) => CasStageV::Finished(Ok(declaration)),
                Err(e) => CasStageV::Finished(Err(e)),
            },
            Err(e) => CasStageV::Finished(
                Err(CasStoreImportActionError::Import(StoreImportActionError::Failed(e@))),
            ),
        },
        (CasStageV::Finished(_), _) => stage,
        _ => CasStageV::Finished(Err(CasStoreImportActionError::Import(wrong_reply()))),
    }
}

/// What the import tells the materializer, or that the root directory is to be fetched first.
pub open spec fn cas_outcome(
    output: BuildArtifactV,
    manifests: Seq<Result<String, String>>,
    contents: Result<String, String>,
    root: Result<Option<DiskNode>, String>,
    sealed: Result<Option<DiskNode>, String>,
    expected: ExpectedV,
    root_digest: DigestV,
) -> Result<Option<StoreDeclarationV>, CasErrorV> {
    match cas_plan(output, manifests) {
        Err(e) => Err(e),
        Ok(plan) => match cas_manifest_check(plan, contents, expected, root_digest) {
            Err(e) => Err(e),
            Ok(()) => existing_object(
                output.path,
                plan,
                expected.canonical_tree_hash,
                root,
                sealed,
            ),
        },
    }
}

/// The outcome agrees with its model.
pub open spec fn cas_outcome_is(
    res: Result<Option<StoreDeclaration>, CasStoreImportActionError<String>>,
    model: Result<Option<StoreDeclarationV>, CasErrorV>,
) -> bool {
    match model {
        Ok(Some(declaration)) => res is Ok && res->Ok_0 is Some && res->Ok_0->0@ == declaration,
        Ok(None) => res is Ok && res->Ok_0 is None,
        Err(e) => res is Err && res->Err_0@ == e,
    }
}

impl<M> UnregisteredCasStoreImportAction<M> {
    /// The import for these outputs.
    pub fn register(self, outputs: Vec<BuildArtifact>) -> (res: Result<
        CasStoreImportAction<M>,
        CasStoreImportActionError<String>,
    >)
        ensures
            match cas_output(outputs_view(outputs@)) {
                Err(e) => res is Err && res->Err_0@ == e,
                Ok(output) => res is Ok && res->Ok_0.output@ == output && res->Ok_0.inner == self,
            },
    {
        CasStoreImportAction::new(outputs, self)
    }
}

impl<M> CasStoreImportAction<M> {
    /// The import for these outputs, of which there must be exactly one.
    pub fn new(outputs: Vec<BuildArtifact>, inner: UnregisteredCasStoreImportAction<M>) -> (res:
        Result<CasStoreImportAction<M>, CasStoreImportActionError<String>>)
        ensures
            match cas_output(outputs_view(outputs@)) {
                Err(e) => res is Err && res->Err_0@ == e,
                Ok(output) => res is Ok && res->Ok_0.output@ == output && res->Ok_0.inner == inner,
            },
    {
        match single_output(outputs) {
            Ok(output) => Ok(CasStoreImportAction { output, inner }),
            Err(e) => Err(to_cas_error(e)),
        }
    }

    /// The kind of the action.
    pub fn kind(&self) -> (res: ActionKind)
        ensures
            res == ActionKind::StoreImport,
    {
        ActionKind::StoreImport
    }

    /// The inputs: the manifest.
    pub fn inputs(&self) -> (res: Vec<&M>)
        ensures
            res@ == seq![&self.inner.manifest],
    {
        vec![&self.inner.manifest]
    }

    /// The outputs: the imported object.
    pub fn outputs(&self) -> (res: Vec<&BuildArtifact>)
        ensures
            res@ == seq![&self.output],
    {
        vec![&self.output]
    }

    /// The output.
    pub fn first_output(&self) -> (res: &BuildArtifact)
        ensures
            *res == self.output,
    {
        &self.output
    }

    /// The category of the action.
    pub fn category(&self) -> (res: &'static str)
        ensures
            res@ == "cas_store_import"@,
    {
        "cas_store_import"
    }

    /// What tells the action from others of its category: the path of its output.
    pub fn identifier(&self) -> (res: Option<&str>)
        ensures
            res is Some,
            res->0@ == self.output@.path.path,
    {
        Some(self.output.path.path.as_str())
    }

    /// Where the import looks.
    pub fn prepare(&self, manifests: &Vec<Result<String, String>>) -> (res: Result<
        ImportPlan,
        CasStoreImportActionError<String>,
    >)
        ensures
            match cas_plan(self.output@, manifests@) {
                Ok(plan) => res is Ok && res->Ok_0@ == plan,
                Err(e) => res is Err && res->Err_0@ == e,
            },
    {
        match plan_import(&self.output, manifests) {
            Ok(plan) => Ok(plan),
            Err(e) => Err(to_cas_error(e)),
        }
    }

    /// Checks what was read of the manifest.
    pub fn check_manifest(&self, plan: &ImportPlan, contents: &Result<String, String>) -> (res:
        Result<(), CasStoreImportActionError<String>>)
        ensures
            match cas_manifest_check(
                plan@,
                *contents,
                self.inner.expected_manifest@,
                self.inner.root_digest@,
            ) {
                Ok(()) => res is Ok,
                Err(e) => res is Err && res->Err_0@ == e,
            },
    {
        let digest = self.inner.root_digest.to_text();
        match verify_cas_store_manifest(
            &plan.manifest_path,
            contents,
            plan.store_path.as_str(),
            &self.inner.expected_manifest,
            &digest,
        ) {
            Ok(()) => Ok(()),
            Err(e) => Err(CasStoreImportActionError::Import(e)),
        }
    }

    /// Whether the object that was found at the store path has the canonical hash.
    pub fn check_object(&self, plan: &ImportPlan, root: &Result<Option<DiskNode>, String>) -> (res:
        Result<Option<StoreEntry>, CasStoreImportActionError<String>>)
        ensures
            match verified_entry(
                plan@.store_path,
                self.inner.expected_manifest@.canonical_tree_hash,
                *root,
            ) {
                Ok(Some(entry)) => res is Ok && res->Ok_0 is Some && res->Ok_0->0@ == entry,
                Ok(None) => res is Ok && res->Ok_0 is None,
                Err(e) => res is Err && res->Err_0@ == CasStoreImportActionError::Import(e),
            },
    {
        match build_verified_store_entry(
            plan.store_path.as_str(),
            &self.inner.expected_manifest.canonical_tree_hash,
            root,
        ) {
            Ok(entry) => Ok(entry),
            Err(e) => Err(CasStoreImportActionError::Import(e)),
        }
    }

    /// Declares an object whose hash was checked, if a second look finds it sealed.
    pub fn declare_existing(
        &self,
        plan: &ImportPlan,
        entry: StoreEntry,
        sealed: &Result<Option<DiskNode>, String>,
    ) -> (res: Result<Option<StoreDeclaration>, CasStoreImportActionError<String>>)
        ensures
            cas_outcome_is(
                res,
                sealed_object(self.output@.path, plan@, entry@, *sealed),
            ),
    {
        match has_normalized_sealed_store_metadata(sealed) {
            Err(e) => Err(CasStoreImportActionError::Import(e)),
            Ok(true) => Ok(Some(declare_present(&self.output, entry, plan.store_path.as_str()))),
            Ok(false) => Ok(None),
        }
    }

    /// What the remote store is asked for: for whom, and the digest of the root directory.
    pub fn root_request(&self) -> (res: (&str, &FileDigest))
        ensures
            res.0@ == self.inner.re_use_case@,
            *res.1 == self.inner.root_digest,
    {
        (self.inner.re_use_case.name.as_str(), &self.inner.root_digest)
    }

    /// The import up to the point at which a remote store is asked, from what was read: the paths
    /// that the manifest resolves to, the contents of the manifest, and what two looks at the
    /// store path found. Where the object is not there, or not sealed, the remote store is to be
    /// asked for the root directory.
    pub fn execute(
        &self,
        manifests: &Vec<Result<String, String>>,
        contents: &Result<String, String>,
        root: &Result<Option<DiskNode>, String>,
        sealed: &Result<Option<DiskNode>, String>,
    ) -> (res: Result<CasOutcome, CasStoreImportActionError<String>>)
        ensures
            match cas_outcome(
                self.output@,
                manifests@,
                *contents,
                *root,
                *sealed,
                self.inner.expected_manifest@,
                self.inner.root_digest@,
            ) {
                Ok(Some(declaration)) => res matches Ok(CasOutcome::Declared(d)) && d@
                    == declaration,
                Ok(None) => res matches Ok(CasOutcome::Fetch { use_case, digest }) && use_case@
                    == self.inner.re_use_case@ && *digest == self.inner.root_digest,
                Err(e) => res is Err && res->Err_0@ == e,
            },
    {
        let plan = self.prepare(manifests)?;
        self.check_manifest(&plan, contents)?;
        let existing = match self.check_object(&plan, root)? {
            None => None,
            Some(entry) => self.declare_existing(&plan, entry, sealed)?,
        };
        match existing {
            Some(declaration) => Ok(CasOutcome::Declared(declaration)),
            None => {
                let (use_case, digest) = self.root_request();
                Ok(CasOutcome::Fetch { use_case, digest })
            },
        }
    }

    /// Begins the import. `D` is what the remote store calls a directory.
    pub fn begin<D>(&self, manifests: &Vec<Result<String, String>>) -> (res: CasImportStage<D>)
        ensures
            res@ == cas_begun::<D>(self.output@, manifests@),
    {
        match self.prepare(manifests) {
            Ok(plan) => CasImportStage::ReadingManifest(plan),
            Err(e) => CasImportStage::Finished(Err(e)),
        }
    }

    /// What the import asks next. A finished one asks nothing.
    pub fn request<'a, D>(&'a self, stage: &'a CasImportStage<D>) -> (res: Option<
        CasImportRequest<'a, D>,
    >)
        ensures
            match stage@ {
                CasStageV::ReadingManifest(plan) => res matches Some(
                    CasImportRequest::ReadManifest(path),
                ) && path@ == plan.manifest_path,
                CasStageV::Looking(plan) => res matches Some(CasImportRequest::Look(path)) && path@
                    == plan.store_path,
                CasStageV::LookingAgain(plan, _) => res matches Some(
                    CasImportRequest::LookAgain(path),
                ) && path@ == plan.store_path,
                CasStageV::FetchingRoot(_) => res matches Some(
                    CasImportRequest::FetchRoot { use_case, digest },
                ) && use_case@ == self.inner.re_use_case@ && *digest == self.inner.root_digest,
                CasStageV::FetchingTree(_, root) => res matches Some(
                    CasImportRequest::FetchTree { use_case, directory },
                ) && use_case@ == self.inner.re_use_case@ && *directory == root,
                CasStageV::Finished(_) => res is None,
            },
    {
        let (use_case, digest) = self.root_request();
        match stage {
            CasImportStage::ReadingManifest(plan) => Some(
                CasImportRequest::ReadManifest(plan.manifest_path.as_str()),
            ),
            CasImportStage::Looking(plan) => Some(CasImportRequest::Look(plan.store_path.as_str())),
            CasImportStage::LookingAgain(plan, _) => Some(
                CasImportRequest::LookAgain(plan.store_path.as_str()),
            ),
            CasImportStage::FetchingRoot(_) => Some(
                CasImportRequest::FetchRoot { use_case, digest },
            ),
            CasImportStage::FetchingTree(_, directory) => Some(
                CasImportRequest::FetchTree { use_case, directory },
            ),
            CasImportStage::Finished(_) => None,
        }
    }

    /// Goes on after the reply to what the import asked.
    pub fn step<D>(&self, stage: CasImportStage<D>, reply: CasImportReply<D>) -> (res:
        CasImportStage<D>)
        ensures
            res@ == cas_step(
                self.output@,
                self.inner.expected_manifest@,
                self.inner.root_digest@,
                self.inner.re_use_case@,
                stage@,
                reply,
            ),
    {
        match (stage, reply) {
            (CasImportStage::ReadingManifest(plan), CasImportReply::Manifest(contents)) => {
                match self.check_manifest(&plan, &contents) {
                    Ok(()) => CasImportStage::Looking(plan),
                    Err(e) => CasImportStage::Finished(Err(e)),
                }
            },
            (CasImportStage::Looking(plan), CasImportReply::Found(root)) => {
                match self.check_object(&plan, &root) {
                    Ok(Some(entry)) => CasImportStage::LookingAgain(plan, entry),
                    Ok(None) => CasImportStage::FetchingRoot(plan),
                    Err(e) => CasImportStage::Finished(Err(e)),
                }
            },
            (CasImportStage::LookingAgain(plan, entry), CasImportReply::Found(sealed)) => {
                match self.declare_existing(&plan, entry, &sealed) {
                    Ok(Some(declaration)) => CasImportStage::Finished(Ok(declaration)),
                    Ok(None) => CasImportStage::FetchingRoot(plan),
                    Err(e) => CasImportStage::Finished(Err(e)),
                }
            },
            (CasImportStage::FetchingRoot(plan), CasImportReply::Directories(response)) => {
                match self.root_directory(response) {
                    Ok(directory) => CasImportStage::FetchingTree(plan, directory),
                    Err(e) => CasImportStage::Finished(Err(e)),
                }
            },
            (CasImportStage::FetchingTree(plan, _), CasImportReply::Tree(tree)) => {
                match tree {
                    Ok(directory) => match self.declare_fetched(&plan, directory) {
                        Ok(declaration) => CasImportStage::Finished(Ok(declaration)),
                        Err(e) => CasImportStage::Finished(Err(e)),
                    },
                    Err(e) => CasImportStage::Finished(
                        Err(CasStoreImportActionError::Import(StoreImportActionError::Failed(e))),
                    ),
                }
            },
            (CasImportStage::Finished(result), _) => CasImportStage::Finished(result),
            _ => CasImportStage::Finished(
                Err(CasStoreImportActionError::Import(wrong_reply_error())),
            ),
        }
    }

    /// The root directory out of the reply of the remote store: the first that came. `D` is what
    /// the remote store calls a directory.
    pub fn root_directory<D>(&self, response: Result<Vec<D>, String>) -> (res: Result<
        D,
        CasStoreImportActionError<String>,
    >)
        ensures
            match root_of(response, self.inner.root_digest@) {
                Ok(directory) => res is Ok && res->Ok_0 == directory,
                Err(e) => res is Err && res->Err_0@ == e,
            },
    {
        match response {
            Err(e) => Err(self.failed_download(e)),
            Ok(directories) => {
                let mut directories = directories;
                if directories.len() == 0 {
                    return Err(self.failed_download("RE response was empty".to_owned()));
                }
                Ok(directories.remove(0))
            },
        }
    }

    fn failed_download(&self, error: String) -> (res: CasStoreImportActionError<String>)
        ensures
            res@ == download_error(self.inner.root_digest@, error@),
    {
        let digest = self.inner.root_digest.to_text();
        CasStoreImportActionError::Import(
            StoreImportActionError::Reading {
                context: concat2("Error downloading CAS store root directory: ", &digest),
                error,
            },
        )
    }

    /// Declares the object whose tree was fetched. `directory` holds the members of the root, or
    /// why the tree cannot be a directory. A tree with a name that does not stand for one entry
    /// cannot be one.
    pub fn declare_fetched(
        &self,
        plan: &ImportPlan,
        directory: Result<Vec<NamedEntry>, String>,
    ) -> (res: Result<StoreDeclaration, CasStoreImportActionError<String>>)
        ensures
            match fetched_object(self.output@.path, plan@, directory, self.inner.re_use_case@) {
                Ok(declaration) => res is Ok && res->Ok_0@ == declaration,
                Err(e) => res is Err && res->Err_0@ == e,
            },
    {
        let members = match directory {
            Ok(members) => members,
            Err(error) => {
                return Err(invalid_directory(error));
            },
        };
        if let Some(name) = find_bad_member(&members) {
            let error = StoreImportActionError::InvalidFileName(name);
            return Err(invalid_directory(error.message()));
        }
        Ok(
            StoreDeclaration {
                output: self.output.path.duplicate(),
                entry: StoreEntry::Dir(members),
                logical_store_path: plan.store_path.as_str().to_owned(),
                source: ObjectSource::Cas { use_case: self.inner.re_use_case.name.clone() },
                execution_kind: ActionExecutionKind::Deferred,
            },
        )
    }
}

fn invalid_directory(error: String) -> (res: CasStoreImportActionError<String>)
    ensures
        res@ == directory_error(error@),
{
    CasStoreImportActionError::Import(
        StoreImportActionError::Reading {
            context: "Invalid CAS store directory".to_owned(),
            error,
        },
    )
}

} // verus!
