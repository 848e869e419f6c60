//! The import of an object that is at its store path already.

use vstd::prelude::*;
use vstd::string::*;

use crate::abs_path::AbsNormPathBuf;
use crate::action::{
    outputs_view, present_declaration, ActionExecutionKind, ActionKind, BuildArtifact,
    BuildArtifactV, ImportPlan, ObjectSource, PlanV, StoreDeclaration, StoreDeclarationV,
};
use crate::archive::{build_verified_store_entry, verified_entry, ErrorV};
use crate::disk::DiskNode;
use crate::entry::StoreEntry;
use crate::error::StoreImportActionError;
use crate::manifest::{
    manifest_document, manifest_verdict, verify_store_manifest, ExpectedStoreManifest, ExpectedV,
};
use crate::paths::is_abs_norm;
use crate::registry::ArtifactPathV;
use crate::text::concat2;

verus! {

/// An import that has no output yet. `M` is what names the manifest.
#[derive(Debug)]
pub struct UnregisteredStoreImportAction<M> {
    pub missing_hint: Option<String>,
    pub manifest: M,
    pub expected_manifest: ExpectedStoreManifest,
}

/// The import of an object that is at its store path already.
#[derive(Debug)]
pub struct StoreImportAction<M> {
    pub output: BuildArtifact,
    pub missing_hint: Option<String>,
    pub manifest: M,
    pub expected_manifest: ExpectedStoreManifest,
}

/// An optional text.
pub open spec fn hint_view(hint: Option<String>) -> Option<Seq<char>> {
    match hint {
        Some(h) => Some(h@),
        None => None,
    }
}

/// The one output of an import: it must stand for a store path.
pub open spec fn import_output(outputs: Seq<BuildArtifactV>) -> Result<BuildArtifactV, ErrorV> {
    if outputs.len() != 1 {
        Err(StoreImportActionError::WrongNumberOfOutputs(outputs.len() as usize))
    } else if outputs[0].path.logical_store_path is None {
        Err(StoreImportActionError::MissingLogicalStorePath(outputs[0].shown))
    } else {
        Ok(outputs[0])
    }
}

/// What an import that is about to run looks at. `manifests` are the artifacts that the manifest
/// resolves to, each with its path or with why it has none.
pub open spec fn import_plan(
    output: BuildArtifactV,
    manifests: Seq<Result<String, String>>,
) -> Result<PlanV, ErrorV> {
    match output.path.logical_store_path {
        None => Err(StoreImportActionError::MissingLogicalStorePath(output.shown)),
        Some(logical) => if !is_abs_norm(logical) {
            Err(StoreImportActionError::InvalidStorePath(logical))
        } else if manifests.len() != 1 {
            Err(StoreImportActionError::ManifestInputNotSingleton)
        } else {
            match manifests[0] {
                Err(e) => Err(StoreImportActionError::Failed(e@)),
                Ok(path) => Ok(PlanV { store_path: logical, manifest_path: path@ }),
            }
        },
    }
}

/// What the check of the manifest gives.
pub open spec fn manifest_check(
    plan: PlanV,
    contents: Result<String, String>,
    expected: ExpectedV,
) -> Result<(), ErrorV> {
    match manifest_document(plan.manifest_path, contents) {
        Err(e) => Err(e),
        Ok(document) => manifest_verdict(document, plan.store_path, expected),
    }
}

/// The hint behind a message: a space and the text, or nothing.
pub open spec fn hint_text(hint: Option<Seq<char>>) -> Seq<char> {
    match hint {
        Some(h) => " "@ + h,
        None => seq![],
    }
}

/// What the check of the object gives. An object that is not there is an error.
pub open spec fn object_check(
    output: ArtifactPathV,
    plan: PlanV,
    root: Result<Option<DiskNode>, String>,
    expected_hash: Seq<char>,
    hint: Option<Seq<char>>,
) -> Result<StoreDeclarationV, ErrorV> {
    match verified_entry(plan.store_path, expected_hash, root) {
        Err(e) => Err(e),
        Ok(None) => Err(
            StoreImportActionError::Absent { store_path: plan.store_path, hint: hint_text(hint) },
        ),
        Ok(Some(entry)) => Ok(present_declaration(output, entry, plan.store_path)),
    }
}

/// What an import gives: the manifest is checked first, and the object after it.
pub open spec fn import_outcome(
    output: BuildArtifactV,
    manifests: Seq<Result<String, String>>,
    contents: Result<String, String>,
    root: Result<Option<DiskNode>, String>,
    expected: ExpectedV,
    hint: Option<Seq<char>>,
) -> Result<StoreDeclarationV, ErrorV> {
    match import_plan(output, manifests) {
        Err(e) => Err(e),
        Ok(plan) => match manifest_check(plan, contents, expected) {
            Err(e) => Err(e),
            Ok(()) => object_check(output.path, plan, root, expected.canonical_tree_hash, hint),
        },
    }
}

/// How far an import has come.
pub enum ImportStageV {
    ReadingManifest(PlanV),
    Looking(PlanV),
    Finished(Result<StoreDeclarationV, ErrorV>),
}

/// What an import asks: the contents of the manifest, or what is at the store path.
#[derive(Debug)]
pub enum ImportRequest<S> {
    ReadManifest(S),
    Look(S),
}

/// The reply to an [`ImportRequest`].
#[derive(Debug)]
pub enum ImportReply {
    Manifest(Result<String, String>),
    Found(Result<Option<DiskNode>, String>),
}

/// An import under way. The caller answers each request.
#[derive(Debug)]
pub enum ImportStage {
    ReadingManifest(ImportPlan),
    Looking(ImportPlan),
    Finished(Result<StoreDeclaration, StoreImportActionError<String>>),
}

impl View for ImportStage {
    type V = ImportStageV;

    open spec fn view(&self) -> ImportStageV {
        match *self {
            ImportStage::ReadingManifest(plan) => ImportStageV::ReadingManifest(plan@),
            ImportStage::Looking(plan) => ImportStageV::Looking(plan@),
            ImportStage::Finished(Ok(declaration)) => ImportStageV::Finished(Ok(declaration@)),
            ImportStage::Finished(Err(e)) => ImportStageV::Finished(Err(e@)),
        }
    }
}

/// What an import asks in a stage.
pub open spec fn import_asks(stage: ImportStageV) -> Option<ImportRequest<Seq<char>>> {
    match stage {
        ImportStageV::ReadingManifest(plan) => Some(
            ImportRequest::ReadManifest(plan.manifest_path),
        ),
        ImportStageV::Looking(plan) => Some(ImportRequest::Look(plan.store_path)),
        ImportStageV::Finished(_) => None,
    }
}

/// The error for a reply that does not belong to the request.
pub open spec fn wrong_reply() -> ErrorV {
    StoreImportActionError::Failed("the reply does not belong to the request"@)
}

pub(crate) fn wrong_reply_error() -> (res: StoreImportActionError<String>)
    ensures
        res@ == wrong_reply(),
{
    StoreImportActionError::Failed("the reply does not belong to the request".to_owned())
}

/// The stage in which an import begins.
pub open spec fn import_begun(
    output: BuildArtifactV,
    manifests: Seq<Result<String, String>>,
) -> ImportStageV {
    match import_plan(output, manifests) {
        Ok(plan) => ImportStageV::ReadingManifest(plan),
        Err(e) => ImportStageV::Finished(Err(e)),
    }
}

/// The stage that follows from a reply.
pub open spec fn import_step(
    output: BuildArtifactV,
    expected: ExpectedV,
    hint: Option<Seq<char>>,
    stage: ImportStageV,
    reply: ImportReply,
) -> ImportStageV {
    match (stage, reply) {
        (ImportStageV::ReadingManifest(plan), ImportReply::Manifest(contents)) =>
        match manifest_check(plan, contents, expected) {
            Ok(()) => ImportStageV::Looking(plan),
            Err(e) => ImportStageV::Finished(Err(e)),
        },
        (ImportStageV::Looking(plan), ImportReply::Found(root)) => match object_check(
            output.path,
            plan,
            root,
            expected.canonical_tree_hash,
            hint,
        ) {
            Ok(declaration) => ImportStageV::Finished(Ok(declaration)),
            Err(e) => ImportStageV::Finished(Err(e)),
        },
        (ImportStageV::Finished(_), _) => stage,
        _ => ImportStageV::Finished(Err(wrong_reply())),
    }
}

impl ImportStage {
    /// What the import asks next. A finished one asks nothing.
    pub fn request(&self) -> (res: Option<ImportRequest<String>>)
        ensures
            match import_asks(self@) {
                Some(ImportRequest::ReadManifest(p)) => res matches Some(
                    ImportRequest::ReadManifest(q),
                ) && q@ == p,
                Some(ImportRequest::Look(p)) => res matches Some(ImportRequest::Look(q)) && q@ == p,
                None => res is None,
            },
    {
        match self {
            ImportStage::ReadingManifest(plan) => Some(
                ImportRequest::ReadManifest(plan.manifest_path.clone()),
            ),
            ImportStage::Looking(plan) => Some(
                ImportRequest::Look(plan.store_path.as_str().to_owned()),
            ),
            ImportStage::Finished(_) => None,
        }
    }
}

impl<M> UnregisteredStoreImportAction<M> {
    /// The import for these outputs.
    pub fn register(self, outputs: Vec<BuildArtifact>) -> (res: Result<
        StoreImportAction<M>,
        StoreImportActionError<String>,
    >)
        ensures
            match import_output(outputs_view(outputs@)) {
                Err(e) => res is Err && res->Err_0@ == e,
                Ok(output) => {
                    &&& res is Ok
                    &&& res->Ok_0.output@ == output
                    &&& res->Ok_0.missing_hint == self.missing_hint
                    &&& res->Ok_0.manifest == self.manifest
                    &&& res->Ok_0.expected_manifest == self.expected_manifest
                },
            },
    {
        StoreImportAction::new(outputs, self.missing_hint, self.manifest, self.expected_manifest)
    }
}

impl<M> StoreImportAction<M> {
    /// The import for these outputs, of which there must be exactly one.
    pub fn new(
        outputs: Vec<BuildArtifact>,
        missing_hint: Option<String>,
        manifest: M,
        expected_manifest: ExpectedStoreManifest,
    ) -> (res: Result<StoreImportAction<M>, StoreImportActionError<String>>)
        ensures
            match import_output(outputs_view(outputs@)) {
                Err(e) => res is Err && res->Err_0@ == e,
                Ok(output) => {
                    &&& res is Ok
                    &&& res->Ok_0.output@ == output
                    &&& res->Ok_0.missing_hint == missing_hint
                    &&& res->Ok_0.manifest == manifest
                    &&& res->Ok_0.expected_manifest == expected_manifest
                },
            },
    {
        let output = single_output(outputs)?;
        Ok(StoreImportAction { output, missing_hint, manifest, expected_manifest })
    }

    /// The kind of the action.
    pub fn kind(&self) -> (res: ActionKind)
        ensures
            res == ActionKind::StoreImport,
    {
        ActionKind::StoreImport
    }

    /// The inputs: the manifest.
    pub fn inputs(&self) -> (res: Vec<&M>)
        ensures
            res@ == seq![&self.manifest],
    {
        vec![&self.manifest]
    }

    /// The outputs: the imported object.
    pub fn outputs(&self) -> (res: Vec<&BuildArtifact>)
        ensures
            res@ == seq![&self.output],
    {
        vec![&self.output]
    }

    /// The output.
    pub fn first_output(&self) -> (res: &BuildArtifact)
        ensures
            *res == self.output,
    {
        &self.output
    }

    /// The category of the action.
    pub fn category(&self) -> (res: &'static str)
        ensures
            res@ == "store_import"@,
    {
        "store_import"
    }

    /// What tells the action from others of its category: the path of its output.
    pub fn identifier(&self) -> (res: Option<&str>)
        ensures
            res is Some,
            res->0@ == self.output@.path.path,
    {
        Some(self.output.path.path.as_str())
    }

    /// Where the import looks.
    pub fn prepare(&self, manifests: &Vec<Result<String, String>>) -> (res: Result<
        ImportPlan,
        StoreImportActionError<String>,
    >)
        ensures
            match import_plan(self.output@, manifests@) {
                Ok(plan) => res is Ok && res->Ok_0@ == plan,
                Err(e) => res is Err && res->Err_0@ == e,
            },
    {
        plan_import(&self.output, manifests)
    }

    /// Checks what was read of the manifest.
    pub fn check_manifest(&self, plan: &ImportPlan, contents: &Result<String, String>) -> (res:
        Result<(), StoreImportActionError<String>>)
        ensures
            match manifest_check(plan@, *contents, self.expected_manifest@) {
                Ok(()) => res is Ok,
                Err(e) => res is Err && res->Err_0@ == e,
            },
    {
        verify_store_manifest(
            &plan.manifest_path,
            contents,
            plan.store_path.as_str(),
            &self.expected_manifest,
        )?;
        Ok(())
    }

    /// Checks what was found at the store path.
    pub fn check_object(&self, plan: &ImportPlan, root: &Result<Option<DiskNode>, String>) -> (res:
        Result<StoreDeclaration, StoreImportActionError<String>>)
        ensures
            match object_check(
                self.output@.path,
                plan@,
                *root,
                self.expected_manifest@.canonical_tree_hash,
                hint_view(self.missing_hint),
            ) {
                Ok(declaration) => res is Ok && res->Ok_0@ == declaration,
                Err(e) => res is Err && res->Err_0@ == e,
            },
    {
        let found = build_verified_store_entry(
            plan.store_path.as_str(),
            &self.expected_manifest.canonical_tree_hash,
            root,
        )?;
        match found {
            Some(entry) => Ok(declare_present(&self.output, entry, plan.store_path.as_str())),
            None => {
                let hint = match &self.missing_hint {
                    Some(hint) => concat2(" ", hint),
                    None => {
                        let empty = String::new();
                        assert(empty@ =~= hint_text(None));
                        empty
                    },
                };
                Err(
                    StoreImportActionError::Absent {
                        store_path: plan.store_path.as_str().to_owned(),
                        hint,
                    },
                )
            },
        }
    }

    /// The whole import, from what was read: the paths that the manifest resolves to, the
    /// contents of the manifest, and what is at the store path.
    pub fn execute(
        &self,
        manifests: &Vec<Result<String, String>>,
        contents: &Result<String, String>,
        root: &Result<Option<DiskNode>, String>,
    ) -> (res: Result<StoreDeclaration, StoreImportActionError<String>>)
        ensures
            match import_outcome(
                self.output@,
                manifests@,
                *contents,
                *root,
                self.expected_manifest@,
                hint_view(self.missing_hint),
            ) {
                Ok(declaration) => res is Ok && res->Ok_0@ == declaration,
                Err(e) => res is Err && res->Err_0@ == e,
            },
    {
        let plan = self.prepare(manifests)?;
        self.check_manifest(&plan, contents)?;
        self.check_object(&plan, root)
    }

    /// Begins the import.
    pub fn begin(&self, manifests: &Vec<Result<String, String>>) -> (res: ImportStage)
        ensures
            res@ == import_begun(self.output@, manifests@),
    {
        match self.prepare(manifests) {
            Ok(plan) => ImportStage::ReadingManifest(plan),
            Err(e) => ImportStage::Finished(Err(e)),
        }
    }

    /// Goes on after the reply to what the import asked.
    pub fn step(&self, stage: ImportStage, reply: &ImportReply) -> (res: ImportStage)
        ensures
            res@ == import_step(
                self.output@,
                self.expected_manifest@,
                hint_view(self.missing_hint),
                stage@,
                *reply,
            ),
    {
        match (stage, reply) {
            (ImportStage::ReadingManifest(plan), ImportReply::Manifest(contents)) => {
                match self.check_manifest(&plan, contents) {
                    Ok(()) => ImportStage::Looking(plan),
                    Err(e) => ImportStage::Finished(Err(e)),
                }
            },
            (ImportStage::Looking(plan), ImportReply::Found(root)) => {
                match self.check_object(&plan, root) {
                    Ok(declaration) => ImportStage::Finished(Ok(declaration)),
                    Err(e) => ImportStage::Finished(Err(e)),
                }
            },
            (ImportStage::Finished(result), _) => ImportStage::Finished(result),
            _ => ImportStage::Finished(Err(wrong_reply_error())),
        }
    }
}

/// The declaration of an object that is at its store path.
pub(crate) fn declare_present(
    output: &BuildArtifact,
    entry: StoreEntry,
    logical_store_path: &str,
) -> (res: StoreDeclaration)
    ensures
        res@ == present_declaration(output@.path, entry@, logical_store_path@),
{
    StoreDeclaration {
        output: output.path.duplicate(),
        entry,
        logical_store_path: logical_store_path.to_owned(),
        source: ObjectSource::Store,
        execution_kind: ActionExecutionKind::Simple,
    }
}

/// The one output in a list.
pub(crate) fn single_output(outputs: Vec<BuildArtifact>) -> (res: Result<
    BuildArtifact,
    StoreImportActionError<String>,
>)
    ensures
        match import_output(outputs_view(outputs@)) {
            Err(e) => res is Err && res->Err_0@ == e,
            Ok(output) => res is Ok && res->Ok_0@ == output,
        },
{
    let mut outputs = outputs;
    let n: usize = outputs.len();
    if n != 1 {
        return Err(StoreImportActionError::WrongNumberOfOutputs(n));
    }
    assert(outputs_view(outputs@)[0] == outputs@[0]@);
    let output = outputs.remove(0);
    if output.path.logical_store_path.is_none() {
        return Err(StoreImportActionError::MissingLogicalStorePath(output.shown));
    }
    Ok(output)
}

/// Where an import with this output looks.
pub(crate) fn plan_import(output: &BuildArtifact, manifests: &Vec<Result<String, String>>) -> (res:
    Result<ImportPlan, StoreImportActionError<String>>)
    ensures
        match import_plan(output@, manifests@) {
            Ok(plan) => res is Ok && res->Ok_0@ == plan,
            Err(e) => res is Err && res->Err_0@ == e,
        },
{
    let logical = match &output.path.logical_store_path {
        Some(logical) => logical,
        None => {
            return Err(StoreImportActionError::MissingLogicalStorePath(output.shown.clone()));
        },
    };
    let store_path = match AbsNormPathBuf::parse(logical) {
        Some(store_path) => store_path,
        None => {
            return Err(StoreImportActionError::InvalidStorePath(logical.clone()));
        },
    };
    if manifests.len() != 1 {
        return Err(StoreImportActionError::ManifestInputNotSingleton);
    }
    match &manifests[0] {
        Err(e) => Err(StoreImportActionError::Failed(e.clone())),
        Ok(path) => Ok(ImportPlan { store_path, manifest_path: path.clone() }),
    }
}

} // verus!
