//! What import actions share: their output, their plan, and what they declare.

use vstd::prelude::*;
use vstd::string::*;

use crate::abs_path::AbsNormPathBuf;
use crate::entry::{EntryV, StoreEntry};
use crate::registry::{ArtifactPathV, BuildArtifactPath};

verus! {

/// The output of an action. `shown` is how it is named in messages.
#[derive(Debug)]
pub struct BuildArtifact {
    pub path: BuildArtifactPath,
    pub shown: String,
}

/// A [`BuildArtifact`] over mathematical text.
pub struct BuildArtifactV {
    pub path: ArtifactPathV,
    pub shown: Seq<char>,
}

impl View for BuildArtifact {
    type V = BuildArtifactV;

    open spec fn view(&self) -> BuildArtifactV {
        BuildArtifactV { path: self.path@, shown: self.shown@ }
    }
}

/// The models of a list of outputs.
pub open spec fn outputs_view(list: Seq<BuildArtifact>) -> Seq<BuildArtifactV> {
    list.map_values(|a: BuildArtifact| a@)
}

/// What an action does.
#[derive(Debug, Clone, Copy, PartialEq, Eq, Structural)]
pub enum ActionKind {
    StoreImport,
}

/// How the result of an action comes about: at once, or when it is needed.
#[derive(Debug, Clone, Copy, PartialEq, Eq, Structural)]
pub enum ActionExecutionKind {
    Simple,
    Deferred,
}

/// For whom a remote store is asked.
#[derive(Debug)]
pub struct RemoteExecutorUseCase {
    pub name: String,
}

impl View for RemoteExecutorUseCase {
    type V = Seq<char>;

    open spec fn view(&self) -> Seq<char> {
        self.name@
    }
}

impl RemoteExecutorUseCase {
    /// The use case with this name.
    pub fn new(name: &str) -> (res: RemoteExecutorUseCase)
        ensures
            res@ == name@,
    {
        RemoteExecutorUseCase { name: name.to_owned() }
    }
}

/// Where the contents of a declared object come from.
#[derive(Debug)]
pub enum ObjectSource<S> {
    /// They are at the store path.
    Store,
    /// They are in a content-addressed store, and are fetched for this use case.
    Cas { use_case: S },
}

/// What an import gives: the value of its one output, and what the materializer is told of it,
/// which is the same object, its store path, and where its contents come from.
#[derive(Debug)]
pub struct StoreDeclaration {
    pub output: BuildArtifactPath,
    pub entry: StoreEntry,
    pub logical_store_path: String,
    pub source: ObjectSource<String>,
    pub execution_kind: ActionExecutionKind,
}

/// A [`StoreDeclaration`] over mathematical text.
pub struct StoreDeclarationV {
    pub output: ArtifactPathV,
    pub entry: EntryV,
    pub logical_store_path: Seq<char>,
    pub source: ObjectSource<Seq<char>>,
    pub execution_kind: ActionExecutionKind,
}

impl View for StoreDeclaration {
    type V = StoreDeclarationV;

    open spec fn view(&self) -> StoreDeclarationV {
        StoreDeclarationV {
            output: self.output@,
            entry: self.entry@,
            logical_store_path: self.logical_store_path@,
            source: match self.source {
                ObjectSource::Store => ObjectSource::Store,
                ObjectSource::Cas { use_case } => ObjectSource::Cas { use_case: use_case@ },
            },
            execution_kind: self.execution_kind,
        }
    }
}

/// The declaration of an object that is at its store path.
pub open spec fn present_declaration(
    output: ArtifactPathV,
    entry: EntryV,
    logical: Seq<char>,
) -> StoreDeclarationV {
    StoreDeclarationV {
        output,
        entry,
        logical_store_path: logical,
        source: ObjectSource::Store,
        execution_kind: ActionExecutionKind::Simple,
    }
}

/// The declaration of an object whose contents are still to be fetched.
pub open spec fn remote_declaration(
    output: ArtifactPathV,
    entry: EntryV,
    logical: Seq<char>,
    use_case: Seq<char>,
) -> StoreDeclarationV {
    StoreDeclarationV {
        output,
        entry,
        logical_store_path: logical,
        source: ObjectSource::Cas { use_case },
        execution_kind: ActionExecutionKind::Deferred,
    }
}

/// Where an import looks: the store path, and the path of the manifest.
#[derive(Debug)]
pub struct ImportPlan {
    pub store_path: AbsNormPathBuf,
    pub manifest_path: String,
}

/// An [`ImportPlan`] over mathematical text.
pub struct PlanV {
    pub store_path: Seq<char>,
    pub manifest_path: Seq<char>,
}

impl View for ImportPlan {
    type V = PlanV;

    open spec fn view(&self) -> PlanV {
        PlanV { store_path: self.store_path@, manifest_path: self.manifest_path@ }
    }
}

} // verus!
