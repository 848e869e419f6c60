//! When an import or a declaration succeeds, what it then gives, field by field, and which error
//! it gives else.

use vstd::prelude::*;

use crate::action::{BuildArtifactV, ObjectSource, PlanV, StoreDeclarationV};
use crate::archive::{verified_entry, ErrorV};
use crate::cas_store_import::{
    cas_manifest_check, cas_outcome, cas_output, cas_plan, cas_step, fetched_object, root_of,
    sealed_object, CasErrorV, CasImportReply, CasStageV, CasStoreImportActionError,
};
use crate::context::{imported, output_type_of, StoreMethodError};
use crate::digest::{digest_text, DigestV};
use crate::disk::DiskNode;
use crate::entry::{children_model, EntryV, NamedEntry};
use crate::entry_laws::{is_proper_name, member_of, the_first_bad_name_is_found};
use crate::error::StoreImportActionError;
use crate::json::json_parse;
use crate::manifest::{cas_manifest_verdict, manifest_document, manifest_verdict, ExpectedV};
use crate::path_laws::{absolute_paths_are_all_without_dots, stands_between_slashes};
use crate::registry::{
    claim_is_new, declaration, staged_place, ActionsRegistry, ArtifactPathV, BuckOutPathKind,
    DeclarationError, DeclaredArtifact, OutputType,
};
use crate::sealed::normalized;
use crate::sealed_laws::{the_check_passes_what_is_sealed_throughout, tree_has_sealed_metadata};
use crate::store_import::{import_outcome, import_output, import_plan};

verus! {

/// An import takes exactly one output, and only one that stands for a store path: that output is
/// the one that it gets.
pub proof fn an_import_has_one_output_with_a_store_path(outputs: Seq<BuildArtifactV>)
    requires
        outputs.len() <= usize::MAX,
    ensures
        outputs.len() != 1 ==> import_output(outputs) == Err::<BuildArtifactV, ErrorV>(
            StoreImportActionError::WrongNumberOfOutputs(outputs.len() as usize),
        ) && cas_output(outputs) == Err::<BuildArtifactV, CasErrorV>(
            CasStoreImportActionError::WrongNumberOfOutputs(outputs.len() as usize),
        ),
        outputs.len() == 1 && outputs[0].path.logical_store_path is None ==> import_output(outputs)
            == Err::<BuildArtifactV, ErrorV>(
            StoreImportActionError::MissingLogicalStorePath(outputs[0].shown),
        ) && cas_output(outputs) == Err::<BuildArtifactV, CasErrorV>(
            CasStoreImportActionError::MissingLogicalStorePath(outputs[0].shown),
        ),
        outputs.len() == 1 && outputs[0].path.logical_store_path is Some ==> import_output(outputs)
            == Ok::<BuildArtifactV, ErrorV>(outputs[0]) && cas_output(outputs) == Ok::<
            BuildArtifactV,
            CasErrorV,
        >(outputs[0]),
{
}

/// A path text begins with a slash and has neither one dot nor two between slashes.
pub open spec fn is_absolute_and_normalized(text: Seq<char>) -> bool {
    &&& text.len() > 0
    &&& text[0] == '/'
    &&& !stands_between_slashes(text, seq!['.'])
    &&& !stands_between_slashes(text, seq!['.', '.'])
}

/// An import looks at the store path that its output stands for and at the one path that its
/// manifest resolves to. It is refused only if the output stands for no store path, or for none
/// that is absolute and normalized, if the manifest does not resolve to one artifact, or if that
/// has no path; the first of these is the error.
pub proof fn an_import_looks_at_its_own_paths(
    output: BuildArtifactV,
    manifests: Seq<Result<String, String>>,
)
    ensures
        import_plan(output, manifests) == match output.path.logical_store_path {
            None => Err::<PlanV, ErrorV>(
                StoreImportActionError::MissingLogicalStorePath(output.shown),
            ),
            Some(store) => if !is_absolute_and_normalized(store) {
                Err(StoreImportActionError::InvalidStorePath(store))
            } else if manifests.len() != 1 {
                Err(StoreImportActionError::ManifestInputNotSingleton)
            } else {
                match manifests[0] {
                    Err(e) => Err(StoreImportActionError::Failed(e@)),
                    Ok(path) => Ok(PlanV { store_path: store, manifest_path: path@ }),
                }
            },
        },
        cas_plan(output, manifests) == match import_plan(output, manifests) {
            Ok(plan) => Ok::<PlanV, CasErrorV>(plan),
            Err(StoreImportActionError::MissingLogicalStorePath(s)) => Err(
                CasStoreImportActionError::MissingLogicalStorePath(s),
            ),
            Err(StoreImportActionError::ManifestInputNotSingleton) => Err(
                CasStoreImportActionError::ManifestInputNotSingleton,
            ),
            Err(e) => Err(CasStoreImportActionError::Import(e)),
        },
{
    if let Some(store) = output.path.logical_store_path {
        absolute_paths_are_all_without_dots(store);
    }
}

/// An import succeeds exactly if its paths are in order, its manifest could be read, is a document
/// and passes, and the object is at the store path and passes under the declared hash. Then it
/// declares that object, for its own output and store path, as one that is at the store path.
pub proof fn an_import_succeeds_with_manifest_and_object(
    output: BuildArtifactV,
    manifests: Seq<Result<String, String>>,
    contents: Result<String, String>,
    root: Result<Option<DiskNode>, String>,
    expected: ExpectedV,
    hint: Option<Seq<char>>,
)
    ensures
        ({
            let outcome = import_outcome(output, manifests, contents, root, expected, hint);
            let store = output.path.logical_store_path->0;
            let found = verified_entry(store, expected.canonical_tree_hash, root);
            &&& outcome is Ok <==> {
                &&& output.path.logical_store_path is Some
                &&& is_absolute_and_normalized(store)
                &&& manifests.len() == 1
                &&& manifests[0] is Ok
                &&& contents matches Ok(text) && json_parse(text@) matches Ok(document)
                    && manifest_verdict(document, store, expected) is Ok
                &&& found matches Ok(Some(_))
            }
            &&& outcome matches Ok(object) ==> {
                &&& object.output == output.path
                &&& found == Ok::<Option<EntryV>, ErrorV>(Some(object.entry))
                &&& object.logical_store_path == store
                &&& object.source is Store
                &&& object.execution_kind is Simple
            }
        }),
{
    an_import_looks_at_its_own_paths(output, manifests);
}

/// An import that does not succeed gives the first thing that is wrong: its paths, then its
/// manifest, then the object. An object that is not there is told with its store path, and with the
/// hint behind a space where there is one.
pub proof fn an_import_fails_with_the_first_wrong_thing(
    output: BuildArtifactV,
    manifests: Seq<Result<String, String>>,
    contents: Result<String, String>,
    root: Result<Option<DiskNode>, String>,
    expected: ExpectedV,
    hint: Option<Seq<char>>,
)
    ensures
        ({
            let outcome = import_outcome(output, manifests, contents, root, expected, hint);
            match import_plan(output, manifests) {
                Err(e) => outcome == Err::<StoreDeclarationV, ErrorV>(e),
                Ok(plan) => match manifest_document(plan.manifest_path, contents) {
                    Err(e) => outcome == Err::<StoreDeclarationV, ErrorV>(e),
                    Ok(document) => match manifest_verdict(document, plan.store_path, expected) {
                        Err(e) => outcome == Err::<StoreDeclarationV, ErrorV>(e),
                        Ok(()) => match verified_entry(
                            plan.store_path,
                            expected.canonical_tree_hash,
                            root,
                        ) {
                            Err(e) => outcome == Err::<StoreDeclarationV, ErrorV>(e),
                            Ok(None) => outcome == Err::<StoreDeclarationV, ErrorV>(
                                StoreImportActionError::Absent {
                                    store_path: plan.store_path,
                                    hint: match hint {
                                        None => seq![],
                                        Some(h) => seq![' '] + h,
                                    },
                                },
                            ),
                            Ok(Some(_)) => outcome is Ok,
                        },
                    },
                },
            }
        }),
{
    reveal_strlit(" ");
    assert(" "@ =~= seq![' ']);
}

/// The declaration is of this object, at the store path, for this output.
pub open spec fn declares_present(
    object: StoreDeclarationV,
    output: ArtifactPathV,
    entry: EntryV,
    store: Seq<char>,
) -> bool {
    &&& object.output == output
    &&& object.entry == entry
    &&& object.logical_store_path == store
    &&& object.source is Store
    &&& object.execution_kind is Simple
}

/// An import from a content-addressed store reuses the object at the store path exactly if its
/// paths are in order, its manifest passes and names the declared root digest, the object passes
/// under the declared hash, and in the second look every entry of it, at every depth, is sealed. It
/// fetches exactly if, with all in order before, nothing is there, or at the second look nothing is
/// there or an entry that was read is not sealed.
pub proof fn a_cas_import_reuses_what_is_sealed_throughout(
    output: BuildArtifactV,
    manifests: Seq<Result<String, String>>,
    contents: Result<String, String>,
    root: Result<Option<DiskNode>, String>,
    sealed: Result<Option<DiskNode>, String>,
    expected: ExpectedV,
    digest: DigestV,
)
    ensures
        ({
            let outcome = cas_outcome(output, manifests, contents, root, sealed, expected, digest);
            let store = output.path.logical_store_path->0;
            let found = verified_entry(store, expected.canonical_tree_hash, root);
            let in_order = {
                &&& output.path.logical_store_path is Some
                &&& is_absolute_and_normalized(store)
                &&& manifests.len() == 1
                &&& manifests[0] is Ok
                &&& contents matches Ok(text) && json_parse(text@) matches Ok(document)
                    && manifest_verdict(document, store, expected) is Ok && cas_manifest_verdict(
                    document,
                    digest_text(digest),
                ) is Ok
            };
            &&& (outcome matches Ok(Some(_))) <==> in_order && (found matches Ok(Some(_))) && (
            sealed matches Ok(Some(node)) && tree_has_sealed_metadata(node))
            &&& outcome matches Ok(Some(object)) ==> declares_present(
                object,
                output.path,
                found->Ok_0->0,
                store,
            )
            &&& (outcome matches Ok(None)) <==> in_order && {
                ||| found matches Ok(None)
                ||| (found matches Ok(Some(_))) && (sealed matches Ok(None))
                ||| (found matches Ok(Some(_))) && (sealed matches Ok(Some(node)) && normalized(node)
                    == Ok::<bool, ErrorV>(false))
            }
        }),
{
    an_import_looks_at_its_own_paths(output, manifests);
    if let Ok(Some(node)) = sealed {
        the_check_passes_what_is_sealed_throughout(node);
    }
}

/// Where an import from a content-addressed store fails before anything is fetched, the error is
/// the first thing that is wrong: its paths, its manifest, what the manifest says of the published
/// root, the object, or the second look.
pub proof fn a_cas_import_fails_with_the_first_wrong_thing(
    output: BuildArtifactV,
    manifests: Seq<Result<String, String>>,
    contents: Result<String, String>,
    root: Result<Option<DiskNode>, String>,
    sealed: Result<Option<DiskNode>, String>,
    expected: ExpectedV,
    digest: DigestV,
)
    ensures
        ({
            let outcome = cas_outcome(output, manifests, contents, root, sealed, expected, digest);
            match cas_plan(output, manifests) {
                Err(e) => outcome == Err::<Option<StoreDeclarationV>, CasErrorV>(e),
                Ok(plan) => match manifest_document(plan.manifest_path, contents) {
                    Err(e) => outcome == imported_error(e),
                    Ok(document) => match manifest_verdict(document, plan.store_path, expected) {
                        Err(e) => outcome == imported_error(e),
                        Ok(()) => match cas_manifest_verdict(document, digest_text(digest)) {
                            Err(e) => outcome == imported_error(e),
                            Ok(()) => match verified_entry(
                                plan.store_path,
                                expected.canonical_tree_hash,
                                root,
                            ) {
                                Err(e) => outcome == imported_error(e),
                                Ok(None) => outcome is Ok,
                                Ok(Some(_)) => match sealed {
                                    Err(e) => outcome == imported_error(
                                        StoreImportActionError::Failed(e@),
                                    ),
                                    Ok(None) => outcome is Ok,
                                    Ok(Some(node)) => match normalized(node) {
                                        Err(e) => outcome == imported_error(e),
                                        Ok(_) => outcome is Ok,
                                    },
                                },
                            },
                        },
                    },
                },
            }
        }),
{
}

/// The failure of an import from a content-addressed store with an error that all imports share.
pub open spec fn imported_error(e: ErrorV) -> Result<Option<StoreDeclarationV>, CasErrorV> {
    Err(CasStoreImportActionError::Import(e))
}

/// The steps of an import from a content-addressed store, one reply at a time: the manifest, the
/// first look, the second look at what passed under its hash, the root directory where nothing can
/// be reused, and the tree below the first directory that came. Replies in another order are
/// refused, and a finished import stays as it is.
pub proof fn a_cas_import_goes_step_by_step<D>(
    output: BuildArtifactV,
    expected: ExpectedV,
    digest: DigestV,
    use_case: Seq<char>,
    plan: PlanV,
    entry: EntryV,
    directory: D,
    contents: Result<String, String>,
    root: Result<Option<DiskNode>, String>,
    response: Result<Vec<D>, String>,
    tree: Result<Result<Vec<NamedEntry>, String>, String>,
    result: Result<StoreDeclarationV, CasErrorV>,
    reply: CasImportReply<D>,
)
    ensures
        ({
            let step = |stage: CasStageV<D>, reply: CasImportReply<D>|
                cas_step(output, expected, digest, use_case, stage, reply);
            let manifest = cas_manifest_check(plan, contents, expected, digest);
            let found = verified_entry(plan.store_path, expected.canonical_tree_hash, root);
            let sealed = sealed_object(output.path, plan, entry, root);
            &&& step(CasStageV::ReadingManifest(plan), CasImportReply::Manifest(contents))
                == match manifest {
                Ok(_) => CasStageV::<D>::Looking(plan),
                Err(e) => CasStageV::Finished(Err(e)),
            }
            &&& step(CasStageV::Looking(plan), CasImportReply::Found(root)) == match found {
                Ok(Some(e)) => CasStageV::<D>::LookingAgain(plan, e),
                Ok(None) => CasStageV::FetchingRoot(plan),
                Err(e) => CasStageV::Finished(Err(CasStoreImportActionError::Import(e))),
            }
            &&& step(CasStageV::LookingAgain(plan, entry), CasImportReply::Found(root))
                == match sealed {
                Ok(Some(object)) => CasStageV::<D>::Finished(Ok(object)),
                Ok(None) => CasStageV::FetchingRoot(plan),
                Err(e) => CasStageV::Finished(Err(e)),
            }
            &&& step(CasStageV::FetchingRoot(plan), CasImportReply::Directories(response))
                == match response {
                Ok(list) => if list@.len() == 0 {
                    CasStageV::<D>::Finished(Err(failed_download(digest, "RE response was empty"@)))
                } else {
                    CasStageV::FetchingTree(plan, list@[0])
                },
                Err(e) => CasStageV::Finished(Err(failed_download(digest, e@))),
            }
            &&& step(CasStageV::FetchingTree(plan, directory), CasImportReply::Tree(tree))
                == match tree {
                Err(e) => CasStageV::<D>::Finished(
                    Err(CasStoreImportActionError::Import(StoreImportActionError::Failed(e@))),
                ),
                Ok(members) => match fetched_object(output.path, plan, members, use_case) {
                    Ok(object) => CasStageV::Finished(Ok(object)),
                    Err(e) => CasStageV::Finished(Err(e)),
                },
            }
            &&& step(CasStageV::Finished(result), reply) == CasStageV::<D>::Finished(result)
        }),
        root_of(response, digest) == match response {
            Ok(list) => if list@.len() == 0 {
                Err::<D, CasErrorV>(failed_download(digest, "RE response was empty"@))
            } else {
                Ok(list@[0])
            },
            Err(e) => Err(failed_download(digest, e@)),
        },
{
}

/// The error for a root directory that could not be fetched.
pub open spec fn failed_download(digest: DigestV, error: Seq<char>) -> CasErrorV {
    CasStoreImportActionError::Import(
        StoreImportActionError::Reading {
            context: "Error downloading CAS store root directory: "@ + digest_text(digest),
            error,
        },
    )
}

/// A fetched tree is declared exactly if it is a directory and all names in it, at every depth, are
/// proper names; then as it came, for its output and store path, to be fetched for the use case
/// when it is needed. Else the reason is told.
pub proof fn fetched_trees_are_declared_as_they_came(
    output: ArtifactPathV,
    plan: PlanV,
    directory: Result<Vec<NamedEntry>, String>,
    use_case: Seq<char>,
)
    ensures
        ({
            let outcome = fetched_object(output, plan, directory, use_case);
            match directory {
                Err(e) => outcome == Err::<StoreDeclarationV, CasErrorV>(
                    CasStoreImportActionError::Import(
                        StoreImportActionError::Reading {
                            context: "Invalid CAS store directory"@,
                            error: e@,
                        },
                    ),
                ),
                Ok(members) => {
                    let entry = EntryV::Dir(children_model(members@));
                    &&& outcome is Ok <==> forall|place: Seq<int>|
                        (#[trigger] member_of(entry, place)) matches Some(member)
                            ==> is_proper_name(member.0)
                    &&& outcome matches Ok(object) ==> {
                        &&& object.output == output
                        &&& object.entry == entry
                        &&& object.logical_store_path == plan.store_path
                        &&& object.source matches ObjectSource::Cas { use_case: u } && u == use_case
                        &&& object.execution_kind is Deferred
                    }
                },
            }
        }),
{
    if let Ok(members) = directory {
        let entry = EntryV::Dir(children_model(members@));
        let place = the_first_bad_name_is_found(entry);
        assert(entry->Dir_0 == children_model(members@));
        if fetched_object(output, plan, directory, use_case) is Err {
            assert(member_of(entry, place) is Some);
        }
    }
}

/// An output for a store path is declared exactly if the path is in the store and its staged place
/// could be claimed. Then one artifact is added behind those that were there: of the owner, staged
/// at that place, made from what was asked, standing for the store path, of the type that was
/// asked, and with nothing hidden. Else nothing is added, and the reason is told.
pub proof fn a_declaration_adds_the_artifact_that_was_asked_for(
    before: ActionsRegistry,
    after: ActionsRegistry,
    claim: Result<(), String>,
    logical: Seq<char>,
    output_type: OutputType,
    kind: BuckOutPathKind,
    res: Result<DeclaredArtifact, DeclarationError<String>>,
)
    requires
        declaration(before, after, claim, logical, output_type, kind, res),
    ensures
        after.owner() == before.owner(),
        match (staged_place(logical), claim) {
            (Ok(staged), Ok(_)) => {
                &&& after.artifacts().len() == before.artifacts().len() + 1
                &&& after.artifacts().drop_last() == before.artifacts()
                &&& res matches Ok(declared) && declared@ == after.artifacts().last()
                &&& after.artifacts().last().path.owner == before.owner()
                &&& after.artifacts().last().path.path == staged
                &&& after.artifacts().last().path.kind == kind
                &&& after.artifacts().last().path.logical_store_path == Some(logical)
                &&& after.artifacts().last().output_type == output_type
                &&& after.artifacts().last().hidden == 0
            },
            (Ok(_), Err(e)) => {
                &&& after.artifacts() == before.artifacts()
                &&& res matches Err(error) && error@ == DeclarationError::Failed(e@)
            },
            (Err(e), _) => {
                &&& after.artifacts() == before.artifacts()
                &&& res matches Err(error) && error@ == e
            },
        },
{
    if staged_place(logical) is Ok && claim is Ok {
        let list = before.artifacts();
        assert(after.artifacts().drop_last() =~= list);
    }
}

/// An output can be claimed if its claim was refused, its store path has no staged place, or no
/// artifact was declared for that place, store path, owner and kind.
pub proof fn only_new_outputs_are_claimed(
    registry: ActionsRegistry,
    claim: Result<(), String>,
    logical: Seq<char>,
    kind: BuckOutPathKind,
)
    ensures
        claim_is_new(registry, claim, logical, kind) <==> {
            ||| claim is Err
            ||| staged_place(logical) is Err
            ||| forall|i: int|
                0 <= i < registry.artifacts().len() ==> {
                    let path = (#[trigger] registry.artifacts()[i]).path;
                    ||| path.owner != registry.owner()
                    ||| path.path != staged_place(logical)->Ok_0
                    ||| path.kind != kind
                    ||| path.logical_store_path != Some(logical)
                }
        },
{
}

/// An imported output is declared as one that is made from its contents, of the type that was asked
/// for; where the path or the claim is refused nothing is declared, and where the manifest names no
/// artifact the output stays declared.
pub proof fn an_imported_output_is_declared_first<A, M>(
    before: crate::registry::AnalysisRegistry,
    after: crate::registry::AnalysisRegistry,
    claim: Result<(), String>,
    store: Seq<char>,
    dir: bool,
    manifest: Result<M, String>,
    res: Result<(DeclaredArtifact, A), StoreMethodError<String>>,
)
    requires
        imported(before, after, claim, store, dir, manifest, res),
    ensures
        output_type_of(true) is Directory,
        output_type_of(false) is FileOrDirectory,
        match (staged_place(store), claim) {
            (Ok(staged), Ok(_)) => {
                let last = after.actions.artifacts().last();
                &&& after.actions.artifacts().len() == before.actions.artifacts().len() + 1
                &&& after.actions.artifacts().drop_last() == before.actions.artifacts()
                &&& last.path.owner == before.actions.owner()
                &&& last.path.path == staged
                &&& last.path.kind is ContentHash
                &&& last.path.logical_store_path == Some(store)
                &&& dir <==> last.output_type is Directory
                &&& last.hidden == 0
                &&& match manifest {
                    Ok(_) => res matches Ok(pair) && pair.0@ == last,
                    Err(e) => res matches Err(error) && error@ == StoreMethodError::Manifest(e@),
                }
            },
            (Ok(_), Err(e)) => {
                &&& after.actions.artifacts() == before.actions.artifacts()
                &&& res matches Err(error) && error@ == StoreMethodError::Declaration(
                    DeclarationError::Failed(e@),
                )
            },
            (Err(e), _) => {
                &&& after.actions.artifacts() == before.actions.artifacts()
                &&& res matches Err(error) && error@ == StoreMethodError::Declaration(e)
            },
        },
{
    if staged_place(store) is Ok && claim is Ok {
        let list = before.actions.artifacts();
        assert(after.actions.artifacts().drop_last() =~= list);
    }
}

} // verus!
