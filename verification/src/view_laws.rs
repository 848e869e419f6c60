//! What contracts see of a value is the value itself, in full: every field of a declaration, a
//! document or an error. And what people see of an error names what it is about.

use vstd::prelude::*;

use crate::abs_path::below_text;
use crate::action::{
    outputs_view, BuildArtifact, BuildArtifactV, ImportPlan, ObjectSource, PlanV,
    RemoteExecutorUseCase, StoreDeclaration, StoreDeclarationV,
};
use crate::archive::{walk_done, ErrorV};
use crate::cas_store_import::{
    cas_begun, cas_error_tag, cas_error_text, cas_outcome_is, cas_plan, CasErrorV, CasImportStage,
    CasStageV, CasStoreImportActionError,
};
use crate::context::{
    method_error_tag, method_error_text, strs, ImportDeclaration, StoreMethodError,
};
use crate::disk::{mode_is_executable, mode_is_writable, sealed_time};
use crate::entry::{EntryV, StoreEntry};
use crate::error::{import_error_tag, import_error_text, ErrorTag, StoreImportActionError};
use crate::json::{
    items_model, json_model, lemma_items_model, lemma_members_model, members_model, Json, JsonValue,
};
use crate::manifest::{check_is, keys, ExpectedStoreManifest, ExpectedV};
use crate::materialize::artifact_job;
use crate::registry::{
    declaration_error_tag, declaration_error_text, declared_view, BuildArtifactPath,
    DeclarationError, DeclaredArtifact,
};
use crate::sealed::verdict_is;
use crate::store_import::{
    hint_view, import_asks, import_begun, import_plan, import_step, ImportReply, ImportRequest,
    ImportStage, ImportStageV,
};
use crate::store_output::{job_of, MaterializeStoreOutput};
use crate::store_path::{identity_error_text, IdentityError};
use crate::task::{
    expansion_is, output_error_tag, output_error_text, tasks_view, ListedEntry, OutputErrorV, Reply,
    ReplyV, Request, StoreOutputError, Task,
};
use crate::text::{decimal_text, texts};
use crate::text_laws::{decimal_value, is_decimal, numerals_stand_for_their_numbers};

verus! {

/// What an import declares is seen field by field, with its lists in their order, whether it is
/// kept or still borrowed.
pub proof fn declared_manifests_are_seen_in_full(
    kept: ExpectedStoreManifest,
    borrowed: ImportDeclaration,
    i: int,
)
    ensures
        kept@.package_name == kept.package_name@,
        kept@.version == kept.version@,
        kept@.output == kept.output@,
        kept@.target_system == kept.target_system@,
        kept@.canonical_tree_hash == kept.canonical_tree_hash@,
        kept@.references.len() == kept.references@.len(),
        0 <= i < kept.references@.len() ==> kept@.references[i] == kept.references@[i]@,
        kept@.runtime_store_outputs.len() == kept.runtime_store_outputs@.len(),
        0 <= i < kept.runtime_store_outputs@.len() ==> kept@.runtime_store_outputs[i]
            == kept.runtime_store_outputs@[i]@,
        borrowed@.package_name == borrowed.package_name@,
        borrowed@.version == borrowed.version@,
        borrowed@.output == borrowed.output@,
        borrowed@.target_system == borrowed.target_system@,
        borrowed@.canonical_tree_hash == borrowed.canonical_tree_hash@,
        borrowed@.references.len() == borrowed.references@.len(),
        0 <= i < borrowed.references@.len() ==> borrowed@.references[i] == borrowed.references@[i]@,
        borrowed@.runtime_store_outputs.len() == borrowed.runtime_store_outputs@.len(),
        0 <= i < borrowed.runtime_store_outputs@.len() ==> borrowed@.runtime_store_outputs[i]
            == borrowed.runtime_store_outputs@[i]@,
{
}

/// A document is seen with its texts, its elements in their order, and its members with key and
/// value in their order.
pub proof fn documents_are_seen_in_full(document: JsonValue, i: int)
    ensures
        match document {
            JsonValue::Text(s) => document@ == Json::Text(s@),
            JsonValue::Array(list) => document@ matches Json::Array(items) && items.len()
                == list@.len() && (0 <= i < list@.len() ==> items[i] == list@[i]@),
            JsonValue::Object(list) => document@ matches Json::Object(members) && members.len()
                == list@.len() && (0 <= i < list@.len() ==> members[i] == (
                list@[i].key@,
                list@[i].value@,
            )),
            JsonValue::Other => document@ is Other,
        },
{
    match document {
        JsonValue::Array(list) => {
            lemma_items_model(list@);
            if 0 <= i < list@.len() {
                assert(items_model(list@)[i] == json_model(list@[i]));
            }
        },
        JsonValue::Object(list) => {
            lemma_members_model(list@);
            if 0 <= i < list@.len() {
                assert(members_model(list@)[i] == (list@[i].key@, json_model(list@[i].value)));
            }
        },
        _ => {},
    }
}

/// The paths of outputs, what is declared and what an import gives are seen field by field.
pub proof fn declarations_are_seen_in_full(
    path: BuildArtifactPath,
    declared: DeclaredArtifact,
    output: BuildArtifact,
    object: StoreDeclaration,
    plan: ImportPlan,
    use_case: RemoteExecutorUseCase,
    hint: Option<String>,
)
    ensures
        path@.owner == path.owner@,
        path@.path == path.path@,
        path@.kind == path.kind,
        path@.logical_store_path == match path.logical_store_path {
            Some(p) => Some(p@),
            None => None,
        },
        declared@.path == declared.path@,
        declared@.output_type == declared.output_type,
        declared@.hidden == declared.hidden,
        output@.path == output.path@,
        output@.shown == output.shown@,
        object@.output == object.output@,
        object@.entry == object.entry@,
        object@.logical_store_path == object.logical_store_path@,
        object@.execution_kind == object.execution_kind,
        match object.source {
            ObjectSource::Store => object@.source is Store,
            ObjectSource::Cas { use_case } => object@.source matches ObjectSource::Cas {
                use_case: u,
            } && u == use_case@,
        },
        plan@.store_path == plan.store_path@,
        plan@.manifest_path == plan.manifest_path@,
        use_case@ == use_case.name@,
        hint_view(hint) == match hint {
            Some(h) => Some(h@),
            None => None,
        },
{
}

/// A job is about the staged tree below the root of the project, the store path, the entry and the
/// sealing that were asked for.
pub proof fn a_job_is_what_was_asked_for(
    request: MaterializeStoreOutput,
    root: Seq<char>,
    staged: Seq<char>,
    store: Seq<char>,
    entry: EntryV,
    seal: bool,
)
    ensures
        job_of(request, root).staged == below_text(root, request.staged_path@),
        job_of(request, root).store == request.store_path@,
        job_of(request, root).entry == request.entry@,
        job_of(request, root).seal == request.seal_cas_transport,
        artifact_job(root, staged, store, entry, seal).staged == below_text(root, staged),
        artifact_job(root, staged, store, entry, seal).store == store,
        artifact_job(root, staged, store, entry, seal).entry == entry,
        artifact_job(root, staged, store, entry, seal).seal == seal,
{
}

/// A mode is executable or writable if one of the three bits for it is set, and the sealed time is
/// one second after the epoch.
pub proof fn modes_and_the_sealed_time(mode: u32)
    ensures
        mode_is_executable(mode) <==> mode & 0o100 != 0 || mode & 0o010 != 0 || mode & 0o001 != 0,
        mode_is_writable(mode) <==> mode & 0o200 != 0 || mode & 0o020 != 0 || mode & 0o002 != 0,
        sealed_time().secs == 1,
        sealed_time().nanos == 0,
{
    assert(mode & 0o111 != 0 <==> mode & 0o100 != 0 || mode & 0o010 != 0 || mode & 0o001 != 0)
        by (bit_vector);
    assert(mode & 0o222 != 0 <==> mode & 0o200 != 0 || mode & 0o020 != 0 || mode & 0o002 != 0)
        by (bit_vector);
}

/// A reply is seen as it came.
pub proof fn replies_are_seen_in_full(reply: Reply, i: int)
    ensures
        match reply {
            Reply::Done => reply@ is Done,
            Reply::Failed { permission_denied, error } => reply@ == (ReplyV::Failed {
                permission_denied,
                error: error@,
            }),
            Reply::Exists(there) => reply@ == ReplyV::Exists(there),
            Reply::Metadata { is_dir, mode, modified } => reply@ == (ReplyV::Metadata {
                is_dir,
                mode,
                modified,
            }),
            Reply::Listing(list) => reply@ matches ReplyV::Listing(items) && items.len()
                == list@.len() && (0 <= i < list@.len() ==> items[i] == list@[i]@),
        },
{
}

/// An import reads the manifest at its path, then looks at the store path, and asks nothing when it
/// is finished; a stage of an import from a content-addressed store is seen with its plan, its
/// entry and its result. A reply that does not belong to the request ends an import with an error.
pub proof fn imports_ask_for_manifest_and_object(
    plan: PlanV,
    output: BuildArtifactV,
    manifests: Seq<Result<String, String>>,
    result: Result<StoreDeclarationV, ErrorV>,
    expected: ExpectedV,
    hint: Option<Seq<char>>,
    manifest: ImportReply,
    found: ImportReply,
)
    requires
        manifest is Manifest,
        found is Found,
    ensures
        import_asks(ImportStageV::ReadingManifest(plan)) == Some(
            ImportRequest::ReadManifest(plan.manifest_path),
        ),
        import_asks(ImportStageV::Looking(plan)) == Some(ImportRequest::Look(plan.store_path)),
        import_asks(ImportStageV::Finished(result)) is None,
        import_begun(output, manifests) == match import_plan(output, manifests) {
            Ok(plan) => ImportStageV::ReadingManifest(plan),
            Err(e) => ImportStageV::Finished(Err(e)),
        },
        import_step(output, expected, hint, ImportStageV::ReadingManifest(plan), found)
            == ImportStageV::Finished(
            Err(StoreImportActionError::Failed("the reply does not belong to the request"@)),
        ),
        import_step(output, expected, hint, ImportStageV::Looking(plan), manifest)
            == ImportStageV::Finished(
            Err(StoreImportActionError::Failed("the reply does not belong to the request"@)),
        ),
        import_step(output, expected, hint, ImportStageV::Finished(result), found)
            == ImportStageV::Finished(result),
        cas_begun::<int>(output, manifests) == match cas_plan(output, manifests) {
            Ok(plan) => CasStageV::<int>::ReadingManifest(plan),
            Err(e) => CasStageV::Finished(Err(e)),
        },
{
}

/// A stage of an import from a content-addressed store is seen with its plan, its entry or
/// directory, and its result.
pub proof fn cas_stages_are_seen_in_full<D>(stage: CasImportStage<D>)
    ensures
        match stage {
            CasImportStage::ReadingManifest(plan) => stage@ == CasStageV::<D>::ReadingManifest(
                plan@,
            ),
            CasImportStage::Looking(plan) => stage@ == CasStageV::<D>::Looking(plan@),
            CasImportStage::LookingAgain(plan, entry) => stage@ == CasStageV::<D>::LookingAgain(
                plan@,
                entry@,
            ),
            CasImportStage::FetchingRoot(plan) => stage@ == CasStageV::<D>::FetchingRoot(plan@),
            CasImportStage::FetchingTree(plan, directory) => stage@ == CasStageV::FetchingTree(
                plan@,
                directory,
            ),
            CasImportStage::Finished(Ok(object)) => stage@ == CasStageV::<D>::Finished(Ok(object@)),
            CasImportStage::Finished(Err(e)) => stage@ == CasStageV::<D>::Finished(Err(e@)),
        },
{
}

/// A request is seen as it is, with all its paths.
pub proof fn requests_are_seen_in_full(request: Request<String>)
    ensures
        match (request, request@) {
            (Request::CreateDirAll(p), Request::CreateDirAll(q)) => p@ == q,
            (Request::CreateLock(p), Request::CreateLock(q)) => p@ == q,
            (Request::LockExclusive, Request::LockExclusive) => true,
            (Request::TryExists(p), Request::TryExists(q)) => p@ == q,
            (Request::RemoveAll(p), Request::RemoveAll(q)) => p@ == q,
            (Request::Inspect(p), Request::Inspect(q)) => p@ == q,
            (
                Request::SetMode { path: p, mode: m },
                Request::SetMode { path: q, mode: n },
            ) => p@ == q && m == n,
            (
                Request::SetModified { path: p, modified: m },
                Request::SetModified { path: q, modified: n },
            ) => p@ == q && m == n,
            (
                Request::SetSymlinkModified { path: p, modified: m },
                Request::SetSymlinkModified { path: q, modified: n },
            ) => p@ == q && m == n,
            (Request::ReadDir(p), Request::ReadDir(q)) => p@ == q,
            (
                Request::MaterializeDirsAndSymlinks { dest: p },
                Request::MaterializeDirsAndSymlinks { dest: q },
            ) => p@ == q,
            (
                Request::MaterializeFiles { src: a, dest: p },
                Request::MaterializeFiles { src: b, dest: q },
            ) => a@ == b && p@ == q,
            (
                Request::Rename { from: a, to: p },
                Request::Rename { from: b, to: q },
            ) => a@ == b && p@ == q,
            _ => false,
        },
{
}

/// A task is seen as it is, with all its paths.
pub proof fn tasks_are_seen_in_full(task: Task<String>)
    ensures
        match (task, task@) {
            (Task::Do(r), Task::Do(q)) => r@ == q,
            (Task::Seal(p), Task::Seal(q)) => p@ == q,
            (
                Task::PreserveNative { src: a, dest: p, directory: d },
                Task::PreserveNative { src: b, dest: q, directory: e },
            ) => a@ == b && p@ == q && d == e,
            (
                Task::PreserveSymlink { src: a, dest: p },
                Task::PreserveSymlink { src: b, dest: q },
            ) => a@ == b && p@ == q,
            (Task::RemoveTree(p), Task::RemoveTree(q)) => p@ == q,
            (Task::MakeRemovable(p), Task::MakeRemovable(q)) => p@ == q,
            (Task::VisitDirectory(p), Task::VisitDirectory(q)) => p@ == q,
            (Task::Arm(p), Task::Arm(q)) => p@ == q,
            (Task::Fail(p), Task::Fail(q)) => p@ == q,
            _ => false,
        },
{
}

/// An item of a listing is seen as it is.
pub proof fn listed_items_are_seen_in_full(item: ListedEntry<String>)
    ensures
        match (item, item@) {
            (ListedEntry::Failed(e), ListedEntry::Failed(f)) => e@ == f,
            (ListedEntry::Other, ListedEntry::Other) => true,
            (ListedEntry::Directory(p), ListedEntry::Directory(q)) => p@ == q,
            _ => false,
        },
{
}

/// A stage of an import is seen with its plan and its result.
pub proof fn import_stages_are_seen_in_full(stage: ImportStage)
    ensures
        match stage {
            ImportStage::ReadingManifest(plan) => stage@ == ImportStageV::ReadingManifest(plan@),
            ImportStage::Looking(plan) => stage@ == ImportStageV::Looking(plan@),
            ImportStage::Finished(Ok(object)) => stage@ == ImportStageV::Finished(Ok(object@)),
            ImportStage::Finished(Err(e)) => stage@ == ImportStageV::Finished(Err(e@)),
        },
{
}

/// Lists are seen item by item, in their order.
pub proof fn lists_are_seen_in_order(
    owned: Seq<String>,
    borrowed: Seq<&str>,
    tasks: Seq<Task<String>>,
    outputs: Seq<BuildArtifact>,
    artifacts: Seq<DeclaredArtifact>,
    i: int,
)
    ensures
        texts(owned).len() == owned.len(),
        0 <= i < owned.len() ==> texts(owned)[i] == owned[i]@,
        strs(borrowed).len() == borrowed.len(),
        0 <= i < borrowed.len() ==> strs(borrowed)[i] == borrowed[i]@,
        keys(borrowed).len() == borrowed.len(),
        0 <= i < borrowed.len() ==> keys(borrowed)[i] == borrowed[i]@,
        tasks_view(tasks).len() == tasks.len(),
        0 <= i < tasks.len() ==> tasks_view(tasks)[i] == tasks[i]@,
        outputs_view(outputs).len() == outputs.len(),
        0 <= i < outputs.len() ==> outputs_view(outputs)[i] == outputs[i]@,
        declared_view(artifacts).len() == artifacts.len(),
        0 <= i < artifacts.len() ==> declared_view(artifacts)[i] == artifacts[i]@,
{
}

/// What a check or a walk gives agrees with one outcome only: the one with its value, or with its
/// error. A walk that succeeds adds its records behind what was there.
pub proof fn outcomes_are_seen_in_full(
    check: Result<(), StoreImportActionError<String>>,
    check_model: Result<(), ErrorV>,
    verdict: Result<bool, StoreImportActionError<String>>,
    verdict_model: Result<bool, ErrorV>,
    walked: Result<StoreEntry, StoreImportActionError<String>>,
    walk_model: Result<(Seq<u8>, EntryV), ErrorV>,
    before: Seq<u8>,
    after: Seq<u8>,
    expansion: Result<Vec<Task<String>>, StoreOutputError<String>>,
    expansion_model: Result<Seq<Task<Seq<char>>>, OutputErrorV>,
    found: Result<Option<StoreDeclaration>, CasStoreImportActionError<String>>,
    found_model: Result<Option<StoreDeclarationV>, CasErrorV>,
)
    ensures
        check_is(check, check_model) <==> match (check, check_model) {
            (Ok(_), Ok(_)) => true,
            (Err(e), Err(m)) => e@ == m,
            _ => false,
        },
        verdict_is(verdict, verdict_model) <==> match (verdict, verdict_model) {
            (Ok(b), Ok(m)) => b == m,
            (Err(e), Err(m)) => e@ == m,
            _ => false,
        },
        walk_done(walk_model, before, after, walked) <==> match (walked, walk_model) {
            (Ok(entry), Ok((records, m))) => entry@ == m && after == before + records,
            (Err(e), Err(m)) => e@ == m,
            _ => false,
        },
        expansion_is(expansion, expansion_model) <==> match (expansion, expansion_model) {
            (Ok(tasks), Ok(m)) => tasks_view(tasks@) == m,
            (Err(e), Err(m)) => e@ == m,
            _ => false,
        },
        cas_outcome_is(found, found_model) <==> match (found, found_model) {
            (Ok(Some(object)), Ok(Some(m))) => object@ == m,
            (Ok(None), Ok(None)) => true,
            (Err(e), Err(m)) => e@ == m,
            _ => false,
        },
{
}

/// An error of an import is seen as what it is, with all its texts.
pub proof fn import_errors_are_seen_in_full(e: StoreImportActionError<String>)
    ensures
        match (e, e@) {
            (
                StoreImportActionError::WrongNumberOfOutputs(a),
                StoreImportActionError::WrongNumberOfOutputs(b),
            ) => a == b,
            (
                StoreImportActionError::MissingLogicalStorePath(a),
                StoreImportActionError::MissingLogicalStorePath(b),
            ) => a@ == b,
            (
                StoreImportActionError::InvalidStorePath(a),
                StoreImportActionError::InvalidStorePath(b),
            ) => a@ == b,
            (
                StoreImportActionError::InvalidCanonicalTreeHash(a),
                StoreImportActionError::InvalidCanonicalTreeHash(b),
            ) => a@ == b,
            (
                StoreImportActionError::ManifestInputNotSingleton,
                StoreImportActionError::ManifestInputNotSingleton,
            ) => true,
            (
                StoreImportActionError::InvalidManifest { path: p, error: a },
                StoreImportActionError::InvalidManifest { path: q, error: b },
            ) => p@ == q && a@ == b,
            (
                StoreImportActionError::ManifestMetadataMismatch { field: a },
                StoreImportActionError::ManifestMetadataMismatch { field: b },
            ) => a@ == b,
            (
                StoreImportActionError::CanonicalTreePathTooLong(a),
                StoreImportActionError::CanonicalTreePathTooLong(b),
            ) => a@ == b,
            (
                StoreImportActionError::UnsupportedStoreEntry(a),
                StoreImportActionError::UnsupportedStoreEntry(b),
            ) => a@ == b,
            (
                StoreImportActionError::CanonicalTreeHashMismatch {
                    store_path: p,
                    expected: x,
                    actual: a,
                },
                StoreImportActionError::CanonicalTreeHashMismatch {
                    store_path: q,
                    expected: y,
                    actual: b,
                },
            ) => p@ == q && x@ == y && a@ == b,
            (
                StoreImportActionError::NonUtf8Entry { directory: a },
                StoreImportActionError::NonUtf8Entry { directory: b },
            ) => a@ == b,
            (
                StoreImportActionError::InvalidFileName(a),
                StoreImportActionError::InvalidFileName(b),
            ) => a@ == b,
            (
                StoreImportActionError::ChangedWhileImported(a),
                StoreImportActionError::ChangedWhileImported(b),
            ) => a@ == b,
            (
                StoreImportActionError::ArchiveTooLarge,
                StoreImportActionError::ArchiveTooLarge,
            ) => true,
            (
                StoreImportActionError::Absent { store_path: p, hint: a },
                StoreImportActionError::Absent { store_path: q, hint: b },
            ) => p@ == q && a@ == b,
            (
                StoreImportActionError::Reading { context: p, error: a },
                StoreImportActionError::Reading { context: q, error: b },
            ) => p@ == q && a@ == b,
            (StoreImportActionError::Failed(a), StoreImportActionError::Failed(b)) => a@ == b,
            _ => false,
        },
{
}

/// The other errors are seen as what they are, with all their texts.
pub proof fn other_errors_are_seen_in_full(
    output: StoreOutputError<String>,
    identity: IdentityError<String>,
    declaration: DeclarationError<String>,
    cas: CasStoreImportActionError<String>,
    method: StoreMethodError<String>,
)
    ensures
        match (output, output@) {
            (
                StoreOutputError::InvalidStorePath(a),
                StoreOutputError::InvalidStorePath(b),
            ) => a@ == b,
            (StoreOutputError::WritablePath(a), StoreOutputError::WritablePath(b)) => a@ == b,
            (StoreOutputError::BeforeEpoch(a), StoreOutputError::BeforeEpoch(b)) => a@ == b,
            (StoreOutputError::Disappeared(a), StoreOutputError::Disappeared(b)) => a@ == b,
            (StoreOutputError::Unverifiable(a), StoreOutputError::Unverifiable(b)) => a@ == b,
            (StoreOutputError::Mismatch(a), StoreOutputError::Mismatch(b)) => a@ == b,
            (StoreOutputError::Failed(a), StoreOutputError::Failed(b)) => a@ == b,
            (StoreOutputError::UnexpectedReply, StoreOutputError::UnexpectedReply) => true,
            _ => false,
        },
        match (identity, identity@) {
            (IdentityError::InvalidKey(a), IdentityError::InvalidKey(b)) => a@ == b,
            (IdentityError::InvalidName(a), IdentityError::InvalidName(b)) => a@ == b,
            _ => false,
        },
        match (declaration, declaration@) {
            (DeclarationError::NotUnderStore(a), DeclarationError::NotUnderStore(b)) => a@ == b,
            (DeclarationError::NoEntry, DeclarationError::NoEntry) => true,
            (DeclarationError::Failed(a), DeclarationError::Failed(b)) => a@ == b,
            _ => false,
        },
        match (cas, cas@) {
            (
                CasStoreImportActionError::WrongNumberOfOutputs(a),
                CasStoreImportActionError::WrongNumberOfOutputs(b),
            ) => a == b,
            (
                CasStoreImportActionError::MissingLogicalStorePath(a),
                CasStoreImportActionError::MissingLogicalStorePath(b),
            ) => a@ == b,
            (
                CasStoreImportActionError::ManifestInputNotSingleton,
                CasStoreImportActionError::ManifestInputNotSingleton,
            ) => true,
            (CasStoreImportActionError::Import(a), CasStoreImportActionError::Import(b)) => a@ == b,
            _ => false,
        },
        match (method, method@) {
            (
                StoreMethodError::InvalidRootDigest { digest: p, error: a },
                StoreMethodError::InvalidRootDigest { digest: q, error: b },
            ) => p@ == q && a@ == b,
            (StoreMethodError::Declaration(a), StoreMethodError::Declaration(b)) => a@ == b,
            (StoreMethodError::Manifest(a), StoreMethodError::Manifest(b)) => a@ == b,
            _ => false,
        },
{
}

/// The text begins with this, ends with that, and has the middle between.
pub open spec fn is_made_of(
    text: Seq<char>,
    begin: Seq<char>,
    middle: Seq<char>,
    end: Seq<char>,
) -> bool {
    text == begin + middle + end
}

/// The message for an import error says what is wrong and names what it is about.
pub proof fn import_messages_name_what_they_are_about(
    e: ErrorV,
)
    ensures
        ({
            let text = import_error_text(e);
            match e {
                StoreImportActionError::WrongNumberOfOutputs(n) => {
                    let begin = "store import action should have exactly 1 output, got "@;
                    &&& text.take(begin.len() as int) == begin
                    &&& is_decimal(text.skip(begin.len() as int))
                    &&& decimal_value(text.skip(begin.len() as int)) == n
                },
                StoreImportActionError::MissingLogicalStorePath(s) => is_made_of(
                    text,
                    "store import output does not carry a logical store path: `"@,
                    s,
                    seq!['`'],
                ),
                StoreImportActionError::InvalidStorePath(s) => is_made_of(
                    text,
                    "store path is not absolute and normalized: `"@,
                    s,
                    seq!['`'],
                ),
                StoreImportActionError::InvalidCanonicalTreeHash(s) => is_made_of(
                    text,
                    "canonical store tree hash must be a `sha256:` digest: `"@,
                    s,
                    seq!['`'],
                ),
                StoreImportActionError::ManifestInputNotSingleton => text
                    == "store import manifest input must resolve to exactly one artifact"@,
                StoreImportActionError::InvalidManifest { path, error } => text
                    == "failed to parse store manifest `"@ + path + "`: "@ + error,
                StoreImportActionError::ManifestMetadataMismatch { field } => is_made_of(
                    text,
                    "store manifest metadata field `"@,
                    field,
                    "` does not match its import declaration"@,
                ),
                StoreImportActionError::CanonicalTreePathTooLong(s) => is_made_of(
                    text,
                    "canonical store tree path is too long for the archive format: `"@,
                    s,
                    seq!['`'],
                ),
                StoreImportActionError::UnsupportedStoreEntry(s) => is_made_of(
                    text,
                    "hydrated store object contains unsupported filesystem entry: `"@,
                    s,
                    seq!['`'],
                ),
                StoreImportActionError::CanonicalTreeHashMismatch {
                    store_path,
                    expected,
                    actual,
                } => text == "hydrated store object `"@ + store_path
                    + "` does not match canonical tree hash: expected "@ + expected + ", got "@
                    + actual,
                StoreImportActionError::NonUtf8Entry { directory } => is_made_of(
                    text,
                    "hydrated store object contains a non-UTF-8 entry below `"@,
                    directory,
                    seq!['`'],
                ),
                StoreImportActionError::InvalidFileName(s) => is_made_of(
                    text,
                    "file name is not a single path entry: `"@,
                    s,
                    seq!['`'],
                ),
                StoreImportActionError::ChangedWhileImported(s) => is_made_of(
                    text,
                    "hydrated store file `"@,
                    s,
                    "` changed while it was imported"@,
                ),
                StoreImportActionError::ArchiveTooLarge => text
                    == "canonical store tree is too large to be hashed"@,
                StoreImportActionError::Absent { store_path, hint } => text
                    == "Hydrated store object `"@ + store_path + "` is absent."@ + hint,
                StoreImportActionError::Reading { context, error } => is_made_of(
                    text,
                    context,
                    seq![':', ' '],
                    error,
                ),
                StoreImportActionError::Failed(s) => text == s,
            }
        }),
{
    reveal_strlit("`");
    assert("`"@ =~= seq!['`']);
    reveal_strlit(": ");
    assert(": "@ =~= seq![':', ' ']);
    if let StoreImportActionError::WrongNumberOfOutputs(n) = e {
        let begin = "store import action should have exactly 1 output, got "@;
        let text = import_error_text(e);
        numerals_stand_for_their_numbers(n as nat);
        assert(text.take(begin.len() as int) =~= begin);
        assert(text.skip(begin.len() as int) =~= decimal_text(n as nat));
    }
}

/// The messages for the other errors say what is wrong and name what it is about.
pub proof fn other_messages_name_what_they_are_about(
    output: OutputErrorV,
    identity: IdentityError<Seq<char>>,
    declaration: DeclarationError<Seq<char>>,
    cas: CasErrorV,
    method: StoreMethodError<Seq<char>>,
)
    ensures
        ({
            let text = output_error_text(output);
            match output {
                StoreOutputError::InvalidStorePath(p) => is_made_of(
                    text,
                    "store path is not absolute and normalized: `"@,
                    p,
                    seq!['`'],
                ),
                StoreOutputError::WritablePath(p) => is_made_of(
                    text,
                    "Store output producer emitted writable path `"@,
                    p,
                    seq!['`'],
                ),
                StoreOutputError::BeforeEpoch(p) => is_made_of(
                    text,
                    "symbolic link was modified before the epoch: `"@,
                    p,
                    seq!['`'],
                ),
                StoreOutputError::Disappeared(p) => is_made_of(
                    text,
                    "Store output disappeared while verifying `"@,
                    p,
                    seq!['`'],
                ),
                StoreOutputError::Unverifiable(p) => is_made_of(
                    text,
                    "Unable to verify existing store output `"@,
                    p,
                    seq!['`'],
                ),
                StoreOutputError::Mismatch(p) => is_made_of(
                    text,
                    "Existing store output `"@,
                    p,
                    "` does not match the artifact Buck2 recorded"@,
                ),
                StoreOutputError::Failed(e) => text == e,
                StoreOutputError::UnexpectedReply => text
                    == "the file system gave a reply of the wrong kind"@,
            }
        }),
        match identity {
            IdentityError::InvalidKey(s) => is_made_of(
                identity_error_text(identity),
                "store path key must be a 32-character lowercase hex digest prefix: `"@,
                s,
                seq!['`'],
            ),
            IdentityError::InvalidName(s) => is_made_of(
                identity_error_text(identity),
                "store name must be a non-empty single path entry: `"@,
                s,
                seq!['`'],
            ),
        },
        match declaration {
            DeclarationError::NotUnderStore(s) => is_made_of(
                declaration_error_text(declaration),
                "store output path must be under `/pkgs/store`: `"@,
                s,
                seq!['`'],
            ),
            DeclarationError::NoEntry => declaration_error_text(declaration)
                == "store output path must name an entry below `/pkgs/store`"@,
            DeclarationError::Failed(s) => declaration_error_text(declaration) == s,
        },
        ({
            let text = cas_error_text(cas);
            match cas {
                CasStoreImportActionError::WrongNumberOfOutputs(n) => {
                    let begin = "CAS store import action should have exactly 1 output, got "@;
                    &&& text.take(begin.len() as int) == begin
                    &&& is_decimal(text.skip(begin.len() as int))
                    &&& decimal_value(text.skip(begin.len() as int)) == n
                },
                CasStoreImportActionError::MissingLogicalStorePath(s) => is_made_of(
                    text,
                    "CAS store import output does not carry a logical store path: `"@,
                    s,
                    seq!['`'],
                ),
                CasStoreImportActionError::ManifestInputNotSingleton => text
                    == "CAS store import manifest input must resolve to exactly one artifact"@,
                CasStoreImportActionError::Import(e) => text == import_error_text(e),
            }
        }),
        match method {
            StoreMethodError::InvalidRootDigest { digest, error } => method_error_text(method)
                == "Not a valid RE store root digest: `"@ + digest + "`: "@ + error,
            StoreMethodError::Declaration(e) => method_error_text(method)
                == declaration_error_text(e),
            StoreMethodError::Manifest(e) => method_error_text(method) == e,
        },
{
    reveal_strlit("`");
    assert("`"@ =~= seq!['`']);
    reveal_strlit(": ");
    reveal_strlit("`: ");
    assert("`: "@ =~= "`"@ + ": "@);
    if let CasStoreImportActionError::WrongNumberOfOutputs(n) = cas {
        let begin = "CAS store import action should have exactly 1 output, got "@;
        let text = cas_error_text(cas);
        numerals_stand_for_their_numbers(n as nat);
        assert(text.take(begin.len() as int) =~= begin);
        assert(text.skip(begin.len() as int) =~= decimal_text(n as nat));
    }
    if let StoreMethodError::InvalidRootDigest { digest, error } = method {
        assert(method_error_text(method) =~= "Not a valid RE store root digest: `"@ + digest
            + "`: "@ + error);
    }
}

/// An error that an import, a declaration or a placement found in what it was given is for the
/// user; one about what was found at a store path afterwards is for whoever looks after placement;
/// one that was passed on, or met while reading, has no tag of its own.
pub proof fn errors_are_for_whoever_can_mend_them(
    import: ErrorV,
    output: OutputErrorV,
    declaration: DeclarationError<Seq<char>>,
    cas: CasErrorV,
    method: StoreMethodError<Seq<char>>,
)
    ensures
        import_error_tag(import) is None <==> {
            ||| import is InvalidStorePath
            ||| import is InvalidFileName
            ||| import is ArchiveTooLarge
            ||| import is Reading
            ||| import is Failed
        },
        import_error_tag(import) is Some ==> import_error_tag(import) == Some(ErrorTag::Input),
        output_error_tag(output) == if output is WritablePath {
            Some(ErrorTag::Input)
        } else if output is Disappeared || output is Unverifiable || output is Mismatch {
            Some(ErrorTag::MaterializationError)
        } else {
            None
        },
        declaration_error_tag(declaration) == if declaration is Failed {
            None
        } else {
            Some(ErrorTag::Input)
        },
        cas_error_tag(cas) == match cas {
            CasStoreImportActionError::Import(e) => import_error_tag(e),
            _ => Some(ErrorTag::Input),
        },
        method_error_tag(method) == match method {
            StoreMethodError::Declaration(e) => declaration_error_tag(e),
            _ => None,
        },
{
}

} // verus!
