//! What holds of every import.

use vstd::prelude::*;

use crate::action::{
    remote_declaration, ActionExecutionKind, BuildArtifactV, ObjectSource, PlanV, StoreDeclarationV,
};
use crate::archive::{
    archive_limit, hash_mismatch, verified_entry, walk, whole_archive, ErrorV,
};
use crate::archive_laws::{
    archive_determines_tree, equal_trees_have_equal_entries, follows, tree_of,
};
use crate::cas_store_import::{
    cas_begun, cas_manifest_check, cas_outcome, cas_step, existing_object, CasImportReply,
    CasStageV,
};
use crate::digest::{digest_text, hash_text, hex_text, sha256, DigestV};
use crate::disk::DiskNode;
use crate::entry::{
    children_model, names_are_members, no_bad_name_is_all_names_good, EntryV, NamedEntry,
};
use crate::json::json_parse;
use crate::manifest::{cas_manifest_verdict, manifest_verdict, ExpectedV};
use crate::sealed::normalized;
use crate::store_import::{import_begun, import_outcome, import_step, ImportReply, ImportStageV};
use crate::text::digit_char;

verus! {

/// An object was found that has the expected canonical hash.
pub open spec fn is_authenticated(root: Result<Option<DiskNode>, String>, hash: Seq<char>) -> bool {
    &&& root matches Ok(Some(node))
    &&& walk(node, seq![]) matches Ok((records, _))
    &&& hash_text(sha256(whole_archive(records))) == hash
}

/// An import declares only objects that were found with the declared hash, under a manifest that
/// says of the object what the import declared.
pub proof fn imports_are_authenticated(
    output: BuildArtifactV,
    manifests: Seq<Result<String, String>>,
    contents: Result<String, String>,
    root: Result<Option<DiskNode>, String>,
    expected: ExpectedV,
    hint: Option<Seq<char>>,
)
    requires
        import_outcome(output, manifests, contents, root, expected, hint) is Ok,
    ensures
        is_authenticated(root, expected.canonical_tree_hash),
        contents matches Ok(text) && json_parse(text@) matches Ok(document) && manifest_verdict(
            document,
            output.path.logical_store_path->0,
            expected,
        ) is Ok,
        import_outcome(output, manifests, contents, root, expected, hint)->Ok_0.entry == walk(
            root->Ok_0->0,
            seq![],
        )->Ok_0.1,
        output.path.logical_store_path == Some(
            import_outcome(output, manifests, contents, root, expected, hint)->Ok_0
                .logical_store_path,
        ),
{
}

/// An import from a content-addressed store takes an object that is at the store path only with
/// the declared hash and sealed, and only under a manifest that names the declared root digest.
pub proof fn cas_imports_reuse_sealed_objects_only(
    output: BuildArtifactV,
    manifests: Seq<Result<String, String>>,
    contents: Result<String, String>,
    root: Result<Option<DiskNode>, String>,
    sealed: Result<Option<DiskNode>, String>,
    expected: ExpectedV,
    digest: DigestV,
)
    requires
        cas_outcome(output, manifests, contents, root, sealed, expected, digest) matches Ok(
            Some(_),
        ),
    ensures
        is_authenticated(root, expected.canonical_tree_hash),
        sealed matches Ok(Some(node)) && normalized(node) == Ok::<bool, ErrorV>(true),
        contents matches Ok(text) && json_parse(text@) matches Ok(document) && manifest_verdict(
            document,
            output.path.logical_store_path->0,
            expected,
        ) is Ok && cas_manifest_verdict(document, digest_text(digest)) is Ok,
        cas_outcome(output, manifests, contents, root, sealed, expected, digest)->Ok_0->0.source
            is Store,
{
}

proof fn lemma_digit_char(a: int, b: int)
    requires
        0 <= a < 16,
        0 <= b < 16,
        digit_char(a) == digit_char(b),
    ensures
        a == b,
{
}

proof fn lemma_hex_injective(a: Seq<u8>, b: Seq<u8>)
    requires
        hex_text(a) == hex_text(b),
    ensures
        a == b,
    decreases a.len(),
{
    if a.len() == 0 {
        if b.len() > 0 {
            assert(hex_text(b).len() > 0);
        }
        assert(a =~= b);
    } else if b.len() == 0 {
        assert(hex_text(a).len() > 0);
    } else {
        let ha = hex_text(a.drop_last());
        let hb = hex_text(b.drop_last());
        let x = (a.last() / 16) as int;
        let y = (a.last() % 16) as int;
        let u = (b.last() / 16) as int;
        let v = (b.last() % 16) as int;
        assert(hex_text(a) == ha.push(digit_char(x)).push(digit_char(y)));
        assert(hex_text(b) == hb.push(digit_char(u)).push(digit_char(v)));
        assert(hex_text(a).last() == digit_char(y));
        assert(hex_text(b).last() == digit_char(v));
        assert(hex_text(a)[hex_text(a).len() - 2] == digit_char(x));
        assert(hex_text(b)[hex_text(b).len() - 2] == digit_char(u));
        lemma_digit_char(x, u);
        lemma_digit_char(y, v);
        assert(ha =~= hex_text(a).drop_last().drop_last());
        assert(hb =~= hex_text(b).drop_last().drop_last());
        lemma_hex_injective(a.drop_last(), b.drop_last());
        assert(a =~= a.drop_last().push(a.last()));
        assert(b =~= b.drop_last().push(b.last()));
    }
}

/// Two objects that are accepted under one hash are the same tree, unless their archives are
/// different byte sequences with one SHA-256 hash.
pub proof fn one_hash_is_one_tree(
    a: DiskNode,
    b: DiskNode,
    store: Seq<char>,
    other_store: Seq<char>,
    hash: Seq<char>,
)
    requires
        verified_entry(store, hash, Ok(Some(a))) is Ok,
        verified_entry(other_store, hash, Ok(Some(b))) is Ok,
    ensures
        ({
            let x = whole_archive(walk(a, seq![])->Ok_0.0);
            let y = whole_archive(walk(b, seq![])->Ok_0.0);
            tree_of(a) == tree_of(b) || (x != y && sha256(x) == sha256(y))
        }),
{
    archive_determines_tree(a, b);
    let x = whole_archive(walk(a, seq![])->Ok_0.0);
    let y = whole_archive(walk(b, seq![])->Ok_0.0);
    let head = "sha256:"@;
    assert(hash_text(sha256(x)).skip(head.len() as int) =~= hex_text(sha256(x)));
    assert(hash_text(sha256(y)).skip(head.len() as int) =~= hex_text(sha256(y)));
    lemma_hex_injective(sha256(x), sha256(y));
}

/// Whether an object is accepted under a hash depends on its tree alone. Beside an object that
/// was accepted, a second one that can be read is accepted with the same entry if it is the same
/// tree; else it is refused with a hash mismatch, unless the two archives are different byte
/// sequences with one SHA-256 hash. Where the object lies, times and other mode bits make no
/// difference. Digests and link members are made from contents and targets alone.
pub proof fn acceptance_is_by_tree(
    a: DiskNode,
    b: DiskNode,
    store: Seq<char>,
    other_store: Seq<char>,
    hash: Seq<char>,
    digest_of: spec_fn(Seq<u8>) -> DigestV,
    member_of: spec_fn(Seq<u8>) -> EntryV,
)
    requires
        follows(a, digest_of, member_of),
        follows(b, digest_of, member_of),
        verified_entry(store, hash, Ok(Some(a))) is Ok,
        walk(b, seq![]) is Ok,
        whole_archive(walk(b, seq![])->Ok_0.0).len() <= archive_limit(),
    ensures
        ({
            let x = whole_archive(walk(a, seq![])->Ok_0.0);
            let y = whole_archive(walk(b, seq![])->Ok_0.0);
            let second = verified_entry(other_store, hash, Ok(Some(b)));
            if tree_of(a) == tree_of(b) {
                second == verified_entry(store, hash, Ok(Some(a)))
            } else {
                ||| second == Err::<Option<EntryV>, ErrorV>(
                    hash_mismatch(other_store, hash, hash_text(sha256(y))),
                )
                ||| x != y && sha256(x) == sha256(y)
            }
        }),
{
    archive_determines_tree(a, b);
    if tree_of(a) == tree_of(b) {
        equal_trees_have_equal_entries(a, b, digest_of, member_of);
    } else if verified_entry(other_store, hash, Ok(Some(b))) is Ok {
        one_hash_is_one_tree(a, b, store, other_store, hash);
    }
}

/// An import that is run step by step gives what it gives in one go: the manifest is read and
/// checked first, and the object is looked at only after it.
pub proof fn an_import_goes_step_by_step(
    output: BuildArtifactV,
    manifests: Seq<Result<String, String>>,
    contents: Result<String, String>,
    root: Result<Option<DiskNode>, String>,
    expected: ExpectedV,
    hint: Option<Seq<char>>,
)
    ensures
        import_step(
            output,
            expected,
            hint,
            import_step(
                output,
                expected,
                hint,
                import_begun(output, manifests),
                ImportReply::Manifest(contents),
            ),
            ImportReply::Found(root),
        ) == ImportStageV::Finished(
            import_outcome(output, manifests, contents, root, expected, hint),
        ),
{
}

/// An import gives a value to its own output and to no other, and declares it with the store path
/// that the output stands for.
pub proof fn imports_declare_their_own_output(
    output: BuildArtifactV,
    manifests: Seq<Result<String, String>>,
    contents: Result<String, String>,
    root: Result<Option<DiskNode>, String>,
    expected: ExpectedV,
    hint: Option<Seq<char>>,
)
    requires
        import_outcome(output, manifests, contents, root, expected, hint) is Ok,
    ensures
        ({
            let object = import_outcome(output, manifests, contents, root, expected, hint)->Ok_0;
            &&& object.output == output.path
            &&& output.path.logical_store_path == Some(object.logical_store_path)
            &&& object.source is Store
            &&& object.execution_kind == ActionExecutionKind::Simple
        }),
{
}

/// Where an import from a content-addressed store stands after a sequence of replies.
pub open spec fn run_cas_import<D>(
    output: BuildArtifactV,
    expected: ExpectedV,
    digest: DigestV,
    use_case: Seq<char>,
    stage: CasStageV<D>,
    replies: Seq<CasImportReply<D>>,
) -> CasStageV<D>
    decreases replies.len(),
{
    if replies.len() == 0 {
        stage
    } else {
        run_cas_import(
            output,
            expected,
            digest,
            use_case,
            cas_step(output, expected, digest, use_case, stage, replies[0]),
            replies.drop_first(),
        )
    }
}

/// What holds of an import from a content-addressed store in every stage.
spec fn cas_stage_fits<D>(
    output: BuildArtifactV,
    use_case: Seq<char>,
    stage: CasStageV<D>,
) -> bool {
    let logical = output.path.logical_store_path;
    match stage {
        CasStageV::ReadingManifest(plan) => logical == Some(plan.store_path),
        CasStageV::Looking(plan) => logical == Some(plan.store_path),
        CasStageV::LookingAgain(plan, _) => logical == Some(plan.store_path),
        CasStageV::FetchingRoot(plan) => logical == Some(plan.store_path),
        CasStageV::FetchingTree(plan, _) => logical == Some(plan.store_path),
        CasStageV::Finished(Ok(object)) => cas_object_fits(output, use_case, object),
        CasStageV::Finished(Err(_)) => true,
    }
}

/// The object is the value of the output and is declared with the output's own store path: at
/// once where its contents are at the store path, and to be fetched for the use case where they
/// are not. The names in a tree that is to be fetched are proper names.
pub open spec fn cas_object_fits(
    output: BuildArtifactV,
    use_case: Seq<char>,
    object: StoreDeclarationV,
) -> bool {
    &&& object.output == output.path
    &&& output.path.logical_store_path == Some(object.logical_store_path)
    &&& match object.source {
        ObjectSource::Store => object.execution_kind == ActionExecutionKind::Simple,
        ObjectSource::Cas { use_case: u } => {
            &&& u == use_case
            &&& object.execution_kind == ActionExecutionKind::Deferred
            &&& object.entry is Dir
            &&& names_are_members(object.entry)
        },
    }
}

proof fn lemma_cas_run_fits<D>(
    output: BuildArtifactV,
    expected: ExpectedV,
    digest: DigestV,
    use_case: Seq<char>,
    stage: CasStageV<D>,
    replies: Seq<CasImportReply<D>>,
)
    requires
        cas_stage_fits(output, use_case, stage),
    ensures
        cas_stage_fits(
            output,
            use_case,
            run_cas_import(output, expected, digest, use_case, stage, replies),
        ),
    decreases replies.len(),
{
    if replies.len() > 0 {
        if let (CasStageV::FetchingTree(plan, _), CasImportReply::Tree(Ok(Ok(members)))) = (
            stage,
            replies[0],
        ) {
            no_bad_name_is_all_names_good(EntryV::Dir(children_model(members@)));
        }
        lemma_cas_run_fits(
            output,
            expected,
            digest,
            use_case,
            cas_step(output, expected, digest, use_case, stage, replies[0]),
            replies.drop_first(),
        );
    }
}

/// An import from a content-addressed store, whatever it is answered, declares only the value of
/// its own output, with the store path that the output stands for; what it leaves to be fetched
/// has proper names only.
pub proof fn cas_imports_declare_their_own_output<D>(
    output: BuildArtifactV,
    manifests: Seq<Result<String, String>>,
    expected: ExpectedV,
    digest: DigestV,
    use_case: Seq<char>,
    replies: Seq<CasImportReply<D>>,
)
    ensures
        match run_cas_import(
            output,
            expected,
            digest,
            use_case,
            cas_begun::<D>(output, manifests),
            replies,
        ) {
            CasStageV::Finished(Ok(object)) => cas_object_fits(output, use_case, object),
            _ => true,
        },
{
    lemma_cas_run_fits(
        output,
        expected,
        digest,
        use_case,
        cas_begun::<D>(output, manifests),
        replies,
    );
}

/// Under a manifest that passes, an object that is not at its store path, or is there with its
/// hash but not sealed, is fetched: the import comes to the stage in which it asks the remote
/// store for the root directory. With the first directory that comes back it asks for the tree,
/// and declares that tree, to be fetched when it is needed.
pub proof fn absent_and_unsealed_objects_are_fetched<D>(
    output: BuildArtifactV,
    plan: PlanV,
    expected: ExpectedV,
    digest: DigestV,
    use_case: Seq<char>,
    contents: Result<String, String>,
    root: Result<Option<DiskNode>, String>,
    sealed: Result<Option<DiskNode>, String>,
    directories: Vec<D>,
    members: Vec<NamedEntry>,
)
    requires
        cas_manifest_check(plan, contents, expected, digest) is Ok,
        existing_object(output.path, plan, expected.canonical_tree_hash, root, sealed) matches Ok(
            None,
        ),
        directories@.len() > 0,
        names_are_members(EntryV::Dir(children_model(members@))),
    ensures
        ({
            let looking = cas_step(
                output,
                expected,
                digest,
                use_case,
                CasStageV::<D>::ReadingManifest(plan),
                CasImportReply::Manifest(contents),
            );
            let looked = cas_step(
                output,
                expected,
                digest,
                use_case,
                looking,
                CasImportReply::Found(root),
            );
            let asked = if looked is LookingAgain {
                cas_step(output, expected, digest, use_case, looked, CasImportReply::Found(sealed))
            } else {
                looked
            };
            let fetched = cas_step(
                output,
                expected,
                digest,
                use_case,
                asked,
                CasImportReply::Directories(Ok(directories)),
            );
            let done = cas_step(
                output,
                expected,
                digest,
                use_case,
                fetched,
                CasImportReply::Tree(Ok(Ok(members))),
            );
            &&& asked == CasStageV::<D>::FetchingRoot(plan)
            &&& fetched == CasStageV::FetchingTree(plan, directories@[0])
            &&& done == CasStageV::<D>::Finished(
                Ok(
                    remote_declaration(
                        output.path,
                        EntryV::Dir(children_model(members@)),
                        plan.store_path,
                        use_case,
                    ),
                ),
            )
        }),
{
    no_bad_name_is_all_names_good(EntryV::Dir(children_model(members@)));
}

} // verus!
