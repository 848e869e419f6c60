//! What the operations give for all arguments: each law takes the arguments and the result of a
//! call and says how the one follows from the other.

use vstd::prelude::*;

use crate::abs_path::{AbsNormPathBuf, ForwardRelativePathBuf};
use crate::action::{ActionKind, BuildArtifact};
use crate::archive::check_tree_hash;
use crate::cas_store_import::{
    CasStoreImportAction, CasStoreImportActionError, UnregisteredCasStoreImportAction,
};
use crate::digest::{is_sha256_hash, tree_hash_text, FileDigest};
use crate::disk::{is_executable, is_writable, sealed_modified, sealed_time, DiskNode, Timestamp};
use crate::entry::{names_are_distinct, StoreEntry};
use crate::entry_laws::{
    are_alike, are_alike_throughout, files_and_links_are_compared_in_full,
    objects_are_the_same_if_alike_at_every_path, only_the_recorded_object_is_accepted,
};
use crate::error::StoreImportActionError;
use crate::json::{Json, JsonValue};
use crate::manifest::{verify_cas_manifest, verify_manifest, ExpectedStoreManifest};
use crate::manifest_laws::{
    a_manifest_names_the_published_root, a_manifest_passes_with_every_declared_field, holds,
    holds_below, text_array,
};
use crate::materialize::{materialize_store_output, Realization};
use crate::outcome_laws::{an_import_has_one_output_with_a_store_path, is_absolute_and_normalized};
use crate::path_laws::{
    absolute_paths_are_all_without_dots, components_are_the_pieces_that_are_not_empty,
    every_identity_has_its_path, forward_paths_are_all_without_dots, names_are_joined_with_slashes,
    stands_between_slashes, with_slashes,
};
use crate::paths::{components, pieces};
use crate::registry::BuildArtifactPath;
use crate::sealed::{
    has_normalized_sealed_store_metadata, has_normalized_sealed_store_metadata_inner,
};
use crate::sealed_laws::{
    the_check_decides_every_readable_tree, the_check_passes_what_is_sealed_throughout,
    tree_has_sealed_metadata, tree_is_readable,
};
use crate::store_import::{StoreImportAction, UnregisteredStoreImportAction};
use crate::store_output::{verify_store_output, ReadBack};
use crate::store_path::{store_root, IdentityError, StarlarkStorePath};
use crate::task::{
    seal_cas_output_path, sealed_mode, set_symlink_modified_time, tasks_view, Request,
    StoreOutputError, Task,
};
use crate::text::{decimal, texts};
use crate::text_laws::{
    decimal_value, digest_text_holds_hash_and_size, hash_form_is_exact,
    hash_text_gives_the_hash_back, hex_pair, is_decimal, numerals_stand_for_their_numbers,
};
use crate::view_laws::modes_and_the_sealed_time;

verus! {

/// An absolute path is taken if it goes through neither `.` nor `..`, and is kept as it is.
pub proof fn absolute_paths_are_taken_as_they_are(text: &str, res: Option<AbsNormPathBuf>)
    requires
        call_ensures(AbsNormPathBuf::parse, (text,), res),
    ensures
        res is Some <==> is_absolute_and_normalized(text@),
        res matches Some(path) ==> path@ == text@,
{
    absolute_paths_are_all_without_dots(text@);
}

/// A relative path is taken if it is empty or made of names other than `.` and `..`, and is kept as
/// it is.
pub proof fn relative_paths_are_taken_as_they_are(text: &str, res: Option<ForwardRelativePathBuf>)
    requires
        call_ensures(ForwardRelativePathBuf::parse, (text,), res),
    ensures
        res is Some <==> text@.len() == 0 || {
            &&& !stands_between_slashes(text@, seq![])
            &&& !stands_between_slashes(text@, seq!['.'])
            &&& !stands_between_slashes(text@, seq!['.', '.'])
        },
        res matches Some(path) ==> path@ == text@,
{
    forward_paths_are_all_without_dots(text@);
}

/// A relative path is appended behind a slash, a suffix without one.
pub proof fn paths_are_extended_at_the_end(
    path: AbsNormPathBuf,
    relative: ForwardRelativePathBuf,
    suffix: &str,
    below: AbsNormPathBuf,
    beside: AbsNormPathBuf,
)
    requires
        call_ensures(AbsNormPathBuf::join, (&path, &relative), below),
        call_ensures(AbsNormPathBuf::with_suffix, (&path, suffix), beside),
        path@.len() > 0,
    ensures
        below@ == if relative@.len() == 0 {
            path@
        } else if path@.last() == '/' {
            path@ + relative@
        } else {
            path@ + seq!['/'] + relative@
        },
        beside@ == path@ + suffix@,
{
    reveal_strlit("/");
    assert("/"@ =~= seq!['/']);
}

/// What is left of a path behind a path above it are its further names; there is nothing if it does
/// not begin with the names of the other.
pub proof fn what_is_left_are_the_further_names(
    path: AbsNormPathBuf,
    base: AbsNormPathBuf,
    res: Option<ForwardRelativePathBuf>,
)
    requires
        call_ensures(AbsNormPathBuf::strip_prefix, (&path, &base), res),
    ensures
        ({
            let names = pieces(path@).filter(|piece: Seq<char>| piece.len() > 0);
            let above = pieces(base@).filter(|piece: Seq<char>| piece.len() > 0);
            &&& res is Some <==> above.len() <= names.len() && names.take(above.len() as int)
                == above
            &&& res matches Some(rest) ==> rest@ == with_slashes(names.skip(above.len() as int))
        }),
{
    components_are_the_pieces_that_are_not_empty(path@);
    components_are_the_pieces_that_are_not_empty(base@);
    let names = components(path@);
    let above = components(base@);
    if above.len() <= names.len() {
        names_are_joined_with_slashes(names.skip(above.len() as int));
        assert(names.take(above.len() as int) == names.subrange(0, above.len() as int));
    }
}

/// Two paths of outputs are the same if they have the same owner, path and kind, and the same store
/// path or none.
pub proof fn paths_of_outputs_are_compared_in_full(
    a: BuildArtifactPath,
    b: BuildArtifactPath,
    res: bool,
)
    requires
        call_ensures(BuildArtifactPath::same, (&a, &b), res),
    ensures
        res <==> {
            &&& a.owner@ == b.owner@
            &&& a.path@ == b.path@
            &&& a.kind == b.kind
            &&& match (a.logical_store_path, b.logical_store_path) {
                (Some(p), Some(q)) => p@ == q@,
                (None, None) => true,
                _ => false,
            }
        },
{
}

/// The store path of an identity is below the store, and names the key and the name. A key that is
/// not made of 32 lower-case hexadecimal digits is refused, and else a name that does not stand
/// for one entry, and nothing else.
pub proof fn identities_give_their_paths(
    key: &str,
    name: &str,
    res: Result<StarlarkStorePath, IdentityError<String>>,
)
    requires
        call_ensures(StarlarkStorePath::from_identity, (key, name), res),
    ensures
        ({
            let key_is_good = key@.len() == 32 && forall|i: int|
                0 <= i < key@.len() ==> ('0' <= #[trigger] key@[i] && key@[i] <= '9') || ('a'
                    <= key@[i] && key@[i] <= 'f');
            let name_is_good = {
                &&& name@.len() > 0
                &&& name@ != seq!['.']
                &&& name@ != seq!['.', '.']
                &&& forall|i: int| 0 <= i < name@.len() ==> #[trigger] name@[i] != '/'
            };
            match res {
                Ok(path) => key_is_good && name_is_good && path@ == "/pkgs/store/"@ + key@ + seq![
                    '-',
                ] + name@,
                Err(IdentityError::InvalidKey(k)) => !key_is_good && k@ == key@,
                Err(IdentityError::InvalidName(n)) => key_is_good && !name_is_good && n@ == name@,
            }
        }),
{
    every_identity_has_its_path(key@, name@);
}

/// The store is at `/pkgs/store`.
pub proof fn the_store_has_its_place(res: AbsNormPathBuf)
    requires
        call_ensures(store_root, (), res),
    ensures
        res@ == seq!['/', 'p', 'k', 'g', 's', '/', 's', 't', 'o', 'r', 'e'],
{
    reveal_strlit("/pkgs/store");
    assert("/pkgs/store"@ =~= seq!['/', 'p', 'k', 'g', 's', '/', 's', 't', 'o', 'r', 'e']);
}

/// A numeral stands for its number, a hash text for its hash, and a digest text for its digest.
pub proof fn texts_stand_for_their_values(
    n: u64,
    numeral: String,
    hash: &[u8],
    hash_text: String,
    digest: FileDigest,
    digest_text: String,
)
    requires
        call_ensures(decimal, (n,), numeral),
        call_ensures(tree_hash_text, (hash,), hash_text),
        call_ensures(FileDigest::to_text, (&digest,), digest_text),
    ensures
        is_decimal(numeral@) && decimal_value(numeral@) == n,
        hash_text@.len() == 7 + 2 * hash@.len(),
        hash_text@.take(7) == seq!['s', 'h', 'a', '2', '5', '6', ':'],
        forall|i: int|
            0 <= i < hash@.len() ==> hex_pair(hash_text@[7 + 2 * i], hash_text@[8 + 2 * i])
                == #[trigger] hash@[i],
        ({
            let raw = digest@.raw.len() as int;
            &&& digest_text@.len() > raw + 1
            &&& digest_text@.take(raw) == digest@.raw
            &&& digest_text@[raw] == ':'
            &&& is_decimal(digest_text@.skip(raw + 1))
            &&& decimal_value(digest_text@.skip(raw + 1)) == digest.size
        }),
{
    numerals_stand_for_their_numbers(n as nat);
    hash_text_gives_the_hash_back(hash@);
    digest_text_holds_hash_and_size(digest@);
}

/// A text has the form of a hash if 64 hexadecimal digits stand behind `sha256:`.
pub proof fn hash_texts_are_recognized(value: &str, res: bool)
    requires
        call_ensures(is_sha256_hash, (value,), res),
    ensures
        res <==> {
            &&& value@.len() == 71
            &&& value@.take(7) == seq!['s', 'h', 'a', '2', '5', '6', ':']
            &&& forall|i: int|
                7 <= i < value@.len() ==> ('0' <= #[trigger] value@[i] && value@[i] <= '9') || ('a'
                    <= value@[i] && value@[i] <= 'f') || ('A' <= value@[i] && value@[i] <= 'F')
        },
{
    hash_form_is_exact(value@);
    let head = seq!['s', 'h', 'a', '2', '5', '6', ':'];
    if value@.len() == 71 {
        if value@.take(7) == head {
            assert(forall|i: int| 0 <= i < 7 ==> value@[i] == #[trigger] value@.take(7)[i]);
            assert(value@.take(7)[0] == 's' && value@.take(7)[1] == 'h' && value@.take(7)[2] == 'a'
                && value@.take(7)[3] == '2' && value@.take(7)[4] == '5' && value@.take(7)[5] == '6'
                && value@.take(7)[6] == ':');
        }
        if is_sha256_prefix(value@) {
            assert(value@.take(7) =~= head);
        }
    }
}

spec fn is_sha256_prefix(text: Seq<char>) -> bool {
    &&& text[0] == 's'
    &&& text[1] == 'h'
    &&& text[2] == 'a'
    &&& text[3] == '2'
    &&& text[4] == '5'
    &&& text[5] == '6'
    &&& text[6] == ':'
}

/// A mode counts as executable or writable if anyone may execute or write, and what is sealed was
/// modified one second after the epoch.
pub proof fn modes_are_judged_by_all_their_bits(
    mode: u32,
    executable: bool,
    writable: bool,
    modified: Timestamp,
)
    requires
        call_ensures(is_executable, (mode,), executable),
        call_ensures(is_writable, (mode,), writable),
        call_ensures(sealed_modified, (), modified),
    ensures
        executable <==> mode & 0o100 != 0 || mode & 0o010 != 0 || mode & 0o001 != 0,
        writable <==> mode & 0o200 != 0 || mode & 0o020 != 0 || mode & 0o002 != 0,
        modified.secs == 1 && modified.nanos == 0,
{
    modes_and_the_sealed_time(mode);
}

/// Two objects are the same if at every path both hold the same file, link or directory, or
/// nothing.
pub proof fn objects_are_compared_in_full(a: StoreEntry, b: StoreEntry, res: bool)
    requires
        call_ensures(StoreEntry::same, (&a, &b), res),
    ensures
        names_are_distinct(a@) && names_are_distinct(b@) ==> (res <==> are_alike_throughout(a@, b@)),
        !(a@ is Dir && b@ is Dir) ==> (res <==> are_alike(Some(a@), Some(b@))),
{
    if names_are_distinct(a@) && names_are_distinct(b@) {
        objects_are_the_same_if_alike_at_every_path(a@, b@);
    }
    if !(a@ is Dir && b@ is Dir) {
        files_and_links_are_compared_in_full(a@, b@);
    }
}

/// What was read back is accepted if it is like the recorded object at every path.
pub proof fn a_found_object_must_be_the_recorded_one(
    store: &str,
    found: ReadBack,
    recorded: StoreEntry,
    res: Result<(), StoreOutputError<String>>,
)
    requires
        call_ensures(verify_store_output, (store, &found, &recorded), res),
        names_are_distinct(recorded@),
        found matches ReadBack::Entry(entry) ==> names_are_distinct(entry@),
    ensures
        match found {
            ReadBack::Failed(e) => res matches Err(StoreOutputError::Failed(f)) && f@ == e@,
            ReadBack::Absent => res matches Err(StoreOutputError::Disappeared(p)) && p@ == store@,
            ReadBack::Unrecorded => res matches Err(StoreOutputError::Unverifiable(p)) && p@
                == store@,
            ReadBack::Entry(entry) => if are_alike_throughout(entry@, recorded@) {
                res is Ok
            } else {
                res matches Err(StoreOutputError::Mismatch(p)) && p@ == store@
            },
        },
{
    only_the_recorded_object_is_accepted(store@, found, recorded@);
}

/// A tree is sealed if every entry in it is, however deep and at whatever place of its listing, and
/// where nothing is, nothing is sealed.
pub proof fn sealed_trees_pass_and_no_others(
    node: DiskNode,
    res: Result<bool, StoreImportActionError<String>>,
    root: Result<Option<DiskNode>, String>,
    whole: Result<bool, StoreImportActionError<String>>,
)
    requires
        call_ensures(has_normalized_sealed_store_metadata_inner, (&node,), res),
        call_ensures(has_normalized_sealed_store_metadata, (&root,), whole),
    ensures
        res == Ok::<bool, StoreImportActionError<String>>(true) <==> tree_has_sealed_metadata(node),
        tree_is_readable(node) ==> res == Ok::<bool, StoreImportActionError<String>>(
            tree_has_sealed_metadata(node),
        ),
        match root {
            Err(e) => whole matches Err(StoreImportActionError::Failed(f)) && f@ == e@,
            Ok(None) => whole == Ok::<bool, StoreImportActionError<String>>(false),
            Ok(Some(tree)) => {
                &&& whole == Ok::<bool, StoreImportActionError<String>>(true)
                    <==> tree_has_sealed_metadata(tree)
                &&& tree_is_readable(tree) ==> whole is Ok
            },
        },
{
    the_check_passes_what_is_sealed_throughout(node);
    if tree_is_readable(node) {
        the_check_decides_every_readable_tree(node);
    }
    if let Ok(Some(tree)) = root {
        the_check_passes_what_is_sealed_throughout(tree);
        if tree_is_readable(tree) {
            the_check_decides_every_readable_tree(tree);
        }
    }
}

/// A manifest is accepted if it holds what was declared in every one of its fields.
pub proof fn manifests_are_checked_in_every_field(
    manifest: JsonValue,
    store: &str,
    expected: ExpectedStoreManifest,
    res: Result<(), StoreImportActionError<String>>,
)
    requires
        call_ensures(verify_manifest, (&manifest, store, &expected), res),
    ensures
        res is Ok <==> {
            &&& holds(manifest@, "format"@, Json::Text("buckpkgs-store-object-v1"@))
            &&& holds(manifest@, "store_path"@, Json::Text(store@))
            &&& holds_below(manifest@, "package"@, "name"@, Json::Text(expected.package_name@))
            &&& holds_below(manifest@, "package"@, "version"@, Json::Text(expected.version@))
            &&& holds_below(manifest@, "package"@, "output"@, Json::Text(expected.output@))
            &&& holds(manifest@, "target_system"@, Json::Text(expected.target_system@))
            &&& holds(manifest@, "references"@, text_array(texts(expected.references@)))
            &&& holds(
                manifest@,
                "runtime_store_outputs"@,
                text_array(texts(expected.runtime_store_outputs@)),
            )
            &&& holds(manifest@, "canonical_tree_hash"@, Json::Text(expected.canonical_tree_hash@))
        },
        res is Err ==> res->Err_0 is ManifestMetadataMismatch,
{
    a_manifest_passes_with_every_declared_field(manifest@, store@, expected@);
}

/// A manifest of a published object is accepted if it names the root that was published.
pub proof fn published_roots_are_checked(
    manifest: JsonValue,
    root_digest: &str,
    res: Result<(), StoreImportActionError<String>>,
)
    requires
        call_ensures(verify_cas_manifest, (&manifest, root_digest), res),
    ensures
        res is Ok <==> {
            &&& holds_below(manifest@, "cas"@, "format"@, Json::Text("reapi-directory-v1"@))
            &&& holds_below(manifest@, "cas"@, "digest_function"@, Json::Text("sha256"@))
            &&& holds_below(manifest@, "cas"@, "root_digest"@, Json::Text(root_digest@))
        },
        res is Err ==> res->Err_0 is ManifestMetadataMismatch,
{
    a_manifest_names_the_published_root(manifest@, root_digest@);
}

/// A hash is accepted if its text is the expected one.
pub proof fn hashes_are_compared_as_texts(
    store: &str,
    expected: &str,
    hash: &[u8],
    text: String,
    res: Result<(), StoreImportActionError<String>>,
)
    requires
        call_ensures(tree_hash_text, (hash,), text),
        call_ensures(check_tree_hash, (store, expected, hash), res),
    ensures
        match res {
            Ok(_) => text@ == expected@,
            Err(
                StoreImportActionError::CanonicalTreeHashMismatch {
                    store_path,
                    expected: wanted,
                    actual,
                },
            ) => text@ != expected@ && store_path@ == store@ && wanted@ == expected@ && actual@
                == text@,
            Err(_) => false,
        },
{
}

/// A store object is imported under one output that stands for a store path, and keeps what it was
/// declared with.
pub proof fn imports_are_registered_with_one_output<M>(
    import: UnregisteredStoreImportAction<M>,
    outputs: Vec<BuildArtifact>,
    res: Result<StoreImportAction<M>, StoreImportActionError<String>>,
)
    requires
        call_ensures(UnregisteredStoreImportAction::<M>::register, (import, outputs), res),
        outputs@.len() <= usize::MAX,
    ensures
        match res {
            Ok(action) => {
                &&& outputs@.len() == 1
                &&& outputs@[0].path.logical_store_path is Some
                &&& action.output@ == outputs@[0]@
                &&& action.missing_hint == import.missing_hint
                &&& action.manifest == import.manifest
                &&& action.expected_manifest == import.expected_manifest
            },
            Err(StoreImportActionError::WrongNumberOfOutputs(n)) => n == outputs@.len() && n != 1,
            Err(StoreImportActionError::MissingLogicalStorePath(shown)) => outputs@.len() == 1
                && outputs@[0].path.logical_store_path is None && shown@ == outputs@[0].shown@,
            Err(_) => false,
        },
{
    an_import_has_one_output_with_a_store_path(crate::action::outputs_view(outputs@));
}

/// An object is imported from a content-addressed store under one output that stands for a store
/// path, and keeps what it was declared with.
pub proof fn cas_imports_are_registered_with_one_output<M>(
    import: UnregisteredCasStoreImportAction<M>,
    outputs: Vec<BuildArtifact>,
    res: Result<CasStoreImportAction<M>, CasStoreImportActionError<String>>,
)
    requires
        call_ensures(UnregisteredCasStoreImportAction::<M>::register, (import, outputs), res),
        outputs@.len() <= usize::MAX,
    ensures
        match res {
            Ok(action) => {
                &&& outputs@.len() == 1
                &&& outputs@[0].path.logical_store_path is Some
                &&& action.output@ == outputs@[0]@
                &&& action.inner == import
            },
            Err(CasStoreImportActionError::WrongNumberOfOutputs(n)) => n == outputs@.len() && n
                != 1,
            Err(CasStoreImportActionError::MissingLogicalStorePath(shown)) => outputs@.len() == 1
                && outputs@[0].path.logical_store_path is None && shown@ == outputs@[0].shown@,
            Err(_) => false,
        },
{
    an_import_has_one_output_with_a_store_path(crate::action::outputs_view(outputs@));
}

/// Sealing an entry sets its time first, and then takes its write bits and no others.
pub proof fn sealing_an_entry_takes_two_steps(dest: &str, mode: u32, res: Vec<Task<String>>)
    requires
        call_ensures(seal_cas_output_path, (dest, mode), res),
    ensures
        res@.len() == 2,
        res@[0]@ == Task::Do(
            Request::SetModified { path: dest@, modified: (Timestamp { secs: 1, nanos: 0 }) },
        ),
        res@[1]@ matches Task::Do(Request::SetMode { path, mode: sealed }) && path == dest@
            && sealed & 0o222 == 0 && sealed | 0o222 == mode | 0o222,
{
    let model = tasks_view(res@);
    assert(model.len() == res@.len());
    assert(model == seq![
        Task::Do(Request::SetModified { path: dest@, modified: sealed_time() }),
        Task::Do(Request::SetMode { path: dest@, mode: sealed_mode(mode) }),
    ]);
    assert(model[0] == res@[0]@ && model[1] == res@[1]@);
    assert((mode & !0o222u32) & 0o222 == 0) by (bit_vector);
    assert((mode & !0o222u32) | 0o222 == mode | 0o222) by (bit_vector);
}

/// The time of a link is set unless it is before the epoch.
pub proof fn the_time_of_a_link_is_set(
    dest: &str,
    modified: Timestamp,
    res: Result<Vec<Task<String>>, StoreOutputError<String>>,
)
    requires
        call_ensures(set_symlink_modified_time, (dest, modified), res),
    ensures
        match res {
            Ok(tasks) => modified.secs >= 0 && tasks@.len() == 1 && tasks@[0]@ == Task::Do(
                Request::SetSymlinkModified { path: dest@, modified },
            ),
            Err(StoreOutputError::BeforeEpoch(p)) => modified.secs < 0 && p@ == dest@,
            Err(_) => false,
        },
{
    if let Ok(tasks) = res {
        assert(tasks_view(tasks@).len() == tasks@.len());
        assert(modified.secs >= 0);
        assert(tasks_view(tasks@)[0] == tasks@[0]@);
    }
}

/// An import of either sort needs its manifest, gives its one output, and is named after the path of
/// that output.
pub proof fn imports_tell_what_they_are<'a, M>(
    import: &'a StoreImportAction<M>,
    cas: &'a CasStoreImportAction<M>,
    kinds: (ActionKind, ActionKind),
    inputs: (Vec<&'a M>, Vec<&'a M>),
    outputs: (Vec<&'a BuildArtifact>, Vec<&'a BuildArtifact>),
    first: (&'a BuildArtifact, &'a BuildArtifact),
    categories: (&'static str, &'static str),
    names: (Option<&'a str>, Option<&'a str>),
)
    requires
        call_ensures(StoreImportAction::<M>::kind, (import,), kinds.0),
        call_ensures(CasStoreImportAction::<M>::kind, (cas,), kinds.1),
        call_ensures(StoreImportAction::<M>::inputs, (import,), inputs.0),
        call_ensures(CasStoreImportAction::<M>::inputs, (cas,), inputs.1),
        call_ensures(StoreImportAction::<M>::outputs, (import,), outputs.0),
        call_ensures(CasStoreImportAction::<M>::outputs, (cas,), outputs.1),
        call_ensures(StoreImportAction::<M>::first_output, (import,), first.0),
        call_ensures(CasStoreImportAction::<M>::first_output, (cas,), first.1),
        call_ensures(StoreImportAction::<M>::category, (import,), categories.0),
        call_ensures(CasStoreImportAction::<M>::category, (cas,), categories.1),
        call_ensures(StoreImportAction::<M>::identifier, (import,), names.0),
        call_ensures(CasStoreImportAction::<M>::identifier, (cas,), names.1),
    ensures
        kinds.0 is StoreImport && kinds.1 is StoreImport,
        inputs.0@.len() == 1 && *inputs.0@[0] == import.manifest,
        inputs.1@.len() == 1 && *inputs.1@[0] == cas.inner.manifest,
        outputs.0@.len() == 1 && *outputs.0@[0] == import.output,
        outputs.1@.len() == 1 && *outputs.1@[0] == cas.output,
        *first.0 == import.output && *first.1 == cas.output,
        categories.0@ == "store_import"@,
        categories.1@ == "cas_store_import"@,
        names.0 matches Some(name) && name@ == import.output.path.path@,
        names.1 matches Some(name) && name@ == cas.output.path.path@,
{
}

/// The realization of an object at a path that is not absolute and normalized is refused; else it
/// begins with a look at that path.
pub proof fn a_realization_begins_with_a_look(
    root: AbsNormPathBuf,
    staged: ForwardRelativePathBuf,
    store: &str,
    entry: StoreEntry,
    seal: bool,
    res: Result<Realization, StoreOutputError<String>>,
)
    requires
        call_ensures(materialize_store_output, (&root, &staged, store, entry, seal), res),
    ensures
        match res {
            Ok(realization) => {
                &&& is_absolute_and_normalized(store@)
                &&& realization.run() is Looking
                &&& realization.job().store == store@
                &&& realization.job().entry == entry@
                &&& realization.job().seal == seal
            },
            Err(StoreOutputError::InvalidStorePath(p)) => !is_absolute_and_normalized(store@) && p@
                == store@,
            Err(_) => false,
        },
{
    absolute_paths_are_all_without_dots(store@);
}

} // verus!
