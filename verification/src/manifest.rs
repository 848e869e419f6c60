//! The manifest of a store object, and its check against what an import declared.

use vstd::prelude::*;
use vstd::string::*;

use crate::archive::ErrorV;
use crate::error::StoreImportActionError;
use crate::json::{
    items_model, json_model, json_parse, lemma_items_model, member_at, parse_json, Json, JsonValue,
};
use crate::text::{concat3, same_text, texts};

verus! {

/// What an import declares of the manifest.
#[derive(Debug)]
pub struct ExpectedStoreManifest {
    pub package_name: String,
    pub version: String,
    pub output: String,
    pub target_system: String,
    pub references: Vec<String>,
    pub runtime_store_outputs: Vec<String>,
    pub canonical_tree_hash: String,
}

/// An [`ExpectedStoreManifest`] over mathematical text.
pub struct ExpectedV {
    pub package_name: Seq<char>,
    pub version: Seq<char>,
    pub output: Seq<char>,
    pub target_system: Seq<char>,
    pub references: Seq<Seq<char>>,
    pub runtime_store_outputs: Seq<Seq<char>>,
    pub canonical_tree_hash: Seq<char>,
}

impl View for ExpectedStoreManifest {
    type V = ExpectedV;

    open spec fn view(&self) -> ExpectedV {
        ExpectedV {
            package_name: self.package_name@,
            version: self.version@,
            output: self.output@,
            target_system: self.target_system@,
            references: texts(self.references@),
            runtime_store_outputs: texts(self.runtime_store_outputs@),
            canonical_tree_hash: self.canonical_tree_hash@,
        }
    }
}

/// The document holds this text at the path.
pub open spec fn has_text(document: Json, path: Seq<Seq<char>>, expected: Seq<char>) -> bool {
    member_at(document, path) == Some(Json::Text(expected))
}

/// The document holds these texts, in this order, as an array at the path.
pub open spec fn has_texts(document: Json, path: Seq<Seq<char>>, expected: Seq<Seq<char>>) -> bool {
    match member_at(document, path) {
        Some(Json::Array(items)) => {
            &&& items.len() == expected.len()
            &&& forall|i: int| 0 <= i < items.len() ==> #[trigger] items[i] == Json::Text(expected[i])
        },
        _ => false,
    }
}

/// The error for a field that is not as declared.
pub open spec fn mismatch(field: Seq<char>) -> ErrorV {
    StoreImportActionError::ManifestMetadataMismatch { field }
}

/// The keys of a path, as texts.
pub open spec fn keys(path: Seq<&str>) -> Seq<Seq<char>> {
    path.map_values(|s: &str| s@)
}

/// The member that a path of keys leads to.
pub fn manifest_field<'a>(manifest: &'a JsonValue, path: &[&str]) -> (res: Option<&'a JsonValue>)
    ensures
        match member_at(manifest@, keys(path@)) {
            Some(member) => res is Some && res->0@ == member,
            None => res is None,
        },
{
    let mut value = manifest;
    let mut i: usize = 0;
    assert(keys(path@).skip(0) =~= keys(path@));
    while i < path.len()
        invariant
            i <= path@.len(),
            member_at(manifest@, keys(path@)) == member_at(value@, keys(path@).skip(i as int)),
        decreases path.len() - i,
    {
        assert(keys(path@).skip(i as int)[0] == path@[i as int]@);
        assert(keys(path@).skip(i as int).drop_first() =~= keys(path@).skip(i + 1));
        match value.member(path[i]) {
            Some(member) => {
                value = member;
            },
            None => {
                return None;
            },
        }
        i += 1;
    }
    Some(value)
}

/// Checks that a field holds a text.
pub fn verify_manifest_string(
    manifest: &JsonValue,
    path: &[&str],
    expected: &str,
    field: &str,
) -> (res: Result<(), StoreImportActionError<String>>)
    ensures
        if has_text(manifest@, keys(path@), expected@) {
            res is Ok
        } else {
            res is Err && res->Err_0@ == mismatch(field@)
        },
{
    if let Some(value) = manifest_field(manifest, path) {
        if let JsonValue::Text(text) = value {
            if same_text(text, expected) {
                return Ok(());
            }
        }
    }
    Err(StoreImportActionError::ManifestMetadataMismatch { field: field.to_owned() })
}

/// Whether the elements are these texts, in this order.
fn same_texts(actual: &Vec<JsonValue>, expected: &Vec<String>) -> (res: bool)
    ensures
        res == (actual@.len() == expected@.len() && forall|i: int|
            0 <= i < actual@.len() ==> #[trigger] items_model(actual@)[i] == Json::Text(
                texts(expected@)[i],
            )),
{
    if actual.len() != expected.len() {
        return false;
    }
    proof {
        lemma_items_model(actual@);
    }
    let mut i: usize = 0;
    while i < actual.len()
        invariant
            i <= actual@.len() == expected@.len(),
            forall|j: int|
                0 <= j < actual@.len() ==> #[trigger] items_model(actual@)[j] == json_model(
                    actual@[j],
                ),
            forall|j: int|
                0 <= j < i ==> #[trigger] items_model(actual@)[j] == Json::Text(
                    texts(expected@)[j],
                ),
        decreases actual.len() - i,
    {
        assert(texts(expected@)[i as int] == expected@[i as int]@);
        assert(items_model(actual@)[i as int] == json_model(actual@[i as int]));
        match &actual[i] {
            JsonValue::Text(text) => {
                if !same_text(text, &expected[i]) {
                    return false;
                }
            },
            _ => {
                return false;
            },
        }
        i += 1;
    }
    true
}

/// Checks that a field holds a list of texts.
pub fn verify_manifest_strings(
    manifest: &JsonValue,
    path: &[&str],
    expected: &Vec<String>,
    field: &str,
) -> (res: Result<(), StoreImportActionError<String>>)
    ensures
        if has_texts(manifest@, keys(path@), texts(expected@)) {
            res is Ok
        } else {
            res is Err && res->Err_0@ == mismatch(field@)
        },
{
    if let Some(value) = manifest_field(manifest, path) {
        if let JsonValue::Array(actual) = value {
            proof {
                lemma_items_model(actual@);
            }
            if same_texts(actual, expected) {
                return Ok(());
            }
        }
    }
    Err(StoreImportActionError::ManifestMetadataMismatch { field: field.to_owned() })
}

/// What the check of a manifest gives: the fields are looked at in a fixed order, and the first
/// that is not as declared is reported.
pub open spec fn manifest_verdict(
    document: Json,
    logical_store_path: Seq<char>,
    expected: ExpectedV,
) -> Result<(), ErrorV> {
    if !has_text(document, seq!["format"@], "buckpkgs-store-object-v1"@) {
        Err(mismatch("format"@))
    } else if !has_text(document, seq!["store_path"@], logical_store_path) {
        Err(mismatch("store_path"@))
    } else if !has_text(document, seq!["package"@, "name"@], expected.package_name) {
        Err(mismatch("package.name"@))
    } else if !has_text(document, seq!["package"@, "version"@], expected.version) {
        Err(mismatch("package.version"@))
    } else if !has_text(document, seq!["package"@, "output"@], expected.output) {
        Err(mismatch("package.output"@))
    } else if !has_text(document, seq!["target_system"@], expected.target_system) {
        Err(mismatch("target_system"@))
    } else if !has_texts(document, seq!["references"@], expected.references) {
        Err(mismatch("references"@))
    } else if !has_texts(
        document,
        seq!["runtime_store_outputs"@],
        expected.runtime_store_outputs,
    ) {
        Err(mismatch("runtime_store_outputs"@))
    } else if !has_text(document, seq!["canonical_tree_hash"@], expected.canonical_tree_hash) {
        Err(mismatch("canonical_tree_hash"@))
    } else {
        Ok(())
    }
}

/// What the check of the part of a manifest that is about a content-addressed store gives.
pub open spec fn cas_manifest_verdict(document: Json, root_digest: Seq<char>) -> Result<
    (),
    ErrorV,
> {
    if !has_text(document, seq!["cas"@, "format"@], "reapi-directory-v1"@) {
        Err(mismatch("cas.format"@))
    } else if !has_text(document, seq!["cas"@, "digest_function"@], "sha256"@) {
        Err(mismatch("cas.digest_function"@))
    } else if !has_text(document, seq!["cas"@, "root_digest"@], root_digest) {
        Err(mismatch("cas.root_digest"@))
    } else {
        Ok(())
    }
}

/// The outcome agrees with its model.
pub open spec fn check_is(
    res: Result<(), StoreImportActionError<String>>,
    model: Result<(), ErrorV>,
) -> bool {
    match model {
        Ok(()) => res is Ok,
        Err(e) => res is Err && res->Err_0@ == e,
    }
}

fn verify_one(manifest: &JsonValue, key: &str, expected: &str) -> (res: Result<
    (),
    StoreImportActionError<String>,
>)
    ensures
        if has_text(manifest@, seq![key@], expected@) {
            res is Ok
        } else {
            res is Err && res->Err_0@ == mismatch(key@)
        },
{
    let path = [key];
    assert(keys(path@) =~= seq![key@]);
    verify_manifest_string(manifest, &path, expected, key)
}

fn verify_two(
    manifest: &JsonValue,
    outer: &str,
    inner: &str,
    expected: &str,
    field: &str,
) -> (res: Result<(), StoreImportActionError<String>>)
    ensures
        if has_text(manifest@, seq![outer@, inner@], expected@) {
            res is Ok
        } else {
            res is Err && res->Err_0@ == mismatch(field@)
        },
{
    let path = [outer, inner];
    assert(keys(path@) =~= seq![outer@, inner@]);
    verify_manifest_string(manifest, &path, expected, field)
}

fn verify_list(manifest: &JsonValue, key: &str, expected: &Vec<String>) -> (res: Result<
    (),
    StoreImportActionError<String>,
>)
    ensures
        if has_texts(manifest@, seq![key@], texts(expected@)) {
            res is Ok
        } else {
            res is Err && res->Err_0@ == mismatch(key@)
        },
{
    let path = [key];
    assert(keys(path@) =~= seq![key@]);
    verify_manifest_strings(manifest, &path, expected, key)
}

/// Checks a parsed manifest against what an import declared.
pub fn verify_manifest(
    manifest: &JsonValue,
    logical_store_path: &str,
    expected: &ExpectedStoreManifest,
) -> (res: Result<(), StoreImportActionError<String>>)
    ensures
        check_is(res, manifest_verdict(manifest@, logical_store_path@, expected@)),
{
    verify_one(manifest, "format", "buckpkgs-store-object-v1")?;
    verify_one(manifest, "store_path", logical_store_path)?;
    verify_two(manifest, "package", "name", &expected.package_name, "package.name")?;
    verify_two(manifest, "package", "version", &expected.version, "package.version")?;
    verify_two(manifest, "package", "output", &expected.output, "package.output")?;
    verify_one(manifest, "target_system", &expected.target_system)?;
    verify_list(manifest, "references", &expected.references)?;
    verify_list(manifest, "runtime_store_outputs", &expected.runtime_store_outputs)?;
    verify_one(manifest, "canonical_tree_hash", &expected.canonical_tree_hash)
}

/// Checks the part of a parsed manifest that is about a content-addressed store.
pub fn verify_cas_manifest(manifest: &JsonValue, root_digest: &str) -> (res: Result<
    (),
    StoreImportActionError<String>,
>)
    ensures
        check_is(res, cas_manifest_verdict(manifest@, root_digest@)),
{
    verify_two(manifest, "cas", "format", "reapi-directory-v1", "cas.format")?;
    verify_two(manifest, "cas", "digest_function", "sha256", "cas.digest_function")?;
    verify_two(manifest, "cas", "root_digest", root_digest, "cas.root_digest")
}

/// What reading and parsing a manifest gives.
pub open spec fn manifest_document(
    manifest_path: Seq<char>,
    contents: Result<String, String>,
) -> Result<Json, ErrorV> {
    match contents {
        Err(e) => Err(
            StoreImportActionError::Reading {
                context: "reading store manifest `"@ + manifest_path + "`"@,
                error: e@,
            },
        ),
        Ok(text) => match json_parse(text@) {
            Err(e) => Err(StoreImportActionError::InvalidManifest { path: manifest_path, error: e }),
            Ok(document) => Ok(document),
        },
    }
}

/// Parses the manifest that was read from `manifest_path` and checks it against what an import
/// declared. `contents` is what reading the file gave.
pub fn verify_store_manifest(
    manifest_path: &str,
    contents: &Result<String, String>,
    logical_store_path: &str,
    expected: &ExpectedStoreManifest,
) -> (res: Result<JsonValue, StoreImportActionError<String>>)
    ensures
        match manifest_document(manifest_path@, *contents) {
            Err(e) => res is Err && res->Err_0@ == e,
            Ok(document) => match manifest_verdict(document, logical_store_path@, expected@) {
                Err(e) => res is Err && res->Err_0@ == e,
                Ok(()) => res is Ok && res->Ok_0@ == document,
            },
        },
{
    let text = match contents {
        Ok(text) => text,
        Err(e) => {
            return Err(
                StoreImportActionError::Reading {
                    context: concat3("reading store manifest `", manifest_path, "`"),
                    error: e.clone(),
                },
            );
        },
    };
    let manifest = match parse_json(text) {
        Ok(manifest) => manifest,
        Err(error) => {
            return Err(
                StoreImportActionError::InvalidManifest { path: manifest_path.to_owned(), error },
            );
        },
    };
    verify_manifest(&manifest, logical_store_path, expected)?;
    Ok(manifest)
}

/// [`verify_store_manifest`], and then the check of the part about the content-addressed store.
pub fn verify_cas_store_manifest(
    manifest_path: &str,
    contents: &Result<String, String>,
    logical_store_path: &str,
    expected: &ExpectedStoreManifest,
    root_digest: &str,
) -> (res: Result<(), StoreImportActionError<String>>)
    ensures
        check_is(
            res,
            match manifest_document(manifest_path@, *contents) {
                Err(e) => Err(e),
                Ok(document) => match manifest_verdict(document, logical_store_path@, expected@) {
                    Err(e) => Err(e),
                    Ok(()) => cas_manifest_verdict(document, root_digest@),
                },
            },
        ),
{
    let manifest = verify_store_manifest(manifest_path, contents, logical_store_path, expected)?;
    verify_cas_manifest(&manifest, root_digest)
}

} // verus!
