//! What a manifest that passes holds: each declared field, with the declared value, found by its
//! key in the document itself.

use vstd::prelude::*;

use crate::archive::ErrorV;
use crate::error::StoreImportActionError;
use crate::json::{json_parse, lookup, member_at, Json};
use crate::manifest::{
    cas_manifest_verdict, has_text, has_texts, manifest_document, manifest_verdict, ExpectedV,
};

verus! {

/// The document is an object, and the first of its members that has the key has this value.
pub open spec fn holds(document: Json, key: Seq<char>, value: Json) -> bool {
    document matches Json::Object(members) && exists|i: int|
        {
            &&& 0 <= i < members.len()
            &&& #[trigger] members[i] == (key, value)
            &&& forall|j: int| 0 <= j < i ==> (#[trigger] members[j]).0 != key
        }
}

/// The document holds an object at the first key that holds the value at the second.
pub open spec fn holds_below(document: Json, outer: Seq<char>, inner: Seq<char>, value: Json) -> bool {
    exists|middle: Json| #[trigger] holds(document, outer, middle) && holds(middle, inner, value)
}

/// The texts as the elements of an array.
pub open spec fn text_array(list: Seq<Seq<char>>) -> Json {
    Json::Array(Seq::new(list.len(), |i: int| Json::Text(list[i])))
}

proof fn lemma_lookup(members: Seq<(Seq<char>, Json)>, key: Seq<char>) -> (i: int)
    ensures
        match lookup(members, key) {
            Some(value) => {
                &&& 0 <= i < members.len()
                &&& members[i] == (key, value)
                &&& forall|j: int| 0 <= j < i ==> (#[trigger] members[j]).0 != key
            },
            None => forall|j: int| 0 <= j < members.len() ==> (#[trigger] members[j]).0 != key,
        },
    decreases members.len(),
{
    if members.len() == 0 {
        0
    } else if members[0].0 == key {
        0
    } else {
        let rest = members.drop_first();
        let i = lemma_lookup(rest, key);
        assert forall|j: int|
            0 <= j < members.len() && (lookup(rest, key) is None || j < i + 1) implies (
        #[trigger] members[j]).0 != key by {
            if j > 0 {
                assert(members[j] == rest[j - 1]);
            }
        }
        if lookup(rest, key) is Some {
            assert(members[i + 1] == rest[i]);
        }
        i + 1
    }
}

/// A member is found by its key: the first that has the key, if one has it.
pub proof fn members_are_found_by_key(members: Seq<(Seq<char>, Json)>, key: Seq<char>, value: Json)
    ensures
        lookup(members, key) == Some(value) <==> holds(Json::Object(members), key, value),
        lookup(members, key) is None <==> forall|i: int|
            0 <= i < members.len() ==> (#[trigger] members[i]).0 != key,
{
    let document = Json::Object(members);
    let i = lemma_lookup(members, key);
    if lookup(members, key) is Some {
        assert(members[i].0 == key);
    }
    if lookup(members, key) == Some(value) {
        assert(document->Object_0[i] == (key, value));
        assert(holds(document, key, value));
    }
    if holds(document, key, value) {
        let k = choose|k: int|
            {
                &&& 0 <= k < document->Object_0.len()
                &&& #[trigger] document->Object_0[k] == (key, value)
                &&& forall|j: int| 0 <= j < k ==> (#[trigger] document->Object_0[j]).0 != key
            };
        assert(members[k] == (key, value));
        assert(members[k].0 == key);
        assert(lookup(members, key) is Some);
        if i < k {
            assert(document->Object_0[i].0 != key);
        } else if k < i {
            assert(members[k].0 != key);
        }
    }
}

/// A longer path leads on from the member that its first key names, and nowhere if there is none.
pub proof fn longer_paths_lead_on(document: Json, path: Seq<Seq<char>>, inner: Json)
    requires
        path.len() > 0,
    ensures
        holds(document, path[0], inner) ==> member_at(document, path) == member_at(
            inner,
            path.skip(1),
        ),
        (forall|value: Json| !#[trigger] holds(document, path[0], value)) ==> member_at(
            document,
            path,
        ) is None,
{
    assert(path.skip(1) == path.drop_first());
    if let Json::Object(members) = document {
        members_are_found_by_key(members, path[0], inner);
        match lookup(members, path[0]) {
            Some(value) => {
                members_are_found_by_key(members, path[0], value);
                assert(holds(document, path[0], value));
            },
            None => {},
        }
    }
}

/// A path of keys leads from the document through the members with these keys.
pub proof fn paths_lead_through_members(
    document: Json,
    outer: Seq<char>,
    inner: Seq<char>,
    value: Json,
)
    ensures
        member_at(document, seq![]) == Some(document),
        member_at(document, seq![outer]) == Some(value) <==> holds(document, outer, value),
        member_at(document, seq![outer, inner]) == Some(value) <==> holds_below(
            document,
            outer,
            inner,
            value,
        ),
{
    let one = seq![outer];
    let two = seq![outer, inner];
    assert(one.drop_first() =~= seq![]);
    assert(two.drop_first() =~= seq![inner]);
    assert(seq![inner].drop_first() =~= seq![]);
    if let Json::Object(members) = document {
        assert(document == Json::Object(members));
        members_are_found_by_key(members, outer, value);
        match lookup(members, outer) {
            Some(middle) => {
                members_are_found_by_key(members, outer, middle);
                assert(member_at(middle, seq![]) == Some(middle));
                assert(member_at(document, one) == Some(middle));
                assert(member_at(document, two) == member_at(middle, seq![inner]));
                if let Json::Object(below) = middle {
                    assert(middle == Json::Object(below));
                    members_are_found_by_key(below, inner, value);
                    if let Some(v) = lookup(below, inner) {
                        assert(member_at(v, seq![]) == Some(v));
                    }
                }
                if holds_below(document, outer, inner, value) {
                    let other = choose|m: Json| #[trigger]
                        holds(document, outer, m) && holds(m, inner, value);
                    members_are_found_by_key(members, outer, other);
                    assert(other == middle);
                }
                if holds(middle, inner, value) {
                    assert(holds(document, outer, middle));
                }
            },
            None => {
                if holds_below(document, outer, inner, value) {
                    let other = choose|m: Json| #[trigger]
                        holds(document, outer, m) && holds(m, inner, value);
                    members_are_found_by_key(members, outer, other);
                }
            },
        }
    } else {
        if holds_below(document, outer, inner, value) {
            let other = choose|m: Json| #[trigger]
                holds(document, outer, m) && holds(m, inner, value);
        }
    }
}

proof fn lemma_one(document: Json, key: Seq<char>, text: Seq<char>)
    ensures
        has_text(document, seq![key], text) <==> holds(document, key, Json::Text(text)),
{
    paths_lead_through_members(document, key, key, Json::Text(text));
}

proof fn lemma_two(document: Json, outer: Seq<char>, inner: Seq<char>, text: Seq<char>)
    ensures
        has_text(document, seq![outer, inner], text) <==> holds_below(
            document,
            outer,
            inner,
            Json::Text(text),
        ),
{
    paths_lead_through_members(document, outer, inner, Json::Text(text));
}

proof fn lemma_list(document: Json, key: Seq<char>, list: Seq<Seq<char>>)
    ensures
        has_texts(document, seq![key], list) <==> holds(document, key, text_array(list)),
{
    let expected = text_array(list);
    paths_lead_through_members(document, key, key, expected);
    match member_at(document, seq![key]) {
        Some(Json::Array(items)) => {
            paths_lead_through_members(document, key, key, Json::Array(items));
            if has_texts(document, seq![key], list) {
                assert(items =~= expected->Array_0);
            }
            if Json::Array(items) == expected {
                assert forall|i: int| 0 <= i < items.len() implies #[trigger] items[i]
                    == Json::Text(list[i]) by {
                    assert(items[i] == expected->Array_0[i]);
                }
            }
        },
        _ => {},
    }
}

/// The error for a declared field that the document does not hold.
pub open spec fn refusal_of(field: Seq<char>) -> Result<(), ErrorV> {
    Err(StoreImportActionError::ManifestMetadataMismatch { field })
}

/// A manifest passes exactly if the document holds, each at its key, the name of the format, the
/// store path, the declared package name, version and output, the declared target system, the
/// declared references and run-time outputs in their order, and the declared hash.
pub proof fn a_manifest_passes_with_every_declared_field(
    document: Json,
    store_path: Seq<char>,
    expected: ExpectedV,
)
    ensures
        manifest_verdict(document, store_path, expected) is Ok <==> {
            &&& holds(document, "format"@, Json::Text("buckpkgs-store-object-v1"@))
            &&& holds(document, "store_path"@, Json::Text(store_path))
            &&& holds_below(document, "package"@, "name"@, Json::Text(expected.package_name))
            &&& holds_below(document, "package"@, "version"@, Json::Text(expected.version))
            &&& holds_below(document, "package"@, "output"@, Json::Text(expected.output))
            &&& holds(document, "target_system"@, Json::Text(expected.target_system))
            &&& holds(document, "references"@, text_array(expected.references))
            &&& holds(
                document,
                "runtime_store_outputs"@,
                text_array(expected.runtime_store_outputs),
            )
            &&& holds(document, "canonical_tree_hash"@, Json::Text(expected.canonical_tree_hash))
        },
{
    lemma_fields(document, store_path, expected);
}

proof fn lemma_fields(document: Json, store_path: Seq<char>, expected: ExpectedV)
    ensures
        has_text(document, seq!["format"@], "buckpkgs-store-object-v1"@) <==> holds(
            document,
            "format"@,
            Json::Text("buckpkgs-store-object-v1"@),
        ),
        has_text(document, seq!["store_path"@], store_path) <==> holds(
            document,
            "store_path"@,
            Json::Text(store_path),
        ),
        has_text(document, seq!["package"@, "name"@], expected.package_name) <==> holds_below(
            document,
            "package"@,
            "name"@,
            Json::Text(expected.package_name),
        ),
        has_text(document, seq!["package"@, "version"@], expected.version) <==> holds_below(
            document,
            "package"@,
            "version"@,
            Json::Text(expected.version),
        ),
        has_text(document, seq!["package"@, "output"@], expected.output) <==> holds_below(
            document,
            "package"@,
            "output"@,
            Json::Text(expected.output),
        ),
        has_text(document, seq!["target_system"@], expected.target_system) <==> holds(
            document,
            "target_system"@,
            Json::Text(expected.target_system),
        ),
        has_texts(document, seq!["references"@], expected.references) <==> holds(
            document,
            "references"@,
            text_array(expected.references),
        ),
        has_texts(document, seq!["runtime_store_outputs"@], expected.runtime_store_outputs)
            <==> holds(
            document,
            "runtime_store_outputs"@,
            text_array(expected.runtime_store_outputs),
        ),
        has_text(document, seq!["canonical_tree_hash"@], expected.canonical_tree_hash) <==> holds(
            document,
            "canonical_tree_hash"@,
            Json::Text(expected.canonical_tree_hash),
        ),
{
    lemma_one(document, "format"@, "buckpkgs-store-object-v1"@);
    lemma_one(document, "store_path"@, store_path);
    lemma_two(document, "package"@, "name"@, expected.package_name);
    lemma_two(document, "package"@, "version"@, expected.version);
    lemma_two(document, "package"@, "output"@, expected.output);
    lemma_one(document, "target_system"@, expected.target_system);
    lemma_list(document, "references"@, expected.references);
    lemma_list(document, "runtime_store_outputs"@, expected.runtime_store_outputs);
    lemma_one(document, "canonical_tree_hash"@, expected.canonical_tree_hash);
}

/// A manifest that does not pass is refused for the first field, in a fixed order, that it does
/// not hold as declared, and that field is named.
pub proof fn a_manifest_is_refused_for_its_first_wrong_field(
    document: Json,
    store_path: Seq<char>,
    expected: ExpectedV,
)
    ensures
        ({
            let verdict = manifest_verdict(document, store_path, expected);
            let format = holds(document, "format"@, Json::Text("buckpkgs-store-object-v1"@));
            let path = format && holds(document, "store_path"@, Json::Text(store_path));
            let name = path && holds_below(
                document,
                "package"@,
                "name"@,
                Json::Text(expected.package_name),
            );
            let version = name && holds_below(
                document,
                "package"@,
                "version"@,
                Json::Text(expected.version),
            );
            let output = version && holds_below(
                document,
                "package"@,
                "output"@,
                Json::Text(expected.output),
            );
            let system = output && holds(
                document,
                "target_system"@,
                Json::Text(expected.target_system),
            );
            let references = system && holds(
                document,
                "references"@,
                text_array(expected.references),
            );
            let runtime = references && holds(
                document,
                "runtime_store_outputs"@,
                text_array(expected.runtime_store_outputs),
            );
            let hash = runtime && holds(
                document,
                "canonical_tree_hash"@,
                Json::Text(expected.canonical_tree_hash),
            );
            &&& !format ==> verdict == refusal_of("format"@)
            &&& format && !path ==> verdict == refusal_of("store_path"@)
            &&& path && !name ==> verdict == refusal_of("package.name"@)
            &&& name && !version ==> verdict == refusal_of("package.version"@)
            &&& version && !output ==> verdict == refusal_of("package.output"@)
            &&& output && !system ==> verdict == refusal_of("target_system"@)
            &&& system && !references ==> verdict == refusal_of("references"@)
            &&& references && !runtime ==> verdict == refusal_of("runtime_store_outputs"@)
            &&& runtime && !hash ==> verdict == refusal_of("canonical_tree_hash"@)
        }),
{
    lemma_fields(document, store_path, expected);
}

/// The value that is declared for a field.
pub open spec fn declared_value(
    field: (Seq<char>, Option<Seq<char>>),
    store_path: Seq<char>,
    expected: ExpectedV,
) -> Option<Json> {
    if field == ("format"@, None::<Seq<char>>) {
        Some(Json::Text("buckpkgs-store-object-v1"@))
    } else if field == ("store_path"@, None::<Seq<char>>) {
        Some(Json::Text(store_path))
    } else if field == ("package"@, Some("name"@)) {
        Some(Json::Text(expected.package_name))
    } else if field == ("package"@, Some("version"@)) {
        Some(Json::Text(expected.version))
    } else if field == ("package"@, Some("output"@)) {
        Some(Json::Text(expected.output))
    } else if field == ("target_system"@, None::<Seq<char>>) {
        Some(Json::Text(expected.target_system))
    } else if field == ("references"@, None::<Seq<char>>) {
        Some(text_array(expected.references))
    } else if field == ("runtime_store_outputs"@, None::<Seq<char>>) {
        Some(text_array(expected.runtime_store_outputs))
    } else if field == ("canonical_tree_hash"@, None::<Seq<char>>) {
        Some(Json::Text(expected.canonical_tree_hash))
    } else {
        None
    }
}

/// Any other value in a declared field makes the check fail, whatever the rest of the document
/// holds.
pub proof fn another_value_in_any_field_is_refused(
    document: Json,
    store_path: Seq<char>,
    expected: ExpectedV,
    field: (Seq<char>, Option<Seq<char>>),
    value: Json,
)
    requires
        declared_value(field, store_path, expected) is Some,
        declared_value(field, store_path, expected) != Some(value),
        match field.1 {
            None => holds(document, field.0, value),
            Some(inner) => holds_below(document, field.0, inner, value),
        },
    ensures
        manifest_verdict(document, store_path, expected) is Err,
{
    a_manifest_passes_with_every_declared_field(document, store_path, expected);
    let declared = declared_value(field, store_path, expected)->0;
    let inner = match field.1 {
        None => field.0,
        Some(inner) => inner,
    };
    paths_lead_through_members(document, field.0, inner, value);
    paths_lead_through_members(document, field.0, inner, declared);
}

/// The part of a manifest about the content-addressed store passes exactly if the document holds
/// the name of the tree format, that of the hash function, and the declared root digest; else the
/// first that it does not hold is named.
pub proof fn a_manifest_names_the_published_root(document: Json, root_digest: Seq<char>)
    ensures
        ({
            let verdict = cas_manifest_verdict(document, root_digest);
            let format = holds_below(
                document,
                "cas"@,
                "format"@,
                Json::Text("reapi-directory-v1"@),
            );
            let function = format && holds_below(
                document,
                "cas"@,
                "digest_function"@,
                Json::Text("sha256"@),
            );
            let root = function && holds_below(
                document,
                "cas"@,
                "root_digest"@,
                Json::Text(root_digest),
            );
            &&& verdict is Ok <==> root
            &&& !format ==> verdict == refusal_of("cas.format"@)
            &&& format && !function ==> verdict == refusal_of("cas.digest_function"@)
            &&& function && !root ==> verdict == refusal_of("cas.root_digest"@)
        }),
{
    lemma_two(document, "cas"@, "format"@, "reapi-directory-v1"@);
    lemma_two(document, "cas"@, "digest_function"@, "sha256"@);
    lemma_two(document, "cas"@, "root_digest"@, root_digest);
}

/// A manifest that was read is the document that its text parses to; one that could not be read,
/// or is no document, is refused with the reason.
pub proof fn a_manifest_is_what_its_text_parses_to(path: Seq<char>, contents: Result<String, String>)
    ensures
        match contents {
            Ok(text) => match json_parse(text@) {
                Ok(document) => manifest_document(path, contents) == Ok::<Json, ErrorV>(document),
                Err(error) => manifest_document(path, contents) == Err::<Json, ErrorV>(
                    StoreImportActionError::InvalidManifest { path, error },
                ),
            },
            Err(error) => manifest_document(path, contents) == Err::<Json, ErrorV>(
                StoreImportActionError::Reading {
                    context: "reading store manifest `"@ + path + seq!['`'],
                    error: error@,
                },
            ),
        },
{
    reveal_strlit("`");
    assert("`"@ =~= seq!['`']);
}

} // verus!
