use buckpkgs_store::action::{
    ActionExecutionKind, ActionKind, BuildArtifact, ObjectSource, RemoteExecutorUseCase,
};
use buckpkgs_store::archive::{
    build_verified_store_entry, canonical_archive, check_tree_hash, write_bytes,
};
use buckpkgs_store::cas_store_import::{
    CasImportReply, CasImportRequest, CasImportStage, CasOutcome, CasStoreImportAction,
    CasStoreImportActionError, UnregisteredCasStoreImportAction,
};
use buckpkgs_store::digest::{is_sha256_hash, tree_hash_text, FileDigest};
use buckpkgs_store::disk::{
    DiskBody, DiskChild, DiskContent, DiskFile, DiskLink, DiskNode, DiskStatus, Timestamp,
};
use buckpkgs_store::entry::{LinkMember, NamedEntry, StoreEntry};
use buckpkgs_store::error::{ErrorTag, StoreImportActionError};
use buckpkgs_store::abs_path::ForwardRelativePathBuf;
use buckpkgs_store::json::{parse_json, JsonValue};
use buckpkgs_store::manifest::{
    verify_cas_store_manifest, verify_store_manifest, ExpectedStoreManifest,
};
use buckpkgs_store::registry::{BuckOutPathKind, BuildArtifactPath};
use buckpkgs_store::sealed::has_normalized_sealed_store_metadata;
use buckpkgs_store::store_import::{
    ImportReply, ImportRequest, ImportStage, StoreImportAction, UnregisteredStoreImportAction,
};
use buckpkgs_store::text::decimal;

const PAYLOAD_HASH: &str =
    "sha256:d3fdd16043fcc20f4d79ac637049d63911db7c0c431e8ad663a3b7e4b55c0672";

fn later() -> Timestamp {
    Timestamp { secs: 1_700_000_000, nanos: 5 }
}

fn sealed() -> Timestamp {
    Timestamp { secs: 1, nanos: 0 }
}

fn node(path: &str, mode: u32, modified: Timestamp, body: DiskBody) -> DiskNode {
    DiskNode { path: path.to_owned(), status: DiskStatus::Present { mode, modified, body } }
}

fn file_body(bytes: &[u8]) -> DiskBody {
    let size = bytes.len() as u64;
    DiskBody::File(DiskFile {
        len: size,
        content: Ok(DiskContent {
            bytes: bytes.to_vec(),
            digest: FileDigest { raw: "ab".to_owned(), size },
        }),
    })
}

fn child(name: &str, node: DiskNode) -> DiskChild {
    DiskChild::Entry { name: name.as_bytes().to_vec(), refused: None, node }
}

fn directory(path: &str, children: Vec<DiskChild>) -> DiskNode {
    node(path, 0o755, later(), DiskBody::Directory(Ok(children)))
}

fn payload_object(bytes: &[u8]) -> DiskNode {
    let payload = node("/store-object/payload", 0o644, later(), file_body(bytes));
    directory("/store-object", vec![child("payload", payload)])
}

fn expected_manifest() -> ExpectedStoreManifest {
    ExpectedStoreManifest {
        package_name: "tool".to_owned(),
        version: "1".to_owned(),
        output: "out".to_owned(),
        target_system: "x86_64-linux".to_owned(),
        references: Vec::new(),
        runtime_store_outputs: vec!["/pkgs/store/object".to_owned()],
        canonical_tree_hash: PAYLOAD_HASH.to_owned(),
    }
}

fn manifest_text() -> String {
    format!(
        r#"{{
            "format": "buckpkgs-store-object-v1",
            "store_path": "/pkgs/store/object",
            "package": {{ "name": "tool", "version": "1", "output": "out" }},
            "target_system": "x86_64-linux",
            "references": [],
            "runtime_store_outputs": ["/pkgs/store/object"],
            "canonical_tree_hash": "{PAYLOAD_HASH}"
        }}"#
    )
}

fn cas_manifest_text() -> String {
    format!(
        r#"{{
            "format": "buckpkgs-store-object-v1",
            "store_path": "/pkgs/store/object",
            "package": {{ "name": "tool", "version": "1", "output": "out" }},
            "target_system": "x86_64-linux",
            "references": [],
            "runtime_store_outputs": ["/pkgs/store/object"],
            "canonical_tree_hash": "{PAYLOAD_HASH}",
            "cas": {{
                "format": "reapi-directory-v1",
                "digest_function": "sha256",
                "root_digest": "abcdef:7"
            }}
        }}"#
    )
}

#[test]
fn store_manifest_rejects_declared_provider_mismatch() {
    let contents = Ok(manifest_text());
    let mut expected = expected_manifest();

    verify_store_manifest("/project/store-manifest", &contents, "/pkgs/store/object", &expected).unwrap();
    expected.package_name = "different".to_owned();
    let error =
        verify_store_manifest("/project/store-manifest", &contents, "/pkgs/store/object", &expected)
            .unwrap_err();
    assert!(error.message().contains("package.name"));
}

#[test]
fn cas_store_manifest_binds_the_published_root_digest() {
    let contents = Ok(cas_manifest_text());
    let expected = expected_manifest();

    verify_cas_store_manifest(
        "/project/store-manifest",
        &contents,
        "/pkgs/store/object",
        &expected,
        "abcdef:7",
    )
    .unwrap();
    let error = verify_cas_store_manifest(
        "/project/store-manifest",
        &contents,
        "/pkgs/store/object",
        &expected,
        "different:7",
    )
    .unwrap_err();
    assert!(error.message().contains("cas.root_digest"));
}

#[test]
fn normalized_sealed_store_metadata_rejects_legacy_writable_tree() {
    let tree = |mode: u32, file_mode: u32, modified: Timestamp| {
        let tool = node("/store/tool", file_mode, modified, file_body(b"tool"));
        node("/store", mode, modified, DiskBody::Directory(Ok(vec![child("tool", tool)])))
    };
    assert!(!has_normalized_sealed_store_metadata(&Ok(Some(tree(0o755, 0o644, later())))).unwrap());
    assert!(has_normalized_sealed_store_metadata(&Ok(Some(tree(0o555, 0o444, sealed())))).unwrap());

    assert!(!has_normalized_sealed_store_metadata(&Ok(Some(tree(0o755, 0o444, sealed())))).unwrap());
    assert!(!has_normalized_sealed_store_metadata(&Ok(Some(tree(0o555, 0o464, sealed())))).unwrap());
    assert!(!has_normalized_sealed_store_metadata(&Ok(Some(tree(0o555, 0o444, later())))).unwrap());
    assert!(!has_normalized_sealed_store_metadata(&Ok(None)).unwrap());
}

#[test]
fn verified_store_entry_rejects_modified_payload() {
    let root = Ok(Some(payload_object(b"payload\n")));
    assert!(build_verified_store_entry("/store-object", PAYLOAD_HASH, &root).unwrap().is_some());

    let root = Ok(Some(payload_object(b"changed\n")));
    let error = build_verified_store_entry("/store-object", PAYLOAD_HASH, &root).unwrap_err();
    assert!(error.message().contains("does not match canonical tree hash"));
}

#[test]
fn verified_store_entry_preserves_missing_object_result() {
    assert!(build_verified_store_entry("/missing", PAYLOAD_HASH, &Ok(None)).unwrap().is_none());
}

#[test]
fn the_archive_of_a_small_object() {
    let link = DiskBody::Symlink(Ok(DiskLink {
        target: b"a".to_vec(),
        member: Ok(LinkMember::Symlink("a".to_owned())),
    }));
    let object = directory(
        "/o",
        vec![
            child("b", node("/o/b", 0o777, later(), link)),
            child("a", node("/o/a", 0o755, later(), file_body(b"hi"))),
        ],
    );
    let (archive, entry) = canonical_archive(&object).unwrap();
    let mut bytes = b"BUCKPKGS-STORE-ARCHIVE-V1\0".to_vec();
    bytes.extend([1, 0, 0, 0, 0]);
    bytes.extend([2, 0, 0, 0, 1, b'a', 1, 0, 0, 0, 0, 0, 0, 0, 2, b'h', b'i']);
    bytes.extend([3, 0, 0, 0, 1, b'b', 0, 0, 0, 1, b'a']);
    bytes.push(0);
    assert_eq!(archive, bytes);
    match entry {
        StoreEntry::Dir(members) => {
            assert_eq!(members.len(), 2);
            assert_eq!(members[0].name, "a");
            assert!(matches!(&members[0].entry, StoreEntry::File(f) if f.is_executable));
            assert!(matches!(&members[1].entry, StoreEntry::Link(LinkMember::Symlink(t)) if t == "a"));
        }
        other => panic!("{:?}", other),
    }
}

#[test]
fn nested_paths_and_order_do_not_depend_on_the_listing() {
    let object = |swap: bool| {
        let inner = vec![child("x", node("/o/d/x", 0o644, later(), file_body(b"1")))];
        let mut children = vec![
            child("d", directory("/o/d", inner)),
            child("d-", node("/o/d-", 0o644, later(), file_body(b"2"))),
        ];
        if swap {
            children.reverse();
        }
        directory("/o", children)
    };
    let (first, _) = canonical_archive(&object(false)).unwrap();
    let (second, _) = canonical_archive(&object(true)).unwrap();
    assert_eq!(first, second);
    let text = String::from_utf8_lossy(&first).into_owned();
    assert!(text.find("d/x").unwrap() < text.find("d-").unwrap());
}

#[test]
fn different_trees_have_different_archives() {
    let with_mode = |mode: u32| {
        directory("/o", vec![child("a", node("/o/a", mode, later(), file_body(b"x")))])
    };
    let (plain, _) = canonical_archive(&with_mode(0o644)).unwrap();
    let (executable, _) = canonical_archive(&with_mode(0o645)).unwrap();
    let (group, _) = canonical_archive(&with_mode(0o664)).unwrap();
    assert_ne!(plain, executable);
    assert_eq!(plain, group);
}

#[test]
fn hashes_have_one_form() {
    assert!(is_sha256_hash(PAYLOAD_HASH));
    assert!(is_sha256_hash(&format!("sha256:{}", "A".repeat(64))));
    assert!(!is_sha256_hash(&"0".repeat(71)));
    assert!(!is_sha256_hash(&format!("sha256:{}", "0".repeat(63))));
    assert!(!is_sha256_hash(&format!("sha256:{}g", "0".repeat(63))));
    assert!(!is_sha256_hash(&format!("sha256:{}", "\u{e9}".repeat(32))));
    assert_eq!(tree_hash_text(&[0, 0x1f, 0xa0]), "sha256:001fa0");
    assert_eq!(decimal(18_446_744_073_709_551_615), "18446744073709551615");
    assert_eq!(FileDigest { raw: "ab".to_owned(), size: 10 }.to_text(), "ab:10");
    let error = build_verified_store_entry("/o", "md5:00", &Err("unread".to_owned())).unwrap_err();
    assert_eq!(
        error.message(),
        "canonical store tree hash must be a `sha256:` digest: `md5:00`"
    );
}

#[test]
fn a_hash_mismatch_names_both_hashes() {
    let error = check_tree_hash("/o", "sha256:00", &[1]).unwrap_err();
    assert_eq!(
        error.message(),
        "hydrated store object `/o` does not match canonical tree hash: expected sha256:00, got sha256:01"
    );
    assert!(check_tree_hash("/o", "sha256:01", &[1]).is_ok());
}

fn walk_error(object: DiskNode) -> String {
    build_verified_store_entry("/o", PAYLOAD_HASH, &Ok(Some(object))).unwrap_err().message()
}

#[test]
fn every_failure_of_a_walk_is_told() {
    let unreadable =
        DiskNode { path: "/o".to_owned(), status: DiskStatus::Unreadable("denied".to_owned()) };
    assert_eq!(walk_error(unreadable), "inspecting hydrated store entry `/o`: denied");

    let listing = node("/o", 0o755, later(), DiskBody::Directory(Err("bad".to_owned())));
    assert_eq!(walk_error(listing), "reading hydrated store directory `/o`: bad");

    let partial = directory("/o", vec![DiskChild::Failed("half".to_owned())]);
    assert_eq!(walk_error(partial), "reading hydrated store directory `/o`: half");

    let socket = node("/o", 0o755, later(), DiskBody::Other);
    assert_eq!(
        walk_error(socket),
        "hydrated store object contains unsupported filesystem entry: `/o`"
    );

    let link = node("/o", 0o777, later(), DiskBody::Symlink(Err("bad".to_owned())));
    assert_eq!(walk_error(link), "reading hydrated store symlink `/o`: bad");

    let member = DiskBody::Symlink(Ok(DiskLink {
        target: b"x".to_vec(),
        member: Err("no such link".to_owned()),
    }));
    assert_eq!(walk_error(node("/o", 0o777, later(), member)), "no such link");

    let unread = DiskBody::File(DiskFile { len: 1, content: Err("eio".to_owned()) });
    assert_eq!(
        walk_error(node("/o", 0o644, later(), unread)),
        "reading hydrated store file `/o`: eio"
    );

    let changed = DiskBody::File(DiskFile {
        len: 2,
        content: Ok(DiskContent {
            bytes: b"x".to_vec(),
            digest: FileDigest { raw: "ab".to_owned(), size: 1 },
        }),
    });
    assert_eq!(
        walk_error(node("/o", 0o644, later(), changed)),
        "hydrated store file `/o` changed while it was imported"
    );

    let short = DiskBody::File(DiskFile {
        len: 2,
        content: Ok(DiskContent {
            bytes: b"x".to_vec(),
            digest: FileDigest { raw: "ab".to_owned(), size: 2 },
        }),
    });
    assert_eq!(
        walk_error(node("/o", 0o644, later(), short)),
        "hydrated store file `/o` changed while it was imported"
    );

    let inner = node("/o/x", 0o644, later(), file_body(b""));
    let foreign =
        directory("/o", vec![DiskChild::Entry { name: vec![0xff], refused: None, node: inner }]);
    assert_eq!(
        walk_error(foreign),
        "hydrated store object contains a non-UTF-8 entry below `/o`"
    );

    let inner = node("/o/..", 0o644, later(), file_body(b""));
    let dots = directory("/o", vec![child("..", inner)]);
    assert_eq!(walk_error(dots), "file name is not a single path entry: `..`");

    let inner = node("/o/x", 0o644, later(), file_body(b""));
    let refused = DiskChild::Entry {
        name: b"x".to_vec(),
        refused: Some("not a member name".to_owned()),
        node: inner,
    };
    assert_eq!(walk_error(directory("/o", vec![refused])), "not a member name");

    let error =
        build_verified_store_entry("/o", PAYLOAD_HASH, &Err("no look".to_owned())).unwrap_err();
    assert_eq!(error.message(), "no look");
}

#[test]
fn lengths_stand_before_their_bytes() {
    let error: StoreImportActionError<String> =
        StoreImportActionError::CanonicalTreePathTooLong("p".to_owned());
    assert_eq!(
        error.message(),
        "canonical store tree path is too long for the archive format: `p`"
    );
    let mut out = Vec::new();
    write_bytes(&mut out, b"ab").unwrap();
    assert_eq!(out, vec![0, 0, 0, 2, b'a', b'b']);
    let error: StoreImportActionError<String> = StoreImportActionError::ArchiveTooLarge;
    assert_eq!(error.message(), "canonical store tree is too large to be hashed");
}

#[test]
fn the_sealed_check_reports_what_it_cannot_read() {
    let body = DiskBody::Directory(Err("bad".to_owned()));
    let error =
        has_normalized_sealed_store_metadata(&Ok(Some(node("/s", 0o555, sealed(), body)))).unwrap_err();
    assert_eq!(error.message(), "reading sealed store directory `/s`: bad");
    let unreadable =
        DiskNode { path: "/s".to_owned(), status: DiskStatus::Unreadable("bad".to_owned()) };
    let error = has_normalized_sealed_store_metadata(&Ok(Some(unreadable))).unwrap_err();
    assert_eq!(error.message(), "inspecting sealed store entry `/s`: bad");
    let partial = DiskBody::Directory(Ok(vec![DiskChild::Failed("half".to_owned())]));
    let error = has_normalized_sealed_store_metadata(&Ok(Some(node("/s", 0o555, sealed(), partial))))
        .unwrap_err();
    assert_eq!(error.message(), "half");
    let error = has_normalized_sealed_store_metadata(&Err("no look".to_owned())).unwrap_err();
    assert_eq!(error.message(), "no look");
    let link = DiskBody::Symlink(Err("unread".to_owned()));
    assert!(has_normalized_sealed_store_metadata(&Ok(Some(node("/s", 0o777, sealed(), link)))).unwrap());
}

fn mismatch_of(from: &str, to: &str) -> String {
    let contents = Ok(cas_manifest_text().replace(from, to));
    verify_cas_store_manifest("/m", &contents, "/pkgs/store/object", &expected_manifest(), "abcdef:7")
        .unwrap_err()
        .message()
}

#[test]
fn each_field_of_a_manifest_is_checked() {
    let told = |field: &str| {
        format!("store manifest metadata field `{}` does not match its import declaration", field)
    };
    assert_eq!(mismatch_of("object-v1", "object-v2"), told("format"));
    assert_eq!(mismatch_of("\"store_path\": \"/pkgs", "\"store_path\": \"/x"), told("store_path"));
    assert_eq!(mismatch_of("\"name\"", "\"nome\""), told("package.name"));
    assert_eq!(mismatch_of("\"version\": \"1\"", "\"version\": 1"), told("package.version"));
    assert_eq!(mismatch_of("\"out\"", "\"dev\""), told("package.output"));
    assert_eq!(mismatch_of("x86_64", "i686"), told("target_system"));
    assert_eq!(mismatch_of("\"references\": []", "\"references\": [\"a\"]"), told("references"));
    assert_eq!(
        mismatch_of("[\"/pkgs/store/object\"]", "[1]"),
        told("runtime_store_outputs")
    );
    assert_eq!(mismatch_of("sha256:d3", "sha256:d4"), told("canonical_tree_hash"));
    assert_eq!(mismatch_of("directory-v1", "directory-v2"), told("cas.format"));
    assert_eq!(mismatch_of("\"sha256\"", "\"sha1\""), told("cas.digest_function"));
    assert_eq!(mismatch_of("abcdef:7", "abcdef:8"), told("cas.root_digest"));
}

#[test]
fn a_manifest_that_cannot_be_read_or_parsed_is_refused() {
    let expected = expected_manifest();
    let unread = Err("gone".to_owned());
    let error = verify_store_manifest("/m", &unread, "/p", &expected).unwrap_err();
    assert_eq!(error.message(), "reading store manifest `/m`: gone");
    let error = verify_store_manifest("/m", &Ok("{".to_owned()), "/p", &expected).unwrap_err();
    assert!(error.message().starts_with("failed to parse store manifest `/m`: EOF while parsing"));
}

#[test]
fn json_values_keep_what_the_manifest_check_reads() {
    let value = parse_json(r#"{"a": ["x", null, 1.5], "b": {"c": "d"}, "a": "last"}"#).unwrap();
    assert!(matches!(value.member("a"), Some(JsonValue::Text(t)) if t == "last"));
    assert!(value.member("z").is_none());
    let inner = value.member("b").unwrap();
    assert!(matches!(inner.member("c"), Some(JsonValue::Text(t)) if t == "d"));
    assert!(inner.member("c").unwrap().member("c").is_none());
    let list = parse_json(r#"["x", null]"#).unwrap();
    match list {
        JsonValue::Array(items) => {
            assert_eq!(items.len(), 2);
            assert!(matches!(&items[0], JsonValue::Text(t) if t == "x"));
            assert!(matches!(&items[1], JsonValue::Other));
        }
        other => panic!("{:?}", other),
    }
}

fn artifact(logical: Option<&str>) -> BuildArtifact {
    BuildArtifact {
        path: BuildArtifactPath {
            owner: "root//:pkg".to_owned(),
            path: ForwardRelativePathBuf::parse("__buckpkgs_store__/object").unwrap(),
            kind: BuckOutPathKind::ContentHash,
            logical_store_path: logical.map(str::to_owned),
        },
        shown: "root//:pkg[out]".to_owned(),
    }
}

fn import(hint: Option<&str>) -> UnregisteredStoreImportAction<u8> {
    UnregisteredStoreImportAction {
        missing_hint: hint.map(str::to_owned),
        manifest: 7,
        expected_manifest: expected_manifest(),
    }
}

fn registered(hint: Option<&str>) -> StoreImportAction<u8> {
    import(hint).register(vec![artifact(Some("/pkgs/store/object"))]).unwrap()
}

fn cas_import() -> UnregisteredCasStoreImportAction<u8> {
    UnregisteredCasStoreImportAction {
        manifest: 7,
        expected_manifest: expected_manifest(),
        root_digest: FileDigest { raw: "abcdef".to_owned(), size: 7 },
        re_use_case: RemoteExecutorUseCase::new("pkgs"),
    }
}

fn cas_registered() -> CasStoreImportAction<u8> {
    cas_import().register(vec![artifact(Some("/pkgs/store/object"))]).unwrap()
}

fn manifests() -> Vec<Result<String, String>> {
    vec![Ok("/m".to_owned())]
}

#[test]
fn an_import_has_one_output_with_a_store_path() {
    let action = registered(None);
    assert_eq!(action.kind(), ActionKind::StoreImport);
    assert_eq!(action.inputs(), vec![&7]);
    assert_eq!(action.outputs().len(), 1);
    assert_eq!(action.first_output().shown, "root//:pkg[out]");
    assert_eq!(action.category(), "store_import");
    assert_eq!(action.identifier(), Some("__buckpkgs_store__/object"));

    let error = import(None).register(vec![]).unwrap_err();
    assert_eq!(error.message(), "store import action should have exactly 1 output, got 0");
    let two = vec![artifact(Some("/a")), artifact(Some("/b"))];
    let error = import(None).register(two).unwrap_err();
    assert_eq!(error.message(), "store import action should have exactly 1 output, got 2");
    let error = import(None).register(vec![artifact(None)]).unwrap_err();
    assert_eq!(
        error.message(),
        "store import output does not carry a logical store path: `root//:pkg[out]`"
    );
}

#[test]
fn a_cas_import_has_one_output_with_a_store_path() {
    let action = cas_registered();
    assert_eq!(action.kind(), ActionKind::StoreImport);
    assert_eq!(action.inputs(), vec![&7]);
    assert_eq!(action.outputs().len(), 1);
    assert_eq!(action.first_output().shown, "root//:pkg[out]");
    assert_eq!(action.category(), "cas_store_import");
    assert_eq!(action.identifier(), Some("__buckpkgs_store__/object"));

    let error = cas_import().register(vec![]).unwrap_err();
    assert_eq!(error.message(), "CAS store import action should have exactly 1 output, got 0");
    let error = cas_import().register(vec![artifact(None)]).unwrap_err();
    assert_eq!(
        error.message(),
        "CAS store import output does not carry a logical store path: `root//:pkg[out]`"
    );
    let error = cas_registered().prepare(&vec![]).unwrap_err();
    assert_eq!(
        error.message(),
        "CAS store import manifest input must resolve to exactly one artifact"
    );
}

#[test]
fn an_import_declares_the_object_at_its_store_path() {
    let root = Ok(Some(payload_object(b"payload\n")));
    let declaration =
        registered(None).execute(&manifests(), &Ok(manifest_text()), &root).unwrap();
    assert_eq!(declaration.output.path.as_str(), "__buckpkgs_store__/object");
    assert_eq!(declaration.logical_store_path, "/pkgs/store/object");
    assert_eq!(declaration.execution_kind, ActionExecutionKind::Simple);
    assert!(matches!(declaration.source, ObjectSource::Store));
    assert!(matches!(&declaration.entry, StoreEntry::Dir(members) if members[0].name == "payload"));
}

#[test]
fn an_absent_object_is_told_with_the_hint() {
    let error = registered(Some("Run hydrate."))
        .execute(&manifests(), &Ok(manifest_text()), &Ok(None))
        .unwrap_err();
    assert_eq!(
        error.message(),
        "Hydrated store object `/pkgs/store/object` is absent. Run hydrate."
    );
    let error =
        registered(None).execute(&manifests(), &Ok(manifest_text()), &Ok(None)).unwrap_err();
    assert_eq!(error.message(), "Hydrated store object `/pkgs/store/object` is absent.");
}

#[test]
fn an_import_checks_its_inputs_in_order() {
    let contents = Ok(manifest_text());
    let error = registered(None).execute(&vec![], &contents, &Ok(None)).unwrap_err();
    assert_eq!(
        error.message(),
        "store import manifest input must resolve to exactly one artifact"
    );
    let unresolved = vec![Err("no path".to_owned())];
    let error = registered(None).execute(&unresolved, &contents, &Ok(None)).unwrap_err();
    assert_eq!(error.message(), "no path");
    let action = import(None).register(vec![artifact(Some("pkgs/store"))]).unwrap();
    let error = action.execute(&vec![], &contents, &Ok(None)).unwrap_err();
    assert_eq!(error.message(), "store path is not absolute and normalized: `pkgs/store`");
    let error = registered(None)
        .execute(&manifests(), &Ok("{}".to_owned()), &Err("unread".to_owned()))
        .unwrap_err();
    assert!(error.message().contains("`format`"));
    let mut action = registered(None);
    action.output.path.logical_store_path = None;
    let error = action.execute(&manifests(), &contents, &Ok(None)).unwrap_err();
    assert!(matches!(error, StoreImportActionError::MissingLogicalStorePath(_)));
}

fn sealed_object() -> DiskNode {
    let payload = node("/store-object/payload", 0o444, sealed(), file_body(b"payload\n"));
    let children = vec![child("payload", payload)];
    node("/store-object", 0o555, sealed(), DiskBody::Directory(Ok(children)))
}

#[test]
fn a_cas_import_reuses_a_sealed_object() {
    let root = Ok(Some(sealed_object()));
    let action = cas_registered();
    let declaration =
        match action.execute(&manifests(), &Ok(cas_manifest_text()), &root, &root).unwrap() {
            CasOutcome::Declared(declaration) => declaration,
            other => panic!("{:?}", other),
        };
    assert_eq!(declaration.output.path.as_str(), "__buckpkgs_store__/object");
    assert_eq!(declaration.execution_kind, ActionExecutionKind::Simple);
    assert!(matches!(declaration.source, ObjectSource::Store));
}

#[test]
fn a_cas_import_fetches_what_is_absent_or_not_sealed() {
    let contents = Ok(cas_manifest_text());
    let writable = Ok(Some(payload_object(b"payload\n")));
    let action = cas_registered();
    let fetches = |outcome: CasOutcome| match outcome {
        CasOutcome::Fetch { use_case, digest } => {
            use_case == "pkgs" && digest.to_text() == "abcdef:7"
        }
        CasOutcome::Declared(_) => false,
    };
    assert!(fetches(action.execute(&manifests(), &contents, &writable, &writable).unwrap()));
    assert!(fetches(action.execute(&manifests(), &contents, &Ok(None), &Ok(None)).unwrap()));
    let object = Ok(Some(sealed_object()));
    assert!(fetches(action.execute(&manifests(), &contents, &object, &Ok(None)).unwrap()));
    assert!(!fetches(action.execute(&manifests(), &contents, &object, &object).unwrap()));
    let changed = Ok(Some(payload_object(b"changed\n")));
    let error =
        cas_registered().execute(&manifests(), &contents, &changed, &changed).unwrap_err();
    assert!(matches!(
        error,
        CasStoreImportActionError::Import(StoreImportActionError::CanonicalTreeHashMismatch { .. })
    ));
    let error = cas_registered()
        .execute(&manifests(), &Ok(manifest_text()), &Ok(None), &Ok(None))
        .unwrap_err();
    assert!(error.message().contains("cas.format"));
    let error = cas_registered()
        .execute(&manifests(), &contents, &Ok(Some(sealed_object())), &Err("no look".to_owned()))
        .unwrap_err();
    assert_eq!(error.message(), "no look");
}

#[test]
fn a_fetched_object_is_declared_as_remote() {
    let action = cas_registered();
    assert_eq!(action.root_directory(Ok(vec!["first", "second"])).unwrap(), "first");
    let error = action.root_directory(Ok(Vec::<u8>::new())).unwrap_err();
    assert_eq!(
        error.message(),
        "Error downloading CAS store root directory: abcdef:7: RE response was empty"
    );
    let error = action.root_directory(Err::<Vec<u8>, String>("timeout".to_owned())).unwrap_err();
    assert_eq!(
        error.message(),
        "Error downloading CAS store root directory: abcdef:7: timeout"
    );
    let plan = action.prepare(&manifests()).unwrap();
    let declaration = action.declare_fetched(&plan, Ok(Vec::new())).unwrap();
    assert_eq!(declaration.logical_store_path, "/pkgs/store/object");
    assert_eq!(declaration.execution_kind, ActionExecutionKind::Deferred);
    assert!(matches!(&declaration.source, ObjectSource::Cas { use_case } if use_case == "pkgs"));
    let error = action.declare_fetched(&plan, Err("cycle".to_owned())).unwrap_err();
    assert_eq!(error.message(), "Invalid CAS store directory: cycle");
}

fn member(name: &str, entry: StoreEntry) -> NamedEntry {
    NamedEntry { name: name.to_owned(), entry }
}

#[test]
fn a_fetched_tree_has_proper_names() {
    let action = cas_registered();
    let plan = action.prepare(&manifests()).unwrap();
    for name in ["..", ".", "", "a/b"] {
        let inner = StoreEntry::Dir(vec![member(name, StoreEntry::Dir(Vec::new()))]);
        let tree = vec![member("ok", StoreEntry::Dir(Vec::new())), member("d", inner)];
        let error = action.declare_fetched(&plan, Ok(tree)).unwrap_err();
        assert_eq!(
            error.message(),
            format!(
                "Invalid CAS store directory: file name is not a single path entry: `{}`",
                name
            )
        );
    }
    let tree = vec![member("d", StoreEntry::Dir(vec![member("...", StoreEntry::Dir(Vec::new()))]))];
    assert!(action.declare_fetched(&plan, Ok(tree)).is_ok());
}

#[test]
fn the_remote_store_is_asked_for_the_root_digest() {
    let action = cas_registered();
    let (use_case, digest) = action.root_request();
    assert_eq!(use_case, "pkgs");
    assert_eq!(digest.to_text(), "abcdef:7");
}

#[test]
fn an_import_reads_the_manifest_before_it_looks() {
    let action = registered(None);
    let stage = action.begin(&manifests());
    assert!(matches!(stage.request(), Some(ImportRequest::ReadManifest(path)) if path == "/m"));
    let stage = action.step(stage, &ImportReply::Manifest(Ok(manifest_text())));
    assert!(matches!(stage.request(), Some(ImportRequest::Look(path)) if path == "/pkgs/store/object"));
    let found = ImportReply::Found(Ok(Some(payload_object(b"payload\n"))));
    let stage = action.step(stage, &found);
    assert!(stage.request().is_none());
    assert!(matches!(&stage, ImportStage::Finished(Ok(_))));

    let stage = action.begin(&manifests());
    let stage = action.step(stage, &ImportReply::Manifest(Ok("{}".to_owned())));
    assert!(matches!(&stage, ImportStage::Finished(Err(_))));
    let stage = action.begin(&manifests());
    match action.step(stage, &found) {
        ImportStage::Finished(Err(error)) => {
            assert_eq!(error.message(), "the reply does not belong to the request")
        }
        other => panic!("{:?}", other),
    }
    assert!(matches!(action.begin(&vec![]), ImportStage::Finished(Err(_))));
}

#[test]
fn a_cas_import_goes_from_the_manifest_to_the_tree() {
    let action = cas_registered();
    let stage: CasImportStage<&str> = action.begin(&manifests());
    assert!(matches!(
        action.request(&stage),
        Some(CasImportRequest::ReadManifest("/m"))
    ));
    let stage = action.step(stage, CasImportReply::Manifest(Ok(cas_manifest_text())));
    assert!(matches!(
        action.request(&stage),
        Some(CasImportRequest::Look("/pkgs/store/object"))
    ));
    let stage = action.step(stage, CasImportReply::Found(Ok(Some(payload_object(b"payload\n")))));
    assert!(matches!(
        action.request(&stage),
        Some(CasImportRequest::LookAgain("/pkgs/store/object"))
    ));
    let stage = action.step(stage, CasImportReply::Found(Ok(Some(payload_object(b"payload\n")))));
    match action.request(&stage) {
        Some(CasImportRequest::FetchRoot { use_case, digest }) => {
            assert_eq!(use_case, "pkgs");
            assert_eq!(digest.to_text(), "abcdef:7");
        }
        other => panic!("{:?}", other),
    }
    let stage = action.step(stage, CasImportReply::Directories(Ok(vec!["first", "second"])));
    assert!(matches!(
        action.request(&stage),
        Some(CasImportRequest::FetchTree { use_case: "pkgs", directory: &"first" })
    ));
    let stage = action.step(stage, CasImportReply::Tree(Ok(Ok(Vec::new()))));
    assert!(action.request(&stage).is_none());
    match stage {
        CasImportStage::Finished(Ok(object)) => {
            assert_eq!(object.execution_kind, ActionExecutionKind::Deferred);
            assert_eq!(object.output.path.as_str(), "__buckpkgs_store__/object");
        }
        other => panic!("{:?}", other),
    }
}

#[test]
fn a_cas_import_stops_at_each_failure() {
    let action = cas_registered();
    let told = |stage: CasImportStage<u8>| match stage {
        CasImportStage::Finished(Err(error)) => error.message(),
        other => panic!("{:?}", other),
    };
    let begun = || action.begin::<u8>(&manifests());
    let read = || action.step(begun(), CasImportReply::Manifest(Ok(cas_manifest_text())));
    let absent = || action.step(read(), CasImportReply::Found(Ok(None)));
    let rooted = || action.step(absent(), CasImportReply::Directories(Ok(vec![1])));
    assert!(told(action.step(begun(), CasImportReply::Manifest(Ok(manifest_text()))))
        .contains("cas.format"));
    assert_eq!(told(action.step(read(), CasImportReply::Found(Err("no look".to_owned())))), "no look");
    assert_eq!(
        told(action.step(absent(), CasImportReply::Directories(Ok(Vec::new())))),
        "Error downloading CAS store root directory: abcdef:7: RE response was empty"
    );
    assert_eq!(told(action.step(rooted(), CasImportReply::Tree(Err("lost".to_owned())))), "lost");
    assert_eq!(
        told(action.step(rooted(), CasImportReply::Tree(Ok(Err("cycle".to_owned()))))),
        "Invalid CAS store directory: cycle"
    );
    assert_eq!(
        told(action.step(begun(), CasImportReply::Found(Ok(None)))),
        "the reply does not belong to the request"
    );
    assert_eq!(told(action.begin::<u8>(&vec![])),
        "CAS store import manifest input must resolve to exactly one artifact");
}

#[test]
fn import_errors_tell_whom_they_are_for() {
    let mismatch = check_tree_hash("/o", "sha256:00", &[1]).unwrap_err();
    assert_eq!(mismatch.tag(), Some(ErrorTag::Input));
    let absent =
        registered(None).execute(&manifests(), &Ok(manifest_text()), &Ok(None)).unwrap_err();
    assert_eq!(absent.tag(), Some(ErrorTag::Input));
    let passed = build_verified_store_entry("/o", PAYLOAD_HASH, &Err("x".to_owned())).unwrap_err();
    assert_eq!(passed.tag(), None);
    assert_eq!(cas_import().register(vec![]).unwrap_err().tag(), Some(ErrorTag::Input));
    let unread = Err("gone".to_owned());
    let error = cas_registered()
        .execute(&manifests(), &unread, &Ok(None), &Ok(None))
        .unwrap_err();
    assert_eq!(error.tag(), None);
}

#[test]
fn equal_trees_are_accepted_wherever_they_are() {
    let inner = node("/elsewhere/payload", 0o464, sealed(), file_body(b"payload\n"));
    let moved = node(
        "/elsewhere",
        0o700,
        sealed(),
        DiskBody::Directory(Ok(vec![child("payload", inner)])),
    );
    let first = build_verified_store_entry(
        "/store-object",
        PAYLOAD_HASH,
        &Ok(Some(payload_object(b"payload\n"))),
    )
    .unwrap()
    .unwrap();
    let second = build_verified_store_entry("/elsewhere", PAYLOAD_HASH, &Ok(Some(moved)))
        .unwrap()
        .unwrap();
    assert!(first.same(&second));
}
