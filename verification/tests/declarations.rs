use buckpkgs_store::abs_path::{AbsNormPathBuf, ForwardRelativePathBuf};
use buckpkgs_store::context::{
    declare_store_output, import_cas_store_output, import_store_output, store_path,
    ImportDeclaration,
};
use buckpkgs_store::digest::FileDigest;
use buckpkgs_store::error::ErrorTag;
use buckpkgs_store::registry::{
    staged_store_path, ActionsRegistry, AnalysisRegistry, BuckOutPathKind, BuildArtifactPath,
    OutputType,
};
use buckpkgs_store::store_path::StarlarkStorePath;

const KEY: &str = "0123456789abcdef0123456789abcdef";

fn abs(path: &str) -> AbsNormPathBuf {
    AbsNormPathBuf::parse(path).unwrap()
}

fn registry() -> AnalysisRegistry {
    AnalysisRegistry { actions: ActionsRegistry::new("root//:pkg".to_owned()) }
}

fn declaration() -> ImportDeclaration<'static> {
    ImportDeclaration {
        package_name: "tool",
        version: "1",
        output: "out",
        target_system: "x86_64-linux",
        references: vec!["/pkgs/store/a", "/pkgs/store/b"],
        runtime_store_outputs: vec![],
        canonical_tree_hash: "sha256:00",
    }
}

#[test]
fn an_identity_gives_one_path() {
    let path = StarlarkStorePath::from_identity(KEY, "tool-1.0").unwrap();
    assert_eq!(path.to_text(), "/pkgs/store/0123456789abcdef0123456789abcdef-tool-1.0");
    assert_eq!(path.path().as_str(), path.to_text());
    assert_eq!(store_path(KEY, "tool-1.0").unwrap().to_text(), path.to_text());
}

#[test]
fn an_identity_is_checked() {
    for key in [
        "",
        "0123456789abcdef0123456789abcde",
        "0123456789abcdef0123456789abcdef0",
        "0123456789ABCDEF0123456789abcdef",
        "0123456789abcdeg0123456789abcdef",
        "\u{e9}123456789abcdef0123456789abcde",
    ] {
        assert_eq!(
            store_path(key, "tool").unwrap_err().message(),
            format!(
                "store path key must be a 32-character lowercase hex digest prefix: `{}`",
                key
            )
        );
    }
    for name in ["", ".", "..", "a/b", "/"] {
        assert_eq!(
            store_path(KEY, name).unwrap_err().message(),
            format!("store name must be a non-empty single path entry: `{}`", name)
        );
    }
    assert!(store_path(KEY, "...").is_ok());
}

#[test]
fn different_identities_have_different_paths() {
    let one = store_path(KEY, "a").unwrap().to_text();
    let other = store_path(KEY, "b").unwrap().to_text();
    assert_ne!(one, other);
}

#[test]
fn store_paths_are_staged_below_one_directory() {
    let staged = |path: &str| staged_store_path(&abs(path));
    assert_eq!(staged("/pkgs/store/obj").unwrap().as_str(), "__buckpkgs_store__/obj");
    assert_eq!(staged("/pkgs//store/obj/bin/").unwrap().as_str(), "__buckpkgs_store__/obj/bin");
    assert_eq!(
        staged("/pkgs/storeroom/obj").unwrap_err().message(),
        "store output path must be under `/pkgs/store`: `/pkgs/storeroom/obj`"
    );
    assert_eq!(
        staged("/pkgs/store/").unwrap_err().message(),
        "store output path must name an entry below `/pkgs/store`"
    );
    let path = store_path(KEY, "tool").unwrap();
    assert_eq!(
        staged_store_path(path.path()).unwrap().as_str(),
        "__buckpkgs_store__/0123456789abcdef0123456789abcdef-tool"
    );
}

#[test]
fn outputs_carry_their_store_path() {
    let mut state = registry();
    let built = state
        .declare_store_output(&Ok(()), &abs("/pkgs/store/a"), OutputType::Directory)
        .unwrap();
    assert_eq!(built.path.owner, "root//:pkg");
    assert_eq!(built.path.path.as_str(), "__buckpkgs_store__/a");
    assert_eq!(built.path.kind, BuckOutPathKind::Configuration);
    assert_eq!(built.path.logical_store_path.as_deref(), Some("/pkgs/store/a"));
    assert_eq!(built.output_type, OutputType::Directory);
    assert_eq!(built.hidden, 0);
    let imported = state
        .declare_imported_store_output(&Ok(()), &abs("/pkgs/store/b"), OutputType::FileOrDirectory)
        .unwrap();
    assert_eq!(imported.path.kind, BuckOutPathKind::ContentHash);
    assert_eq!(state.actions.declared().len(), 2);
    assert!(state.actions.contains(&built.path));
    let other = BuildArtifactPath::with_store_path(
        "root//:other".to_owned(),
        ForwardRelativePathBuf::parse("__buckpkgs_store__/a").unwrap(),
        BuckOutPathKind::Configuration,
        "/pkgs/store/a".to_owned(),
    );
    assert!(!state.actions.contains(&other));
    assert_eq!(state.actions.owner_text(), "root//:pkg");
}

#[test]
fn a_refused_claim_declares_nothing() {
    let mut state = registry();
    let claim = Err("already claimed".to_owned());
    let error = state
        .declare_store_output(&claim, &abs("/pkgs/store/a"), OutputType::Directory)
        .unwrap_err();
    assert_eq!(error.message(), "already claimed");
    let error = state
        .declare_store_output(&Ok(()), &abs("/elsewhere"), OutputType::Directory)
        .unwrap_err();
    assert_eq!(
        error.message(),
        "store output path must be under `/pkgs/store`: `/elsewhere`"
    );
    assert_eq!(state.actions.declared().len(), 0);
}

#[test]
fn rules_declare_outputs() {
    let mut state = registry();
    let path = store_path(KEY, "tool").unwrap();
    let artifact = declare_store_output(&mut state, &Ok(()), &path, true).unwrap();
    assert_eq!(artifact.output_type, OutputType::Directory);
    let path = store_path(KEY, "other").unwrap();
    let artifact = declare_store_output(&mut state, &Ok(()), &path, false).unwrap();
    assert_eq!(artifact.output_type, OutputType::FileOrDirectory);
}

#[test]
fn rules_import_objects() {
    let mut state = registry();
    let path = store_path(KEY, "tool").unwrap();
    let (artifact, action) = import_store_output(
        &mut state,
        &Ok(()),
        &path,
        true,
        Some("hydrate it"),
        Ok::<u8, String>(3),
        &declaration(),
    )
    .unwrap();
    assert_eq!(artifact.path.kind, BuckOutPathKind::ContentHash);
    assert_eq!(action.manifest, 3);
    assert_eq!(action.missing_hint.as_deref(), Some("hydrate it"));
    assert_eq!(action.expected_manifest.package_name, "tool");
    assert_eq!(action.expected_manifest.references, vec!["/pkgs/store/a", "/pkgs/store/b"]);
    assert!(action.expected_manifest.runtime_store_outputs.is_empty());
    assert_eq!(action.expected_manifest.canonical_tree_hash, "sha256:00");
}

#[test]
fn a_manifest_without_artifact_is_told_after_the_declaration() {
    let mut state = registry();
    let path = store_path(KEY, "tool").unwrap();
    let error = import_store_output(
        &mut state,
        &Ok(()),
        &path,
        false,
        None,
        Err::<u8, String>("no artifact".to_owned()),
        &declaration(),
    )
    .unwrap_err();
    assert_eq!(error.message(), "no artifact");
    assert_eq!(state.actions.declared().len(), 1);
    let error = import_store_output(
        &mut state,
        &Err("claimed".to_owned()),
        &path,
        false,
        None,
        Ok::<u8, String>(3),
        &declaration(),
    )
    .unwrap_err();
    assert_eq!(error.message(), "claimed");
}

#[test]
fn rules_import_objects_from_a_content_addressed_store() {
    let mut state = registry();
    let path = store_path(KEY, "tool").unwrap();
    let error = import_cas_store_output(
        &mut state,
        &Ok(()),
        &path,
        true,
        Ok::<u8, String>(3),
        "zz",
        Err("not hexadecimal".to_owned()),
        "pkgs",
        &declaration(),
    )
    .unwrap_err();
    assert_eq!(
        error.message(),
        "Not a valid RE store root digest: `zz`: not hexadecimal"
    );
    assert_eq!(state.actions.declared().len(), 0);
    let (artifact, action) = import_cas_store_output(
        &mut state,
        &Ok(()),
        &path,
        true,
        Ok::<u8, String>(3),
        "ab:7",
        Ok(FileDigest { raw: "ab".to_owned(), size: 7 }),
        "pkgs",
        &declaration(),
    )
    .unwrap();
    assert_eq!(artifact.output_type, OutputType::Directory);
    assert_eq!(action.root_digest.to_text(), "ab:7");
    assert_eq!(action.re_use_case.name, "pkgs");
    assert_eq!(action.expected_manifest.version, "1");
}

#[test]
fn absolute_paths_keep_their_text() {
    for path in ["/", "/a", "/a/b", "/a//b/", "/..."] {
        assert_eq!(abs(path).as_str(), path);
    }
    for path in ["", "a", "/.", "/a/..", "/a/./b"] {
        assert!(AbsNormPathBuf::parse(path).is_none());
    }
    let parent = |path: &str| abs(path).parent().map(|p| p.as_str().to_owned());
    assert_eq!(parent("/a/b"), Some("/a".to_owned()));
    assert_eq!(parent("/a//b/"), Some("/a".to_owned()));
    assert_eq!(parent("/a"), Some("/".to_owned()));
    assert_eq!(parent("/"), None);
    assert_eq!(abs("/a/b/c").strip_prefix(&abs("/a")).unwrap().as_str(), "b/c");
    assert!(abs("/a").strip_prefix(&abs("/a/b")).is_none());
    assert!(abs("/ab").strip_prefix(&abs("/a")).is_none());
    assert_eq!(abs("/a/").strip_prefix(&abs("/a")).unwrap().as_str(), "");
    let relative = ForwardRelativePathBuf::parse("x/y").unwrap();
    assert_eq!(abs("/a").join(&relative).as_str(), "/a/x/y");
    assert_eq!(abs("/").join(&relative).as_str(), "/x/y");
    assert_eq!(abs("/a").join(&ForwardRelativePathBuf::parse("").unwrap()).as_str(), "/a");
    for path in ["/x", "x/", "x//y", "../x", "x/."] {
        assert!(ForwardRelativePathBuf::parse(path).is_none());
    }
}

#[test]
fn built_and_imported_outputs_are_staged_at_one_place() {
    let path = abs("/pkgs/store/a");
    let built = registry().declare_store_output(&Ok(()), &path, OutputType::Directory).unwrap();
    let imported =
        registry().declare_imported_store_output(&Ok(()), &path, OutputType::Directory).unwrap();
    assert_eq!(built.path.path.as_str(), imported.path.path.as_str());
    assert_eq!(built.path.logical_store_path, imported.path.logical_store_path);
    assert_ne!(built.path.kind, imported.path.kind);
}

#[test]
fn declaration_errors_tell_whom_they_are_for() {
    assert_eq!(store_path("x", "y").unwrap_err().tag(), ErrorTag::Input);
    assert_eq!(staged_store_path(&abs("/x")).unwrap_err().tag(), Some(ErrorTag::Input));
    let mut state = registry();
    let path = store_path(KEY, "tool").unwrap();
    let claim = Err("claimed".to_owned());
    let error = declare_store_output(&mut state, &claim, &path, false).unwrap_err();
    assert_eq!(error.tag(), None);
    let error = import_store_output(
        &mut state,
        &Ok(()),
        &path,
        false,
        None,
        Err::<u8, String>("no artifact".to_owned()),
        &declaration(),
    )
    .unwrap_err();
    assert_eq!(error.tag(), None);
}
