use zed_nix_index::cargo::{calculate_rust_extension_root, find_cargo_workspace, root_from_relative, CargoWorkspace};
use zed_nix_index::lockfile::{
    calculate_cargo_output_hashes, calculate_rust_extension_kind, git_dependencies,
    pinned_git_dependencies, process_cargo_lockfile, record_hash, stored_lockfile_path,
    LockedPackage, LockfileAction, PackageSource,
};
use zed_nix_index::output::ExtensionKind;
use zed_nix_index::prefetch::{normalize_rev, prefetch_args};
use zed_nix_index::registry::RegistryExtension;
use zed_nix_index::sync::process_rust_extension;

fn ws(lockfile: &str, root: Option<&str>) -> CargoWorkspace {
    CargoWorkspace { lockfile: lockfile.to_string(), root: root.map(String::from) }
}

#[test]
fn nested_plugin_root_is_relative_to_workspace() {
    assert_eq!(calculate_rust_extension_root(&ws("l", Some("p")), Some("p/q")), Some("q".to_string()));
}

#[test]
fn plugin_at_workspace_root_has_no_root() {
    assert_eq!(calculate_rust_extension_root(&ws("l", Some("p/q")), Some("p/q")), None);
}

#[test]
fn plugin_under_enclosing_workspace_keeps_its_path() {
    assert_eq!(calculate_rust_extension_root(&ws("l", None), Some("p/q")), Some("p/q".to_string()));
}

#[test]
fn plugin_at_repository_root_has_no_root() {
    assert_eq!(calculate_rust_extension_root(&ws("l", Some("p")), None), None);
}

#[test]
fn unrelated_root_gives_none() {
    assert_eq!(calculate_rust_extension_root(&ws("l", Some("a")), Some("b/c")), None);
}

#[test]
fn empty_relative_root_collapses() {
    assert_eq!(root_from_relative(Some(String::new())), None);
    assert_eq!(root_from_relative(Some("x".to_string())), Some("x".to_string()));
    assert_eq!(root_from_relative(None), None);
}

#[test]
fn workspace_without_subpath_uses_own_lockfile() {
    let w = find_cargo_workspace("/tmp/ext", None, None);
    assert_eq!(w.lockfile, "/tmp/ext/Cargo.lock");
    assert_eq!(w.root, None);
}

#[test]
fn enclosing_workspace_lockfile_governs() {
    let metadata = br#"{"packages":[],"workspace_root":"/tmp/repo"}"#.to_vec();
    let w = find_cargo_workspace("/tmp/repo/ext", Some("ext"), Some(&metadata));
    assert_eq!(w.lockfile, "/tmp/repo/Cargo.lock");
    assert_eq!(w.root, None);
}

#[test]
fn own_workspace_keeps_subpath_as_root() {
    let metadata = br#"{"workspace_root":"/tmp/repo/ext"}"#.to_vec();
    let w = find_cargo_workspace("/tmp/repo/ext", Some("ext"), Some(&metadata));
    assert_eq!(w.lockfile, "/tmp/repo/ext/Cargo.lock");
    assert_eq!(w.root, Some("ext".to_string()));
}

#[test]
fn failed_inspection_means_no_enclosing_workspace() {
    let w = find_cargo_workspace("/tmp/repo/ext", Some("ext"), None);
    assert_eq!(w.root, Some("ext".to_string()));
    let garbage = b"not json".to_vec();
    let w = find_cargo_workspace("/tmp/repo/ext", Some("ext"), Some(&garbage));
    assert_eq!(w.lockfile, "/tmp/repo/ext/Cargo.lock");
    assert_eq!(w.root, Some("ext".to_string()));
}

const GIT_LOCK: &str = r#"version = 3

[[package]]
name = "pinned"
version = "0.1.0"
source = "git+https://github.com/a/pinned?branch=main#0123456789abcdef0123456789abcdef01234567"

[[package]]
name = "loose"
version = "0.2.0"
source = "git+https://github.com/a/loose?branch=main"

[[package]]
name = "serde"
version = "1.0.0"
source = "registry+https://github.com/rust-lang/crates.io-index"
"#;

const PLAIN_LOCK: &str = r#"version = 3

[[package]]
name = "serde"
version = "1.0.0"
source = "registry+https://github.com/rust-lang/crates.io-index"

[[package]]
name = "local"
version = "0.1.0"
"#;

#[test]
fn missing_lockfile_is_generated_and_stored() {
    assert_eq!(process_cargo_lockfile(None), Ok(LockfileAction::GenerateAndStore));
}

#[test]
fn lockfile_with_git_dependency_is_stored() {
    assert_eq!(process_cargo_lockfile(Some(GIT_LOCK)), Ok(LockfileAction::Store));
}

#[test]
fn plain_lockfile_drops_stored_copy() {
    assert_eq!(process_cargo_lockfile(Some(PLAIN_LOCK)), Ok(LockfileAction::RemoveStored));
}

#[test]
fn invalid_lockfile_is_an_error() {
    assert!(process_cargo_lockfile(Some("[[package]]\nname = 3")).is_err());
}

#[test]
fn only_pinned_git_dependency_is_hashed() {
    let deps = pinned_git_dependencies(GIT_LOCK).unwrap();
    assert_eq!(deps.len(), 1);
    assert_eq!(deps[0].key, "pinned-0.1.0");
    assert_eq!(deps[0].url, "https://github.com/a/pinned");
    assert_eq!(deps[0].rev, "0123456789abcdef0123456789abcdef01234567");
    let table = calculate_cargo_output_hashes(vec![(deps[0].key.clone(), Some("sha256-h".to_string()))]);
    assert_eq!(table, vec![("pinned-0.1.0".to_string(), "sha256-h".to_string())]);
}

#[test]
fn git_dependencies_from_packages() {
    let pkgs = vec![
        LockedPackage {
            name: "a".to_string(),
            version: "1".to_string(),
            source: Some(PackageSource { git: true, url: "u".to_string(), precise: Some("r".to_string()) }),
        },
        LockedPackage {
            name: "b".to_string(),
            version: "2".to_string(),
            source: Some(PackageSource { git: true, url: "v".to_string(), precise: None }),
        },
        LockedPackage {
            name: "c".to_string(),
            version: "3".to_string(),
            source: Some(PackageSource { git: false, url: "w".to_string(), precise: Some("locked".to_string()) }),
        },
    ];
    let deps = git_dependencies(&pkgs);
    assert_eq!(deps.len(), 1);
    assert_eq!(deps[0].key, "a-1");
}

#[test]
fn hash_table_is_sorted_and_skips_failures() {
    let table = calculate_cargo_output_hashes(vec![
        ("z-1".to_string(), Some("hz".to_string())),
        ("m-1".to_string(), None),
        ("a-1".to_string(), Some("ha".to_string())),
        ("z-1".to_string(), Some("hz2".to_string())),
    ]);
    assert_eq!(
        table,
        vec![("a-1".to_string(), "ha".to_string()), ("z-1".to_string(), "hz2".to_string())]
    );
}

#[test]
fn record_hash_replaces_existing_key() {
    let mut t = vec![("a".to_string(), "1".to_string()), ("c".to_string(), "3".to_string())];
    record_hash(&mut t, "b".to_string(), "2".to_string());
    record_hash(&mut t, "a".to_string(), "9".to_string());
    assert_eq!(
        t,
        vec![
            ("a".to_string(), "9".to_string()),
            ("b".to_string(), "2".to_string()),
            ("c".to_string(), "3".to_string())
        ]
    );
}

#[test]
fn stored_lockfile_is_named_after_extension() {
    assert_eq!(stored_lockfile_path("foo"), "generated/extensions/foo.lock");
}

#[test]
fn rust_kind_for_altered_lockfile() {
    let kind = calculate_rust_extension_kind(
        "foo",
        &ws("l", Some("p")),
        "sha256-v".to_string(),
        Some(vec![("k-1".to_string(), "h".to_string())]),
    );
    match kind {
        ExtensionKind::Rust { cargo_root, cargo_hash, cargo_lock } => {
            assert_eq!(cargo_root, Some("p".to_string()));
            assert_eq!(cargo_hash, "sha256-v");
            let lock = cargo_lock.unwrap();
            assert_eq!(lock.lock_file, "/generated/extensions/foo.lock");
            assert_eq!(lock.output_hashes.len(), 1);
        }
        ExtensionKind::Plain => panic!("expected native variant"),
    }
}

#[test]
fn rust_extension_in_enclosing_workspace() {
    let reg = RegistryExtension {
        name: "foo".to_string(),
        version: "1".to_string(),
        repository: "r".to_string(),
        path: Some("ext/foo".to_string()),
        rev: "x".to_string(),
    };
    let (kind, root) = process_rust_extension(&reg, &ws("/w/Cargo.lock", None), "h".to_string(), None);
    assert_eq!(root, Some("ext/foo".to_string()));
    assert_eq!(
        kind,
        ExtensionKind::Rust { cargo_root: None, cargo_hash: "h".to_string(), cargo_lock: None }
    );
}

#[test]
fn commit_hash_and_refs_kept_branch_prefixed() {
    let hash = "0123456789abcdef0123456789ABCDEF01234567";
    assert_eq!(normalize_rev(hash), hash);
    assert_eq!(normalize_rev("refs/tags/v1"), "refs/tags/v1");
    assert_eq!(normalize_rev("main"), "refs/heads/main");
    assert_eq!(normalize_rev("0123456789abcdef0123456789abcdef0123456"), "refs/heads/0123456789abcdef0123456789abcdef0123456");
    assert_eq!(normalize_rev("g123456789abcdef0123456789abcdef01234567"), "refs/heads/g123456789abcdef0123456789abcdef01234567");
}

#[test]
fn prefetch_arguments() {
    assert_eq!(
        prefetch_args("https://x/y", "main", true),
        vec!["--url", "https://x/y", "--rev", "refs/heads/main", "--fetch-submodules", "--quiet"]
    );
    assert_eq!(prefetch_args("u", "refs/x", false), vec!["--url", "u", "--rev", "refs/x", "--quiet"]);
}
