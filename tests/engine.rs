use zed_nix_index::grammar::{process_grammar, process_grammars};
use zed_nix_index::index::ProcessOutcome;
use zed_nix_index::manifest::GrammarManifestEntry;
use zed_nix_index::output::{Extension, ExtensionKind, Grammar, NixExtensions, Source};
use zed_nix_index::registry::RegistryExtension;
use zed_nix_index::sync::process_extension;

fn source(rev: &str) -> Source {
    Source {
        url: format!("https://example.com/{rev}"),
        rev: rev.to_string(),
        date: "2024-01-01T00:00:00Z".to_string(),
        path: "/nix/store/x".to_string(),
        sha256: "abc".to_string(),
        hash: format!("sha256-{rev}"),
        fetch_lfs: false,
        fetch_submodules: false,
        deep_clone: false,
        leave_dot_git: false,
    }
}

fn grammar(ext: &str, name: &str) -> Grammar {
    Grammar {
        id: format!("{ext}_{name}"),
        name: name.to_string(),
        version: "r1".to_string(),
        src: source("r1"),
        grammar_root: None,
    }
}

fn extension(name: &str, version: &str, grammars: &[&str]) -> Extension {
    Extension {
        name: name.to_string(),
        version: version.to_string(),
        src: source("e1"),
        extension_root: None,
        grammars: grammars.iter().map(|g| format!("{name}_{g}")).collect(),
        kind: ExtensionKind::Plain,
    }
}

fn entry(name: &str, version: &str) -> RegistryExtension {
    RegistryExtension {
        name: name.to_string(),
        version: version.to_string(),
        repository: format!("https://example.com/{name}"),
        path: None,
        rev: "0123".to_string(),
    }
}

fn processed(name: &str, version: &str, grammars: &[&str]) -> ProcessOutcome {
    let gs: Vec<Grammar> = grammars.iter().map(|g| grammar(name, g)).collect();
    ProcessOutcome::Processed(extension(name, version, grammars), gs)
}

fn index_with(records: Vec<(Extension, Vec<Grammar>)>) -> NixExtensions {
    let mut ix = NixExtensions::default();
    for (e, gs) in records {
        assert!(ix.fold(ProcessOutcome::Processed(e, gs)));
    }
    ix.finalize();
    ix
}

fn ext_names(ix: &NixExtensions) -> Vec<String> {
    ix.extensions.iter().map(|e| e.name.clone()).collect()
}

fn grammar_ids(ix: &NixExtensions) -> Vec<String> {
    ix.grammars.iter().map(|g| g.id.clone()).collect()
}

/// Every grammar owned by exactly one record, every owned id present.
fn referentially_sound(ix: &NixExtensions) -> bool {
    let owners_ok = ix.grammars.iter().all(|g| {
        ix.extensions.iter().filter(|e| e.grammars.contains(&g.id)).count() == 1
    });
    let present_ok = ix
        .extensions
        .iter()
        .all(|e| e.grammars.iter().all(|id| ix.grammars.iter().any(|g| &g.id == id)));
    owners_ok && present_ok
}

#[test]
fn rerun_with_unchanged_registry_changes_nothing() {
    let ix = index_with(vec![
        (extension("b", "1.0", &["x"]), vec![grammar("b", "x")]),
        (extension("a", "2.0", &[]), vec![]),
    ]);
    let before = format!("{ix:?}");
    let mut again = ix.clone();
    again.remove_missing(&vec!["a".to_string(), "b".to_string()]);
    let picked = again.select_changed(vec![entry("a", "2.0"), entry("b", "1.0")]);
    assert!(picked.is_empty());
    again.finalize();
    assert_eq!(format!("{again:?}"), before);
}

#[test]
fn older_registry_version_is_not_reprocessed() {
    let mut ix = index_with(vec![(extension("a", "2.0", &[]), vec![])]);
    let picked = ix.select_changed(vec![entry("a", "1.9")]);
    assert!(picked.is_empty());
    assert_eq!(ext_names(&ix), vec!["a"]);
}

#[test]
fn versions_compare_as_strings() {
    // "10.0" orders before "9.0" as text, so 9.0 counts as newer.
    let mut ix = index_with(vec![(extension("a", "10.0", &[]), vec![])]);
    let picked = ix.select_changed(vec![entry("a", "9.0")]);
    assert_eq!(picked.len(), 1);
    assert!(ix.extensions.is_empty());
}

#[test]
fn update_replaces_record_and_grammars() {
    let mut ix = index_with(vec![(
        extension("X", "1.0", &["a", "b"]),
        vec![grammar("X", "a"), grammar("X", "b")],
    )]);
    let picked = ix.select_changed(vec![entry("X", "2.0")]);
    assert_eq!(picked.len(), 1);
    assert!(ix.extensions.is_empty());
    assert!(ix.grammars.is_empty());
    assert!(ix.fold(processed("X", "2.0", &["a", "c"])));
    ix.finalize();
    assert_eq!(ext_names(&ix), vec!["X"]);
    assert_eq!(ix.extensions[0].version, "2.0");
    assert_eq!(ix.extensions[0].grammars, vec!["X_a", "X_c"]);
    assert_eq!(grammar_ids(&ix), vec!["X_a", "X_c"]);
    assert!(referentially_sound(&ix));
}

#[test]
fn removal_cascades_to_grammars() {
    let mut ix = index_with(vec![
        (extension("Y", "1.0", &["a"]), vec![grammar("Y", "a")]),
        (extension("Z", "1.0", &["q"]), vec![grammar("Z", "q")]),
    ]);
    ix.remove_missing(&vec!["Z".to_string()]);
    assert_eq!(ext_names(&ix), vec!["Z"]);
    assert_eq!(grammar_ids(&ix), vec!["Z_q"]);
    assert!(referentially_sound(&ix));
}

#[test]
fn removal_with_everything_listed_keeps_index() {
    let mut ix = index_with(vec![(extension("Y", "1.0", &["a"]), vec![grammar("Y", "a")])]);
    ix.remove_missing(&vec!["Y".to_string(), "W".to_string()]);
    assert_eq!(ext_names(&ix), vec!["Y"]);
    assert_eq!(grammar_ids(&ix), vec!["Y_a"]);
}

#[test]
fn failed_entry_leaves_others_intact() {
    let mut ix = NixExtensions::default();
    let picked = ix.select_changed(vec![entry("one", "1"), entry("two", "1"), entry("three", "1")]);
    assert_eq!(picked.len(), 3);
    assert!(ix.fold(processed("one", "1", &["g"])));
    assert!(!ix.fold(ProcessOutcome::Failed));
    assert!(ix.fold(processed("three", "1", &[])));
    ix.finalize();
    assert_eq!(ext_names(&ix), vec!["one", "three"]);
    assert_eq!(grammar_ids(&ix), vec!["one_g"]);
    assert!(referentially_sound(&ix));
}

#[test]
fn skipped_outcome_changes_nothing() {
    let mut ix = index_with(vec![(extension("a", "1", &[]), vec![])]);
    let before = format!("{ix:?}");
    assert!(!ix.fold(ProcessOutcome::Skipped));
    assert_eq!(format!("{ix:?}"), before);
}

#[test]
fn fold_rejects_duplicate_name() {
    let mut ix = index_with(vec![(extension("a", "1", &[]), vec![])]);
    assert!(!ix.fold(processed("a", "2", &[])));
    assert_eq!(ix.extensions.len(), 1);
    assert_eq!(ix.extensions[0].version, "1");
}

#[test]
fn fold_rejects_grammar_owned_elsewhere() {
    // Extension "a" owns "a_b_c"; extension "a_b" would claim the same id.
    let mut ix = index_with(vec![(extension("a", "1", &["b_c"]), vec![grammar("a", "b_c")])]);
    assert!(!ix.fold(processed("a_b", "1", &["c"])));
    assert_eq!(ext_names(&ix), vec!["a"]);
    assert!(referentially_sound(&ix));
}

#[test]
fn fold_rejects_mismatched_grammar_ids() {
    let mut ix = NixExtensions::default();
    let outcome = ProcessOutcome::Processed(extension("a", "1", &["x"]), vec![grammar("a", "y")]);
    assert!(!ix.fold(outcome));
    assert!(ix.extensions.is_empty());
}

#[test]
fn finalize_sorts_both_lists() {
    let mut ix = NixExtensions::default();
    assert!(ix.fold(processed("zeta", "1", &["b", "a"])));
    assert!(ix.fold(processed("alpha", "1", &["m"])));
    ix.finalize();
    assert_eq!(ext_names(&ix), vec!["alpha", "zeta"]);
    assert_eq!(grammar_ids(&ix), vec!["alpha_m", "zeta_a", "zeta_b"]);
}

#[test]
fn processed_extension_joins_index() {
    let reg = entry("lang", "1.0");
    let entry_a = GrammarManifestEntry {
        repository: "https://example.com/g".to_string(),
        rev: "r9".to_string(),
        path: Some("./././grammars/a".to_string()),
    };
    let g1 = process_grammar("lang", "zz".to_string(), &entry_a, source("r9"));
    let g2 = process_grammar("lang", "aa".to_string(), &entry_a, source("r9"));
    assert_eq!(g1.id, "lang_zz");
    assert_eq!(g1.version, "r9");
    assert_eq!(g1.grammar_root.as_deref(), Some("grammars/a"));
    let grammars = process_grammars(vec![Some(g1), None, Some(g2)]);
    assert_eq!(grammars.ids, vec!["lang_aa", "lang_zz"]);
    let outcome = process_extension(&reg, "1.0".to_string(), source("e"), grammars, None);
    let mut ix = NixExtensions::default();
    assert!(ix.fold(outcome));
    assert_eq!(ix.extensions[0].kind, ExtensionKind::Plain);
    assert_eq!(ix.extensions[0].extension_root, None);
    assert_eq!(grammar_ids(&ix), vec!["lang_aa", "lang_zz"]);
}

#[test]
fn grammar_without_path_has_no_root() {
    let e = GrammarManifestEntry {
        repository: "r".to_string(),
        rev: "v".to_string(),
        path: None,
    };
    let g = process_grammar("x", "y".to_string(), &e, source("v"));
    assert_eq!(g.grammar_root, None);
    assert_eq!(g.id, "x_y");
}

#[test]
fn consistency_of_built_index() {
    let ix = index_with(vec![
        (extension("a", "1", &["x", "y"]), vec![grammar("a", "x"), grammar("a", "y")]),
        (extension("b", "1", &[]), vec![]),
    ]);
    assert!(ix.is_consistent());
    assert!(NixExtensions::default().is_consistent());
}

#[test]
fn consistency_detects_orphan_grammar() {
    let ix = NixExtensions { extensions: vec![extension("a", "1", &[])], grammars: vec![grammar("a", "x")] };
    assert!(!ix.is_consistent());
}

#[test]
fn consistency_detects_dangling_id() {
    let ix = NixExtensions { extensions: vec![extension("a", "1", &["x"])], grammars: vec![] };
    assert!(!ix.is_consistent());
}

#[test]
fn consistency_detects_duplicate_names() {
    let ix = NixExtensions {
        extensions: vec![extension("a", "1", &[]), extension("a", "2", &[])],
        grammars: vec![],
    };
    assert!(!ix.is_consistent());
}

#[test]
fn consistency_detects_shared_grammar() {
    let mut b = extension("b", "1", &[]);
    b.grammars = vec!["a_x".to_string()];
    let ix = NixExtensions {
        extensions: vec![extension("a", "1", &["x"]), b],
        grammars: vec![grammar("a", "x")],
    };
    assert!(!ix.is_consistent());
}
