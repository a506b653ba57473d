use zed_nix_index::check::{check_extension, CheckError};
use zed_nix_index::registry::{
    merge_registry, parse_gitmodules, parse_submodule_status, registry_names, trim_end_matches,
    trim_start_matches, RegistryEntry,
};
use zed_nix_index::wasm::{api_version_from_sections, decimal_string, extract_zed_api_version, WasmError};

fn lines(text: &str) -> Vec<String> {
    text.lines().map(String::from).collect()
}

fn pairs(v: &[(&str, &str)]) -> Vec<(String, String)> {
    v.iter().map(|(a, b)| (a.to_string(), b.to_string())).collect()
}

#[test]
fn submodule_status_lines() {
    let parsed = parse_submodule_status(&lines(
        "-0123abc extensions/foo\n-4567def extensions/bar (heads/main)\nnospace",
    ));
    assert_eq!(
        parsed,
        pairs(&[("extensions/foo", "0123abc"), ("extensions/bar (heads/main)", "4567def")])
    );
}

#[test]
fn gitmodules_lines() {
    let parsed = parse_gitmodules(&lines(
        "submodule.extensions/foo.url=https://github.com/a/foo.git\nsubmodule.extensions/bar.url=https://github.com/a/bar\nbroken",
    ));
    assert_eq!(
        parsed,
        pairs(&[
            ("extensions/foo", "https://github.com/a/foo"),
            ("extensions/bar", "https://github.com/a/bar")
        ])
    );
}

#[test]
fn trims_repeat_like_std() {
    assert_eq!(trim_start_matches("--x-", "-"), "--x-".trim_start_matches('-'));
    assert_eq!(trim_end_matches("a.git.git", ".git"), "a");
    assert_eq!(trim_start_matches("", "-"), "");
    assert_eq!(trim_end_matches("abc", ""), "abc");
}

#[test]
fn merge_joins_submodules_and_skips_unknown() {
    let registry = vec![
        (
            "bar".to_string(),
            RegistryEntry { version: "0.2.0".to_string(), submodule: "extensions/bar".to_string(), path: Some("sub".to_string()) },
        ),
        (
            "foo".to_string(),
            RegistryEntry { version: "1.0.0".to_string(), submodule: "extensions/foo".to_string(), path: None },
        ),
        (
            "ghost".to_string(),
            RegistryEntry { version: "1.0.0".to_string(), submodule: "extensions/ghost".to_string(), path: None },
        ),
    ];
    let repositories = pairs(&[
        ("extensions/foo", "https://github.com/a/foo"),
        ("extensions/bar", "https://github.com/a/bar"),
        ("extensions/ghost", "https://github.com/a/ghost"),
    ]);
    let revisions = pairs(&[("extensions/foo", "r1"), ("extensions/bar", "r2"), ("extensions/bar", "r3")]);
    let merged = merge_registry(&registry, &repositories, &revisions);
    assert_eq!(merged.len(), 2);
    assert_eq!(merged[0].name, "bar");
    assert_eq!(merged[0].rev, "r3");
    assert_eq!(merged[0].path.as_deref(), Some("sub"));
    assert_eq!(merged[0].repository, "https://github.com/a/bar");
    assert_eq!(merged[1].name, "foo");
    assert_eq!(merged[1].version, "1.0.0");
    assert_eq!(registry_names(&registry), vec!["bar", "foo", "ghost"]);
}

#[test]
fn check_accepts_matching_package() {
    let g = vec!["rust".to_string(), "toml".to_string()];
    let h = vec!["toml".to_string(), "rust".to_string()];
    assert_eq!(check_extension("ext", &g, "ext", &h), Ok(()));
}

#[test]
fn check_reports_id_mismatch() {
    let r = check_extension("ext", &vec![], "other", &vec![]);
    assert_eq!(r, Err(CheckError::IdMismatch));
    assert_eq!(
        r.unwrap_err().message("ext", "other"),
        "Extension ID 'ext' does not match package name 'other'"
    );
}

#[test]
fn check_reports_missing_then_unexpected() {
    let m = vec!["a".to_string(), "b".to_string()];
    let p = vec!["a".to_string(), "c".to_string()];
    let r = check_extension("e", &m, "e", &p);
    assert_eq!(r, Err(CheckError::MissingGrammar("b".to_string())));
    assert_eq!(r.unwrap_err().message("e", "e"), "Missing grammar package: 'b'");
    let r = check_extension("e", &vec!["a".to_string()], "e", &p);
    assert_eq!(r, Err(CheckError::UnexpectedGrammar("c".to_string())));
}

fn module_with_section(name: &str, data: &[u8]) -> Vec<u8> {
    let mut m = vec![0x00, 0x61, 0x73, 0x6d, 0x01, 0x00, 0x00, 0x00];
    let size = 1 + name.len() + data.len();
    m.push(0);
    m.push(size as u8);
    m.push(name.len() as u8);
    m.extend_from_slice(name.as_bytes());
    m.extend_from_slice(data);
    m
}

#[test]
fn reads_api_version_from_module() {
    let m = module_with_section("zed:api-version", &[0, 0, 0, 1, 1, 2]);
    assert_eq!(extract_zed_api_version(&m), Ok("0.1.258".to_string()));
}

#[test]
fn module_without_version_section() {
    let m = module_with_section("other", &[1, 2, 3, 4, 5, 6]);
    assert_eq!(extract_zed_api_version(&m), Err(WasmError::MissingVersion));
}

#[test]
fn malformed_module() {
    assert_eq!(extract_zed_api_version(&vec![1, 2, 3]), Err(WasmError::Malformed));
}

#[test]
fn short_version_section() {
    let sections = vec![("zed:api-version".to_string(), vec![0, 1])];
    assert_eq!(api_version_from_sections(&sections, false), Err(WasmError::ShortVersion));
}

#[test]
fn version_from_sections_takes_first_match() {
    let sections = vec![
        ("x".to_string(), vec![]),
        ("zed:api-version".to_string(), vec![255, 255, 0, 10, 0, 0]),
        ("zed:api-version".to_string(), vec![0, 0, 0, 0, 0, 0]),
    ];
    assert_eq!(api_version_from_sections(&sections, true), Ok("65535.10.0".to_string()));
}

#[test]
fn decimal_text() {
    assert_eq!(decimal_string(0), "0");
    assert_eq!(decimal_string(7), "7");
    assert_eq!(decimal_string(1204), "1204");
    assert_eq!(decimal_string(65535), "65535");
}
