//! Native-code extensions: which lockfile governs them and where their
//! build root lies.

use crate::text::opt_view;
use vstd::prelude::*;

verus! {

/// What `Path::join` gives for `base` and `rest`, as text.
pub uninterp spec fn path_join(base: Seq<char>, rest: Seq<char>) -> Seq<char>;

/// Whether `Path`'s equality holds of `a` and `b`, component by component.
pub uninterp spec fn path_eq(a: Seq<char>, b: Seq<char>) -> bool;

/// What `Path::strip_prefix` gives for `path` and `base`, as text.
pub uninterp spec fn path_strip_prefix(path: Seq<char>, base: Seq<char>) -> Option<Seq<char>>;

/// The string at key `workspace_root` of the JSON document `stdout`, if the
/// document parses and holds one.
pub uninterp spec fn metadata_workspace_root(stdout: Seq<u8>) -> Option<Seq<char>>;

/// Relies on std's `Path::join`: the path `rest` appended to `base`.
#[verifier::external_body]
fn join_path(base: &str, rest: &str) -> (r: String)
    ensures
        r@ == path_join(base@, rest@),
{
    std::path::Path::new(base).join(rest).to_string_lossy().into_owned()
}

/// Relies on std's `PartialEq` for `Path`, which compares components and is
/// reflexive.
#[verifier::external_body]
fn same_path(a: &str, b: &str) -> (r: bool)
    ensures
        r == path_eq(a@, b@),
        a@ == b@ ==> r,
{
    std::path::Path::new(a) == std::path::Path::new(b)
}

/// Relies on std's `Path::strip_prefix`: the rest of `path` below `base`, or
/// nothing when `base` is not a prefix of it; a path stripped of itself
/// leaves the empty path.
#[verifier::external_body]
fn strip_path_prefix(path: &str, base: &str) -> (r: Option<String>)
    ensures
        opt_view(r) == path_strip_prefix(path@, base@),
        path@ == base@ ==> r is Some && r->0@.len() == 0,
{
    match std::path::Path::new(path).strip_prefix(base) {
        Ok(rest) => Some(rest.to_string_lossy().into_owned()),
        Err(_) => None,
    }
}

/// Relies on `serde_json::from_slice` into a `serde_json::Value`, then
/// `Value::get` and `Value::as_str`: the string under `workspace_root`.
#[verifier::external_body]
fn workspace_root_field(stdout: &[u8]) -> (r: Option<String>)
    ensures
        opt_view(r) == metadata_workspace_root(stdout@),
{
    let value: serde_json::Value = serde_json::from_slice(stdout).ok()?;
    value.get("workspace_root").and_then(serde_json::Value::as_str).map(String::from)
}

/// The lockfile that governs an extension's dependencies, and the build root
/// recorded for it when it is a workspace of its own.
#[derive(Debug, Clone)]
pub struct CargoWorkspace {
    pub lockfile: String,
    pub root: Option<String>,
}

/// The workspace an extension checked out at `dir` belongs to, `path` being
/// its sub-path in the repository (none at the root). `metadata` is the
/// output of a successful workspace inspection at `dir`, or none when it
/// was not run or failed: then no enclosing workspace is assumed.
pub open spec fn workspace_spec(dir: Seq<char>, path: Option<Seq<char>>, metadata: Option<
    Seq<u8>,
>) -> (Seq<char>, Option<Seq<char>>) {
    let own = path_join(dir, "Cargo.lock"@);
    match path {
        None => (own, None),
        Some(p) => match metadata {
            Some(m) => match metadata_workspace_root(m) {
                Some(w) => if !path_eq(w, dir) {
                    (path_join(w, "Cargo.lock"@), None)
                } else {
                    (own, Some(p))
                },
                None => (own, Some(p)),
            },
            None => (own, Some(p)),
        },
    }
}

/// Finds the workspace that governs the extension at `dir` (see
/// `workspace_spec`).
pub fn find_cargo_workspace(dir: &str, path: Option<&str>, metadata: Option<&Vec<u8>>) -> (r:
    CargoWorkspace)
    ensures
        (r.lockfile@, opt_view(r.root)) == workspace_spec(
            dir@,
            match path {
                Some(p) => Some(p@),
                None => None,
            },
            match metadata {
                Some(m) => Some(m@),
                None => None,
            },
        ),
{
    proof {
        reveal_strlit("Cargo.lock");
    }
    let own = join_path(dir, "Cargo.lock");
    match path {
        None => CargoWorkspace { lockfile: own, root: None },
        Some(p) => {
            if let Some(m) = metadata {
                if let Some(w) = workspace_root_field(m.as_slice()) {
                    if !same_path(w.as_str(), dir) {
                        return CargoWorkspace {
                            lockfile: join_path(w.as_str(), "Cargo.lock"),
                            root: None,
                        };
                    }
                }
            }
            CargoWorkspace { lockfile: own, root: Some(p.to_owned()) }
        },
    }
}

/// The build root recorded for a relative path: none when it is empty.
pub fn root_from_relative(relative: Option<String>) -> (r: Option<String>)
    ensures
        match relative {
            Some(s) => if s@.len() == 0 {
                r is None
            } else {
                r == Some(s)
            },
            None => r is None,
        },
{
    match relative {
        Some(s) => if s.as_str().unicode_len() == 0 {
            None
        } else {
            Some(s)
        },
        None => None,
    }
}

/// The extension root recorded for an extension at sub-path `path`: none at
/// the repository root; the sub-path itself under an enclosing workspace;
/// otherwise the sub-path made relative to the workspace's own root, none
/// when that is empty or does not apply.
pub open spec fn extension_root_spec(root: Option<Seq<char>>, path: Option<Seq<char>>) -> Option<
    Seq<char>,
> {
    match path {
        None => None,
        Some(p) => match root {
            None => Some(p),
            Some(base) => match path_strip_prefix(p, base) {
                Some(rel) => if rel.len() == 0 {
                    None
                } else {
                    Some(rel)
                },
                None => None,
            },
        },
    }
}

/// Computes the extension root (see `extension_root_spec`).
pub fn calculate_rust_extension_root(workspace: &CargoWorkspace, path: Option<&str>) -> (r: Option<
    String,
>)
    ensures
        opt_view(r) == extension_root_spec(
            opt_view(workspace.root),
            match path {
                Some(p) => Some(p@),
                None => None,
            },
        ),
        path is Some && workspace.root is Some && workspace.root->0@ == path->0@ ==> r is None,
{
    match path {
        None => None,
        Some(p) => match &workspace.root {
            None => Some(p.to_owned()),
            Some(base) => root_from_relative(strip_path_prefix(p, base.as_str())),
        },
    }
}

} // verus!
