//! Assembly of one extension's record from what its processing found.

use crate::cargo::{calculate_rust_extension_root, extension_root_spec, CargoWorkspace};
use crate::grammar::ProcessedGrammars;
use crate::index::ProcessOutcome;
use crate::lockfile::{calculate_rust_extension_kind, rust_kind};
use crate::output::{Extension, ExtensionKind, Source};
use crate::registry::RegistryExtension;
use crate::text::opt_view;
use vstd::prelude::*;

verus! {

/// The record variant and extension root of a native-code extension, from
/// its workspace, its vendor hash and, for an altered lockfile, its table of
/// pinned dependency hashes.
pub fn process_rust_extension(
    extension: &RegistryExtension,
    workspace: &CargoWorkspace,
    cargo_hash: String,
    output_hashes: Option<Vec<(String, String)>>,
) -> (r: (ExtensionKind, Option<String>))
    ensures
        rust_kind(r.0, extension.name@, workspace.root, cargo_hash, output_hashes),
        opt_view(r.1) == extension_root_spec(opt_view(workspace.root), opt_view(extension.path)),
{
    let kind = calculate_rust_extension_kind(
        extension.name.as_str(),
        workspace,
        cargo_hash,
        output_hashes,
    );
    let path = match &extension.path {
        Some(p) => Some(p.as_str()),
        None => None,
    };
    let root = calculate_rust_extension_root(workspace, path);
    (kind, root)
}

/// The outcome of processing `extension`: its record with manifest version
/// `version`, fetch descriptor `src`, the grammars that were processed, and
/// the variant and root that `native` gives for native code, or plain with
/// the registry's sub-path as root.
pub fn process_extension(
    extension: &RegistryExtension,
    version: String,
    src: Source,
    grammars: ProcessedGrammars,
    native: Option<(ExtensionKind, Option<String>)>,
) -> (r: ProcessOutcome)
    ensures
        match r {
            ProcessOutcome::Processed(e, gs) => {
                &&& e.name@ == extension.name@
                &&& e.version == version
                &&& e.src == src
                &&& e.grammars == grammars.ids
                &&& gs == grammars.grammars
                &&& match native {
                    Some((k, root)) => e.kind == k && e.extension_root == root,
                    None => e.kind == ExtensionKind::Plain && e.extension_root == extension.path,
                }
            },
            _ => false,
        },
{
    let (kind, extension_root) = match native {
        Some(n) => n,
        None => (ExtensionKind::Plain, extension.path.clone()),
    };
    let e = Extension {
        name: String::from_str(extension.name.as_str()),
        version,
        src,
        extension_root,
        grammars: grammars.ids,
        kind,
    };
    ProcessOutcome::Processed(e, grammars.grammars)
}

} // verus!
