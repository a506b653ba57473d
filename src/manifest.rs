//! The fields of an extension manifest that the engine reads.

use vstd::prelude::*;

verus! {

/// The native-code part of a manifest.
#[derive(Debug, Clone, Default)]
pub struct LibManifestEntry {
    pub version: Option<String>,
}

/// A grammar that a manifest declares: its repository, pinned revision and
/// the directory of the grammar in it.
#[derive(Debug, Clone)]
pub struct GrammarManifestEntry {
    pub repository: String,
    pub rev: String,
    pub path: Option<String>,
}

/// An extension manifest, as far as building reads it.
#[derive(Debug, Clone)]
pub struct ExtensionManifest {
    pub id: String,
    pub name: String,
    pub version: String,
    pub schema_version: i32,
    pub lib: LibManifestEntry,
    pub themes: Vec<String>,
    pub icon_themes: Vec<String>,
    pub languages: Vec<String>,
    /// Grammars by name, in order of name.
    pub grammars: Vec<(String, GrammarManifestEntry)>,
    pub snippets: Option<String>,
}

} // verus!
