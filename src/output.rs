//! The persisted index: extension records, grammar records and the fetch
//! descriptors they carry.

use vstd::prelude::*;

verus! {

/// A content-addressed description of one revision of a repository.
#[derive(Debug, Clone, PartialEq, Eq)]
pub struct Source {
    pub url: String,
    pub rev: String,
    pub date: String,
    pub path: String,
    pub sha256: String,
    pub hash: String,
    pub fetch_lfs: bool,
    pub fetch_submodules: bool,
    pub deep_clone: bool,
    pub leave_dot_git: bool,
}

/// A lockfile kept beside the index, with the hash of each dependency that
/// is fetched from version control, keyed `<name>-<version>`.
#[derive(Debug, Clone, PartialEq, Eq)]
pub struct CargoLock {
    pub lock_file: String,
    /// Sorted by key, keys unique.
    pub output_hashes: Vec<(String, String)>,
}

#[derive(Debug, Clone, PartialEq, Eq)]
pub enum ExtensionKind {
    Plain,
    Rust { cargo_root: Option<String>, cargo_hash: String, cargo_lock: Option<CargoLock> },
}

/// One extension record of the index.
#[derive(Debug, Clone, PartialEq, Eq)]
pub struct Extension {
    pub name: String,
    pub version: String,
    pub src: Source,
    pub extension_root: Option<String>,
    /// Ids of the grammar records this extension owns.
    pub grammars: Vec<String>,
    pub kind: ExtensionKind,
}

/// One grammar record of the index, with id `<extension>_<name>`.
#[derive(Debug, Clone, PartialEq, Eq)]
pub struct Grammar {
    pub id: String,
    pub name: String,
    pub version: String,
    pub src: Source,
    pub grammar_root: Option<String>,
}

/// The whole persisted index.
#[derive(Debug, Clone)]
pub struct NixExtensions {
    pub extensions: Vec<Extension>,
    pub grammars: Vec<Grammar>,
}

/// The index as two sequences of records.
pub ghost struct IndexView {
    pub extensions: Seq<Extension>,
    pub grammars: Seq<Grammar>,
}

impl View for NixExtensions {
    type V = IndexView;

    open spec fn view(&self) -> IndexView {
        IndexView { extensions: self.extensions@, grammars: self.grammars@ }
    }
}

impl Default for NixExtensions {
    /// The empty index, which is referentially sound.
    fn default() -> (r: Self)
        ensures
            r@.extensions.len() == 0,
            r@.grammars.len() == 0,
            crate::index::is_sound(r@),
    {
        NixExtensions { extensions: Vec::new(), grammars: Vec::new() }
    }
}

} // verus!
