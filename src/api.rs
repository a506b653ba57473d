//! The extension listing of the editor's public API.

use vstd::prelude::*;

verus! {

/// A page of the listing.
#[derive(Debug, Clone)]
pub struct ApiResponse {
    pub data: Vec<ApiExtension>,
}

/// One published extension.
#[derive(Debug, Clone)]
pub struct ApiExtension {
    pub id: String,
    pub name: String,
    pub version: String,
    pub description: String,
    pub authors: Vec<String>,
    pub repository: String,
    pub schema_version: i32,
    pub wasm_api_version: Option<String>,
    pub provides: Vec<String>,
    pub published_at: String,
    pub download_count: i64,
}

} // verus!
