//! An incrementally maintained index of editor extensions and the grammars
//! they own, with the pure decision logic of the synchronisation engine.

pub mod api;
pub mod cargo;
pub mod check;
pub mod config;
pub mod grammar;
pub mod index;
pub mod laws;
pub mod lockfile;
pub mod manifest;
pub mod output;
pub mod prefetch;
pub mod registry;
pub mod sort;
pub mod sync;
pub mod text;
pub mod wasm;
