//! Settings of a run.

use std::collections::HashSet;
use vstd::prelude::*;

verus! {

/// Extensions to leave out of the index.
#[derive(Debug, Default)]
pub struct Config {
    pub skip: HashSet<String>,
}

} // verus!
