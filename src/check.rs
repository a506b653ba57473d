//! Consistency of a packaged extension with its manifest: same id, same set
//! of grammars.

use crate::text::{concat, contains_str, has_str, str_equal};
use vstd::prelude::*;

verus! {

/// Why a packaged extension does not match its manifest.
#[derive(Debug, Clone, PartialEq, Eq)]
pub enum CheckError {
    /// The manifest's id differs from the package name.
    IdMismatch,
    /// The manifest declares this grammar; the package lacks it.
    MissingGrammar(String),
    /// The package has this grammar; the manifest does not declare it.
    UnexpectedGrammar(String),
}

impl CheckError {
    /// A sentence describing the mismatch.
    pub fn message(&self, manifest_id: &str, package_name: &str) -> (r: String)
        ensures
            match self {
                CheckError::IdMismatch => r@ == "Extension ID '"@ + manifest_id@
                    + "' does not match package name '"@ + package_name@ + "'"@,
                CheckError::MissingGrammar(g) => r@ == "Missing grammar package: '"@ + g@ + "'"@,
                CheckError::UnexpectedGrammar(g) => r@ == "Unexpected grammar package: '"@ + g@
                    + "'"@,
            },
    {
        match self {
            CheckError::IdMismatch => {
                let s = concat("Extension ID '", manifest_id);
                let s = concat(s.as_str(), "' does not match package name '");
                let s = concat(s.as_str(), package_name);
                concat(s.as_str(), "'")
            },
            CheckError::MissingGrammar(g) => {
                let s = concat("Missing grammar package: '", g.as_str());
                concat(s.as_str(), "'")
            },
            CheckError::UnexpectedGrammar(g) => {
                let s = concat("Unexpected grammar package: '", g.as_str());
                concat(s.as_str(), "'")
            },
        }
    }
}

/// Every string of `a` occurs in `b`.
pub open spec fn covered(a: Seq<String>, b: Seq<String>) -> bool {
    forall|k: int| 0 <= k < a.len() ==> has_str(b, (#[trigger] a[k])@)
}

/// The first string of `a` that `b` lacks, if any.
fn first_uncovered(a: &Vec<String>, b: &Vec<String>) -> (r: Option<usize>)
    ensures
        match r {
            Some(k) => k < a@.len() && !has_str(b@, a@[k as int]@),
            None => covered(a@, b@),
        },
{
    let mut k: usize = 0;
    while k < a.len()
        invariant
            k <= a@.len(),
            forall|j: int| 0 <= j < k ==> has_str(b@, (#[trigger] a@[j])@),
        decreases a.len() - k,
    {
        if !contains_str(b, a[k].as_str()) {
            return Some(k);
        }
        k = k + 1;
    }
    None
}

/// Checks a package against its manifest: the id first, then each grammar
/// the manifest declares, then each grammar the package has.
pub fn check_extension(
    manifest_id: &str,
    manifest_grammars: &Vec<String>,
    package_name: &str,
    package_grammars: &Vec<String>,
) -> (r: Result<(), CheckError>)
    ensures
        manifest_id@ != package_name@ ==> r == Err::<(), CheckError>(CheckError::IdMismatch),
        manifest_id@ == package_name@ ==> (r is Ok <==> covered(manifest_grammars@, package_grammars@)
            && covered(package_grammars@, manifest_grammars@)),
        manifest_id@ == package_name@ && !covered(manifest_grammars@, package_grammars@)
            ==> r matches Err(CheckError::MissingGrammar(_)),
        match r {
            Err(CheckError::MissingGrammar(g)) => has_str(manifest_grammars@, g@) && !has_str(
                package_grammars@,
                g@,
            ),
            Err(CheckError::UnexpectedGrammar(g)) => has_str(package_grammars@, g@) && !has_str(
                manifest_grammars@,
                g@,
            ),
            _ => true,
        },
{
    if !str_equal(manifest_id, package_name) {
        return Err(CheckError::IdMismatch);
    }
    if let Some(k) = first_uncovered(manifest_grammars, package_grammars) {
        let g = manifest_grammars[k].clone();
        assert(manifest_grammars@[k as int] == g);
        return Err(CheckError::MissingGrammar(g));
    }
    if let Some(k) = first_uncovered(package_grammars, manifest_grammars) {
        let g = package_grammars[k].clone();
        assert(package_grammars@[k as int] == g);
        return Err(CheckError::UnexpectedGrammar(g));
    }
    Ok(())
}

} // verus!
