//! The arguments of a fetch of one pinned revision of a repository.

use crate::text::concat;
use vstd::prelude::*;

verus! {

pub open spec fn is_hex_digit(c: char) -> bool {
    ('0' <= c && c <= '9') || ('a' <= c && c <= 'f') || ('A' <= c && c <= 'F')
}

/// A full commit hash: forty hexadecimal digits.
pub open spec fn is_commit_hash(s: Seq<char>) -> bool {
    s.len() == 40 && forall|i: int| 0 <= i < s.len() ==> is_hex_digit(#[trigger] s[i])
}

pub open spec fn has_prefix(s: Seq<char>, p: Seq<char>) -> bool {
    p.len() <= s.len() && s.subrange(0, p.len() as int) == p
}

/// The revision as the fetch utility takes it: a commit hash or a full
/// reference as it is, any other name as a branch.
pub open spec fn normalized_rev(rev: Seq<char>) -> Seq<char> {
    if is_commit_hash(rev) || has_prefix(rev, "refs/"@) {
        rev
    } else {
        "refs/heads/"@ + rev
    }
}

fn is_commit_hash_exec(s: &str) -> (r: bool)
    ensures
        r == is_commit_hash(s@),
{
    let n = s.unicode_len();
    if n != 40 {
        return false;
    }
    let mut i: usize = 0;
    while i < n
        invariant
            n == s@.len(),
            i <= n,
            forall|k: int| 0 <= k < i ==> is_hex_digit(#[trigger] s@[k]),
        decreases n - i,
    {
        let c = s.get_char(i);
        if !(('0' <= c && c <= '9') || ('a' <= c && c <= 'f') || ('A' <= c && c <= 'F')) {
            return false;
        }
        i = i + 1;
    }
    true
}

fn starts_with_refs(s: &str) -> (r: bool)
    ensures
        r == has_prefix(s@, "refs/"@),
{
    proof {
        reveal_strlit("refs/");
    }
    let n = s.unicode_len();
    if n < 5 {
        return false;
    }
    let head = s.substring_char(0, 5);
    crate::text::str_equal(head, "refs/")
}

/// Normalises a revision (see `normalized_rev`).
pub fn normalize_rev(rev: &str) -> (r: String)
    ensures
        r@ == normalized_rev(rev@),
{
    if is_commit_hash_exec(rev) || starts_with_refs(rev) {
        String::from_str(rev)
    } else {
        concat("refs/heads/", rev)
    }
}

/// The fetch utility's arguments for `rev` of `repo`.
pub open spec fn prefetch_args_spec(repo: Seq<char>, rev: Seq<char>, fetch_submodules: bool) -> Seq<
    Seq<char>,
> {
    let head = seq!["--url"@, repo, "--rev"@, normalized_rev(rev)];
    if fetch_submodules {
        head.push("--fetch-submodules"@).push("--quiet"@)
    } else {
        head.push("--quiet"@)
    }
}

/// Builds the fetch utility's arguments (see `prefetch_args_spec`).
pub fn prefetch_args(repo: &str, rev: &str, fetch_submodules: bool) -> (r: Vec<String>)
    ensures
        r@.map_values(|s: String| s@) == prefetch_args_spec(repo@, rev@, fetch_submodules),
{
    let mut r: Vec<String> = Vec::new();
    r.push(String::from_str("--url"));
    r.push(String::from_str(repo));
    r.push(String::from_str("--rev"));
    r.push(normalize_rev(rev));
    if fetch_submodules {
        r.push(String::from_str("--fetch-submodules"));
    }
    r.push(String::from_str("--quiet"));
    assert(r@.map_values(|s: String| s@) =~= prefetch_args_spec(repo@, rev@, fetch_submodules));
    r
}

} // verus!
