//! Lockfiles of native-code extensions: whether one counts as altered, which
//! of its dependencies come from version control with a pinned revision, and
//! the table of their hashes.

use crate::cargo::CargoWorkspace;
use crate::output::{CargoLock, ExtensionKind};
use crate::text::{concat, lemma_str_lt_irreflexive, lemma_str_lt_total, lemma_str_lt_transitive, str_equal, str_less, str_lt};
use vstd::prelude::*;

verus! {

/// Where a locked package comes from.
#[derive(Debug, Clone)]
pub struct PackageSource {
    /// The source is a version-control repository.
    pub git: bool,
    pub url: String,
    /// The exact revision, when the lockfile pins one.
    pub precise: Option<String>,
}

/// One package of a lockfile.
#[derive(Debug, Clone)]
pub struct LockedPackage {
    pub name: String,
    pub version: String,
    pub source: Option<PackageSource>,
}

/// The packages that the lockfile text `text` lists, in order, when it parses.
pub uninterp spec fn lockfile_packages(text: Seq<char>) -> Option<Seq<LockedPackage>>;

/// Relies on `toml::from_str` into `cargo_lock::Lockfile`, and on the
/// package fields and `SourceId::{is_git, url, precise}` of cargo-lock.
#[verifier::external_body]
fn parse_lockfile(text: &str) -> (r: Option<Vec<LockedPackage>>)
    ensures
        match r {
            Some(v) => lockfile_packages(text@) == Some(v@),
            None => lockfile_packages(text@) is None,
        },
{
    let lockfile: cargo_lock::Lockfile = toml::from_str(text).ok()?;
    Some(lockfile.packages.iter().map(|p| LockedPackage {
        name: p.name.to_string(),
        version: p.version.to_string(),
        source: p.source.as_ref().map(|s| PackageSource {
            git: s.is_git(),
            url: s.url().to_string(),
            precise: s.precise().map(String::from),
        }),
    }).collect())
}

/// The lockfile text could not be read as a lockfile.
#[derive(Debug, Clone, Copy, PartialEq, Eq)]
pub struct InvalidLockfile;

/// What happens to the stored copy of an extension's lockfile.
#[derive(Debug, Clone, Copy, PartialEq, Eq, Structural)]
pub enum LockfileAction {
    /// No lockfile: generate one and store a copy (altered).
    GenerateAndStore,
    /// It has a dependency from version control: store a copy (altered).
    Store,
    /// Unaltered: remove any copy stored earlier.
    RemoveStored,
}

pub open spec fn is_git_package(p: LockedPackage) -> bool {
    p.source is Some && p.source->0.git
}

pub open spec fn has_git_dependency(ps: Seq<LockedPackage>) -> bool {
    exists|k: int| 0 <= k < ps.len() && is_git_package(#[trigger] ps[k])
}

/// Whether some package of `ps` comes from version control.
pub fn has_git_dependencies(ps: &Vec<LockedPackage>) -> (r: bool)
    ensures
        r == has_git_dependency(ps@),
{
    let mut i: usize = 0;
    while i < ps.len()
        invariant
            i <= ps@.len(),
            forall|k: int| 0 <= k < i ==> !is_git_package(#[trigger] ps@[k]),
        decreases ps.len() - i,
    {
        if let Some(s) = &ps[i].source {
            if s.git {
                return true;
            }
        }
        i = i + 1;
    }
    false
}

/// The lockfile policy. `lockfile` is the text of the governing lockfile,
/// none when it is missing. A missing lockfile, or one with a dependency
/// from version control, is altered; any other is unaltered.
pub fn process_cargo_lockfile(lockfile: Option<&str>) -> (r: Result<LockfileAction, InvalidLockfile>)
    ensures
        match lockfile {
            None => r == Ok::<LockfileAction, InvalidLockfile>(LockfileAction::GenerateAndStore),
            Some(t) => match lockfile_packages(t@) {
                None => r is Err,
                Some(ps) => r == Ok::<LockfileAction, InvalidLockfile>(
                    if has_git_dependency(ps) {
                        LockfileAction::Store
                    } else {
                        LockfileAction::RemoveStored
                    },
                ),
            },
        },
{
    match lockfile {
        None => Ok(LockfileAction::GenerateAndStore),
        Some(t) => match parse_lockfile(t) {
            None => Err(InvalidLockfile),
            Some(ps) => if has_git_dependencies(&ps) {
                Ok(LockfileAction::Store)
            } else {
                Ok(LockfileAction::RemoveStored)
            },
        },
    }
}

/// A dependency from version control with a pinned revision, keyed
/// `<name>-<version>`.
#[derive(Debug, Clone)]
pub struct GitDependency {
    pub key: String,
    pub url: String,
    pub rev: String,
}

/// The key, url and revision of `p` when it comes from version control with
/// a pinned revision.
pub open spec fn pinned_git(p: LockedPackage) -> Option<(Seq<char>, Seq<char>, Seq<char>)> {
    match p.source {
        Some(s) => if s.git && s.precise is Some {
            Some((p.name@ + "-"@ + p.version@, s.url@, s.precise->0@))
        } else {
            None
        },
        None => None,
    }
}

/// The pinned dependencies from version control among `ps`, in order.
pub open spec fn git_dependencies_spec(ps: Seq<LockedPackage>) -> Seq<
    (Seq<char>, Seq<char>, Seq<char>),
>
    decreases ps.len(),
{
    if ps.len() == 0 {
        Seq::empty()
    } else {
        let init = git_dependencies_spec(ps.drop_last());
        match pinned_git(ps.last()) {
            Some(d) => init.push(d),
            None => init,
        }
    }
}

pub open spec fn dependency_view(d: GitDependency) -> (Seq<char>, Seq<char>, Seq<char>) {
    (d.key@, d.url@, d.rev@)
}

/// The dependencies whose hash the index pins: those from version control
/// with a pinned revision. One without a pinned revision is left out.
pub fn git_dependencies(ps: &Vec<LockedPackage>) -> (r: Vec<GitDependency>)
    ensures
        r@.map_values(|d: GitDependency| dependency_view(d)) == git_dependencies_spec(ps@),
{
    proof {
        reveal_strlit("-");
    }
    let mut r: Vec<GitDependency> = Vec::new();
    let mut i: usize = 0;
    assert(ps@.subrange(0, 0) =~= Seq::<LockedPackage>::empty());
    assert(r@.map_values(|d: GitDependency| dependency_view(d)) =~= Seq::empty());
    while i < ps.len()
        invariant
            i <= ps@.len(),
            r@.map_values(|d: GitDependency| dependency_view(d)) == git_dependencies_spec(
                ps@.subrange(0, i as int),
            ),
        decreases ps.len() - i,
    {
        let p = &ps[i];
        assert(ps@.subrange(0, i + 1).drop_last() =~= ps@.subrange(0, i as int));
        assert(ps@.subrange(0, i + 1).last() == ps@[i as int]);
        if let Some(s) = &p.source {
            if s.git {
                if let Some(rev) = &s.precise {
                    let key = concat(concat(p.name.as_str(), "-").as_str(), p.version.as_str());
                    let d = GitDependency { key, url: s.url.clone(), rev: rev.clone() };
                    let ghost before = r@;
                    r.push(d);
                    assert(r@.map_values(|d: GitDependency| dependency_view(d)) =~= before.map_values(
                        |d: GitDependency| dependency_view(d),
                    ).push(dependency_view(d)));
                }
            }
        }
        i = i + 1;
    }
    assert(ps@.subrange(0, ps@.len() as int) =~= ps@);
    r
}

/// The pinned dependencies from version control of the lockfile text
/// `lockfile`, none when it does not parse.
pub fn pinned_git_dependencies(lockfile: &str) -> (r: Option<Vec<GitDependency>>)
    ensures
        match lockfile_packages(lockfile@) {
            Some(ps) => r is Some && r->0@.map_values(|d: GitDependency| dependency_view(d))
                == git_dependencies_spec(ps),
            None => r is None,
        },
{
    match parse_lockfile(lockfile) {
        Some(ps) => Some(git_dependencies(&ps)),
        None => None,
    }
}

/// Keys in strictly increasing order.
pub open spec fn keys_sorted(t: Seq<(String, String)>) -> bool {
    forall|i: int, j: int| 0 <= i < j < t.len() ==> str_lt(t[i].0@, t[j].0@)
}

/// The table has key `k` with value `v`.
pub open spec fn has_entry(t: Seq<(String, String)>, k: Seq<char>, v: Seq<char>) -> bool {
    exists|i: int| 0 <= i < t.len() && (#[trigger] t[i]).0@ == k && t[i].1@ == v
}

/// The first position of `t` whose key does not order before `key`.
fn key_slot(t: &Vec<(String, String)>, key: &str) -> (p: usize)
    ensures
        p <= t@.len(),
        forall|k: int| 0 <= k < p ==> str_lt((#[trigger] t@[k]).0@, key@),
        p < t@.len() ==> !str_lt(t@[p as int].0@, key@),
{
    let mut p: usize = 0;
    while p < t.len()
        invariant
            p <= t@.len(),
            forall|k: int| 0 <= k < p ==> str_lt((#[trigger] t@[k]).0@, key@),
        decreases t.len() - p,
    {
        if !str_less(t[p].0.as_str(), key) {
            return p;
        }
        p = p + 1;
    }
    p
}

/// Sets `key` to `hash` in a table kept in order of key.
pub fn record_hash(table: &mut Vec<(String, String)>, key: String, hash: String)
    requires
        keys_sorted(old(table)@),
    ensures
        keys_sorted(final(table)@),
        has_entry(final(table)@, key@, hash@),
        forall|v: Seq<char>| has_entry(final(table)@, key@, v) ==> v == hash@,
        forall|k: Seq<char>, v: Seq<char>|
            k != key@ ==> (has_entry(final(table)@, k, v) == has_entry(old(table)@, k, v)),
{
    let ghost t = table@;
    let p = key_slot(table, key.as_str());
    let same = p < table.len() && str_equal(table[p].0.as_str(), key.as_str());
    if same {
        table.remove(p);
    }
    let ghost mid = table@;
    proof {
        assert forall|k: int| p <= k < mid.len() implies str_lt(key@, (#[trigger] mid[k]).0@) by {
            let j = if same { k + 1 } else { k };
            assert(mid[k] == t[j]);
            if j == p {
                lemma_str_lt_total(t[p as int].0@, key@);
            } else {
                if !same || p + 1 < j {
                    assert(!str_lt(t[p as int].0@, key@));
                }
                if t[p as int].0@ == key@ {
                    assert(str_lt(t[p as int].0@, t[j].0@));
                } else {
                    lemma_str_lt_total(t[p as int].0@, key@);
                    lemma_str_lt_transitive(key@, t[p as int].0@, t[j].0@);
                }
            }
        }
    }
    table.insert(p, (key, hash));
    proof {
        let f = table@;
        assert(f[p as int].0@ == key@);
        assert forall|i: int, j: int| 0 <= i < j < f.len() implies str_lt(f[i].0@, f[j].0@) by {
            if j == p {
                assert(f[i] == t[i]);
            } else if i == p {
                assert(f[j] == mid[j - 1]);
            } else if j < p {
                assert(f[i] == t[i] && f[j] == t[j]);
            } else if i < p {
                assert(f[i] == t[i]);
                assert(f[j] == mid[j - 1]);
                lemma_str_lt_transitive(f[i].0@, key@, f[j].0@);
            } else {
                let di: int = if same { 1 } else { 0 };
                assert(f[i] == t[i - 1 + di]);
                assert(f[j] == t[j - 1 + di]);
            }
        }
        assert(has_entry(f, key@, hash@)) by {
            assert(f[p as int] == (key, hash));
        }
        assert forall|v: Seq<char>| has_entry(f, key@, v) implies v == hash@ by {
            let i = choose|i: int| 0 <= i < f.len() && (#[trigger] f[i]).0@ == key@ && f[i].1@ == v;
            if i != p {
                if i < p {
                    lemma_str_lt_irreflexive(key@);
                } else {
                    lemma_str_lt_irreflexive(key@);
                }
            }
        }
        assert forall|k: Seq<char>, v: Seq<char>| k != key@ implies (has_entry(f, k, v) == has_entry(t, k, v)) by {
            if has_entry(f, k, v) {
                let i = choose|i: int| 0 <= i < f.len() && (#[trigger] f[i]).0@ == k && f[i].1@ == v;
                if i < p {
                    assert(t[i] == f[i]);
                } else {
                    let di: int = if same { 1 } else { 0 };
                    assert(t[i - 1 + di] == f[i]);
                }
            }
            if has_entry(t, k, v) {
                let i = choose|i: int| 0 <= i < t.len() && (#[trigger] t[i]).0@ == k && t[i].1@ == v;
                if i < p {
                    assert(f[i] == t[i]);
                } else if same && i == p {
                } else {
                    let di: int = if same { 1 } else { 0 };
                    assert(f[i + 1 - di] == t[i]);
                }
            }
        }
    }
}

/// The hash table from the outcome of hashing each pinned dependency, in
/// order of completion: a key with a hash is set to it, a failure leaves the
/// key out.
pub open spec fn hashes_spec(results: Seq<(String, Option<String>)>) -> Map<Seq<char>, Seq<char>>
    decreases results.len(),
{
    if results.len() == 0 {
        Map::empty()
    } else {
        let m = hashes_spec(results.drop_last());
        match results.last().1 {
            Some(h) => m.insert(results.last().0@, h@),
            None => m,
        }
    }
}

/// Builds the table of pinned dependency hashes, in order of key (see
/// `hashes_spec`).
pub fn calculate_cargo_output_hashes(results: Vec<(String, Option<String>)>) -> (r: Vec<
    (String, String),
>)
    ensures
        keys_sorted(r@),
        forall|k: Seq<char>, v: Seq<char>|
            has_entry(r@, k, v) <==> (hashes_spec(results@).contains_key(k) && hashes_spec(
                results@,
            )[k] == v),
{
    let ghost all = results@;
    let mut rest = results;
    let mut table: Vec<(String, String)> = Vec::new();
    let n = rest.len();
    let mut i: usize = 0;
    while rest.len() > 0
        invariant
            n == all.len(),
            i <= n,
            rest@ == all.subrange(i as int, n as int),
            keys_sorted(table@),
            forall|k: Seq<char>, v: Seq<char>|
                has_entry(table@, k, v) <==> (hashes_spec(all.subrange(0, i as int)).contains_key(k)
                    && hashes_spec(all.subrange(0, i as int))[k] == v),
        decreases rest.len(),
    {
        let (key, outcome) = rest.remove(0);
        proof {
            assert(all.subrange(0, i + 1).drop_last() =~= all.subrange(0, i as int));
            assert(all.subrange(0, i + 1).last() == all[i as int]);
        }
        match outcome {
            Some(h) => {
                record_hash(&mut table, key, h);
            },
            None => {},
        }
        i = i + 1;
        proof {
            assert(rest@ =~= all.subrange(i as int, n as int));
        }
    }
    assert(all.subrange(0, n as int) =~= all);
    table
}

/// Where the copy of an altered lockfile is stored, relative to the working
/// directory.
pub fn stored_lockfile_path(name: &str) -> (r: String)
    ensures
        r@ == "generated/extensions/"@ + name@ + ".lock"@,
{
    concat(concat("generated/extensions/", name).as_str(), ".lock")
}

/// How the index refers to the stored copy of an altered lockfile.
pub fn lockfile_reference(name: &str) -> (r: String)
    ensures
        r@ == "/generated/extensions/"@ + name@ + ".lock"@,
{
    concat(concat("/generated/extensions/", name).as_str(), ".lock")
}

/// `k` is the native variant with build root `root`, vendor hash `hash`
/// and, when `hashes` is some, a reference to the stored lockfile of
/// extension `name` with that table of pinned dependency hashes.
pub open spec fn rust_kind(
    k: ExtensionKind,
    name: Seq<char>,
    root: Option<String>,
    hash: String,
    hashes: Option<Vec<(String, String)>>,
) -> bool {
    match k {
        ExtensionKind::Rust { cargo_root, cargo_hash, cargo_lock } => {
            &&& cargo_root == root
            &&& cargo_hash == hash
            &&& match hashes {
                None => cargo_lock is None,
                Some(t) => cargo_lock is Some && cargo_lock->0.lock_file@ == "/generated/extensions/"@
                    + name + ".lock"@ && cargo_lock->0.output_hashes == t,
            }
        },
        ExtensionKind::Plain => false,
    }
}

/// The record variant of a native-code extension: its build root is the
/// workspace's, its vendor hash `cargo_hash`, and, when its lockfile is
/// altered (`output_hashes` is some), a reference to the stored lockfile
/// with the table of pinned dependency hashes.
pub fn calculate_rust_extension_kind(
    name: &str,
    workspace: &CargoWorkspace,
    cargo_hash: String,
    output_hashes: Option<Vec<(String, String)>>,
) -> (r: ExtensionKind)
    ensures
        rust_kind(r, name@, workspace.root, cargo_hash, output_hashes),
{
    let cargo_lock = match output_hashes {
        Some(t) => Some(CargoLock { lock_file: lockfile_reference(name), output_hashes: t }),
        None => None,
    };
    ExtensionKind::Rust { cargo_root: workspace.root.clone(), cargo_hash, cargo_lock }
}

} // verus!
