//! What the upstream registry says of each extension.

use crate::text::{opt_view, str_equal};
use vstd::prelude::*;

verus! {

/// One entry of the registry's listing: the declared version and the
/// submodule (and sub-path in it) that holds the extension.
#[derive(Debug, Clone)]
pub struct RegistryEntry {
    pub version: String,
    pub submodule: String,
    pub path: Option<String>,
}

/// One extension as the registry knows it, with its repository and pinned
/// revision resolved.
#[derive(Debug, Clone)]
pub struct RegistryExtension {
    pub name: String,
    pub version: String,
    pub repository: String,
    pub path: Option<String>,
    pub rev: String,
}

/// The position of the first `c` in `s`, or its length when there is none.
pub open spec fn index_of(s: Seq<char>, c: char) -> int
    decreases s.len(),
{
    if s.len() == 0 {
        0
    } else if s[0] == c {
        0
    } else {
        1 + index_of(s.drop_first(), c)
    }
}

proof fn lemma_index_of_bounds(s: Seq<char>, c: char)
    ensures
        0 <= index_of(s, c) <= s.len(),
        index_of(s, c) < s.len() ==> s[index_of(s, c)] == c,
    decreases s.len(),
{
    if s.len() > 0 && s[0] != c {
        lemma_index_of_bounds(s.drop_first(), c);
    }
}

/// Finds the first `c` in `s`.
fn find_char(s: &str, c: char) -> (r: usize)
    ensures
        r == index_of(s@, c),
{
    let n = s.unicode_len();
    let mut i: usize = 0;
    assert(s@.subrange(0, n as int) =~= s@);
    while i < n
        invariant
            n == s@.len(),
            i <= n,
            index_of(s@, c) == i + index_of(s@.subrange(i as int, n as int), c),
        decreases n - i,
    {
        if s.get_char(i) == c {
            return i;
        }
        assert(s@.subrange(i as int, n as int).drop_first() =~= s@.subrange(i + 1, n as int));
        i = i + 1;
    }
    i
}

/// `s` with every leading copy of `p` removed.
pub open spec fn trim_start_all(s: Seq<char>, p: Seq<char>) -> Seq<char>
    decreases s.len(),
{
    if p.len() > 0 && p.len() <= s.len() && s.subrange(0, p.len() as int) == p {
        trim_start_all(s.subrange(p.len() as int, s.len() as int), p)
    } else {
        s
    }
}

/// `s` with every trailing copy of `p` removed.
pub open spec fn trim_end_all(s: Seq<char>, p: Seq<char>) -> Seq<char>
    decreases s.len(),
{
    if p.len() > 0 && p.len() <= s.len() && s.subrange(s.len() - p.len(), s.len() as int) == p {
        trim_end_all(s.subrange(0, s.len() - p.len()), p)
    } else {
        s
    }
}

/// Removes every leading copy of `p` from `s`, as `str::trim_start_matches`.
pub fn trim_start_matches(s: &str, p: &str) -> (r: String)
    ensures
        r@ == trim_start_all(s@, p@),
{
    let n = s.unicode_len();
    let m = p.unicode_len();
    let mut i: usize = 0;
    assert(s@.subrange(0, n as int) =~= s@);
    while m > 0 && m <= n - i && str_equal(s.substring_char(i, i + m), p)
        invariant
            n == s@.len(),
            m == p@.len(),
            i <= n,
            trim_start_all(s@, p@) == trim_start_all(s@.subrange(i as int, n as int), p@),
        decreases n - i,
    {
        assert(s@.subrange(i as int, n as int).subrange(0, m as int) =~= s@.subrange(i as int, i + m));
        assert(s@.subrange(i as int, n as int).subrange(m as int, n - i) =~= s@.subrange(i + m, n as int));
        i = i + m;
    }
    proof {
        if m > 0 && m <= n - i {
            assert(s@.subrange(i as int, n as int).subrange(0, m as int) =~= s@.subrange(
                i as int,
                i + m,
            ));
        }
    }
    String::from_str(s.substring_char(i, n))
}

/// Removes every trailing copy of `p` from `s`, as `str::trim_end_matches`.
pub fn trim_end_matches(s: &str, p: &str) -> (r: String)
    ensures
        r@ == trim_end_all(s@, p@),
{
    let n = s.unicode_len();
    let m = p.unicode_len();
    let mut j: usize = n;
    assert(s@.subrange(0, n as int) =~= s@);
    while m > 0 && m <= j && str_equal(s.substring_char(j - m, j), p)
        invariant
            n == s@.len(),
            m == p@.len(),
            j <= n,
            trim_end_all(s@, p@) == trim_end_all(s@.subrange(0, j as int), p@),
        decreases j,
    {
        assert(s@.subrange(0, j as int).subrange(j - m, j as int) =~= s@.subrange(j - m, j as int));
        assert(s@.subrange(0, j as int).subrange(0, j - m) =~= s@.subrange(0, j - m));
        j = j - m;
    }
    proof {
        if m > 0 && m <= j {
            assert(s@.subrange(0, j as int).subrange(j - m, j as int) =~= s@.subrange(
                j - m,
                j as int,
            ));
        }
    }
    String::from_str(s.substring_char(0, j))
}

/// A line of the submodule status listing, `<marker><revision> <path>`,
/// as its path and revision; none without a space.
pub open spec fn status_entry(line: Seq<char>) -> Option<(Seq<char>, Seq<char>)> {
    let i = index_of(line, ' ');
    if i < line.len() {
        Some((line.subrange(i + 1, line.len() as int), trim_start_all(line.subrange(0, i), "-"@)))
    } else {
        None
    }
}

/// A line of the submodule configuration listing,
/// `submodule.<path>.url=<repository>.git`, as its path and repository;
/// none without an `=`.
pub open spec fn module_entry(line: Seq<char>) -> Option<(Seq<char>, Seq<char>)> {
    let i = index_of(line, '=');
    if i < line.len() {
        Some(
            (
                trim_end_all(trim_start_all(line.subrange(0, i), "submodule."@), ".url"@),
                trim_end_all(line.subrange(i + 1, line.len() as int), ".git"@),
            ),
        )
    } else {
        None
    }
}

pub open spec fn pair_view(p: (String, String)) -> (Seq<char>, Seq<char>) {
    (p.0@, p.1@)
}

/// The entries of `lines` under `parse`, in order, lines that give none
/// left out.
pub open spec fn entries_of(
    lines: Seq<String>,
    parse: spec_fn(Seq<char>) -> Option<(Seq<char>, Seq<char>)>,
) -> Seq<(Seq<char>, Seq<char>)>
    decreases lines.len(),
{
    if lines.len() == 0 {
        Seq::empty()
    } else {
        let init = entries_of(lines.drop_last(), parse);
        match parse(lines.last()@) {
            Some(e) => init.push(e),
            None => init,
        }
    }
}

fn status_line(line: &str) -> (r: Option<(String, String)>)
    ensures
        match r {
            Some(p) => status_entry(line@) == Some(pair_view(p)),
            None => status_entry(line@) is None,
        },
{
    proof {
        reveal_strlit("-");
        lemma_index_of_bounds(line@, ' ');
    }
    let n = line.unicode_len();
    let i = find_char(line, ' ');
    if i < n {
        let path = String::from_str(line.substring_char(i + 1, n));
        let rev = trim_start_matches(line.substring_char(0, i), "-");
        Some((path, rev))
    } else {
        None
    }
}

fn module_line(line: &str) -> (r: Option<(String, String)>)
    ensures
        match r {
            Some(p) => module_entry(line@) == Some(pair_view(p)),
            None => module_entry(line@) is None,
        },
{
    proof {
        lemma_index_of_bounds(line@, '=');
    }
    let n = line.unicode_len();
    let i = find_char(line, '=');
    if i < n {
        let key = trim_start_matches(line.substring_char(0, i), "submodule.");
        let path = trim_end_matches(key.as_str(), ".url");
        let repository = trim_end_matches(line.substring_char(i + 1, n), ".git");
        Some((path, repository))
    } else {
        None
    }
}

/// The revision of each submodule, from the lines of the submodule status
/// listing, as (path, revision) in order; lines without a space are left out.
pub fn parse_submodule_status(lines: &Vec<String>) -> (r: Vec<(String, String)>)
    ensures
        r@.map_values(|p: (String, String)| pair_view(p)) == entries_of(
            lines@,
            |l: Seq<char>| status_entry(l),
        ),
{
    let mut r: Vec<(String, String)> = Vec::new();
    let mut i: usize = 0;
    assert(lines@.subrange(0, 0) =~= Seq::<String>::empty());
    assert(r@.map_values(|p: (String, String)| pair_view(p)) =~= Seq::empty());
    while i < lines.len()
        invariant
            i <= lines@.len(),
            r@.map_values(|p: (String, String)| pair_view(p)) == entries_of(
                lines@.subrange(0, i as int),
                |l: Seq<char>| status_entry(l),
            ),
        decreases lines.len() - i,
    {
        assert(lines@.subrange(0, i + 1).drop_last() =~= lines@.subrange(0, i as int));
        assert(lines@.subrange(0, i + 1).last() == lines@[i as int]);
        if let Some(p) = status_line(lines[i].as_str()) {
            let ghost before = r@;
            r.push(p);
            assert(r@.map_values(|p: (String, String)| pair_view(p)) =~= before.map_values(
                |p: (String, String)| pair_view(p),
            ).push(pair_view(p)));
        }
        i = i + 1;
    }
    assert(lines@.subrange(0, lines@.len() as int) =~= lines@);
    r
}

/// The repository of each submodule, from the lines of the submodule
/// configuration listing, as (path, repository) in order; lines without an
/// `=` are left out.
pub fn parse_gitmodules(lines: &Vec<String>) -> (r: Vec<(String, String)>)
    ensures
        r@.map_values(|p: (String, String)| pair_view(p)) == entries_of(
            lines@,
            |l: Seq<char>| module_entry(l),
        ),
{
    let mut r: Vec<(String, String)> = Vec::new();
    let mut i: usize = 0;
    assert(lines@.subrange(0, 0) =~= Seq::<String>::empty());
    assert(r@.map_values(|p: (String, String)| pair_view(p)) =~= Seq::empty());
    while i < lines.len()
        invariant
            i <= lines@.len(),
            r@.map_values(|p: (String, String)| pair_view(p)) == entries_of(
                lines@.subrange(0, i as int),
                |l: Seq<char>| module_entry(l),
            ),
        decreases lines.len() - i,
    {
        assert(lines@.subrange(0, i + 1).drop_last() =~= lines@.subrange(0, i as int));
        assert(lines@.subrange(0, i + 1).last() == lines@[i as int]);
        if let Some(p) = module_line(lines[i].as_str()) {
            let ghost before = r@;
            r.push(p);
            assert(r@.map_values(|p: (String, String)| pair_view(p)) =~= before.map_values(
                |p: (String, String)| pair_view(p),
            ).push(pair_view(p)));
        }
        i = i + 1;
    }
    assert(lines@.subrange(0, lines@.len() as int) =~= lines@);
    r
}

/// The value of the last entry of `t` with key `k`.
pub open spec fn lookup(t: Seq<(Seq<char>, Seq<char>)>, k: Seq<char>) -> Option<Seq<char>>
    decreases t.len(),
{
    if t.len() == 0 {
        None
    } else if t.last().0 == k {
        Some(t.last().1)
    } else {
        lookup(t.drop_last(), k)
    }
}

fn find_value(t: &Vec<(String, String)>, k: &str) -> (r: Option<String>)
    ensures
        opt_view(r) == lookup(t@.map_values(|p: (String, String)| pair_view(p)), k@),
{
    let ghost tv = t@.map_values(|p: (String, String)| pair_view(p));
    let mut j: usize = t.len();
    assert(tv.subrange(0, j as int) =~= tv);
    while j > 0
        invariant
            j <= t@.len(),
            tv == t@.map_values(|p: (String, String)| pair_view(p)),
            lookup(tv, k@) == lookup(tv.subrange(0, j as int), k@),
        decreases j,
    {
        let ghost pre = tv.subrange(0, j as int);
        assert(pre.last() == pair_view(t@[j - 1]));
        assert(pre.drop_last() =~= tv.subrange(0, j - 1));
        if str_equal(t[j - 1].0.as_str(), k) {
            return Some(t[j - 1].1.clone());
        }
        j = j - 1;
    }
    None
}

pub open spec fn extension_view(e: RegistryExtension) -> (
    Seq<char>,
    Seq<char>,
    Seq<char>,
    Option<Seq<char>>,
    Seq<char>,
) {
    (e.name@, e.version@, e.repository@, opt_view(e.path), e.rev@)
}

/// The registry's extensions, in order, with the repository and revision of
/// their submodule; an entry whose submodule has no repository or no
/// revision is left out.
pub open spec fn merged_spec(
    registry: Seq<(String, RegistryEntry)>,
    repositories: Seq<(Seq<char>, Seq<char>)>,
    revisions: Seq<(Seq<char>, Seq<char>)>,
) -> Seq<(Seq<char>, Seq<char>, Seq<char>, Option<Seq<char>>, Seq<char>)>
    decreases registry.len(),
{
    if registry.len() == 0 {
        Seq::empty()
    } else {
        let init = merged_spec(registry.drop_last(), repositories, revisions);
        let (name, entry) = registry.last();
        match (lookup(repositories, entry.submodule@), lookup(revisions, entry.submodule@)) {
            (Some(repo), Some(rev)) => init.push(
                (name@, entry.version@, repo, opt_view(entry.path), rev),
            ),
            _ => init,
        }
    }
}

/// Joins the registry's entries (by name, in order) with the repository and
/// revision of each submodule (see `merged_spec`).
pub fn merge_registry(
    registry: &Vec<(String, RegistryEntry)>,
    repositories: &Vec<(String, String)>,
    revisions: &Vec<(String, String)>,
) -> (r: Vec<RegistryExtension>)
    ensures
        r@.map_values(|e: RegistryExtension| extension_view(e)) == merged_spec(
            registry@,
            repositories@.map_values(|p: (String, String)| pair_view(p)),
            revisions@.map_values(|p: (String, String)| pair_view(p)),
        ),
{
    let ghost repos = repositories@.map_values(|p: (String, String)| pair_view(p));
    let ghost revs = revisions@.map_values(|p: (String, String)| pair_view(p));
    let mut r: Vec<RegistryExtension> = Vec::new();
    let mut i: usize = 0;
    assert(registry@.subrange(0, 0) =~= Seq::<(String, RegistryEntry)>::empty());
    assert(r@.map_values(|e: RegistryExtension| extension_view(e)) =~= Seq::empty());
    while i < registry.len()
        invariant
            i <= registry@.len(),
            repos == repositories@.map_values(|p: (String, String)| pair_view(p)),
            revs == revisions@.map_values(|p: (String, String)| pair_view(p)),
            r@.map_values(|e: RegistryExtension| extension_view(e)) == merged_spec(
                registry@.subrange(0, i as int),
                repos,
                revs,
            ),
        decreases registry.len() - i,
    {
        assert(registry@.subrange(0, i + 1).drop_last() =~= registry@.subrange(0, i as int));
        assert(registry@.subrange(0, i + 1).last() == registry@[i as int]);
        let (name, entry) = (&registry[i].0, &registry[i].1);
        let repository = find_value(repositories, entry.submodule.as_str());
        let revision = find_value(revisions, entry.submodule.as_str());
        if let (Some(repository), Some(rev)) = (repository, revision) {
            let e = RegistryExtension {
                name: name.clone(),
                version: entry.version.clone(),
                repository,
                path: entry.path.clone(),
                rev,
            };
            let ghost before = r@;
            r.push(e);
            assert(r@.map_values(|e: RegistryExtension| extension_view(e)) =~= before.map_values(
                |e: RegistryExtension| extension_view(e),
            ).push(extension_view(e)));
        }
        i = i + 1;
    }
    assert(registry@.subrange(0, registry@.len() as int) =~= registry@);
    r
}

/// The names of the registry's extensions, in order.
pub fn registry_names(registry: &Vec<(String, RegistryEntry)>) -> (r: Vec<String>)
    ensures
        r@.len() == registry@.len(),
        forall|k: int| 0 <= k < r@.len() ==> (#[trigger] r@[k])@ == registry@[k].0@,
{
    let mut r: Vec<String> = Vec::new();
    let mut i: usize = 0;
    while i < registry.len()
        invariant
            i <= registry@.len(),
            r@.len() == i,
            forall|k: int| 0 <= k < i ==> (#[trigger] r@[k])@ == registry@[k].0@,
        decreases registry.len() - i,
    {
        r.push(registry[i].0.clone());
        i = i + 1;
    }
    r
}

} // verus!
