//! Grammar records: their ids, their roots, and the sorted set an extension
//! owns.

use crate::sort::{grammars_sorted, sort_grammars};
use crate::manifest::GrammarManifestEntry;
use crate::output::{Grammar, Source};
use crate::text::concat;
use vstd::prelude::*;

verus! {

/// The grammars of one extension, in order of id, and their ids.
pub struct ProcessedGrammars {
    pub grammars: Vec<Grammar>,
    pub ids: Vec<String>,
}

/// `s` without its leading `./` segments.
pub open spec fn trim_dot_slash(s: Seq<char>) -> Seq<char>
    decreases s.len(),
{
    if s.len() >= 2 && s[0] == '.' && s[1] == '/' {
        trim_dot_slash(s.subrange(2, s.len() as int))
    } else {
        s
    }
}

/// Removes every leading `./` of `s`.
pub fn trim_dot_slash_prefix(s: &str) -> (r: String)
    ensures
        r@ == trim_dot_slash(s@),
{
    let n = s.unicode_len();
    let mut i: usize = 0;
    assert(s@.subrange(0, n as int) =~= s@);
    while i < n && n - i >= 2 && s.get_char(i) == '.' && s.get_char(i + 1) == '/'
        invariant
            n == s@.len(),
            i <= n,
            trim_dot_slash(s@) == trim_dot_slash(s@.subrange(i as int, n as int)),
        decreases n - i,
    {
        assert(s@.subrange(i as int, n as int).subrange(2, n - i) =~= s@.subrange(i + 2, n as int));
        i = i + 2;
    }
    String::from_str(s.substring_char(i, n))
}

/// The id of grammar `name` of extension `extension`.
pub fn grammar_id(extension: &str, name: &str) -> (r: String)
    ensures
        r@ == extension@ + "_"@ + name@,
{
    concat(concat(extension, "_").as_str(), name)
}

/// The record of grammar `name` that extension `extension` declares as
/// `entry`, fetched as `src`.
pub fn process_grammar(extension: &str, name: String, entry: &GrammarManifestEntry, src: Source) -> (r:
    Grammar)
    ensures
        r.id@ == extension@ + "_"@ + name@,
        r.name == name,
        r.version == entry.rev,
        r.src == src,
        match entry.path {
            Some(p) => r.grammar_root is Some && r.grammar_root->0@ == trim_dot_slash(p@),
            None => r.grammar_root is None,
        },
{
    let id = grammar_id(extension, name.as_str());
    let grammar_root = match &entry.path {
        Some(p) => Some(trim_dot_slash_prefix(p.as_str())),
        None => None,
    };
    Grammar { id, name, version: entry.rev.clone(), src, grammar_root }
}

/// The grammars that were processed, dropping the failures.
pub open spec fn successes(results: Seq<Option<Grammar>>) -> Seq<Grammar>
    decreases results.len(),
{
    if results.len() == 0 {
        Seq::empty()
    } else {
        let init = successes(results.drop_last());
        match results.last() {
            Some(g) => init.push(g),
            None => init,
        }
    }
}

/// Gathers the grammars of one extension: the failures (none) are left
/// out, the rest sorted by id, with the list of their ids.
pub fn process_grammars(results: Vec<Option<Grammar>>) -> (r: ProcessedGrammars)
    ensures
        r.grammars@.to_multiset() == successes(results@).to_multiset(),
        grammars_sorted(r.grammars@),
        r.ids@.len() == r.grammars@.len(),
        forall|k: int| 0 <= k < r.ids@.len() ==> (#[trigger] r.ids@[k])@ == r.grammars@[k].id@,
{
    let ghost all = results@;
    let mut rest = results;
    let mut found: Vec<Grammar> = Vec::new();
    let n = rest.len();
    let mut i: usize = 0;
    assert(all.subrange(0, 0) =~= Seq::<Option<Grammar>>::empty());
    while rest.len() > 0
        invariant
            n == all.len(),
            i <= n,
            rest@ == all.subrange(i as int, n as int),
            found@ == successes(all.subrange(0, i as int)),
        decreases rest.len(),
    {
        let o = rest.remove(0);
        proof {
            assert(all.subrange(0, i + 1).drop_last() =~= all.subrange(0, i as int));
            assert(all.subrange(0, i + 1).last() == all[i as int]);
        }
        if let Some(g) = o {
            found.push(g);
        }
        i = i + 1;
        proof {
            assert(rest@ =~= all.subrange(i as int, n as int));
        }
    }
    assert(all.subrange(0, n as int) =~= all);
    let grammars = sort_grammars(found);
    let mut ids: Vec<String> = Vec::new();
    let mut k: usize = 0;
    while k < grammars.len()
        invariant
            k <= grammars@.len(),
            ids@.len() == k,
            forall|j: int| 0 <= j < k ==> (#[trigger] ids@[j])@ == grammars@[j].id@,
        decreases grammars.len() - k,
    {
        ids.push(grammars[k].id.clone());
        k = k + 1;
    }
    ProcessedGrammars { grammars, ids }
}

} // verus!
