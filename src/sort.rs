//! Stable insertion sorts of the index's records by identifier.

use crate::output::{Extension, Grammar};
use crate::text::{lemma_str_lt_irreflexive, lemma_str_lt_transitive, str_less, str_lt};
use vstd::prelude::*;

verus! {

/// Extensions in order of name.
pub open spec fn extensions_sorted(s: Seq<Extension>) -> bool {
    forall|i: int, j: int| 0 <= i < j < s.len() ==> !str_lt(s[j].name@, s[i].name@)
}

/// Grammars in order of id.
pub open spec fn grammars_sorted(s: Seq<Grammar>) -> bool {
    forall|i: int, j: int| 0 <= i < j < s.len() ==> !str_lt(s[j].id@, s[i].id@)
}

/// The first position of `out` whose name orders after `key`, or its length.
fn extension_slot(out: &Vec<Extension>, key: &str) -> (p: usize)
    ensures
        p <= out@.len(),
        forall|k: int| 0 <= k < p ==> !str_lt(key@, (#[trigger] out@[k]).name@),
        p < out@.len() ==> str_lt(key@, out@[p as int].name@),
{
    let mut p: usize = 0;
    while p < out.len()
        invariant
            p <= out@.len(),
            forall|k: int| 0 <= k < p ==> !str_lt(key@, (#[trigger] out@[k]).name@),
        decreases out.len() - p,
    {
        if str_less(key, out[p].name.as_str()) {
            return p;
        }
        p = p + 1;
    }
    p
}

/// The first position of `out` whose id orders after `key`, or its length.
fn grammar_slot(out: &Vec<Grammar>, key: &str) -> (p: usize)
    ensures
        p <= out@.len(),
        forall|k: int| 0 <= k < p ==> !str_lt(key@, (#[trigger] out@[k]).id@),
        p < out@.len() ==> str_lt(key@, out@[p as int].id@),
{
    let mut p: usize = 0;
    while p < out.len()
        invariant
            p <= out@.len(),
            forall|k: int| 0 <= k < p ==> !str_lt(key@, (#[trigger] out@[k]).id@),
        decreases out.len() - p,
    {
        if str_less(key, out[p].id.as_str()) {
            return p;
        }
        p = p + 1;
    }
    p
}

/// Stable insertion sort of extensions by name.
pub fn sort_extensions(v: Vec<Extension>) -> (r: Vec<Extension>)
    ensures
        r@.to_multiset() == v@.to_multiset(),
        extensions_sorted(r@),
        extensions_sorted(v@) ==> r@ == v@,
{
    broadcast use vstd::seq_lib::to_multiset_insert, vstd::seq_lib::to_multiset_build;

    let ghost all = v@;
    let mut rest = v;
    let mut out: Vec<Extension> = Vec::new();
    let n = rest.len();
    let mut i: usize = 0;
    assert(all.subrange(0, 0) =~= Seq::<Extension>::empty());
    while rest.len() > 0
        invariant
            n == all.len(),
            i <= n,
            rest@ == all.subrange(i as int, n as int),
            out@.to_multiset() == all.subrange(0, i as int).to_multiset(),
            extensions_sorted(out@),
            extensions_sorted(all) ==> out@ == all.subrange(0, i as int),
        decreases rest.len(),
    {
        let e = rest.remove(0);
        let p = extension_slot(&out, e.name.as_str());
        let ghost before = out@;
        proof {
            assert(all.subrange(0, i + 1) =~= all.subrange(0, i as int).push(e));
            if extensions_sorted(all) {
                assert forall|k: int| 0 <= k < before.len() implies !str_lt(
                    e.name@,
                    (#[trigger] before[k]).name@,
                ) by {
                    assert(before[k] == all[k]);
                    assert(e == all[i as int]);
                }
                assert(p == before.len());
            }
        }
        out.insert(p, e);
        proof {
            vstd::seq_lib::to_multiset_insert(before, p as int, e);
            vstd::seq_lib::to_multiset_build(all.subrange(0, i as int), e);
            assert forall|a: int, b: int| 0 <= a < b < out@.len() implies !str_lt(
                out@[b].name@,
                out@[a].name@,
            ) by {
                if b == p {
                } else if a == p {
                    if str_lt(out@[b].name@, e.name@) {
                        lemma_str_lt_transitive(before[b - 1].name@, e.name@, before[p as int].name@);
                        if b - 1 > p {
                        } else {
                            lemma_str_lt_irreflexive(before[p as int].name@);
                        }
                    }
                } else {
                }
            }
            if extensions_sorted(all) {
                assert(out@ =~= all.subrange(0, i + 1));
            }
        }
        i = i + 1;
        proof {
            assert(rest@ =~= all.subrange(i as int, n as int));
        }
    }
    assert(all.subrange(0, n as int) =~= all);
    out
}

/// Stable insertion sort of grammars by id.
pub fn sort_grammars(v: Vec<Grammar>) -> (r: Vec<Grammar>)
    ensures
        r@.to_multiset() == v@.to_multiset(),
        grammars_sorted(r@),
        grammars_sorted(v@) ==> r@ == v@,
{
    broadcast use vstd::seq_lib::to_multiset_insert, vstd::seq_lib::to_multiset_build;

    let ghost all = v@;
    let mut rest = v;
    let mut out: Vec<Grammar> = Vec::new();
    let n = rest.len();
    let mut i: usize = 0;
    assert(all.subrange(0, 0) =~= Seq::<Grammar>::empty());
    while rest.len() > 0
        invariant
            n == all.len(),
            i <= n,
            rest@ == all.subrange(i as int, n as int),
            out@.to_multiset() == all.subrange(0, i as int).to_multiset(),
            grammars_sorted(out@),
            grammars_sorted(all) ==> out@ == all.subrange(0, i as int),
        decreases rest.len(),
    {
        let g = rest.remove(0);
        let p = grammar_slot(&out, g.id.as_str());
        let ghost before = out@;
        proof {
            assert(all.subrange(0, i + 1) =~= all.subrange(0, i as int).push(g));
            if grammars_sorted(all) {
                assert forall|k: int| 0 <= k < before.len() implies !str_lt(
                    g.id@,
                    (#[trigger] before[k]).id@,
                ) by {
                    assert(before[k] == all[k]);
                    assert(g == all[i as int]);
                }
                assert(p == before.len());
            }
        }
        out.insert(p, g);
        proof {
            vstd::seq_lib::to_multiset_insert(before, p as int, g);
            vstd::seq_lib::to_multiset_build(all.subrange(0, i as int), g);
            assert forall|a: int, b: int| 0 <= a < b < out@.len() implies !str_lt(
                out@[b].id@,
                out@[a].id@,
            ) by {
                if b == p {
                } else if a == p {
                    if str_lt(out@[b].id@, g.id@) {
                        lemma_str_lt_transitive(before[b - 1].id@, g.id@, before[p as int].id@);
                        if b - 1 > p {
                        } else {
                            lemma_str_lt_irreflexive(before[p as int].id@);
                        }
                    }
                } else {
                }
            }
            if grammars_sorted(all) {
                assert(out@ =~= all.subrange(0, i + 1));
            }
        }
        i = i + 1;
        proof {
            assert(rest@ =~= all.subrange(i as int, n as int));
        }
    }
    assert(all.subrange(0, n as int) =~= all);
    out
}

} // verus!
