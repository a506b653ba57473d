//! What holds of the synchronisation engine across calls: a rerun changes
//! nothing, removal cascades, an update replaces a record wholesale, a failed
//! unit of work is isolated, and a whole run keeps the index sound.

use crate::index::{
    accepts, drop_where, fold_spec, grammar_kept, is_current, is_sound, kept, lemma_drop_where_sound,
    lemma_fold_sound, lemma_select_sound, named, owns, released, select_spec, unlisted,
    ProcessOutcome,
};
use crate::output::{Extension, Grammar, IndexView};
use crate::registry::RegistryExtension;
use crate::text::has_str;
use vstd::prelude::*;

verus! {

/// Outcomes folded in order of completion.
pub open spec fn fold_all(v: IndexView, outcomes: Seq<ProcessOutcome>) -> IndexView
    decreases outcomes.len(),
{
    if outcomes.len() == 0 {
        v
    } else {
        fold_spec(fold_all(v, outcomes.drop_last()), outcomes.last())
    }
}

proof fn lemma_filter_all<A>(s: Seq<A>, p: spec_fn(A) -> bool)
    requires
        forall|i: int| 0 <= i < s.len() ==> p(#[trigger] s[i]),
    ensures
        s.filter(p) == s,
    decreases s.len(),
{
    reveal(Seq::filter);
    if s.len() > 0 {
        lemma_filter_all(s.drop_last(), p);
        assert(s.drop_last().push(s.last()) =~= s);
    }
}

/// When every record is still listed by the registry and every registry
/// entry is already current, a second run changes nothing: the removal pass
/// and the change filter leave the index as it is and pick no entry (an
/// index already in order is also left as it is by `finalize`).
pub proof fn lemma_rerun_is_identity(
    v: IndexView,
    names: Seq<String>,
    entries: Seq<RegistryExtension>,
)
    requires
        forall|e: Extension| #[trigger] v.extensions.contains(e) ==> has_str(names, e.name@),
        forall|k: int| 0 <= k < entries.len() ==> is_current(v, #[trigger] entries[k]),
    ensures
        drop_where(v, unlisted(names)) == v,
        select_spec(v, entries) == (v, Seq::<RegistryExtension>::empty()),
    decreases entries.len(),
{
    assert forall|i: int| 0 <= i < v.extensions.len() implies kept(unlisted(names))(
        #[trigger] v.extensions[i],
    ) by {
        assert(v.extensions.contains(v.extensions[i]));
    }
    lemma_filter_all(v.extensions, kept(unlisted(names)));
    lemma_filter_all(v.grammars, grammar_kept(v, unlisted(names)));
    if entries.len() > 0 {
        assert forall|k: int| 0 <= k < entries.drop_last().len() implies is_current(
            v,
            #[trigger] entries.drop_last()[k],
        ) by {
            assert(entries.drop_last()[k] == entries[k]);
        }
        lemma_rerun_is_identity(v, names, entries.drop_last());
        assert(is_current(v, entries[entries.len() - 1]));
    }
}

/// The removal pass cascades: afterwards every extension left is listed by
/// the registry, every listed extension is still there, and no grammar that
/// an unlisted extension owned remains.
pub proof fn lemma_removal_cascades(v: IndexView, names: Seq<String>)
    ensures
        forall|e: Extension| #[trigger]
            drop_where(v, unlisted(names)).extensions.contains(e) <==> v.extensions.contains(e)
                && has_str(names, e.name@),
        forall|g: Grammar| #[trigger]
            drop_where(v, unlisted(names)).grammars.contains(g) ==> !exists|e: Extension| #[trigger]
                v.extensions.contains(e) && !has_str(names, e.name@) && owns(e, g.id@),
{
    broadcast use Seq::lemma_filter_contains_rev, Seq::lemma_filter_pred;

    let w = drop_where(v, unlisted(names));
    assert forall|e: Extension| #[trigger] w.extensions.contains(e) <==> v.extensions.contains(e)
        && has_str(names, e.name@) by {
        if w.extensions.contains(e) {
            let i = choose|i: int| 0 <= i < w.extensions.len() && w.extensions[i] == e;
            v.extensions.lemma_filter_pred(kept(unlisted(names)), i);
        }
        if v.extensions.contains(e) && has_str(names, e.name@) {
            let i = choose|i: int| 0 <= i < v.extensions.len() && v.extensions[i] == e;
            v.extensions.lemma_filter_contains(kept(unlisted(names)), i);
        }
    }
    assert forall|g: Grammar| #[trigger] w.grammars.contains(g) implies !released(
        v,
        unlisted(names),
        g.id@,
    ) by {
        let i = choose|i: int| 0 <= i < w.grammars.len() && w.grammars[i] == g;
        v.grammars.lemma_filter_pred(grammar_kept(v, unlisted(names)), i);
    }
}

/// An update replaces a record wholesale: when entry `r` is not current and
/// its processing yields record `e` (named as `r`) with grammar records `gs`
/// that fit, the index afterwards holds `e` as the only record of that name,
/// the grammars under `e`'s ids are exactly those of `gs`, and no grammar
/// that only the prior record owned remains.
pub proof fn lemma_update_replaces(
    v: IndexView,
    r: RegistryExtension,
    e: Extension,
    gs: Vec<Grammar>,
)
    requires
        is_sound(v),
        !is_current(v, r),
        e.name@ == r.name@,
        accepts(select_spec(v, seq![r]).0, e, gs@),
    ensures
        ({
            let w = fold_spec(select_spec(v, seq![r]).0, ProcessOutcome::Processed(e, gs));
            &&& w.extensions.contains(e)
            &&& forall|x: Extension| #[trigger]
                w.extensions.contains(x) && x.name@ == r.name@ ==> x == e
            &&& forall|g: Grammar| #[trigger]
                w.grammars.contains(g) && owns(e, g.id@) <==> gs@.contains(g)
            &&& forall|g: Grammar, x: Extension|
                #![trigger w.grammars.contains(g), v.extensions.contains(x)]
                w.grammars.contains(g) && v.extensions.contains(x) && x.name@ == r.name@ && owns(
                    x,
                    g.id@,
                ) ==> owns(e, g.id@)
        }),
{
    broadcast use Seq::lemma_filter_contains_rev, Seq::lemma_filter_pred;

    let s = seq![r];
    assert(s.drop_last() =~= Seq::<RegistryExtension>::empty());
    let d = drop_where(v, named(r.name@));
    assert(select_spec(v, s.drop_last()).0 == v);
    assert(s.last() == r);
    assert(select_spec(v, s).0 == d);
    let w = fold_spec(d, ProcessOutcome::Processed(e, gs));
    assert(w == IndexView { extensions: d.extensions.push(e), grammars: d.grammars + gs@ });
    assert(w.extensions[d.extensions.len() as int] == e);
    assert forall|x: Extension| #[trigger] w.extensions.contains(x) && x.name@ == r.name@ implies x
        == e by {
        let i = choose|i: int| 0 <= i < w.extensions.len() && w.extensions[i] == x;
        if i < d.extensions.len() {
            assert(d.extensions[i] == x);
            v.extensions.lemma_filter_pred(kept(named(r.name@)), i);
        }
    }
    assert forall|g: Grammar| #[trigger] w.grammars.contains(g) implies d.grammars.contains(g)
        || gs@.contains(g) by {
        let i = choose|i: int| 0 <= i < w.grammars.len() && w.grammars[i] == g;
        if i < d.grammars.len() {
            assert(d.grammars[i] == g);
        } else {
            assert(gs@[i - d.grammars.len()] == g);
        }
    }
    assert forall|g: Grammar| #[trigger] gs@.contains(g) implies w.grammars.contains(g) && owns(
        e,
        g.id@,
    ) by {
        let k = choose|k: int| 0 <= k < gs@.len() && gs@[k] == g;
        assert(w.grammars[d.grammars.len() + k] == g);
        assert(e.grammars@[k]@ == g.id@);
    }
    assert forall|g: Grammar| #[trigger] d.grammars.contains(g) implies !released(
        v,
        named(r.name@),
        g.id@,
    ) && v.grammars.contains(g) by {
        let i = choose|i: int| 0 <= i < d.grammars.len() && d.grammars[i] == g;
        v.grammars.lemma_filter_pred(grammar_kept(v, named(r.name@)), i);
    }
    lemma_drop_where_sound(v, named(r.name@));
    assert forall|g: Grammar| #[trigger] d.grammars.contains(g) implies !owns(e, g.id@) by {
        let x = choose|x: Extension| #[trigger] d.extensions.contains(x) && owns(x, g.id@);
    }
}

/// A failed or skipped unit of work has no effect on the fold: dropping it
/// from the sequence of outcomes leaves the resulting index the same.
pub proof fn lemma_failure_is_isolated(v: IndexView, outcomes: Seq<ProcessOutcome>, i: int)
    requires
        0 <= i < outcomes.len(),
        !(outcomes[i] is Processed),
    ensures
        fold_all(v, outcomes) == fold_all(v, outcomes.remove(i)),
    decreases outcomes.len(),
{
    if i == outcomes.len() - 1 {
        assert(outcomes.remove(i) =~= outcomes.drop_last());
    } else {
        lemma_failure_is_isolated(v, outcomes.drop_last(), i);
        assert(outcomes.remove(i).drop_last() =~= outcomes.drop_last().remove(i));
        assert(outcomes.remove(i).last() == outcomes.last());
    }
}

proof fn lemma_fold_all_sound(v: IndexView, outcomes: Seq<ProcessOutcome>)
    requires
        is_sound(v),
    ensures
        is_sound(fold_all(v, outcomes)),
    decreases outcomes.len(),
{
    if outcomes.len() > 0 {
        lemma_fold_all_sound(v, outcomes.drop_last());
        let w = fold_all(v, outcomes.drop_last());
        if let ProcessOutcome::Processed(e, gs) = outcomes.last() {
            if accepts(w, e, gs@) {
                lemma_fold_sound(w, e, gs@);
            }
        }
    }
}

/// A whole run keeps the index referentially sound: after the removal pass,
/// the change filter and the fold of any outcomes, every grammar is owned by
/// exactly one extension and every id an extension owns is present (sorting
/// keeps this too, see `finalize`).
pub proof fn lemma_run_keeps_index_sound(
    v: IndexView,
    names: Seq<String>,
    entries: Seq<RegistryExtension>,
    outcomes: Seq<ProcessOutcome>,
)
    requires
        is_sound(v),
    ensures
        is_sound(fold_all(select_spec(drop_where(v, unlisted(names)), entries).0, outcomes)),
{
    lemma_drop_where_sound(v, unlisted(names));
    lemma_select_sound(drop_where(v, unlisted(names)), entries);
    lemma_fold_all_sound(select_spec(drop_where(v, unlisted(names)), entries).0, outcomes);
}

} // verus!
