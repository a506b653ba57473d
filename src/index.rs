//! The synchronisation engine's decisions on the index: which records leave,
//! which registry entries are processed again, and how results are folded in.
//! Every mutation keeps the index referentially sound.

use crate::output::{Extension, Grammar, IndexView, NixExtensions};
use crate::registry::RegistryExtension;
use crate::sort::{extensions_sorted, grammars_sorted, sort_extensions, sort_grammars};
use crate::text::{contains_str, has_str, str_equal, str_less, str_lt};
use vstd::prelude::*;

verus! {

/// Extension `e` lists grammar id `id` among those it owns.
pub open spec fn owns(e: Extension, id: Seq<char>) -> bool {
    has_str(e.grammars@, id)
}

/// The referential invariant of the index: no record twice, extension names
/// unique, every grammar owned by exactly one extension, and every id an
/// extension owns present among the grammars.
pub open spec fn is_sound(v: IndexView) -> bool {
    &&& v.extensions.no_duplicates()
    &&& forall|e1: Extension, e2: Extension|
        #![trigger v.extensions.contains(e1), v.extensions.contains(e2)]
        v.extensions.contains(e1) && v.extensions.contains(e2) && e1.name@ == e2.name@ ==> e1 == e2
    &&& forall|g: Grammar| #[trigger]
        v.grammars.contains(g) ==> exists|e: Extension| #[trigger]
            v.extensions.contains(e) && owns(e, g.id@)
    &&& forall|e1: Extension, e2: Extension, id: Seq<char>|
        #![trigger owns(e1, id), owns(e2, id)]
        v.extensions.contains(e1) && v.extensions.contains(e2) && owns(e1, id) && owns(e2, id)
            ==> e1 == e2
    &&& forall|e: Extension, id: Seq<char>|
        #![trigger v.extensions.contains(e), owns(e, id)]
        v.extensions.contains(e) && owns(e, id) ==> exists|g: Grammar| #[trigger]
            v.grammars.contains(g) && g.id@ == id
}

/// Grammar id `id` is owned by an extension that `gone` removes.
pub open spec fn released(v: IndexView, gone: spec_fn(Extension) -> bool, id: Seq<char>) -> bool {
    exists|e: Extension| #[trigger] v.extensions.contains(e) && gone(e) && owns(e, id)
}

pub open spec fn kept(gone: spec_fn(Extension) -> bool) -> spec_fn(Extension) -> bool {
    |e: Extension| !gone(e)
}

pub open spec fn grammar_kept(v: IndexView, gone: spec_fn(Extension) -> bool) -> spec_fn(
    Grammar,
) -> bool {
    |g: Grammar| !released(v, gone, g.id@)
}

/// The index without the extensions that `gone` picks and the grammars they own.
pub open spec fn drop_where(v: IndexView, gone: spec_fn(Extension) -> bool) -> IndexView {
    IndexView {
        extensions: v.extensions.filter(kept(gone)),
        grammars: v.grammars.filter(grammar_kept(v, gone)),
    }
}

/// Picks the extensions called `name`.
pub open spec fn named(name: Seq<char>) -> spec_fn(Extension) -> bool {
    |e: Extension| e.name@ == name
}

/// Picks the extensions whose name is not in `names`.
pub open spec fn unlisted(names: Seq<String>) -> spec_fn(Extension) -> bool {
    |e: Extension| !has_str(names, e.name@)
}

pub(crate) proof fn lemma_filter_no_duplicates<A>(s: Seq<A>, p: spec_fn(A) -> bool)
    requires
        s.no_duplicates(),
    ensures
        s.filter(p).no_duplicates(),
    decreases s.len(),
{
    if s.len() > 0 {
        let init = s.drop_last();
        let x = s.last();
        assert(init.push(x) =~= s);
        assert(init.no_duplicates());
        lemma_filter_no_duplicates(init, p);
        init.lemma_filter_push(x, p);
        if p(x) {
            if init.filter(p).contains(x) {
                init.lemma_filter_contains_rev(p, x);
            }
        }
    }
}

pub(crate) proof fn lemma_drop_where_sound(v: IndexView, gone: spec_fn(Extension) -> bool)
    requires
        is_sound(v),
    ensures
        is_sound(drop_where(v, gone)),
{
    broadcast use Seq::lemma_filter_contains_rev, Seq::lemma_filter_pred;

    let w = drop_where(v, gone);
    lemma_filter_no_duplicates(v.extensions, kept(gone));
    assert forall|e: Extension| #[trigger] w.extensions.contains(e) implies v.extensions.contains(e)
        && !gone(e) by {
        let i = choose|i: int| 0 <= i < w.extensions.len() && w.extensions[i] == e;
        v.extensions.lemma_filter_pred(kept(gone), i);
    }
    assert forall|e: Extension| v.extensions.contains(e) && !gone(e) implies #[trigger]
        w.extensions.contains(e) by {
        let i = choose|i: int| 0 <= i < v.extensions.len() && v.extensions[i] == e;
        v.extensions.lemma_filter_contains(kept(gone), i);
    }
    assert forall|g: Grammar| #[trigger] w.grammars.contains(g) implies v.grammars.contains(g)
        && !released(v, gone, g.id@) by {
        let i = choose|i: int| 0 <= i < w.grammars.len() && w.grammars[i] == g;
        v.grammars.lemma_filter_pred(grammar_kept(v, gone), i);
    }
    assert forall|g: Grammar| v.grammars.contains(g) && !released(v, gone, g.id@) implies #[trigger]
        w.grammars.contains(g) by {
        let i = choose|i: int| 0 <= i < v.grammars.len() && v.grammars[i] == g;
        v.grammars.lemma_filter_contains(grammar_kept(v, gone), i);
    }
    assert forall|g: Grammar| #[trigger]
        w.grammars.contains(g) implies exists|e: Extension| #[trigger]
            w.extensions.contains(e) && owns(e, g.id@) by {
        let e = choose|e: Extension| #[trigger] v.extensions.contains(e) && owns(e, g.id@);
        assert(!gone(e));
        assert(w.extensions.contains(e));
    }
    assert forall|e: Extension, id: Seq<char>|
        #[trigger] w.extensions.contains(e) && #[trigger] owns(e, id) implies exists|g: Grammar|
        #[trigger] w.grammars.contains(g) && g.id@ == id by {
        let g = choose|g: Grammar| #[trigger] v.grammars.contains(g) && g.id@ == id;
        if released(v, gone, id) {
            let e2 = choose|e2: Extension| #[trigger]
                v.extensions.contains(e2) && gone(e2) && owns(e2, id);
            assert(owns(e, id) && owns(e2, id));
        }
        assert(w.grammars.contains(g));
    }
}

/// The index already holds `r.name` at a version not below `r.version`:
/// the entry is unchanged and is not processed again.
pub open spec fn is_current(v: IndexView, r: RegistryExtension) -> bool {
    exists|e: Extension| #[trigger]
        v.extensions.contains(e) && e.name@ == r.name@ && !str_lt(e.version@, r.version@)
}

/// The change filter over `entries` in order: an entry that is current is
/// left out; one that is not is picked, and any prior record of it (with its
/// grammars) leaves the index before later entries are looked at.
pub open spec fn select_spec(v: IndexView, entries: Seq<RegistryExtension>) -> (IndexView, Seq<
    RegistryExtension,
>)
    decreases entries.len(),
{
    if entries.len() == 0 {
        (v, Seq::empty())
    } else {
        let (w, picked) = select_spec(v, entries.drop_last());
        let r = entries.last();
        if is_current(w, r) {
            (w, picked)
        } else {
            (drop_where(w, named(r.name@)), picked.push(r))
        }
    }
}

/// What one unit of processing handed back.
pub enum ProcessOutcome {
    /// A fully resolved extension record and the grammar records it owns.
    Processed(Extension, Vec<Grammar>),
    /// The entry is intentionally left out of the index.
    Skipped,
    /// Processing failed; the failure stays with this entry.
    Failed,
}

/// A processed record may join the index: its name is new, its grammar ids
/// are exactly the ids of its grammar records, in order, and no extension
/// already in the index owns one of them.
pub open spec fn accepts(v: IndexView, e: Extension, gs: Seq<Grammar>) -> bool {
    &&& forall|x: Extension| #[trigger] v.extensions.contains(x) ==> x.name@ != e.name@
    &&& e.grammars@.len() == gs.len()
    &&& forall|k: int| 0 <= k < gs.len() ==> (#[trigger] e.grammars@[k])@ == gs[k].id@
    &&& forall|x: Extension, id: Seq<char>|
        #![trigger v.extensions.contains(x), owns(x, id)]
        v.extensions.contains(x) && owns(e, id) ==> !owns(x, id)
}

/// The index after folding in one outcome: an accepted record is appended
/// with its grammars; anything else leaves the index as it was.
pub open spec fn fold_spec(v: IndexView, outcome: ProcessOutcome) -> IndexView {
    match outcome {
        ProcessOutcome::Processed(e, gs) => if accepts(v, e, gs@) {
            IndexView { extensions: v.extensions.push(e), grammars: v.grammars + gs@ }
        } else {
            v
        },
        _ => v,
    }
}

pub(crate) proof fn lemma_fold_sound(v: IndexView, e: Extension, gs: Seq<Grammar>)
    requires
        is_sound(v),
        accepts(v, e, gs),
    ensures
        is_sound(IndexView { extensions: v.extensions.push(e), grammars: v.grammars + gs }),
{
    let w = IndexView { extensions: v.extensions.push(e), grammars: v.grammars + gs };
    assert forall|x: Extension| #[trigger] w.extensions.contains(x) implies v.extensions.contains(x)
        || x == e by {
        let i = choose|i: int| 0 <= i < w.extensions.len() && w.extensions[i] == x;
        if i < v.extensions.len() {
            assert(v.extensions[i] == x);
        }
    }
    assert(w.extensions.contains(e)) by {
        assert(w.extensions[v.extensions.len() as int] == e);
    }
    assert forall|x: Extension| v.extensions.contains(x) implies #[trigger] w.extensions.contains(x) by {
        let i = choose|i: int| 0 <= i < v.extensions.len() && v.extensions[i] == x;
        assert(w.extensions[i] == x);
    }
    assert forall|g: Grammar| #[trigger] w.grammars.contains(g) implies v.grammars.contains(g)
        || exists|k: int| 0 <= k < gs.len() && gs[k] == g by {
        let i = choose|i: int| 0 <= i < w.grammars.len() && w.grammars[i] == g;
        if i < v.grammars.len() {
            assert(v.grammars[i] == g);
        } else {
            assert(gs[i - v.grammars.len()] == g);
        }
    }
    assert forall|g: Grammar| v.grammars.contains(g) implies #[trigger] w.grammars.contains(g) by {
        let i = choose|i: int| 0 <= i < v.grammars.len() && v.grammars[i] == g;
        assert(w.grammars[i] == g);
    }
    assert(w.extensions.no_duplicates()) by {
        assert forall|i: int, j: int|
            0 <= i < w.extensions.len() && 0 <= j < w.extensions.len() && i != j implies w.extensions[i]
            != w.extensions[j] by {
            if i < v.extensions.len() && j < v.extensions.len() {
            } else if i < v.extensions.len() {
                assert(v.extensions.contains(w.extensions[i]));
            } else {
                assert(v.extensions.contains(w.extensions[j]));
            }
        }
    }
    assert forall|g: Grammar| #[trigger]
        w.grammars.contains(g) implies exists|x: Extension| #[trigger]
            w.extensions.contains(x) && owns(x, g.id@) by {
        if !v.grammars.contains(g) {
            let k = choose|k: int| 0 <= k < gs.len() && gs[k] == g;
            assert(e.grammars@[k]@ == g.id@);
            assert(owns(e, g.id@));
        } else {
            let x = choose|x: Extension| #[trigger] v.extensions.contains(x) && owns(x, g.id@);
            assert(w.extensions.contains(x));
        }
    }
    assert forall|x: Extension, id: Seq<char>|
        #[trigger] w.extensions.contains(x) && #[trigger] owns(x, id) implies exists|g: Grammar|
        #[trigger] w.grammars.contains(g) && g.id@ == id by {
        if x == e {
            let k = choose|k: int| 0 <= k < e.grammars@.len() && (#[trigger] e.grammars@[k])@ == id;
            assert(w.grammars[v.grammars.len() + k] == gs[k]);
            assert(w.grammars.contains(gs[k]));
        } else {
            assert(v.extensions.contains(x));
            let g = choose|g: Grammar| #[trigger] v.grammars.contains(g) && g.id@ == id;
            assert(w.grammars.contains(g));
        }
    }
}

pub(crate) proof fn lemma_select_sound(v: IndexView, entries: Seq<RegistryExtension>)
    requires
        is_sound(v),
    ensures
        is_sound(select_spec(v, entries).0),
    decreases entries.len(),
{
    if entries.len() > 0 {
        lemma_select_sound(v, entries.drop_last());
        let w = select_spec(v, entries.drop_last()).0;
        lemma_drop_where_sound(w, named(entries.last().name@));
    }
}

proof fn lemma_permuted_sound(v: IndexView, w: IndexView)
    requires
        is_sound(v),
        w.extensions.to_multiset() == v.extensions.to_multiset(),
        w.grammars.to_multiset() == v.grammars.to_multiset(),
    ensures
        is_sound(w),
{
    broadcast use vstd::seq_lib::to_multiset_contains;

    assert forall|x: Extension| #[trigger] w.extensions.contains(x) == v.extensions.contains(x) by {
        vstd::seq_lib::to_multiset_contains(w.extensions, x);
        vstd::seq_lib::to_multiset_contains(v.extensions, x);
    }
    assert forall|g: Grammar| #[trigger] w.grammars.contains(g) == v.grammars.contains(g) by {
        vstd::seq_lib::to_multiset_contains(w.grammars, g);
        vstd::seq_lib::to_multiset_contains(v.grammars, g);
    }
    v.extensions.lemma_multiset_has_no_duplicates();
    w.extensions.lemma_multiset_has_no_duplicates_conv();
    assert forall|g: Grammar| #[trigger]
        w.grammars.contains(g) implies exists|e: Extension| #[trigger]
            w.extensions.contains(e) && owns(e, g.id@) by {
        let e = choose|e: Extension| #[trigger] v.extensions.contains(e) && owns(e, g.id@);
        assert(w.extensions.contains(e));
    }
    assert forall|e: Extension, id: Seq<char>|
        #[trigger] w.extensions.contains(e) && #[trigger] owns(e, id) implies exists|g: Grammar|
        #[trigger] w.grammars.contains(g) && g.id@ == id by {
        assert(v.extensions.contains(e));
        let g = choose|g: Grammar| #[trigger] v.grammars.contains(g) && g.id@ == id;
        assert(w.grammars.contains(g));
    }
}

/// Some extension, by position, owns `id`.
pub open spec fn owned_at(v: IndexView, id: Seq<char>) -> bool {
    exists|i: int| 0 <= i < v.extensions.len() && owns(#[trigger] v.extensions[i], id)
}

/// Some grammar, by position, has id `id`.
pub open spec fn grammar_at(v: IndexView, id: Seq<char>) -> bool {
    exists|g: int| 0 <= g < v.grammars.len() && (#[trigger] v.grammars[g]).id@ == id
}

/// The referential invariant stated over positions.
pub open spec fn is_sound_by_position(v: IndexView) -> bool {
    &&& forall|i: int, j: int|
        0 <= i < j < v.extensions.len() ==> (#[trigger] v.extensions[i]).name@ != (
        #[trigger] v.extensions[j]).name@
    &&& forall|g: int| 0 <= g < v.grammars.len() ==> owned_at(v, (#[trigger] v.grammars[g]).id@)
    &&& forall|i: int, j: int, id: Seq<char>|
        0 <= i < v.extensions.len() && 0 <= j < v.extensions.len() && i != j && #[trigger] owns(
            v.extensions[i],
            id,
        ) ==> !#[trigger] owns(v.extensions[j], id)
    &&& forall|i: int, k: int|
        0 <= i < v.extensions.len() && 0 <= k < v.extensions[i].grammars@.len() ==> grammar_at(
            v,
            (#[trigger] v.extensions[i].grammars@[k])@,
        )
}

proof fn lemma_sound_by_position(v: IndexView)
    ensures
        is_sound_by_position(v) == is_sound(v),
{
    if is_sound(v) {
        assert forall|i: int, j: int|
            0 <= i < j < v.extensions.len() implies (#[trigger] v.extensions[i]).name@ != (
            #[trigger] v.extensions[j]).name@ by {
            assert(v.extensions.contains(v.extensions[i]));
            assert(v.extensions.contains(v.extensions[j]));
        }
        assert forall|g: int| 0 <= g < v.grammars.len() implies owned_at(
            v,
            (#[trigger] v.grammars[g]).id@,
        ) by {
            assert(v.grammars.contains(v.grammars[g]));
            let e = choose|e: Extension| #[trigger]
                v.extensions.contains(e) && owns(e, v.grammars[g].id@);
            let i = choose|i: int| 0 <= i < v.extensions.len() && v.extensions[i] == e;
            assert(owns(v.extensions[i], v.grammars[g].id@));
        }
        assert forall|i: int, j: int, id: Seq<char>|
            0 <= i < v.extensions.len() && 0 <= j < v.extensions.len() && i != j && #[trigger] owns(
                v.extensions[i],
                id,
            ) implies !#[trigger] owns(v.extensions[j], id) by {
            if owns(v.extensions[j], id) {
                assert(v.extensions.contains(v.extensions[i]));
                assert(v.extensions.contains(v.extensions[j]));
            }
        }
        assert forall|i: int, k: int|
            0 <= i < v.extensions.len() && 0 <= k < v.extensions[i].grammars@.len() implies grammar_at(
            v,
            (#[trigger] v.extensions[i].grammars@[k])@,
        ) by {
            let e = v.extensions[i];
            let id = e.grammars@[k]@;
            assert(v.extensions.contains(e));
            assert(owns(e, id));
            let gr = choose|gr: Grammar| #[trigger] v.grammars.contains(gr) && gr.id@ == id;
            let g = choose|g: int| 0 <= g < v.grammars.len() && v.grammars[g] == gr;
            assert(v.grammars[g].id@ == id);
        }
        assert(is_sound_by_position(v));
    }
    if is_sound_by_position(v) {
        assert(v.extensions.no_duplicates()) by {
            assert forall|i: int, j: int|
                0 <= i < v.extensions.len() && 0 <= j < v.extensions.len() && i != j implies v.extensions[i]
                != v.extensions[j] by {
                if i < j {
                    assert(v.extensions[i].name@ != v.extensions[j].name@);
                } else {
                    assert(v.extensions[j].name@ != v.extensions[i].name@);
                }
            }
        }
        assert forall|e1: Extension, e2: Extension|
            #![trigger v.extensions.contains(e1), v.extensions.contains(e2)]
            v.extensions.contains(e1) && v.extensions.contains(e2) && e1.name@ == e2.name@ implies e1
            == e2 by {
            let i = choose|i: int| 0 <= i < v.extensions.len() && v.extensions[i] == e1;
            let j = choose|j: int| 0 <= j < v.extensions.len() && v.extensions[j] == e2;
            if i < j {
                assert(v.extensions[i].name@ != v.extensions[j].name@);
            } else if j < i {
                assert(v.extensions[j].name@ != v.extensions[i].name@);
            }
        }
        assert forall|gr: Grammar| #[trigger] v.grammars.contains(gr) implies exists|e: Extension| #[trigger]
            v.extensions.contains(e) && owns(e, gr.id@) by {
            let g = choose|g: int| 0 <= g < v.grammars.len() && v.grammars[g] == gr;
            let i = choose|i: int|
                0 <= i < v.extensions.len() && owns(#[trigger] v.extensions[i], v.grammars[g].id@);
            assert(v.extensions.contains(v.extensions[i]));
        }
        assert forall|e1: Extension, e2: Extension, id: Seq<char>|
            #![trigger owns(e1, id), owns(e2, id)]
            v.extensions.contains(e1) && v.extensions.contains(e2) && owns(e1, id) && owns(e2, id)
                implies e1 == e2 by {
            let i = choose|i: int| 0 <= i < v.extensions.len() && v.extensions[i] == e1;
            let j = choose|j: int| 0 <= j < v.extensions.len() && v.extensions[j] == e2;
            if i != j {
                assert(owns(v.extensions[i], id));
            }
        }
        assert forall|e: Extension, id: Seq<char>|
            #![trigger v.extensions.contains(e), owns(e, id)]
            v.extensions.contains(e) && owns(e, id) implies exists|gr: Grammar| #[trigger]
                v.grammars.contains(gr) && gr.id@ == id by {
            let i = choose|i: int| 0 <= i < v.extensions.len() && v.extensions[i] == e;
            let k = choose|k: int| 0 <= k < e.grammars@.len() && (#[trigger] e.grammars@[k])@ == id;
            assert(v.extensions[i].grammars@[k]@ == id);
            let g = choose|g: int|
                0 <= g < v.grammars.len() && (#[trigger] v.grammars[g]).id@ == v.extensions[
                    i
                ].grammars@[k]@;
            assert(v.grammars.contains(v.grammars[g]));
        }
        assert(is_sound(v));
    }
}

/// Whether some extension at a position that `mask` marks owns `id`.
fn owned_by_marked(exts: &Vec<Extension>, mask: &Vec<bool>, id: &str) -> (r: bool)
    requires
        mask@.len() == exts@.len(),
    ensures
        r == exists|j: int| 0 <= j < exts@.len() && mask@[j] && #[trigger] owns(exts@[j], id@),
{
    let mut j: usize = 0;
    while j < exts.len()
        invariant
            j <= exts@.len(),
            mask@.len() == exts@.len(),
            forall|k: int| 0 <= k < j ==> !(mask@[k] && #[trigger] owns(exts@[k], id@)),
        decreases exts.len() - j,
    {
        if mask[j] && contains_str(&exts[j].grammars, id) {
            assert(owns(exts@[j as int], id@));
            return true;
        }
        j = j + 1;
    }
    false
}

fn vec_of_true(n: usize) -> (v: Vec<bool>)
    ensures
        v@.len() == n,
        forall|i: int| 0 <= i < n ==> v@[i],
{
    let mut v: Vec<bool> = Vec::new();
    let mut i: usize = 0;
    while i < n
        invariant
            i <= n,
            v@.len() == i,
            forall|k: int| 0 <= k < i ==> v@[k],
        decreases n - i,
    {
        v.push(true);
        i = i + 1;
    }
    v
}

/// Marks every position of a list of `n` but `skip`.
fn mask_all_but(n: usize, skip: usize) -> (v: Vec<bool>)
    ensures
        v@.len() == n,
        forall|i: int| 0 <= i < n ==> v@[i] == (i != skip),
{
    let mut v: Vec<bool> = Vec::new();
    let mut i: usize = 0;
    while i < n
        invariant
            i <= n,
            v@.len() == i,
            forall|k: int| 0 <= k < i ==> v@[k] == (k != skip),
        decreases n - i,
    {
        v.push(i != skip);
        i = i + 1;
    }
    v
}

/// Whether some grammar of `gs` has id `id`.
fn has_grammar(gs: &Vec<Grammar>, id: &str) -> (r: bool)
    ensures
        r == exists|g: int| 0 <= g < gs@.len() && (#[trigger] gs@[g]).id@ == id@,
{
    let mut g: usize = 0;
    while g < gs.len()
        invariant
            g <= gs@.len(),
            forall|h: int| 0 <= h < g ==> (#[trigger] gs@[h]).id@ != id@,
        decreases gs.len() - g,
    {
        if str_equal(gs[g].id.as_str(), id) {
            return true;
        }
        g = g + 1;
    }
    false
}

impl NixExtensions {
    /// Removes the extensions at the positions that `mask` marks, and every
    /// grammar that one of them owns.
    fn drop_marked(&mut self, mask: &Vec<bool>, Ghost(gone): Ghost<spec_fn(Extension) -> bool>)
        requires
            mask@.len() == old(self)@.extensions.len(),
            forall|i: int|
                0 <= i < mask@.len() ==> mask@[i] == gone(#[trigger] old(self)@.extensions[i]),
        ensures
            final(self)@ == drop_where(old(self)@, gone),
    {
        let ghost v = self@;
        let mut rest: Vec<Grammar> = Vec::new();
        std::mem::swap(&mut rest, &mut self.grammars);
        let n = rest.len();
        let mut i: usize = 0;
        while rest.len() > 0
            invariant
                self.extensions@ == v.extensions,
                mask@.len() == v.extensions.len(),
                forall|k: int|
                    0 <= k < mask@.len() ==> mask@[k] == gone(#[trigger] v.extensions[k]),
                n == v.grammars.len(),
                i <= n,
                rest@ == v.grammars.subrange(i as int, n as int),
                self.grammars@ == v.grammars.subrange(0, i as int).filter(grammar_kept(v, gone)),
            decreases rest.len(),
        {
            let g = rest.remove(0);
            let hit = owned_by_marked(&self.extensions, mask, g.id.as_str());
            proof {
                if hit {
                    let j = choose|j: int|
                        0 <= j < v.extensions.len() && mask@[j] && #[trigger] owns(
                            v.extensions[j],
                            g.id@,
                        );
                    assert(v.extensions.contains(v.extensions[j]));
                } else {
                    assert forall|e: Extension| #[trigger]
                        v.extensions.contains(e) && gone(e) implies !owns(e, g.id@) by {
                        let j = choose|j: int| 0 <= j < v.extensions.len() && v.extensions[j] == e;
                        assert(mask@[j]);
                    }
                }
                assert(v.grammars.subrange(0, i + 1) =~= v.grammars.subrange(0, i as int).push(g));
                v.grammars.subrange(0, i as int).lemma_filter_push(g, grammar_kept(v, gone));
            }
            if !hit {
                self.grammars.push(g);
            }
            i = i + 1;
            proof {
                assert(rest@ =~= v.grammars.subrange(i as int, n as int));
            }
        }
        assert(v.grammars.subrange(0, n as int) =~= v.grammars);

        let mut rest: Vec<Extension> = Vec::new();
        std::mem::swap(&mut rest, &mut self.extensions);
        let m = rest.len();
        let mut i: usize = 0;
        while rest.len() > 0
            invariant
                self.grammars@ == drop_where(v, gone).grammars,
                mask@.len() == m,
                m == v.extensions.len(),
                forall|k: int|
                    0 <= k < mask@.len() ==> mask@[k] == gone(#[trigger] v.extensions[k]),
                i <= m,
                rest@ == v.extensions.subrange(i as int, m as int),
                self.extensions@ == v.extensions.subrange(0, i as int).filter(kept(gone)),
            decreases rest.len(),
        {
            let e = rest.remove(0);
            proof {
                assert(v.extensions.subrange(0, i + 1) =~= v.extensions.subrange(0, i as int).push(e));
                v.extensions.subrange(0, i as int).lemma_filter_push(e, kept(gone));
            }
            if !mask[i] {
                self.extensions.push(e);
            }
            i = i + 1;
            proof {
                assert(rest@ =~= v.extensions.subrange(i as int, m as int));
            }
        }
        assert(v.extensions.subrange(0, m as int) =~= v.extensions);
    }

    /// Removal pass: drops every extension whose name `names` does not
    /// list, together with the grammars it owns.
    pub fn remove_missing(&mut self, names: &Vec<String>)
        ensures
            final(self)@ == drop_where(old(self)@, unlisted(names@)),
            is_sound(old(self)@) ==> is_sound(final(self)@),
    {
        let mut mask: Vec<bool> = Vec::new();
        let mut i: usize = 0;
        while i < self.extensions.len()
            invariant
                i <= self.extensions@.len(),
                mask@.len() == i,
                forall|k: int|
                    0 <= k < i ==> mask@[k] == unlisted(names@)(#[trigger] self.extensions@[k]),
            decreases self.extensions.len() - i,
        {
            mask.push(!contains_str(names, self.extensions[i].name.as_str()));
            i = i + 1;
        }
        proof {
            if is_sound(self@) {
                lemma_drop_where_sound(self@, unlisted(names@));
            }
        }
        self.drop_marked(&mask, Ghost(unlisted(names@)));
    }

    /// Drops the extension called `name`, if any, with the grammars it owns.
    pub fn remove_extension(&mut self, name: &str)
        ensures
            final(self)@ == drop_where(old(self)@, named(name@)),
            is_sound(old(self)@) ==> is_sound(final(self)@),
    {
        let mut mask: Vec<bool> = Vec::new();
        let mut i: usize = 0;
        while i < self.extensions.len()
            invariant
                i <= self.extensions@.len(),
                mask@.len() == i,
                forall|k: int|
                    0 <= k < i ==> mask@[k] == named(name@)(#[trigger] self.extensions@[k]),
            decreases self.extensions.len() - i,
        {
            mask.push(str_equal(self.extensions[i].name.as_str(), name));
            i = i + 1;
        }
        proof {
            if is_sound(self@) {
                lemma_drop_where_sound(self@, named(name@));
            }
        }
        self.drop_marked(&mask, Ghost(named(name@)));
    }

    /// Puts extensions in order of name and grammars in order of id, for a
    /// deterministic output. An index already in order is left as it is.
    pub fn finalize(&mut self)
        ensures
            final(self)@.extensions.to_multiset() == old(self)@.extensions.to_multiset(),
            final(self)@.grammars.to_multiset() == old(self)@.grammars.to_multiset(),
            extensions_sorted(final(self)@.extensions),
            grammars_sorted(final(self)@.grammars),
            extensions_sorted(old(self)@.extensions) && grammars_sorted(old(self)@.grammars)
                ==> final(self)@ == old(self)@,
            is_sound(old(self)@) ==> is_sound(final(self)@),
    {
        let ghost v = self@;
        let mut exts: Vec<Extension> = Vec::new();
        std::mem::swap(&mut exts, &mut self.extensions);
        self.extensions = sort_extensions(exts);
        let mut gs: Vec<Grammar> = Vec::new();
        std::mem::swap(&mut gs, &mut self.grammars);
        self.grammars = sort_grammars(gs);
        proof {
            if is_sound(v) {
                lemma_permuted_sound(v, self@);
            }
        }
    }

    /// Whether the index is referentially sound (see `is_sound`).
    pub fn is_consistent(&self) -> (r: bool)
        ensures
            r == is_sound(self@),
    {
        proof {
            lemma_sound_by_position(self@);
        }
        let ghost v = self@;
        let n = self.extensions.len();
        let mut i: usize = 0;
        while i < n
            invariant
                v == self@,
                is_sound_by_position(v) == is_sound(v),
                n == v.extensions.len(),
                i <= n,
                forall|a: int, b: int|
                    0 <= a < i && a < b < n ==> (#[trigger] v.extensions[a]).name@ != (
                    #[trigger] v.extensions[b]).name@,
            decreases n - i,
        {
            let mut j: usize = i + 1;
            while j < n
                invariant
                    v == self@,
                    is_sound_by_position(v) == is_sound(v),
                    n == v.extensions.len(),
                    i < n,
                    i < j <= n,
                    forall|a: int, b: int|
                        0 <= a < i && a < b < n ==> (#[trigger] v.extensions[a]).name@ != (
                        #[trigger] v.extensions[b]).name@,
                    forall|b: int| i < b < j ==> v.extensions[i as int].name@ != (
                    #[trigger] v.extensions[b]).name@,
                decreases n - j,
            {
                if str_equal(self.extensions[i].name.as_str(), self.extensions[j].name.as_str()) {
                    proof {
                        if is_sound_by_position(v) {
                            assert(v.extensions[i as int].name@ != v.extensions[j as int].name@);
                        }
                    }
                    return false;
                }
                j = j + 1;
            }
            i = i + 1;
        }
        let all = vec_of_true(n);
        let mut g: usize = 0;
        while g < self.grammars.len()
            invariant
                v == self@,
                is_sound_by_position(v) == is_sound(v),
                n == v.extensions.len(),
                all@.len() == n,
                forall|k: int| 0 <= k < n ==> all@[k],
                g <= v.grammars.len(),
                forall|h: int| 0 <= h < g ==> owned_at(v, (#[trigger] v.grammars[h]).id@),
            decreases v.grammars.len() - g,
        {
            if !owned_by_marked(&self.extensions, &all, self.grammars[g].id.as_str()) {
                proof {
                    if owned_at(v, v.grammars[g as int].id@) {
                        let a = choose|a: int|
                            0 <= a < v.extensions.len() && owns(
                                #[trigger] v.extensions[a],
                                v.grammars[g as int].id@,
                            );
                        assert(all@[a]);
                    }
                    if is_sound_by_position(v) {
                        assert(owned_at(v, v.grammars[g as int].id@));
                    }
                }
                return false;
            }
            g = g + 1;
        }
        let mut i: usize = 0;
        while i < n
            invariant
                v == self@,
                is_sound_by_position(v) == is_sound(v),
                n == v.extensions.len(),
                i <= n,
                forall|a: int, b: int, id: Seq<char>|
                    0 <= a < i && 0 <= b < n && a != b && #[trigger] owns(v.extensions[a], id)
                        ==> !#[trigger] owns(v.extensions[b], id),
                forall|a: int, k: int|
                    0 <= a < i && 0 <= k < v.extensions[a].grammars@.len() ==> grammar_at(
                        v,
                        (#[trigger] v.extensions[a].grammars@[k])@,
                    ),
            decreases n - i,
        {
            let others = mask_all_but(n, i);
            let gs = &self.extensions[i].grammars;
            let mut k: usize = 0;
            while k < gs.len()
                invariant
                    v == self@,
                    is_sound_by_position(v) == is_sound(v),
                    n == v.extensions.len(),
                    i < n,
                    gs@ == v.extensions[i as int].grammars@,
                    others@.len() == n,
                    forall|c: int| 0 <= c < n ==> others@[c] == (c != i),
                    k <= gs@.len(),
                    forall|c: int, b: int|
                        0 <= c < k && 0 <= b < n && b != i ==> !#[trigger] owns(
                            v.extensions[b],
                            (#[trigger] gs@[c])@,
                        ),
                    forall|c: int| 0 <= c < k ==> grammar_at(v, (#[trigger] gs@[c])@),
                decreases gs.len() - k,
            {
                if owned_by_marked(&self.extensions, &others, gs[k].as_str()) {
                    proof {
                        let b = choose|b: int|
                            0 <= b < n && others@[b] && #[trigger] owns(
                                v.extensions[b],
                                gs@[k as int]@,
                            );
                        assert(owns(v.extensions[i as int], gs@[k as int]@));
                        if is_sound_by_position(v) {
                            assert(!owns(v.extensions[b], gs@[k as int]@));
                        }
                    }
                    return false;
                }
                if !has_grammar(&self.grammars, gs[k].as_str()) {
                    proof {
                        assert(gs@[k as int] == v.extensions[i as int].grammars@[k as int]);
                        assert(!grammar_at(v, v.extensions[i as int].grammars@[k as int]@));
                        if is_sound_by_position(v) {
                            assert(grammar_at(v, v.extensions[i as int].grammars@[k as int]@));
                        }
                    }
                    return false;
                }
                proof {
                    assert forall|b: int| 0 <= b < n && b != i implies !#[trigger] owns(
                        v.extensions[b],
                        gs@[k as int]@,
                    ) by {
                        assert(others@[b]);
                    }
                }
                k = k + 1;
            }
            proof {
                assert forall|b: int, id: Seq<char>|
                    0 <= b < n && b != i && owns(v.extensions[i as int], id) implies !#[trigger] owns(
                    v.extensions[b],
                    id,
                ) by {
                    let c = choose|c: int| 0 <= c < gs@.len() && (#[trigger] gs@[c])@ == id;
                }
                assert forall|a: int, b: int, id: Seq<char>|
                    0 <= a < i + 1 && 0 <= b < n && a != b && #[trigger] owns(v.extensions[a], id)
                        implies !#[trigger] owns(v.extensions[b], id) by {
                    if a == i {
                    } else if b == i {
                        if owns(v.extensions[b], id) {
                            let c = choose|c: int|
                                0 <= c < gs@.len() && (#[trigger] gs@[c])@ == id;
                            assert(!owns(v.extensions[a], gs@[c]@));
                        }
                    }
                }
            }
            i = i + 1;
        }
        true
    }

    /// Whether the index holds `r.name` at a version not below `r.version`.
    pub fn is_current(&self, r: &RegistryExtension) -> (b: bool)
        ensures
            b == is_current(self@, *r),
    {
        let mut i: usize = 0;
        while i < self.extensions.len()
            invariant
                i <= self.extensions@.len(),
                forall|k: int|
                    0 <= k < i ==> !((#[trigger] self.extensions@[k]).name@ == r.name@ && !str_lt(
                        self.extensions@[k].version@,
                        r.version@,
                    )),
            decreases self.extensions.len() - i,
        {
            let e = &self.extensions[i];
            if str_equal(e.name.as_str(), r.name.as_str()) && !str_less(
                e.version.as_str(),
                r.version.as_str(),
            ) {
                assert(self@.extensions.contains(self@.extensions[i as int]));
                return true;
            }
            i = i + 1;
        }
        false
    }

    /// Change filter: returns the entries that need processing, in order,
    /// and drops from the index the prior record (and its grammars) of each.
    pub fn select_changed(&mut self, entries: Vec<RegistryExtension>) -> (picked: Vec<
        RegistryExtension,
    >)
        ensures
            (final(self)@, picked@) == select_spec(old(self)@, entries@),
            is_sound(old(self)@) ==> is_sound(final(self)@),
    {
        let ghost v = self@;
        let ghost all = entries@;
        let mut rest = entries;
        let mut picked: Vec<RegistryExtension> = Vec::new();
        let n = rest.len();
        let mut i: usize = 0;
        assert(all.subrange(0, 0) =~= Seq::<RegistryExtension>::empty());
        while rest.len() > 0
            invariant
                n == all.len(),
                i <= n,
                rest@ == all.subrange(i as int, n as int),
                (self@, picked@) == select_spec(v, all.subrange(0, i as int)),
            decreases rest.len(),
        {
            let r = rest.remove(0);
            proof {
                assert(all.subrange(0, i + 1).drop_last() =~= all.subrange(0, i as int));
                assert(all.subrange(0, i + 1).last() == r);
            }
            if !self.is_current(&r) {
                self.remove_extension(r.name.as_str());
                picked.push(r);
            }
            i = i + 1;
            proof {
                assert(rest@ =~= all.subrange(i as int, n as int));
            }
        }
        assert(all.subrange(0, n as int) =~= all);
        proof {
            if is_sound(v) {
                lemma_select_sound(v, all);
            }
        }
        picked
    }

    /// Folds one outcome into the index. Returns whether a record was added;
    /// a skip, a failure, or a record that does not fit leaves the index as
    /// it was.
    pub fn fold(&mut self, outcome: ProcessOutcome) -> (added: bool)
        ensures
            final(self)@ == fold_spec(old(self)@, outcome),
            added == (final(self)@ != old(self)@),
            is_sound(old(self)@) ==> is_sound(final(self)@),
    {
        match outcome {
            ProcessOutcome::Processed(e, gs) => {
                if self.accepts(&e, &gs) {
                    proof {
                        if is_sound(self@) {
                            lemma_fold_sound(self@, e, gs@);
                        }
                    }
                    let ghost before = self@;
                    let mut gs = gs;
                    self.extensions.push(e);
                    self.grammars.append(&mut gs);
                    assert(self@.extensions.len() != before.extensions.len());
                    true
                } else {
                    false
                }
            },
            _ => false,
        }
    }

    /// Whether `e` with grammar records `gs` may join the index.
    pub fn accepts(&self, e: &Extension, gs: &Vec<Grammar>) -> (b: bool)
        ensures
            b == accepts(self@, *e, gs@),
    {
        let mut i: usize = 0;
        while i < self.extensions.len()
            invariant
                i <= self.extensions@.len(),
                forall|k: int| 0 <= k < i ==> (#[trigger] self.extensions@[k]).name@ != e.name@,
            decreases self.extensions.len() - i,
        {
            if str_equal(self.extensions[i].name.as_str(), e.name.as_str()) {
                assert(self@.extensions.contains(self@.extensions[i as int]));
                return false;
            }
            i = i + 1;
        }
        if e.grammars.len() != gs.len() {
            return false;
        }
        let mut k: usize = 0;
        while k < gs.len()
            invariant
                k <= gs@.len(),
                e.grammars@.len() == gs@.len(),
                forall|j: int| 0 <= j < k ==> (#[trigger] e.grammars@[j])@ == gs@[j].id@,
            decreases gs.len() - k,
        {
            if !str_equal(e.grammars[k].as_str(), gs[k].id.as_str()) {
                return false;
            }
            k = k + 1;
        }
        let mut k: usize = 0;
        while k < e.grammars.len()
            invariant
                k <= e.grammars@.len(),
                forall|j: int, x: Extension|
                    #![trigger self@.extensions.contains(x), e.grammars@[j]]
                    0 <= j < k && self@.extensions.contains(x) ==> !owns(x, e.grammars@[j]@),
            decreases e.grammars.len() - k,
        {
            let all = vec_of_true(self.extensions.len());
            if owned_by_marked(&self.extensions, &all, e.grammars[k].as_str()) {
                let ghost j = choose|j: int|
                    0 <= j < self@.extensions.len() && all@[j] && #[trigger] owns(
                        self@.extensions[j],
                        e.grammars@[k as int]@,
                    );
                assert(self@.extensions.contains(self@.extensions[j]));
                assert(owns(*e, e.grammars@[k as int]@));
                return false;
            }
            proof {
                assert forall|x: Extension| self@.extensions.contains(x) implies !owns(
                    x,
                    e.grammars@[k as int]@,
                ) by {
                    let j = choose|j: int|
                        0 <= j < self@.extensions.len() && self@.extensions[j] == x;
                    assert(all@[j]);
                }
            }
            k = k + 1;
        }
        proof {
            assert forall|x: Extension, id: Seq<char>|
                #![trigger self@.extensions.contains(x), owns(x, id)]
                self@.extensions.contains(x) && owns(*e, id) implies !owns(x, id) by {
                let j = choose|j: int| 0 <= j < e.grammars@.len() && (#[trigger] e.grammars@[j])@ == id;
            }
        }
        true
    }
}

} // verus!
