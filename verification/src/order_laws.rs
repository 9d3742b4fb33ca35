//! What holds of the order in which the subobjects are written: each is
//! written once, and behind its parent.

use vstd::prelude::*;
use crate::subobject::SpecSubObject;
use crate::write::{emit, emit_from, emit_order};

verus! {

/// Whether an order names subobjects, names none twice, and names every
/// subobject that has a parent behind its parent.
pub open spec fn parents_first(subs: Seq<SpecSubObject>, order: Seq<int>) -> bool {
    &&& forall|k: int| 0 <= k < order.len() ==> 0 <= #[trigger] order[k] < subs.len()
    &&& forall|k1: int, k2: int|
        0 <= k1 < k2 < order.len() ==> #[trigger] order[k1] != #[trigger] order[k2]
    &&& forall|k: int|
        0 <= k < order.len() ==> (subs[#[trigger] order[k]].parent matches Some(p) ==> exists|j: int|
            0 <= j < k && order[j] == p.0)
}

/// Whether an order names every subobject.
pub open spec fn names_all(subs: Seq<SpecSubObject>, order: Seq<int>) -> bool {
    forall|i: int| 0 <= i < subs.len() ==> order.contains(i)
}

/// The marks of the subobjects that an order names.
pub open spec fn marks_of(n: nat, order: Seq<int>) -> Seq<bool> {
    Seq::new(n, |i: int| order.contains(i))
}

/// More fuel does not change what is written for a subobject.
proof fn lemma_emit_fuel(subs: Seq<SpecSubObject>, written: Seq<bool>, i: int, f1: nat, f2: nat)
    requires
        f1 <= f2,
        emit(subs, written, i, f1) is Some,
    ensures
        emit(subs, written, i, f2) == emit(subs, written, i, f1),
    decreases f1,
{
    if 0 <= i < subs.len() && written.len() == subs.len() && !written[i] && f1 > 0 {
        match subs[i].parent {
            Some(p) => {
                lemma_emit_fuel(subs, written, p.0 as int, (f1 - 1) as nat, (f2 - 1) as nat);
            },
            None => {},
        }
    }
}

/// What is written for a subobject, up to one of its ancestors, is what
/// is written for that ancestor, with the fuel that is left there.
proof fn lemma_emit_prefix(subs: Seq<SpecSubObject>, written: Seq<bool>, i: int, f: nat, k: int)
    requires
        emit(subs, written, i, f) is Some,
        0 <= k < emit(subs, written, i, f)->Some_0.0.len(),
    ensures
        ({
            let o = emit(subs, written, i, f)->Some_0.0;
            let g = f - (o.len() - 1 - k);
            &&& g >= 1
            &&& emit(subs, written, o[k], g as nat) matches Some((o2, _)) && o2 == o.take(k + 1)
            &&& 0 <= o[k] < subs.len() && !written[o[k]]
        }),
    decreases f,
{
    let o = emit(subs, written, i, f)->Some_0.0;
    match subs[i].parent {
        Some(p) => {
            let inner = emit(subs, written, p.0 as int, (f - 1) as nat)->Some_0.0;
            assert(o == inner.push(i));
            if k < inner.len() {
                lemma_emit_prefix(subs, written, p.0 as int, (f - 1) as nat, k);
                assert(o.take(k + 1) =~= inner.take(k + 1));
                assert(o[k] == inner[k]);
            } else {
                assert(o.take(k + 1) =~= o);
            }
        },
        None => {
            assert(o.take(k + 1) =~= o);
        },
    }
}

/// A subobject is not written among its own ancestors.
proof fn lemma_emit_self(subs: Seq<SpecSubObject>, written: Seq<bool>, i: int, f: nat, k: int)
    requires
        0 <= i < subs.len(),
        written.len() == subs.len(),
        !written[i],
        subs[i].parent is Some,
        f >= 1,
        emit(subs, written, subs[i].parent->Some_0.0 as int, (f - 1) as nat) is Some,
        0 <= k < emit(
            subs,
            written,
            subs[i].parent->Some_0.0 as int,
            (f - 1) as nat,
        )->Some_0.0.len(),
    ensures
        emit(subs, written, subs[i].parent->Some_0.0 as int, (f - 1) as nat)->Some_0.0[k] != i,
{
    let p = subs[i].parent->Some_0.0 as int;
    let inner = emit(subs, written, p, (f - 1) as nat)->Some_0.0;
    if inner[k] == i {
        lemma_emit_prefix(subs, written, p, (f - 1) as nat, k);
        let g = (f - 1) - (inner.len() - 1 - k);
        // what is written for `i` with the fuel left there ends with `i`
        let again = emit(subs, written, p, (g - 1) as nat);
        assert(again is Some);
        assert(again->Some_0.0.push(i) == inner.take(k + 1));
        assert(again->Some_0.0.len() == k);
        lemma_emit_fuel(subs, written, p, (g - 1) as nat, (f - 1) as nat);
        assert(again->Some_0.0 == inner);
    }
}

/// What is written for a subobject: subobjects that were not written
/// before, none twice, each behind its parent; and after it they are
/// marked, and so is the subobject that was asked for.
proof fn lemma_emit_fresh(subs: Seq<SpecSubObject>, written: Seq<bool>, i: int, f: nat)
    requires
        emit(subs, written, i, f) is Some,
    ensures
        ({
            let (o, w) = emit(subs, written, i, f)->Some_0;
            &&& w.len() == subs.len() == written.len()
            &&& 0 <= i < subs.len() && w[i]
            &&& forall|k: int| 0 <= k < o.len() ==> 0 <= #[trigger] o[k] < subs.len() && !written[o[k]]
            &&& forall|k1: int, k2: int|
                0 <= k1 < k2 < o.len() ==> #[trigger] o[k1] != #[trigger] o[k2]
            &&& forall|x: int| 0 <= x < subs.len() ==> #[trigger] w[x] == (written[x] || o.contains(x))
            &&& forall|k: int|
                0 <= k < o.len() ==> (subs[#[trigger] o[k]].parent matches Some(p) ==> p.0
                    < subs.len() && (written[p.0 as int] || exists|j: int|
                    0 <= j < k && o[j] == p.0))
        }),
    decreases f,
{
    let (o, w) = emit(subs, written, i, f)->Some_0;
    if written[i] {
        assert forall|x: int| 0 <= x < subs.len() implies #[trigger] w[x] == (written[x]
            || o.contains(x)) by {
            if o.contains(x) {
                let j = choose|j: int| 0 <= j < o.len() && o[j] == x;
            }
        }
    } else {
        match subs[i].parent {
            Some(p) => {
                let (inner, w1) = emit(subs, written, p.0 as int, (f - 1) as nat)->Some_0;
                lemma_emit_fresh(subs, written, p.0 as int, (f - 1) as nat);
                assert(o == inner.push(i) && w == w1.update(i, true));
                assert forall|k: int| 0 <= k < inner.len() implies inner[k] != i by {
                    lemma_emit_self(subs, written, i, f, k);
                }
                assert forall|k: int| 0 <= k < o.len() implies 0 <= #[trigger] o[k] < subs.len()
                    && !written[o[k]] by {
                    if k < inner.len() {
                        assert(o[k] == inner[k]);
                    }
                }
                assert forall|k1: int, k2: int| 0 <= k1 < k2 < o.len() implies #[trigger] o[k1]
                    != #[trigger] o[k2] by {
                    assert(o[k1] == inner[k1]);
                    if k2 < inner.len() {
                        assert(o[k2] == inner[k2]);
                    }
                }
                assert forall|x: int| 0 <= x < subs.len() implies #[trigger] w[x] == (written[x]
                    || o.contains(x)) by {
                    if inner.contains(x) {
                        let j = choose|j: int| 0 <= j < inner.len() && inner[j] == x;
                        assert(o[j] == x);
                    }
                    if o.contains(x) {
                        let j = choose|j: int| 0 <= j < o.len() && o[j] == x;
                        if j < inner.len() {
                            assert(inner[j] == x);
                        }
                    }
                    if x == i {
                        assert(o[o.len() - 1] == i);
                    }
                }
                assert forall|k: int| 0 <= k < o.len() implies (subs[#[trigger] o[k]].parent matches Some(
                    q,
                ) ==> q.0 < subs.len() && (written[q.0 as int] || exists|j: int|
                    0 <= j < k && o[j] == q.0)) by {
                    if k < inner.len() {
                        assert(o[k] == inner[k]);
                        if subs[o[k]].parent is Some {
                            let q = subs[o[k]].parent->Some_0;
                            if !written[q.0 as int] {
                                let j = choose|j: int| 0 <= j < k && inner[j] == q.0;
                                assert(o[j] == q.0);
                            }
                        }
                    } else {
                        assert(w1[p.0 as int]);
                        if !written[p.0 as int] {
                            let j = choose|j: int| 0 <= j < inner.len() && inner[j] == p.0;
                            assert(o[j] == p.0);
                        }
                    }
                }
            },
            None => {
                assert(o =~= seq![i]);
                assert forall|x: int| 0 <= x < subs.len() implies #[trigger] w[x] == (written[x]
                    || o.contains(x)) by {
                    if o.contains(x) {
                        let j = choose|j: int| 0 <= j < o.len() && o[j] == x;
                    }
                    if x == i {
                        assert(o[0] == i);
                    }
                }
            },
        }
    }
}

/// An order that keeps parents first, followed by what is written for a
/// subobject, keeps parents first.
proof fn lemma_emit_extends(subs: Seq<SpecSubObject>, order: Seq<int>, i: int)
    requires
        parents_first(subs, order),
        emit(subs, marks_of(subs.len(), order), i, subs.len()) is Some,
    ensures
        ({
            let (more, w) = emit(subs, marks_of(subs.len(), order), i, subs.len())->Some_0;
            &&& parents_first(subs, order + more)
            &&& w == marks_of(subs.len(), order + more)
            &&& (order + more).contains(i)
            &&& forall|x: int| order.contains(x) ==> (order + more).contains(x)
        }),
{
    let n = subs.len();
    let written = marks_of(n, order);
    let (more, w) = emit(subs, written, i, n)->Some_0;
    let all = order + more;
    lemma_emit_fresh(subs, written, i, n);
    assert forall|x: int| order.contains(x) implies all.contains(x) by {
        let j = choose|j: int| 0 <= j < order.len() && order[j] == x;
        assert(all[j] == x);
    }
    assert forall|x: int| more.contains(x) implies all.contains(x) by {
        let j = choose|j: int| 0 <= j < more.len() && more[j] == x;
        assert(all[order.len() + j] == x);
    }
    assert forall|x: int| all.contains(x) implies order.contains(x) || more.contains(x) by {
        let j = choose|j: int| 0 <= j < all.len() && all[j] == x;
        if j < order.len() {
            assert(order[j] == x);
        } else {
            assert(more[j - order.len()] == x);
        }
    }
    assert(w =~= marks_of(n, all));
    assert(w[i]);
    assert forall|k: int| 0 <= k < all.len() implies 0 <= #[trigger] all[k] < subs.len() by {
        if k < order.len() {
            assert(all[k] == order[k]);
        } else {
            assert(all[k] == more[k - order.len()]);
        }
    }
    assert forall|k1: int, k2: int| 0 <= k1 < k2 < all.len() implies #[trigger] all[k1]
        != #[trigger] all[k2] by {
        if k2 < order.len() {
            assert(all[k1] == order[k1] && all[k2] == order[k2]);
        } else if k1 < order.len() {
            assert(all[k1] == order[k1] && all[k2] == more[k2 - order.len()]);
            assert(order.contains(all[k1]));
            assert(written[all[k1]]);
        } else {
            assert(all[k1] == more[k1 - order.len()] && all[k2] == more[k2 - order.len()]);
        }
    }
    assert forall|k: int| 0 <= k < all.len() implies (subs[#[trigger] all[k]].parent matches Some(
        p,
    ) ==> exists|j: int| 0 <= j < k && all[j] == p.0) by {
        if subs[all[k]].parent is Some {
            let p = subs[all[k]].parent->Some_0;
            if k < order.len() {
                assert(all[k] == order[k]);
                let j = choose|j: int| 0 <= j < k && order[j] == p.0;
                assert(all[j] == p.0);
            } else {
                let m = k - order.len();
                assert(all[k] == more[m]);
                if written[p.0 as int] {
                    assert(order.contains(p.0 as int));
                    let j = choose|j: int| 0 <= j < order.len() && order[j] == p.0 as int;
                    assert(all[j] == p.0);
                } else {
                    let j = choose|j: int| 0 <= j < m && more[j] == p.0;
                    assert(all[order.len() + j] == p.0);
                }
            }
        }
    }
}

/// From subobject `i` on, the subobjects are written parents first, and
/// all of them are written.
proof fn lemma_emit_from(subs: Seq<SpecSubObject>, order: Seq<int>, i: int)
    requires
        parents_first(subs, order),
        0 <= i <= subs.len(),
        forall|x: int| 0 <= x < i ==> order.contains(x),
        emit_from(subs, marks_of(subs.len(), order), i, order) is Some,
    ensures
        parents_first(subs, emit_from(subs, marks_of(subs.len(), order), i, order)->Some_0),
        names_all(subs, emit_from(subs, marks_of(subs.len(), order), i, order)->Some_0),
    decreases subs.len() - i,
{
    if i < subs.len() {
        let (more, w) = emit(subs, marks_of(subs.len(), order), i, subs.len())->Some_0;
        lemma_emit_extends(subs, order, i);
        assert forall|x: int| 0 <= x < i + 1 implies (order + more).contains(x) by {
            if x < i {
                assert(order.contains(x));
            }
        }
        lemma_emit_from(subs, order + more, i + 1);
    }
}

/// The subobjects of a model are written each once, each behind its
/// parent, and all of them.
pub proof fn lemma_emit_order(subs: Seq<SpecSubObject>)
    requires
        emit_order(subs) is Some,
    ensures
        parents_first(subs, emit_order(subs)->Some_0),
        names_all(subs, emit_order(subs)->Some_0),
{
    let none = Seq::<int>::empty();
    assert(marks_of(subs.len(), none) =~= Seq::new(subs.len(), |i: int| false));
    lemma_emit_from(subs, none, 0);
}

} // verus!
