//! Where the items of a part stand in the whole.

use vstd::prelude::*;

use crate::event_loop::queues::left_to_draw;
use crate::event_loop::redraw_laws::{entries_differ, has_entry};
use crate::sctk_event::SurfaceUserRequest;
use crate::window::ObjectId;

verus! {

/// The places of the items that a filter keeps, in order.
pub proof fn lemma_filter_places<A>(items: Seq<A>, keep: spec_fn(A) -> bool) -> (places: Seq<int>)
    ensures
        places.len() == items.filter(keep).len(),
        forall|k: int|
            0 <= k < places.len() ==> 0 <= #[trigger] places[k] < items.len() && keep(
                items[places[k]],
            ) && items.filter(keep)[k] == items[places[k]],
        forall|j: int, k: int|
            #![trigger places[j], places[k]]
            0 <= j < k < places.len() ==> places[j] < places[k],
        forall|p: int|
            #![trigger items[p]]
            #![trigger places.contains(p)]
            0 <= p < items.len() && keep(items[p]) ==> places.contains(p),
    decreases items.len(),
{
    reveal(Seq::filter);
    if items.len() == 0 {
        seq![]
    } else {
        let fewer = items.drop_last();
        let last = items.len() - 1;
        let before = lemma_filter_places(fewer, keep);
        let places = if keep(items[last]) {
            before.push(last)
        } else {
            before
        };
        assert forall|p: int| 0 <= p < items.len() && keep(#[trigger] items[p]) implies
            places.contains(p) by {
            if p == last {
                assert(places[before.len() as int] == p);
            } else {
                assert(fewer[p] == items[p]);
                assert(before.contains(p));
                let k = choose|k: int| 0 <= k < before.len() && before[k] == p;
                assert(places[k] == p);
            }
        }
        assert forall|k: int| 0 <= k < places.len() implies 0 <= #[trigger] places[k] < items.len()
            && keep(items[places[k]]) && items.filter(keep)[k] == items[places[k]] by {
            if k < before.len() {
                assert(before[k] == places[k]);
                assert(fewer[places[k]] == items[places[k]]);
            }
        }
        assert forall|j: int, k: int|
            #![trigger places[j], places[k]]
            0 <= j < k < places.len() implies places[j] < places[k] by {
            assert(before[j] == places[j]);
            if k < before.len() {
                assert(before[k] == places[k]);
            }
        }
        places
    }
}

/// Two filters that keep opposite items keep all items together.
pub proof fn lemma_filter_parts<A>(
    items: Seq<A>,
    one: spec_fn(A) -> bool,
    other: spec_fn(A) -> bool,
)
    requires
        forall|a: A| #[trigger] one(a) <==> !other(a),
    ensures
        items.filter(one).len() + items.filter(other).len() == items.len(),
    decreases items.len(),
{
    reveal(Seq::filter);
    if items.len() > 0 {
        lemma_filter_parts(items.drop_last(), one, other);
        assert(one(items.last()) <==> !other(items.last()));
    }
}

/// The places of the drawings that no request takes the place of, in order: a drawing goes
/// exactly if there is an entry for its surface and it is the first of its surface.
pub proof fn lemma_left_places(
    drawings: Seq<ObjectId>,
    order: Seq<(ObjectId, SurfaceUserRequest)>,
) -> (stay: Seq<int>)
    requires
        entries_differ(order),
    ensures
        stay.len() == left_to_draw(drawings, order).len(),
        forall|k: int|
            0 <= k < stay.len() ==> 0 <= #[trigger] stay[k] < drawings.len() && left_to_draw(
                drawings,
                order,
            )[k] == drawings[stay[k]],
        forall|j: int, k: int|
            #![trigger stay[j], stay[k]]
            0 <= j < k < stay.len() ==> stay[j] < stay[k],
        forall|p: int|
            0 <= p < drawings.len() ==> (stay.contains(p) <==> !(has_entry(
                order,
                #[trigger] drawings[p],
            ) && forall|q: int| 0 <= q < p ==> #[trigger] drawings[q] != drawings[p])),
    decreases order.len(),
{
    if order.len() == 0 {
        let stay = Seq::new(drawings.len(), |k: int| k);
        assert forall|p: int| 0 <= p < drawings.len() implies stay.contains(p) && !has_entry(
            order,
            #[trigger] drawings[p],
        ) by {
            assert(stay[p] == p);
        }
        stay
    } else {
        let fewer = order.drop_last();
        let gone = order.last().0;
        let left = left_to_draw(drawings, fewer);
        assert forall|i: int, j: int|
            #![trigger fewer[i], fewer[j]]
            0 <= i < j < fewer.len() implies fewer[i].0 != fewer[j].0 by {
            assert(order[i].0 != order[j].0);
        }
        let before = lemma_left_places(drawings, fewer);
        assert(!has_entry(fewer, gone)) by {
            if has_entry(fewer, gone) {
                let i = choose|i: int| 0 <= i < fewer.len() && (#[trigger] fewer[i]).0 == gone;
                assert(order[i].0 != order[order.len() - 1].0);
            }
        }
        assert forall|surface: ObjectId| #[trigger]
            has_entry(order, surface) <==> has_entry(fewer, surface) || surface == gone by {
            if has_entry(fewer, surface) {
                let i = choose|i: int| 0 <= i < fewer.len() && (#[trigger] fewer[i]).0 == surface;
                assert(order[i].0 == surface);
            }
            if has_entry(order, surface) && surface != gone {
                let i = choose|i: int| 0 <= i < order.len() && (#[trigger] order[i]).0 == surface;
                assert(fewer[i].0 == surface);
            }
            assert(order[order.len() - 1].0 == gone);
        }
        left.index_of_first_ensures(gone);
        if left.contains(gone) {
            let at = left.index_of_first(gone)->0;
            let stay = before.remove(at);
            let first = before[at];
            assert(drawings[first] == gone);
            assert forall|q: int| 0 <= q < first implies #[trigger] drawings[q] != gone by {
                if drawings[q] == gone {
                    assert(!has_entry(fewer, drawings[q]));
                    assert(before.contains(q));
                    let k = choose|k: int| 0 <= k < before.len() && before[k] == q;
                    if k > at {
                        assert(before[at] < before[k]);
                    }
                    assert(left[k] == gone);
                }
            }
            assert forall|k: int| 0 <= k < stay.len() implies 0 <= #[trigger] stay[k]
                < drawings.len() && left_to_draw(drawings, order)[k] == drawings[stay[k]] by {
                let old_k = if k < at {
                    k
                } else {
                    k + 1
                };
                assert(stay[k] == before[old_k]);
            }
            assert forall|j: int, k: int|
                #![trigger stay[j], stay[k]]
                0 <= j < k < stay.len() implies stay[j] < stay[k] by {
                let old_j = if j < at {
                    j
                } else {
                    j + 1
                };
                let old_k = if k < at {
                    k
                } else {
                    k + 1
                };
                assert(before[old_j] < before[old_k]);
            }
            assert forall|p: int| 0 <= p < drawings.len() implies (stay.contains(p) <==> !(
            has_entry(order, #[trigger] drawings[p]) && forall|q: int|
                0 <= q < p ==> #[trigger] drawings[q] != drawings[p])) by {
                assert(stay.contains(p) <==> before.contains(p) && p != first) by {
                    if stay.contains(p) {
                        let k = choose|k: int| 0 <= k < stay.len() && stay[k] == p;
                        let old_k = if k < at {
                            k
                        } else {
                            k + 1
                        };
                        assert(before[old_k] == p);
                        if old_k < at {
                            assert(before[old_k] < before[at]);
                        } else {
                            assert(before[at] < before[old_k]);
                        }
                    }
                    if before.contains(p) && p != first {
                        let k = choose|k: int| 0 <= k < before.len() && before[k] == p;
                        let new_k = if k < at {
                            k
                        } else {
                            k - 1
                        };
                        assert(stay[new_k] == p);
                    }
                }
                if drawings[p] == gone {
                    assert(!has_entry(fewer, drawings[p]));
                    assert(before.contains(p));
                    if p != first {
                        assert(first < p);
                        assert(drawings[first] == drawings[p]);
                    }
                }
            }
            stay
        } else {
            assert forall|p: int| 0 <= p < drawings.len() implies #[trigger] drawings[p]
                != gone by {
                if drawings[p] == gone {
                    assert(!has_entry(fewer, drawings[p]));
                    assert(before.contains(p));
                    let k = choose|k: int| 0 <= k < before.len() && before[k] == p;
                    assert(left[k] == gone);
                }
            }
            before
        }
    }
}

} // verus!
