//! Which surfaces are redrawn in a turn.

use vstd::prelude::*;

use crate::event_loop::queues::{
    left_to_draw, lists, redrawn, requested_redraws, settled, wants_redraw,
};
use crate::sctk_event::SurfaceUserRequest;
use crate::window::ObjectId;

verus! {

/// Whether there is an entry for the surface.
pub open spec fn has_entry(
    order: Seq<(ObjectId, SurfaceUserRequest)>,
    surface: ObjectId,
) -> bool {
    exists|i: int| 0 <= i < order.len() && (#[trigger] order[i]).0 == surface
}

/// Whether there is an entry for the surface that leads to a redraw.
pub open spec fn is_requested(
    order: Seq<(ObjectId, SurfaceUserRequest)>,
    surface: ObjectId,
) -> bool {
    exists|i: int|
        0 <= i < order.len() && (#[trigger] order[i]).0 == surface && order[i].1.wants_redraw()
}

/// Whether no surface has two entries.
pub open spec fn entries_differ(order: Seq<(ObjectId, SurfaceUserRequest)>) -> bool {
    forall|i: int, j: int|
        #![trigger order[i], order[j]]
        0 <= i < j < order.len() ==> order[i].0 != order[j].0
}

/// Taking out the first occurrence of a value.
proof fn lemma_remove_value<A>(items: Seq<A>, value: A)
    ensures
        forall|other: A|
            #[trigger] items.remove_value(value).to_multiset().count(other) == if other == value
                && items.to_multiset().count(value) > 0 {
                (items.to_multiset().count(other) - 1) as nat
            } else {
                items.to_multiset().count(other)
            },
        items.no_duplicates() ==> items.remove_value(value).no_duplicates(),
{
    broadcast use vstd::multiset::group_multiset_axioms;

    items.to_multiset_ensures();
    items.index_of_first_ensures(value);
}

/// A request takes the place of one drawing of its surface, if there is one, and of no other.
pub proof fn law_request_replaces_one_drawing(
    must_redraw: Seq<ObjectId>,
    order: Seq<(ObjectId, SurfaceUserRequest)>,
    surface: ObjectId,
)
    requires
        entries_differ(order),
    ensures
        left_to_draw(must_redraw, order).to_multiset().count(surface) == if has_entry(
            order,
            surface,
        ) && must_redraw.to_multiset().count(surface) > 0 {
            (must_redraw.to_multiset().count(surface) - 1) as nat
        } else {
            must_redraw.to_multiset().count(surface)
        },
        must_redraw.no_duplicates() ==> left_to_draw(must_redraw, order).no_duplicates(),
    decreases order.len(),
{
    if order.len() > 0 {
        let fewer = order.drop_last();
        law_request_replaces_one_drawing(must_redraw, fewer, surface);
        lemma_remove_value(left_to_draw(must_redraw, fewer), order.last().0);
        if has_entry(fewer, surface) {
            let i = choose|i: int| 0 <= i < fewer.len() && (#[trigger] fewer[i]).0 == surface;
            assert(order[i].0 == surface);
            assert(order[order.len() - 1].0 != surface);
        }
        if has_entry(order, surface) && order.last().0 != surface {
            let i = choose|i: int| 0 <= i < order.len() && (#[trigger] order[i]).0 == surface;
            assert(fewer[i].0 == surface);
        }
        if order.last().0 == surface {
            assert(order[order.len() - 1].0 == surface);
        }
    }
}

/// The surfaces whose requests call for a redraw are those that are redrawn for it, each once.
proof fn lemma_requested(order: Seq<(ObjectId, SurfaceUserRequest)>)
    ensures
        forall|surface: ObjectId|
            #[trigger] requested_redraws(order).contains(surface) <==> is_requested(order, surface),
        entries_differ(order) ==> requested_redraws(order).no_duplicates(),
    decreases order.len(),
{
    reveal(Seq::filter);
    if order.len() > 0 {
        let fewer = order.drop_last();
        let before = requested_redraws(fewer);
        let last = order.last();
        lemma_requested(fewer);
        if wants_redraw()(last) {
            assert(requested_redraws(order) =~= before.push(last.0));
        } else {
            assert(requested_redraws(order) =~= before);
        }
        assert forall|surface: ObjectId| #[trigger]
            requested_redraws(order).contains(surface) <==> is_requested(order, surface) by {
            if is_requested(order, surface) {
                let i = choose|i: int|
                    0 <= i < order.len() && (#[trigger] order[i]).0 == surface
                        && order[i].1.wants_redraw();
                if i < fewer.len() {
                    assert(fewer[i].0 == surface);
                    assert(is_requested(fewer, surface));
                    assert(before.contains(surface));
                    let k = choose|k: int| 0 <= k < before.len() && before[k] == surface;
                    assert(requested_redraws(order)[k] == surface);
                } else {
                    assert(requested_redraws(order)[before.len() as int] == surface);
                }
            }
            if requested_redraws(order).contains(surface) {
                let k = choose|k: int|
                    0 <= k < requested_redraws(order).len() && requested_redraws(order)[k]
                        == surface;
                if k < before.len() {
                    assert(before[k] == surface);
                    assert(before.contains(surface));
                    let i = choose|i: int|
                        0 <= i < fewer.len() && (#[trigger] fewer[i]).0 == surface
                            && fewer[i].1.wants_redraw();
                    assert(order[i].0 == surface);
                } else {
                    assert(order[order.len() - 1].0 == surface);
                    assert(wants_redraw()(last));
                }
            }
        }
        if entries_differ(order) {
            assert forall|i: int, j: int|
                0 <= i < fewer.len() && 0 <= j < fewer.len() && i < j implies (
            #[trigger] fewer[i]).0 != (#[trigger] fewer[j]).0 by {
                assert(order[i].0 != order[j].0);
            }
            if before.contains(last.0) {
                let i = choose|i: int|
                    0 <= i < fewer.len() && (#[trigger] fewer[i]).0 == last.0
                        && fewer[i].1.wants_redraw();
                assert(order[i].0 != order[order.len() - 1].0);
            }
        }
    }
}

/// Every request for a redraw, and every request to refresh a frame, leads to a redraw in the
/// same turn. So does every drawing that the compositor wants, unless there is an entry for
/// its surface in which nothing was asked for; and nothing else does.
pub proof fn law_which_surfaces_are_redrawn(
    must_redraw: Seq<ObjectId>,
    order: Seq<(ObjectId, SurfaceUserRequest)>,
    surface: ObjectId,
)
    requires
        entries_differ(order),
    ensures
        is_requested(order, surface) ==> redrawn(must_redraw, order).contains(surface),
        must_redraw.contains(surface) && !has_entry(order, surface) ==> redrawn(
            must_redraw,
            order,
        ).contains(surface),
        redrawn(must_redraw, order).contains(surface) ==> is_requested(order, surface)
            || must_redraw.contains(surface),
{
    let requested = requested_redraws(order);
    let left = left_to_draw(must_redraw, order);
    lemma_requested(order);
    law_request_replaces_one_drawing(must_redraw, order, surface);
    must_redraw.to_multiset_ensures();
    left.to_multiset_ensures();
    if requested.contains(surface) {
        let i = choose|i: int| 0 <= i < requested.len() && requested[i] == surface;
        assert(redrawn(must_redraw, order)[i] == surface);
    }
    if left.contains(surface) {
        let i = choose|i: int| 0 <= i < left.len() && left[i] == surface;
        assert(redrawn(must_redraw, order)[requested.len() + i] == surface);
    }
    if redrawn(must_redraw, order).contains(surface) {
        let i = choose|i: int|
            0 <= i < redrawn(must_redraw, order).len() && redrawn(must_redraw, order)[i] == surface;
        if i < requested.len() {
            assert(requested[i] == surface);
        } else {
            assert(left[i - requested.len()] == surface);
        }
    }
}

/// Where the compositor wants each surface drawn at most once, no surface is redrawn twice in a
/// turn, even if a redraw was requested for it as well.
pub proof fn law_no_surface_is_redrawn_twice(
    must_redraw: Seq<ObjectId>,
    order: Seq<(ObjectId, SurfaceUserRequest)>,
)
    requires
        entries_differ(order),
        must_redraw.no_duplicates(),
    ensures
        redrawn(must_redraw, order).no_duplicates(),
{
    let requested = requested_redraws(order);
    let left = left_to_draw(must_redraw, order);
    let all = redrawn(must_redraw, order);
    lemma_requested(order);
    if order.len() == 0 {
        reveal(Seq::filter);
        assert(requested =~= seq![]);
        assert(all =~= must_redraw);
    } else {
        law_request_replaces_one_drawing(must_redraw, order, order[0].0);
    }
    assert forall|i: int, j: int| 0 <= i < all.len() && 0 <= j < all.len() && i != j implies all[i]
        != all[j] by {
        if i < requested.len() && j >= requested.len() {
            lemma_parts_differ(must_redraw, order, i, j - requested.len());
        } else if j < requested.len() && i >= requested.len() {
            lemma_parts_differ(must_redraw, order, j, i - requested.len());
        }
    }
}

/// A surface that a redraw was requested for is not left to be drawn.
proof fn lemma_parts_differ(
    must_redraw: Seq<ObjectId>,
    order: Seq<(ObjectId, SurfaceUserRequest)>,
    i: int,
    j: int,
)
    requires
        entries_differ(order),
        must_redraw.no_duplicates(),
        0 <= i < requested_redraws(order).len(),
        0 <= j < left_to_draw(must_redraw, order).len(),
    ensures
        requested_redraws(order)[i] != left_to_draw(must_redraw, order)[j],
{
    let surface = requested_redraws(order)[i];
    let left = left_to_draw(must_redraw, order);
    lemma_requested(order);
    assert(requested_redraws(order).contains(surface));
    law_request_replaces_one_drawing(must_redraw, order, surface);
    must_redraw.lemma_multiset_has_no_duplicates();
    must_redraw.to_multiset_ensures();
    left.to_multiset_ensures();
    if left[j] == surface {
        assert(left.contains(surface));
    }
}

/// Requests that were taken up are gone: unless something new is asked for, they lead to no
/// redraw in the next turn.
pub proof fn law_requests_are_served_once(
    requests: Map<u64, SurfaceUserRequest>,
    order: Seq<(ObjectId, SurfaceUserRequest)>,
)
    requires
        lists(order, settled(requests)),
    ensures
        requested_redraws(order).len() == 0,
{
    lemma_requested(order);
    if requested_redraws(order).len() > 0 {
        let surface = requested_redraws(order)[0];
        assert(requested_redraws(order).contains(surface));
    }
}

/// The order in which requests are walked has one entry for each surface.
pub proof fn law_walked_entries_differ(
    requests: Map<u64, SurfaceUserRequest>,
    order: Seq<(ObjectId, SurfaceUserRequest)>,
)
    requires
        lists(order, requests),
    ensures
        entries_differ(order),
        forall|surface: ObjectId|
            #[trigger] has_entry(order, surface) <==> requests.contains_key(surface.0),
        forall|surface: ObjectId|
            #[trigger] is_requested(order, surface) <==> requests.contains_key(surface.0)
                && requests[surface.0].wants_redraw(),
{
    assert forall|surface: ObjectId| requests.contains_key(surface.0) implies #[trigger] has_entry(
        order,
        surface,
    ) by {
        let i = choose|i: int|
            0 <= i < order.len() && #[trigger] order[i].0 == ObjectId(surface.0);
        assert(order[i].0 == surface);
    }
    assert forall|surface: ObjectId|
        requests.contains_key(surface.0)
            && requests[surface.0].wants_redraw() implies #[trigger] is_requested(
        order,
        surface,
    ) by {
        let i = choose|i: int|
            0 <= i < order.len() && #[trigger] order[i].0 == ObjectId(surface.0);
        assert(order[i].0 == surface);
    }
}

} // verus!
