//! The queues that a turn of the loop works through.

use std::collections::{HashMap, VecDeque};

use vstd::prelude::*;
use vstd::std_specs::iter::IteratorSpec;

use crate::application::Event;
use crate::sctk_event::{SctkEvent, SurfaceUserRequest};
use crate::window::ObjectId;

verus! {

broadcast use vstd::std_specs::hash::group_hash_axioms;

/// Accepts the events that ask for a surface to be drawn.
pub open spec fn draws<E>() -> spec_fn(SctkEvent<E>) -> bool {
    |event: SctkEvent<E>| event is Draw
}

/// Accepts the other events.
pub open spec fn draws_nothing<E>() -> spec_fn(SctkEvent<E>) -> bool {
    |event: SctkEvent<E>| !(event is Draw)
}

/// The surfaces that have to be drawn, in the order in which the events came.
pub open spec fn drawn_surfaces<E>(events: Seq<SctkEvent<E>>) -> Seq<ObjectId> {
    events.filter(draws()).map_values(|event: SctkEvent<E>| event->Draw_0)
}

/// Accepts the events that go back to the application as they are.
pub open spec fn handed_back<T, E>() -> spec_fn(Event<T, E>) -> bool {
    |event: Event<T, E>| event is SctkEvent
}

/// Accepts the events that the loop acts on itself.
pub open spec fn acted_on<T, E>() -> spec_fn(Event<T, E>) -> bool {
    |event: Event<T, E>| !(event is SctkEvent)
}

/// The order in which the application's events are worked through: first those that go back
/// to the application, then those that the loop acts on, each group as it was sent.
pub open spec fn in_turn<T, E>(events: Seq<Event<T, E>>) -> Seq<Event<T, E>> {
    events.filter(handed_back()) + events.filter(acted_on())
}

/// Whether `order` holds every entry of `requests` once.
pub open spec fn lists(
    order: Seq<(ObjectId, SurfaceUserRequest)>,
    requests: Map<u64, SurfaceUserRequest>,
) -> bool {
    &&& forall|i: int|
        #![trigger order[i]]
        0 <= i < order.len() ==> requests.contains_key(order[i].0.0) && requests[order[i].0.0]
            == order[i].1
    &&& forall|i: int, j: int|
        #![trigger order[i], order[j]]
        0 <= i < j < order.len() ==> order[i].0 != order[j].0
    &&& forall|key: u64|
        #![trigger requests.contains_key(key)]
        requests.contains_key(key) ==> exists|i: int|
            0 <= i < order.len() && #[trigger] order[i].0 == ObjectId(key)
}

/// The same surfaces, with nothing asked for any of them.
pub open spec fn settled(requests: Map<u64, SurfaceUserRequest>) -> Map<u64, SurfaceUserRequest> {
    requests.map_values(|request: SurfaceUserRequest| SurfaceUserRequest::nothing())
}

/// Accepts the entries that lead to a redraw.
pub open spec fn wants_redraw() -> spec_fn((ObjectId, SurfaceUserRequest)) -> bool {
    |entry: (ObjectId, SurfaceUserRequest)| entry.1.wants_redraw()
}

/// The surfaces that entries are about.
pub open spec fn surfaces_of(entries: Seq<(ObjectId, SurfaceUserRequest)>) -> Seq<ObjectId> {
    entries.map_values(|entry: (ObjectId, SurfaceUserRequest)| entry.0)
}

/// The surfaces whose requests lead to a redraw.
pub open spec fn requested_redraws(order: Seq<(ObjectId, SurfaceUserRequest)>) -> Seq<ObjectId> {
    surfaces_of(order.filter(wants_redraw()))
}

/// The surfaces that still have to be drawn once the requests have been dealt with: each
/// request takes the place of the first drawing of its surface.
pub open spec fn left_to_draw(
    must_redraw: Seq<ObjectId>,
    order: Seq<(ObjectId, SurfaceUserRequest)>,
) -> Seq<ObjectId>
    decreases order.len(),
{
    if order.len() == 0 {
        must_redraw
    } else {
        left_to_draw(must_redraw, order.drop_last()).remove_value(order.last().0)
    }
}

/// The surfaces that the application is told to redraw in a turn.
pub open spec fn redrawn(
    must_redraw: Seq<ObjectId>,
    order: Seq<(ObjectId, SurfaceUserRequest)>,
) -> Seq<ObjectId> {
    requested_redraws(order) + left_to_draw(must_redraw, order)
}

/// Filtering one more item.
pub proof fn lemma_filter_one_more<A>(items: Seq<A>, keep: spec_fn(A) -> bool, n: int)
    requires
        0 <= n < items.len(),
    ensures
        items.take(n + 1).filter(keep) == if keep(items[n]) {
            items.take(n).filter(keep).push(items[n])
        } else {
            items.take(n).filter(keep)
        },
{
    reveal(Seq::filter);
    assert(items.take(n + 1).drop_last() =~= items.take(n));
    assert(items.take(n + 1).last() == items[n]);
}

/// Sets the events that ask for a drawing apart from the others.
pub fn split_draws<E>(events: Vec<SctkEvent<E>>) -> (parts: (
    VecDeque<SctkEvent<E>>,
    VecDeque<ObjectId>,
))
    ensures
        parts.0@ == events@.filter(draws_nothing()),
        parts.1@ == drawn_surfaces(events@),
{
    let ghost all = events@;
    let mut others: VecDeque<SctkEvent<E>> = VecDeque::new();
    let mut drawn: VecDeque<ObjectId> = VecDeque::new();
    proof {
        reveal(Seq::filter);
        assert(drawn_surfaces(all.take(0)) =~= seq![]);
        assert(all.take(0).filter(draws_nothing()) =~= seq![]);
    }
    for event in it: events
        invariant
            it.seq() == all,
            others@ == all.take(it.index() as int).filter(draws_nothing()),
            drawn@ == drawn_surfaces(all.take(it.index() as int)),
    {
        proof {
            lemma_filter_one_more(all, draws_nothing(), it.index() as int);
            lemma_filter_one_more(all, draws(), it.index() as int);
        }
        match event {
            SctkEvent::Draw(id) => {
                drawn.push_back(id);
            },
            event => {
                others.push_back(event);
            },
        }
        assert(drawn@ =~= drawn_surfaces(all.take(it.index() + 1)));
    }
    assert(all.take(all.len() as int) =~= all);
    (others, drawn)
}

/// Puts the application's events into the order in which they are worked through.
pub fn order_events<T, E>(events: Vec<Event<T, E>>) -> (queue: VecDeque<Event<T, E>>)
    ensures
        queue@ == in_turn(events@),
{
    let ghost all = events@;
    let mut first: VecDeque<Event<T, E>> = VecDeque::new();
    let mut second: VecDeque<Event<T, E>> = VecDeque::new();
    proof {
        reveal(Seq::filter);
        assert(all.take(0).filter(handed_back()) =~= seq![]);
        assert(all.take(0).filter(acted_on()) =~= seq![]);
    }
    for event in it: events
        invariant
            it.seq() == all,
            first@ == all.take(it.index() as int).filter(handed_back()),
            second@ == all.take(it.index() as int).filter(acted_on()),
    {
        proof {
            lemma_filter_one_more(all, handed_back(), it.index() as int);
            lemma_filter_one_more(all, acted_on(), it.index() as int);
        }
        match event {
            Event::SctkEvent(event) => {
                first.push_back(Event::SctkEvent(event));
            },
            event => {
                second.push_back(event);
            },
        }
    }
    assert(all.take(all.len() as int) =~= all);
    first.append(&mut second);
    first
}

/// Takes the requests out, in whatever order the map gives them, and leaves nothing asked for.
pub fn take_requests(requests: &mut HashMap<u64, SurfaceUserRequest>) -> (order: Vec<
    (ObjectId, SurfaceUserRequest),
>)
    ensures
        lists(order@, old(requests)@),
        final(requests)@ == settled(old(requests)@),
{
    let ghost all = requests@;
    let mut order: Vec<(ObjectId, SurfaceUserRequest)> = Vec::new();
    let iter = requests.iter();
    let ghost entries = iter.remaining();
    for entry in it: iter
        invariant
            it.seq() == entries,
            order@.len() == it.index(),
            forall|i: int|
                #![trigger order@[i]]
                0 <= i < order@.len() ==> order@[i] == (ObjectId(*entries[i].0), *entries[i].1),
    {
        order.push((ObjectId(*entry.0), *entry.1));
    }
    proof {
        assert forall|i: int, j: int|
            #![trigger order@[i], order@[j]]
            0 <= i < j < order@.len() implies order@[i].0 != order@[j].0 by {
            assert(all.contains_key(*entries[i].0) && all[*entries[i].0] == *entries[i].1);
            assert(all.contains_key(*entries[j].0) && all[*entries[j].0] == *entries[j].1);
            assert(entries[i] != entries[j]);
        }
        assert forall|key: u64| #[trigger] all.contains_key(key) implies exists|i: int|
            0 <= i < order@.len() && #[trigger] order@[i].0 == ObjectId(key) by {
            let i = choose|i: int| 0 <= i < entries.len() && entries[i] == (&key, &all[key]);
            assert(order@[i].0 == ObjectId(key));
        }
    }
    let mut i: usize = 0;
    while i < order.len()
        invariant
            i <= order@.len(),
            lists(order@, all),
            requests@.dom() == all.dom(),
            forall|j: int| 0 <= j < i ==> requests@[(#[trigger] order@[j]).0.0]
                == SurfaceUserRequest::nothing(),
        decreases order@.len() - i,
    {
        requests.insert(order[i].0.0, SurfaceUserRequest::default());
        assert(requests@.dom() =~= all.dom());
        i = i + 1;
    }
    assert(requests@ =~= settled(all));
    order
}

/// The entries that lead to a redraw.
pub fn collect_requested(order: &Vec<(ObjectId, SurfaceUserRequest)>) -> (redraws: VecDeque<
    (ObjectId, SurfaceUserRequest),
>)
    ensures
        redraws@ == order@.filter(wants_redraw()),
{
    let mut redraws: VecDeque<(ObjectId, SurfaceUserRequest)> = VecDeque::new();
    proof {
        reveal(Seq::filter);
        assert(order@.take(0).filter(wants_redraw()) =~= seq![]);
    }
    let mut i: usize = 0;
    while i < order.len()
        invariant
            i <= order@.len(),
            redraws@ == order@.take(i as int).filter(wants_redraw()),
        decreases order@.len() - i,
    {
        proof {
            lemma_filter_one_more(order@, wants_redraw(), i as int);
        }
        let (surface, request) = order[i];
        if request.redraw_requested || request.refresh_frame {
            redraws.push_back((surface, request));
        }
        i = i + 1;
    }
    assert(order@.take(order@.len() as int) =~= order@);
    redraws
}

/// Takes the first drawing of `surface` out of the queue.
fn forget_drawing(must_redraw: &mut VecDeque<ObjectId>, surface: ObjectId)
    ensures
        final(must_redraw)@ == old(must_redraw)@.remove_value(surface),
{
    let mut i: usize = 0;
    while i < must_redraw.len()
        invariant
            i <= must_redraw@.len(),
            must_redraw@ == old(must_redraw)@,
            forall|j: int| 0 <= j < i ==> must_redraw@[j] != surface,
        decreases must_redraw@.len() - i,
    {
        if must_redraw[i] == surface {
            proof {
                must_redraw@.index_of_first_ensures(surface);
                assert(must_redraw@.contains(must_redraw@[i as int]));
            }
            must_redraw.remove(i);
            return;
        }
        i = i + 1;
    }
    proof {
        must_redraw@.index_of_first_ensures(surface);
    }
}

/// Takes out of the queue the drawings that requests take the place of.
pub fn forget_requested(
    must_redraw: &mut VecDeque<ObjectId>,
    order: &Vec<(ObjectId, SurfaceUserRequest)>,
)
    ensures
        final(must_redraw)@ == left_to_draw(old(must_redraw)@, order@),
{
    let mut i: usize = 0;
    while i < order.len()
        invariant
            i <= order@.len(),
            must_redraw@ == left_to_draw(old(must_redraw)@, order@.take(i as int)),
        decreases order@.len() - i,
    {
        forget_drawing(must_redraw, order[i].0);
        assert(order@.take(i + 1).drop_last() =~= order@.take(i as int));
        i = i + 1;
    }
    assert(order@.take(order@.len() as int) =~= order@);
}

} // verus!
