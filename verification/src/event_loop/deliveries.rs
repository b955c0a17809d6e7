//! What the application is told about in a turn, and in which order.

use vstd::prelude::*;

use crate::application::Event;
use crate::event_loop::command::{Command, Reply};
use crate::event_loop::laws::{history_step, lemma_step, History};
use crate::event_loop::model::{act, surface_event, LoopModel, Phase};
use crate::event_loop::queues::{
    acted_on, draws_nothing, drawn_surfaces, handed_back, in_turn, left_to_draw, lists, redrawn,
    requested_redraws, surfaces_of, wants_redraw,
};
use crate::event_loop::state::{lemma_first_exists, with_surface, StateModel};
use crate::sctk_event::{IcedSctkEvent, LayerSurfaceEventVariant, SctkEvent, SurfaceUserRequest};
use crate::window::ObjectId;

verus! {

/// The events that commands tell the application about.
pub open spec fn delivered<T, E>(commands: Seq<Command<T, E>>) -> Seq<IcedSctkEvent<T, E>>
    decreases commands.len(),
{
    if commands.len() == 0 {
        seq![]
    } else {
        delivery(commands.first()) + delivered(commands.drop_first())
    }
}

/// The event that a command tells the application about, if it is one that does.
pub open spec fn delivery<T, E>(command: Command<T, E>) -> Seq<IcedSctkEvent<T, E>> {
    match command {
        Command::Callback(event) => seq![event],
        _ => seq![],
    }
}

/// The surfaces that were created, as the answers give them.
pub open spec fn created_surfaces(replies: Seq<Reply>) -> Seq<ObjectId>
    decreases replies.len(),
{
    if replies.len() == 0 {
        seq![]
    } else {
        match replies.first() {
            Reply::Surface(surface) => seq![surface] + created_surfaces(replies.drop_first()),
            _ => created_surfaces(replies.drop_first()),
        }
    }
}

/// What the application is told while its own events are worked through: the events that go
/// back to it, and what comes of the surfaces that are created and destroyed. `surfaces` are
/// those that get created.
pub open spec fn user_deliveries<T, E>(
    state: StateModel<T, E>,
    events: Seq<Event<T, E>>,
    surfaces: Seq<ObjectId>,
) -> Seq<IcedSctkEvent<T, E>>
    decreases events.len(),
{
    if events.len() == 0 {
        seq![]
    } else {
        let rest = events.drop_first();
        match act(state, events.first()) {
            Some((state, Phase::LayerSurface { id, settings }, _)) => {
                let surface = surfaces.first();
                seq![surface_event(LayerSurfaceEventVariant::Created(surface, id), surface)]
                    + user_deliveries(
                    state.with_layer_surface(id, settings, surface),
                    rest,
                    surfaces.drop_first(),
                )
            },
            Some((state, _, command)) => delivery(command) + user_deliveries(state, rest, surfaces),
            None => user_deliveries(state, rest, surfaces),
        }
    }
}

/// The events that tell the application to redraw surfaces.
pub open spec fn redraw_events<T, E>(surfaces: Seq<ObjectId>) -> Seq<IcedSctkEvent<T, E>> {
    surfaces.map_values(|surface: ObjectId| IcedSctkEvent::RedrawRequested(surface))
}

/// The events that pass on what came from the compositor.
pub open spec fn sink_events<T, E>(events: Seq<SctkEvent<E>>) -> Seq<IcedSctkEvent<T, E>> {
    events.map_values(|event: SctkEvent<E>| IcedSctkEvent::SctkEvent(event))
}

/// What the application is told once the events of a turn have been handed out.
pub open spec fn redraw_deliveries<T, E>(
    must_redraw: Seq<ObjectId>,
    order: Seq<(ObjectId, SurfaceUserRequest)>,
) -> Seq<IcedSctkEvent<T, E>> {
    redraw_events(redrawn(must_redraw, order)) + seq![IcedSctkEvent::RedrawEventsCleared]
}

/// What the application is told in a turn after it was told why the loop woke up.
pub open spec fn turn_deliveries<T, E>(
    state: StateModel<T, E>,
    surfaces: Seq<ObjectId>,
    order: Seq<(ObjectId, SurfaceUserRequest)>,
) -> Seq<IcedSctkEvent<T, E>> {
    sink_events(state.sctk_events.filter(draws_nothing())) + user_deliveries(
        StateModel { sctk_events: seq![], pending_user_events: seq![], ..state },
        in_turn(state.pending_user_events),
        surfaces,
    ) + seq![IcedSctkEvent::MainEventsCleared] + redraw_deliveries(
        drawn_surfaces(state.sctk_events),
        order,
    )
}

impl<T, E> LoopModel<T, E> {
    /// What the application has yet to be told in this turn.
    pub open spec fn agenda(
        self,
        surfaces: Seq<ObjectId>,
        order: Seq<(ObjectId, SurfaceUserRequest)>,
    ) -> Seq<IcedSctkEvent<T, E>> {
        match self.phase {
            Phase::NewEvents => turn_deliveries(self.state, surfaces, order),
            Phase::SinkEvent => sink_events(self.sink) + user_deliveries(
                StateModel { pending_user_events: seq![], ..self.state },
                in_turn(self.state.pending_user_events),
                surfaces,
            ) + seq![IcedSctkEvent::MainEventsCleared] + redraw_deliveries(
                self.must_redraw,
                order,
            ),
            Phase::UserEvent | Phase::SurfaceRequest | Phase::SurfaceDone { .. } => user_deliveries(
                self.state,
                self.user_events,
                surfaces,
            ) + seq![IcedSctkEvent::MainEventsCleared] + redraw_deliveries(
                self.must_redraw,
                order,
            ),
            Phase::LayerSurface { id, settings } => {
                let surface = surfaces.first();
                seq![surface_event(LayerSurfaceEventVariant::Created(surface, id), surface)]
                    + user_deliveries(
                    self.state.with_layer_surface(id, settings, surface),
                    self.user_events,
                    surfaces.drop_first(),
                ) + seq![IcedSctkEvent::MainEventsCleared] + redraw_deliveries(
                    self.must_redraw,
                    order,
                )
            },
            Phase::MainEventsCleared => redraw_deliveries(self.must_redraw, order),
            Phase::Refresh { surface } => seq![IcedSctkEvent::RedrawRequested(surface)]
                + redraw_events(surfaces_of(self.redraws)) + redraw_events(self.must_redraw)
                + seq![IcedSctkEvent::RedrawEventsCleared],
            Phase::Redraw | Phase::MustRedraw { .. } | Phase::Commit => redraw_events(
                surfaces_of(self.redraws),
            ) + redraw_events(self.must_redraw) + seq![IcedSctkEvent::RedrawEventsCleared],
            _ => seq![],
        }
    }
}

/// Working through the application's events tells it what the agenda says.
proof fn lemma_user_agenda<T, E>(
    model: LoopModel<T, E>,
    surfaces: Seq<ObjectId>,
    order: Seq<(ObjectId, SurfaceUserRequest)>,
)
    ensures
        user_deliveries(model.state, model.user_events, surfaces)
            + seq![IcedSctkEvent::MainEventsCleared] + redraw_deliveries(model.must_redraw, order)
            == delivery(model.next_user_event().1) + model.next_user_event().0.agenda(
            surfaces,
            order,
        ),
    decreases model.user_events.len(),
{
    let (after, command) = model.next_user_event();
    let told = user_deliveries(model.state, model.user_events, surfaces);
    let tail = seq![IcedSctkEvent::MainEventsCleared] + redraw_deliveries(model.must_redraw, order);
    assert(told + tail =~= told + seq![IcedSctkEvent::MainEventsCleared] + redraw_deliveries(
        model.must_redraw,
        order,
    ));
    if model.user_events.len() > 0 {
        let rest = model.user_events.drop_first();
        match act(model.state, model.user_events.first()) {
            Some((state, phase, next)) => {
                assert(told + tail =~= delivery(command) + after.agenda(surfaces, order));
            },
            None => {
                lemma_user_agenda(LoopModel { user_events: rest, ..model }, surfaces, order);
            },
        }
    } else {
        assert(told + tail =~= delivery(command) + after.agenda(surfaces, order));
    }
}

/// Redrawing tells the application what the agenda says.
proof fn lemma_redraw_agenda<T, E>(
    model: LoopModel<T, E>,
    surfaces: Seq<ObjectId>,
    order: Seq<(ObjectId, SurfaceUserRequest)>,
)
    ensures
        redraw_events::<T, E>(surfaces_of(model.redraws)) + redraw_events(model.must_redraw)
            + seq![IcedSctkEvent::RedrawEventsCleared] == delivery(model.next_redraw().1)
            + model.next_redraw().0.agenda(surfaces, order),
{
    let (after, command) = model.next_redraw();
    let told = redraw_events::<T, E>(surfaces_of(model.redraws)) + redraw_events(model.must_redraw)
        + seq![IcedSctkEvent::RedrawEventsCleared];
    assert(told =~= delivery(command) + after.agenda(surfaces, order));
}

/// Passing on what came from the compositor tells the application what the agenda says.
proof fn lemma_sink_agenda<T, E>(
    model: LoopModel<T, E>,
    surfaces: Seq<ObjectId>,
    order: Seq<(ObjectId, SurfaceUserRequest)>,
)
    ensures
        sink_events(model.sink) + user_deliveries(
            StateModel { pending_user_events: seq![], ..model.state },
            in_turn(model.state.pending_user_events),
            surfaces,
        ) + seq![IcedSctkEvent::MainEventsCleared] + redraw_deliveries(model.must_redraw, order)
            == delivery(model.next_sink_event().1) + model.next_sink_event().0.agenda(
            surfaces,
            order,
        ),
{
    let (after, command) = model.next_sink_event();
    let state = StateModel { pending_user_events: seq![], ..model.state };
    let queue = in_turn(model.state.pending_user_events);
    let told = user_deliveries(state, queue, surfaces) + seq![IcedSctkEvent::MainEventsCleared]
        + redraw_deliveries(model.must_redraw, order);
    assert(sink_events(model.sink) + user_deliveries(state, queue, surfaces)
        + seq![IcedSctkEvent::MainEventsCleared] + redraw_deliveries(model.must_redraw, order)
        =~= sink_events(model.sink) + told);
    if model.sink.len() > 0 {
        assert(sink_events(model.sink) + told =~= delivery(command) + after.agenda(
            surfaces,
            order,
        ));
    } else {
        lemma_user_agenda(LoopModel { state, user_events: queue, ..model }, surfaces, order);
        assert(sink_events(model.sink) + told =~= told);
    }
}

/// Each step tells the application what comes first on the agenda and leaves the rest on it.
proof fn lemma_agenda_step<T, E>(
    model: LoopModel<T, E>,
    reply: Reply,
    surfaces: Seq<ObjectId>,
    order: Seq<(ObjectId, SurfaceUserRequest)>,
)
    requires
        model.is_consistent(),
        model.awaits(reply),
        model.phase.is_awake(),
    ensures
        ({
            let before = match reply {
                Reply::Surface(surface) => seq![surface] + surfaces,
                _ => surfaces,
            };
            let (after, command) = model.next(reply, order);
            model.agenda(before, order) == delivery(command) + after.agenda(surfaces, order)
        }),
{
    let (after, command) = model.next(reply, order);
    let answered = LoopModel { control_flow: model.flow_after(reply), ..model };
    match model.phase {
        Phase::NewEvents => {
            lemma_sink_agenda(
                LoopModel {
                    state: StateModel { sctk_events: seq![], ..model.state },
                    sink: model.state.sctk_events.filter(draws_nothing()),
                    must_redraw: drawn_surfaces(model.state.sctk_events),
                    ..answered
                },
                surfaces,
                order,
            );
        },
        Phase::SinkEvent => {
            lemma_sink_agenda(answered, surfaces, order);
        },
        Phase::UserEvent | Phase::SurfaceRequest => {
            lemma_user_agenda(answered, surfaces, order);
        },
        Phase::SurfaceDone { .. } => {
            assert(model.agenda(surfaces, order) =~= delivery(command) + after.agenda(
                surfaces,
                order,
            ));
        },
        Phase::LayerSurface { .. } => {
            let surface = reply->Surface_0;
            let before = seq![surface] + surfaces;
            assert(before.drop_first() =~= surfaces);
            assert(model.agenda(before, order) =~= delivery(command) + after.agenda(
                surfaces,
                order,
            ));
        },
        Phase::MainEventsCleared => {
            assert(redraw_events::<T, E>(redrawn(model.must_redraw, order)) =~= redraw_events(
                requested_redraws(order),
            ) + redraw_events(left_to_draw(model.must_redraw, order)));
            lemma_redraw_agenda(
                LoopModel {
                    state: after.state,
                    redraws: order.filter(wants_redraw()),
                    must_redraw: left_to_draw(model.must_redraw, order),
                    ..answered
                },
                surfaces,
                order,
            );
        },
        Phase::Redraw | Phase::Commit => {
            lemma_redraw_agenda(answered, surfaces, order);
        },
        Phase::MustRedraw { .. } => {
            if command is Commit {
                assert(model.agenda(surfaces, order) =~= delivery(command) + after.agenda(
                    surfaces,
                    order,
                ));
            } else {
                lemma_redraw_agenda(answered, surfaces, order);
            }
        },
        _ => {
            assert(model.agenda(surfaces, order) =~= delivery(command) + after.agenda(
                surfaces,
                order,
            ));
        },
    }
}

/// From any point of a turn to its end the application is told what is on the agenda there.
proof fn lemma_rest_of_turn<T, E>(history: History<T, E>, i: int) -> (order: Seq<
    (ObjectId, SurfaceUserRequest),
>)
    requires
        history.is_valid(),
        0 <= i < history.replies.len(),
        history.models[i].phase.is_awake(),
        history.commands.last() is Flush,
        forall|k: int|
            0 <= k < history.commands.len() - 1 ==> !((#[trigger] history.commands[k]) is Flush),
    ensures
        history.models[i].phase.stage() >= 2 ==> lists(
            order,
            history.models[i].state.window_user_requests,
        ),
        delivered(history.commands.skip(i)) == history.models[i].agenda(
            created_surfaces(history.replies.skip(i)),
            order,
        ),
    decreases history.replies.len() - i,
{
    let (after, walked) = history_step(history, i);
    let model = history.models[i];
    let reply = history.replies[i];
    let command = history.commands[i];
    lemma_step(model, reply, walked);
    assert(history.commands.skip(i).drop_first() =~= history.commands.skip(i + 1));
    assert(history.replies.skip(i).drop_first() =~= history.replies.skip(i + 1));
    let surfaces = created_surfaces(history.replies.skip(i + 1));
    if i + 1 < history.replies.len() {
        let later = lemma_rest_of_turn(history, i + 1);
        let order = if model.phase is MainEventsCleared {
            walked
        } else {
            later
        };
        lemma_agenda_step(model, reply, surfaces, order);
        assert(model.phase is MainEventsCleared || model.next(reply, order) == (after, command));
        assert(model.phase is MainEventsCleared ==> after.agenda(surfaces, order) == after.agenda(
            surfaces,
            later,
        ));
        order
    } else {
        lemma_agenda_step(model, reply, surfaces, walked);
        assert(after.agenda(surfaces, walked) =~= seq![]);
        assert(delivered(history.commands.skip(i + 1)) =~= seq![]);
        walked
    }
}

/// In each turn the application is told, in this order and about nothing else: the events from
/// the compositor as they came, without those that ask for a drawing; its own events that go
/// back to it, as it sent them; what became of the layer surfaces that it asked to create or
/// destroy; that the events have been handed out; to redraw the surfaces whose requests call
/// for it; to redraw the surfaces that the compositor wants drawn, as far as no request took
/// their place; and that the redraws have been asked for.
pub proof fn law_what_a_turn_delivers<T, E>(history: History<T, E>)
    requires
        history.is_valid(),
        history.replies.len() > 0,
        history.models.first().phase is NewEvents,
        history.commands.last() is Flush,
        forall|k: int|
            0 <= k < history.commands.len() - 1 ==> !((#[trigger] history.commands[k]) is Flush),
    ensures
        exists|order: Seq<(ObjectId, SurfaceUserRequest)>|
            {
                &&& lists(order, history.models.first().state.window_user_requests)
                &&& delivered(history.commands) == #[trigger] turn_deliveries(
                    history.models.first().state,
                    created_surfaces(history.replies),
                    order,
                )
            },
{
    let order = lemma_rest_of_turn(history, 0);
    assert(history.commands.skip(0) =~= history.commands);
    assert(history.replies.skip(0) =~= history.replies);
}

/// The events that go back to the application.
pub open spec fn handed_events<T, E>(events: Seq<Event<T, E>>) -> Seq<IcedSctkEvent<T, E>> {
    events.map_values(|event: Event<T, E>| event->SctkEvent_0)
}

/// Events that go back to the application are told first.
proof fn lemma_handed_first<T, E>(
    state: StateModel<T, E>,
    first: Seq<Event<T, E>>,
    second: Seq<Event<T, E>>,
    surfaces: Seq<ObjectId>,
)
    requires
        forall|i: int| 0 <= i < first.len() ==> (#[trigger] first[i]) is SctkEvent,
    ensures
        user_deliveries(state, first + second, surfaces) == handed_events(first) + user_deliveries(
            state,
            second,
            surfaces,
        ),
    decreases first.len(),
{
    if first.len() == 0 {
        assert(first + second =~= second);
        assert(handed_events(first) + user_deliveries(state, second, surfaces) =~= user_deliveries(
            state,
            second,
            surfaces,
        ));
    } else {
        let rest = first.drop_first();
        assert((first + second).drop_first() =~= rest + second);
        lemma_handed_first(state, rest, second, surfaces);
        assert(first[0] is SctkEvent);
        assert(user_deliveries(state, first + second, surfaces) =~= handed_events(first)
            + user_deliveries(state, second, surfaces));
    }
}

/// Events that the loop acts on lead to nothing but events about layer surfaces.
proof fn lemma_acted_events<T, E>(
    state: StateModel<T, E>,
    events: Seq<Event<T, E>>,
    surfaces: Seq<ObjectId>,
    i: int,
)
    requires
        forall|k: int| 0 <= k < events.len() ==> !((#[trigger] events[k]) is SctkEvent),
        0 <= i < user_deliveries(state, events, surfaces).len(),
    ensures
        user_deliveries(state, events, surfaces)[i] matches IcedSctkEvent::SctkEvent(
            SctkEvent::LayerSurfaceEvent { .. },
        ),
    decreases events.len(),
{
    if events.len() > 0 {
        let rest = events.drop_first();
        assert(!(events[0] is SctkEvent));
        match act(state, events.first()) {
            Some((state, Phase::LayerSurface { id, settings }, _)) => {
                if i > 0 {
                    lemma_acted_events(
                        state.with_layer_surface(id, settings, surfaces.first()),
                        rest,
                        surfaces.drop_first(),
                        i - 1,
                    );
                }
            },
            Some((state, _, command)) => {
                if i >= delivery(command).len() {
                    lemma_acted_events(state, rest, surfaces, i - delivery(command).len());
                }
            },
            None => {
                lemma_acted_events(state, rest, surfaces, i);
            },
        }
    }
}

/// Of the application's own events those that go back to it come first, all of them, as it
/// sent them; the others lead to nothing but events about layer surfaces.
pub proof fn law_own_events_come_back_first<T, E>(
    state: StateModel<T, E>,
    events: Seq<Event<T, E>>,
    surfaces: Seq<ObjectId>,
)
    ensures
        user_deliveries(state, in_turn(events), surfaces) == handed_events(
            events.filter(handed_back()),
        ) + user_deliveries(state, events.filter(acted_on()), surfaces),
        forall|i: int|
            #![trigger user_deliveries(state, events.filter(acted_on()), surfaces)[i]]
            0 <= i < user_deliveries(state, events.filter(acted_on()), surfaces).len() ==> (
            user_deliveries(
                state,
                events.filter(acted_on()),
                surfaces,
            )[i] matches IcedSctkEvent::SctkEvent(SctkEvent::LayerSurfaceEvent { .. })),
{
    broadcast use vstd::seq_lib::group_filter_ensures;

    let first = events.filter(handed_back());
    let second = events.filter(acted_on());
    assert forall|i: int| 0 <= i < first.len() implies (#[trigger] first[i]) is SctkEvent by {
        assert(handed_back()(first[i]));
    }
    assert forall|i: int| 0 <= i < second.len() implies !((#[trigger] second[i]) is SctkEvent) by {
        assert(acted_on()(second[i]));
    }
    lemma_handed_first(state, first, second, surfaces);
    assert forall|i: int|
        #![trigger user_deliveries(state, second, surfaces)[i]]
        0 <= i < user_deliveries(state, second, surfaces).len() implies (user_deliveries(
        state,
        second,
        surfaces,
    )[i] matches IcedSctkEvent::SctkEvent(SctkEvent::LayerSurfaceEvent { .. })) by {
        lemma_acted_events(state, second, surfaces, i);
    }
}

/// What the application draws on a layer surface that the compositor wants drawn is committed
/// as soon as the application has been told to redraw it, before anything else happens.
pub proof fn law_drawing_is_committed<T, E>(history: History<T, E>, i: int, surface: ObjectId)
    requires
        history.is_valid(),
        0 <= i < history.replies.len() - 1,
        history.models[i + 1].phase == (Phase::MustRedraw { surface }),
    ensures
        history.commands[i] == Command::<T, E>::Callback(IcedSctkEvent::RedrawRequested(surface)),
        (exists|k: int|
            0 <= k < history.models[i + 1].state.layer_surfaces.len() && (
            #[trigger] history.models[i + 1].state.layer_surfaces[k]).surface == surface)
            <==> history.commands[i + 1] == Command::<T, E>::Commit(surface),
{
    let (_, order) = history_step(history, i);
    lemma_step(history.models[i], history.replies[i], order);
    history_step(history, i + 1);
    let surfaces = history.models[i + 1].state.layer_surfaces;
    if exists|k: int| 0 <= k < surfaces.len() && (#[trigger] surfaces[k]).surface == surface {
        let k = choose|k: int|
            0 <= k < surfaces.len() && (#[trigger] surfaces[k]).surface == surface;
        lemma_first_exists(surfaces, with_surface(surface), k);
    }
}

/// Where a frame is refreshed the application is told to redraw that window next: refreshing
/// forces a redraw.
pub proof fn law_refresh_forces_a_redraw<T, E>(history: History<T, E>, i: int, surface: ObjectId)
    requires
        history.is_valid(),
        0 <= i < history.replies.len() - 1,
        history.commands[i] == Command::<T, E>::RefreshFrame(surface),
    ensures
        history.commands[i + 1] == Command::<T, E>::Callback(
            IcedSctkEvent::RedrawRequested(surface),
        ),
{
    let (_, order) = history_step(history, i);
    lemma_step(history.models[i], history.replies[i], order);
    history_step(history, i + 1);
}

} // verus!
