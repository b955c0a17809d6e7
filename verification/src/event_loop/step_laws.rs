//! What each answer leads to, in terms of what was waiting and what was asked for.

use vstd::prelude::*;

use crate::application::Event;
use crate::event_loop::command::{Command, Reply};
use crate::event_loop::control_flow::ControlFlow;
use crate::event_loop::laws::lemma_step;
use crate::event_loop::model::{act, LoopModel, Phase};
use crate::event_loop::places::{lemma_filter_parts, lemma_filter_places, lemma_left_places};
use crate::event_loop::queues::{
    acted_on, draws, draws_nothing, drawn_surfaces, handed_back, in_turn, left_to_draw, lists,
    settled, wants_redraw,
};
use crate::event_loop::state::{
    lemma_first_exists, lemma_first_found, with_id, with_surface, ChannelEvent, SctkState,
    StateModel,
};
use crate::event_loop::surface_laws::law_surface_is_found;
use crate::layer_surface::{
    Action, Anchor, IcedLayerSurface, IcedMargin, KeyboardInteractivity, Layer, LayerSettings,
    SctkLayerSurface,
};
use crate::sctk_event::{
    IcedSctkEvent, LayerSurfaceEventVariant, SctkEvent, StartCause, SurfaceUserRequest,
};
use crate::window::{Id, ObjectId};

verus! {

/// The order in which the requests were walked in a step, if they were.
pub proof fn walked<T, E>(
    model: LoopModel<T, E>,
    reply: Reply,
    after: LoopModel<T, E>,
    command: Command<T, E>,
) -> (order: Seq<(ObjectId, SurfaceUserRequest)>)
    requires
        model.steps(reply, after, command),
    ensures
        model.phase is MainEventsCleared ==> lists(order, model.state.window_user_requests),
        model.next(reply, order) == (after, command),
{
    choose|order: Seq<(ObjectId, SurfaceUserRequest)>|
        (model.phase is MainEventsCleared ==> lists(order, model.state.window_user_requests))
            && #[trigger] model.next(reply, order) == (after, command)
}

/// The phase and the command that the application's events lead to belong together.
proof fn lemma_user_command<T, E>(model: LoopModel<T, E>)
    ensures
        ({
            let (after, command) = model.next_user_event();
            match after.phase {
                Phase::UserEvent | Phase::SurfaceDone { .. } | Phase::MainEventsCleared => {
                    command is Callback
                },
                Phase::LayerSurface { .. } => command is CreateLayerSurface,
                Phase::SurfaceRequest => {
                    ||| command is SetSize
                    ||| command is SetAnchor
                    ||| command is SetExclusiveZone
                    ||| command is SetMargin
                    ||| command is SetKeyboardInteractivity
                    ||| command is SetLayer
                },
                _ => false,
            }
        }),
    decreases model.user_events.len(),
{
    if model.user_events.len() > 0 && act(model.state, model.user_events.first()) is None {
        lemma_user_command(LoopModel { user_events: model.user_events.drop_first(), ..model });
    }
}

/// Each command can be answered, with every answer of its kind and with no other. Only the frame
/// of a window that does not exist cannot be answered for.
pub proof fn law_answers_fit_commands<T, E>(
    model: LoopModel<T, E>,
    reply: Reply,
    after: LoopModel<T, E>,
    command: Command<T, E>,
    answer: Reply,
)
    requires
        model.is_consistent(),
        model.awaits(reply),
        model.steps(reply, after, command),
    ensures
        after.awaits(answer) <==> match command {
            Command::Callback(_) => answer is Returned,
            Command::DispatchPending => answer is Pending,
            Command::Dispatch(_) => answer is Dispatched,
            Command::Now => answer is Time,
            Command::CreateLayerSurface(_) => answer is Surface,
            Command::RefreshFrame(surface) => answer is Done && exists|k: int|
                0 <= k < after.state.windows.len() && (#[trigger] after.state.windows[k]).surface
                    == surface,
            Command::Finish(_) => false,
            _ => answer is Done,
        },
        after.phase.is_callback() <==> command is Callback,
{
    walked(model, reply, after, command);
    let answered = LoopModel { control_flow: model.flow_after(reply), ..model };
    lemma_user_command(answered);
    let begun = LoopModel {
        state: StateModel { pending_user_events: seq![], ..model.state },
        user_events: in_turn(model.state.pending_user_events),
        ..answered
    };
    lemma_user_command(begun);
    lemma_user_command(
        LoopModel {
            state: StateModel { sctk_events: seq![], ..begun.state },
            sink: model.state.sctk_events.filter(draws_nothing()),
            must_redraw: drawn_surfaces(model.state.sctk_events),
            ..begun
        },
    );
}

/// A new loop holds nothing and polls. A run starts with nothing left of an earlier run but the
/// state and the channel, tells the application that it starts, and waits for the application.
pub proof fn law_how_a_run_starts<T, E>(model: LoopModel<T, E>, answer: Reply)
    ensures
        ({
            let idle = LoopModel::<T, E>::idle(model.channel);
            &&& idle.state == StateModel::<T, E>::empty()
            &&& idle.channel == model.channel
            &&& idle.phase is Idle
            &&& idle.control_flow is Poll
            &&& idle.state.cursor_surface is None
            &&& idle.state.multipool is None
            &&& idle.state.kbd_focus is None
            &&& idle.state.outputs.len() == 0
            &&& idle.state.seats.len() == 0
            &&& idle.state.windows.len() == 0
            &&& idle.state.layer_surfaces.len() == 0
            &&& idle.state.popups.len() == 0
            &&& idle.state.window_user_requests.dom() =~= Set::empty()
            &&& idle.state.window_compositor_updates.dom() =~= Set::empty()
            &&& idle.state.layer_surface_user_requests.dom() =~= Set::empty()
            &&& idle.state.layer_surface_compositor_updates.dom() =~= Set::empty()
            &&& idle.state.popup_user_requests.dom() =~= Set::empty()
            &&& idle.state.popup_compositor_updates.dom() =~= Set::empty()
            &&& idle.state.sctk_events.len() == 0
            &&& idle.state.pending_user_events.len() == 0
            &&& !idle.awaits(answer)
        }),
        ({
            let (begun, command) = model.start();
            &&& command == Command::<T, E>::Callback(IcedSctkEvent::NewEvents(StartCause::Init))
            &&& begun.phase is Init
            &&& begun.phase.is_callback()
            &&& begun.control_flow is Poll
            &&& begun.channel == model.channel
            &&& begun.state == model.state
            &&& begun.sink.len() == 0
            &&& begun.user_events.len() == 0
            &&& begun.redraws.len() == 0
            &&& begun.must_redraw.len() == 0
            &&& begun.awaits(answer) <==> answer is Returned
        }),
{
}

/// The control flow after a step is exactly what the application left behind, whatever that is,
/// unless an exit was in force, which stays. Other answers do not change it.
pub proof fn law_the_application_sets_the_control_flow<T, E>(
    model: LoopModel<T, E>,
    reply: Reply,
    after: LoopModel<T, E>,
    command: Command<T, E>,
)
    requires
        model.is_consistent(),
        model.awaits(reply),
        model.steps(reply, after, command),
    ensures
        !(model.control_flow is ExitWithCode) ==> (reply matches Reply::Returned(flow)
            ==> after.control_flow == flow),
        model.control_flow is ExitWithCode && !(model.phase is LoopDestroyed)
            ==> after.control_flow == model.control_flow,
        !(reply is Returned) ==> after.control_flow == model.control_flow,
{
    let order = walked(model, reply, after, command);
    lemma_step(model, reply, order);
}

/// Before the loop has woken up, and after a turn, a step changes nothing but the phase and the
/// control flow. A turn begins by sending what is buffered and dispatching what waits.
pub proof fn law_turns_begin_alike<T, E>(
    model: LoopModel<T, E>,
    reply: Reply,
    after: LoopModel<T, E>,
    command: Command<T, E>,
)
    requires
        model.is_consistent(),
        model.awaits(reply),
        model.steps(reply, after, command),
        match model.phase {
            Phase::Init | Phase::Flush | Phase::Pending | Phase::PollDispatch => true,
            Phase::WaitDispatch | Phase::WaitTime | Phase::DeadlineStart { .. } => true,
            Phase::DeadlineDispatch { .. } | Phase::DeadlineTime { .. } => true,
            Phase::RedrawEventsCleared | Phase::LoopDestroyed { .. } => true,
            _ => false,
        },
    ensures
        after == (LoopModel {
            phase: after.phase,
            control_flow: after.control_flow,
            ..model
        }),
        model.phase is Init || model.phase is RedrawEventsCleared ==> command is Flush
            && after.phase is Flush,
        model.phase is Flush ==> command is DispatchPending && after.phase is Pending,
        model.phase matches Phase::LoopDestroyed { code } ==> command == Command::<T, E>::Finish(
            code,
        ) && after.phase is Idle,
{
    walked(model, reply, after, command);
}

/// When the loop has woken up every event from the compositor is taken up. Those that do not ask
/// for a drawing are passed on to the application, and the surfaces of those that do are queued
/// for drawing, both in the order in which they came; together they are all that came. The
/// places of both are given.
pub proof fn law_compositor_events_are_taken_up<T, E>(
    model: LoopModel<T, E>,
    reply: Reply,
    after: LoopModel<T, E>,
    command: Command<T, E>,
) -> (parts: (Seq<int>, Seq<int>))
    requires
        model.is_consistent(),
        model.awaits(reply),
        model.steps(reply, after, command),
        model.phase is NewEvents,
    ensures
        ({
            let events = model.state.sctk_events;
            let (told, drawn) = parts;
            &&& told.len() + drawn.len() == events.len()
            &&& forall|k: int| 0 <= k < told.len() ==> 0 <= #[trigger] told[k] < events.len()
            &&& forall|k: int| 0 <= k < drawn.len() ==> 0 <= #[trigger] drawn[k] < events.len()
            &&& forall|k: int| 0 <= k < told.len() ==> !(events[#[trigger] told[k]] is Draw)
            &&& forall|k: int| 0 <= k < drawn.len() ==> events[#[trigger] drawn[k]] is Draw
            &&& forall|j: int, k: int|
                #![trigger told[j], told[k]]
                0 <= j < k < told.len() ==> told[j] < told[k]
            &&& forall|j: int, k: int|
                #![trigger drawn[j], drawn[k]]
                0 <= j < k < drawn.len() ==> drawn[j] < drawn[k]
            &&& LoopModel {
                phase: Phase::SinkEvent,
                state: StateModel { sctk_events: seq![], ..model.state },
                sink: Seq::new(told.len(), |k: int| events[told[k]]),
                must_redraw: Seq::new(drawn.len(), |k: int| events[drawn[k]]->Draw_0),
                ..model
            }.steps(reply, after, command)
        }),
{
    let order = walked(model, reply, after, command);
    let events = model.state.sctk_events;
    let told = lemma_filter_places(events, draws_nothing());
    let drawn = lemma_filter_places(events, draws());
    lemma_filter_parts(events, draws_nothing(), draws());
    let sink = Seq::new(told.len(), |k: int| events[told[k]]);
    let must_redraw = Seq::new(drawn.len(), |k: int| events[drawn[k]]->Draw_0);
    assert(sink =~= events.filter(draws_nothing()));
    assert(must_redraw =~= drawn_surfaces(events));
    let taken = LoopModel {
        phase: Phase::SinkEvent,
        state: StateModel { sctk_events: seq![], ..model.state },
        sink,
        must_redraw,
        ..model
    };
    lemma_user_phase(
        LoopModel {
            control_flow: model.flow_after(reply),
            user_events: in_turn(model.state.pending_user_events),
            state: StateModel { pending_user_events: seq![], ..taken.state },
            ..taken
        },
        model.phase,
    );
    assert(taken.next(reply, order) == (after, command));
    assert forall|k: int| 0 <= k < told.len() implies !(events[#[trigger] told[k]] is Draw) by {
        assert(draws_nothing()(events[told[k]]));
    }
    assert forall|k: int| 0 <= k < drawn.len() implies events[#[trigger] drawn[k]] is Draw by {
        assert(draws()(events[drawn[k]]));
    }
    (told, drawn)
}

/// Where the application's events lead does not depend on the phase before.
proof fn lemma_user_phase<T, E>(model: LoopModel<T, E>, phase: Phase)
    ensures
        (LoopModel { phase, ..model }).next_user_event() == model.next_user_event(),
    decreases model.user_events.len(),
{
    if model.user_events.len() > 0 && act(model.state, model.user_events.first()) is None {
        let rest = LoopModel { user_events: model.user_events.drop_first(), ..model };
        lemma_user_phase(rest, phase);
        assert(LoopModel { phase, ..rest } == LoopModel {
            user_events: model.user_events.drop_first(),
            ..LoopModel { phase, ..model }
        });
    }
}

/// The next event from the compositor is passed on as it is, and nothing else changes.
pub proof fn law_compositor_events_are_passed_on<T, E>(
    model: LoopModel<T, E>,
    reply: Reply,
    after: LoopModel<T, E>,
    command: Command<T, E>,
)
    requires
        model.awaits(reply),
        model.steps(reply, after, command),
        model.phase is SinkEvent,
        model.sink.len() > 0,
    ensures
        command == Command::<T, E>::Callback(IcedSctkEvent::SctkEvent(model.sink[0])),
        after == (LoopModel {
            control_flow: after.control_flow,
            sink: model.sink.drop_first(),
            ..model
        }),
{
    walked(model, reply, after, command);
}

/// When the events from the compositor have been passed on, all that the application sent is
/// taken up: first what goes back to it, then the rest, both as it was sent. The places of both
/// are given. The loop goes on as it does when it is in the midst of them.
pub proof fn law_own_events_are_taken_up<T, E>(
    model: LoopModel<T, E>,
    reply: Reply,
    after: LoopModel<T, E>,
    command: Command<T, E>,
) -> (parts: (Seq<int>, Seq<int>))
    requires
        model.awaits(reply),
        model.steps(reply, after, command),
        model.phase is SinkEvent,
        model.sink.len() == 0,
    ensures
        ({
            let events = model.state.pending_user_events;
            let (first, second) = parts;
            &&& first.len() + second.len() == events.len()
            &&& forall|k: int| 0 <= k < first.len() ==> 0 <= #[trigger] first[k] < events.len()
            &&& forall|k: int| 0 <= k < second.len() ==> 0 <= #[trigger] second[k] < events.len()
            &&& forall|k: int| 0 <= k < first.len() ==> events[#[trigger] first[k]] is SctkEvent
            &&& forall|k: int|
                0 <= k < second.len() ==> !(events[#[trigger] second[k]] is SctkEvent)
            &&& forall|j: int, k: int|
                #![trigger first[j], first[k]]
                0 <= j < k < first.len() ==> first[j] < first[k]
            &&& forall|j: int, k: int|
                #![trigger second[j], second[k]]
                0 <= j < k < second.len() ==> second[j] < second[k]
            &&& LoopModel {
                phase: Phase::UserEvent,
                state: StateModel { pending_user_events: seq![], ..model.state },
                user_events: Seq::new(first.len(), |k: int| events[first[k]]) + Seq::new(
                    second.len(),
                    |k: int| events[second[k]],
                ),
                ..model
            }.steps(reply, after, command)
        }),
{
    let order = walked(model, reply, after, command);
    let events = model.state.pending_user_events;
    let first = lemma_filter_places(events, handed_back());
    let second = lemma_filter_places(events, acted_on());
    lemma_filter_parts(events, handed_back(), acted_on());
    let queue = Seq::new(first.len(), |k: int| events[first[k]]) + Seq::new(
        second.len(),
        |k: int| events[second[k]],
    );
    assert(queue =~= in_turn(events));
    let taken = LoopModel {
        phase: Phase::UserEvent,
        state: StateModel { pending_user_events: seq![], ..model.state },
        user_events: queue,
        ..model
    };
    lemma_user_phase(LoopModel { control_flow: taken.flow_after(reply), ..taken }, model.phase);
    assert(taken.next(reply, order) == (after, command));
    assert forall|k: int| 0 <= k < first.len() implies events[#[trigger] first[k]] is SctkEvent by {
        assert(handed_back()(events[first[k]]));
    }
    assert forall|k: int| 0 <= k < second.len() implies !(
    events[#[trigger] second[k]] is SctkEvent) by {
        assert(acted_on()(events[second[k]]));
    }
    (first, second)
}

/// When the application's events have been worked through it is told so, and nothing else
/// changes.
pub proof fn law_events_are_cleared<T, E>(
    model: LoopModel<T, E>,
    reply: Reply,
    after: LoopModel<T, E>,
    command: Command<T, E>,
)
    requires
        model.awaits(reply),
        model.steps(reply, after, command),
        model.phase is UserEvent || model.phase is SurfaceRequest,
        model.user_events.len() == 0,
    ensures
        command == Command::<T, E>::Callback(IcedSctkEvent::MainEventsCleared),
        after == (LoopModel {
            control_flow: after.control_flow,
            phase: Phase::MainEventsCleared,
            ..model
        }),
{
    walked(model, reply, after, command);
}

/// An event that goes back to the application goes back as it is, and nothing else changes.
pub proof fn law_own_events_come_back<T, E>(
    model: LoopModel<T, E>,
    reply: Reply,
    after: LoopModel<T, E>,
    command: Command<T, E>,
    event: IcedSctkEvent<T, E>,
)
    requires
        model.awaits(reply),
        model.steps(reply, after, command),
        model.phase is UserEvent || model.phase is SurfaceRequest,
        model.user_events.len() > 0,
        model.user_events[0] == Event::SctkEvent(event),
    ensures
        command == Command::<T, E>::Callback(event),
        after == (LoopModel {
            control_flow: after.control_flow,
            phase: Phase::UserEvent,
            user_events: model.user_events.drop_first(),
            ..model
        }),
{
    walked(model, reply, after, command);
}

/// Asking for a cursor, or for something of a layer surface that does not exist, makes no
/// difference: the loop goes on as if it had not been asked.
pub proof fn law_idle_events_make_no_difference<T, E>(
    model: LoopModel<T, E>,
    reply: Reply,
    after: LoopModel<T, E>,
    command: Command<T, E>,
    id: Id,
)
    requires
        model.awaits(reply),
        model.steps(reply, after, command),
        model.phase is UserEvent || model.phase is SurfaceRequest,
        model.user_events.len() > 0,
        model.user_events[0] is LayerSurface ==> forall|k: int|
            0 <= k < model.state.layer_surfaces.len() ==> (
            #[trigger] model.state.layer_surfaces[k]).id != id,
        match model.user_events[0] {
            Event::SctkEvent(_) => false,
            Event::SetCursor(_) => true,
            Event::LayerSurface(action) => match action {
                Action::LayerSurface { .. } => false,
                Action::Size { id: named, .. } => named == id,
                Action::Destroy(named) => named == id,
                Action::Anchor { id: named, .. } => named == id,
                Action::ExclusiveZone { id: named, .. } => named == id,
                Action::Margin { id: named, .. } => named == id,
                Action::KeyboardInteractivity { id: named, .. } => named == id,
                Action::Layer { id: named, .. } => named == id,
            },
        },
    ensures
        (LoopModel { user_events: model.user_events.drop_first(), ..model }).steps(
            reply,
            after,
            command,
        ),
{
    let order = walked(model, reply, after, command);
    law_surface_is_found(model.state, id);
    let without = LoopModel { user_events: model.user_events.drop_first(), ..model };
    assert(act(model.state, model.user_events.first()) is None);
    assert(without.next(reply, order) == (after, command));
}

/// A layer surface is created as it was described. When that is done it stands last among the
/// layer surfaces, with the identifiers and settings that were asked for, and the application is
/// told both its object and its identifier.
pub proof fn law_surfaces_are_created_as_described<T, E>(
    model: LoopModel<T, E>,
    reply: Reply,
    after: LoopModel<T, E>,
    command: Command<T, E>,
    builder: IcedLayerSurface,
    surface: ObjectId,
    later: LoopModel<T, E>,
    told: Command<T, E>,
)
    requires
        model.awaits(reply),
        model.steps(reply, after, command),
        model.phase is UserEvent || model.phase is SurfaceRequest,
        model.user_events.len() > 0,
        model.user_events[0] == Event::<T, E>::LayerSurface(Action::LayerSurface { builder }),
        after.steps(Reply::Surface(surface), later, told),
    ensures
        command == Command::<T, E>::CreateLayerSurface(builder),
        after == (LoopModel {
            control_flow: after.control_flow,
            phase: after.phase,
            user_events: model.user_events.drop_first(),
            ..model
        }),
        told == Command::<T, E>::Callback(
            IcedSctkEvent::SctkEvent(
                SctkEvent::LayerSurfaceEvent {
                    variant: LayerSurfaceEventVariant::Created(surface, builder.id),
                    id: surface,
                },
            ),
        ),
        later == (LoopModel {
            phase: Phase::UserEvent,
            state: StateModel {
                layer_surfaces: model.state.layer_surfaces.push(
                    SctkLayerSurface { id: builder.id, surface, settings: builder.settings },
                ),
                ..model.state
            },
            ..after
        }),
{
    walked(model, reply, after, command);
    walked(after, Reply::Surface(surface), later, told);
}

/// Destroying a layer surface removes the first one with the identifier and no other. The
/// application is told that the very surface that was removed is gone, and after that the
/// surface is given up.
pub proof fn law_destroyed_surface_is_named<T, E>(
    model: LoopModel<T, E>,
    reply: Reply,
    after: LoopModel<T, E>,
    command: Command<T, E>,
    id: Id,
    at: int,
    flow: ControlFlow,
    later: LoopModel<T, E>,
    done: Command<T, E>,
)
    requires
        model.awaits(reply),
        model.steps(reply, after, command),
        model.phase is UserEvent || model.phase is SurfaceRequest,
        model.user_events.len() > 0,
        model.user_events[0] == Event::<T, E>::LayerSurface(Action::Destroy(id)),
        0 <= at < model.state.layer_surfaces.len(),
        model.state.layer_surfaces[at].id == id,
        forall|k: int| 0 <= k < at ==> (#[trigger] model.state.layer_surfaces[k]).id != id,
        after.steps(Reply::Returned(flow), later, done),
    ensures
        command == Command::<T, E>::Callback(
            IcedSctkEvent::SctkEvent(
                SctkEvent::LayerSurfaceEvent {
                    variant: LayerSurfaceEventVariant::Done,
                    id: model.state.layer_surfaces[at].surface,
                },
            ),
        ),
        after == (LoopModel {
            control_flow: after.control_flow,
            phase: after.phase,
            state: StateModel {
                layer_surfaces: model.state.layer_surfaces.remove(at),
                ..model.state
            },
            user_events: model.user_events.drop_first(),
            ..model
        }),
        done == Command::<T, E>::DropLayerSurface(model.state.layer_surfaces[at].surface),
        later == (LoopModel {
            control_flow: later.control_flow,
            phase: Phase::SurfaceRequest,
            ..after
        }),
{
    lemma_first_found(model.state.layer_surfaces, with_id(id), at);
    walked(model, reply, after, command);
    walked(after, Reply::Returned(flow), later, done);
}

/// A request of a layer surface that exists changes what is noted of the first surface with the
/// identifier, and nothing else: that surface keeps its identifiers, and every other surface, the
/// rest of the state and the queues stay as they are.
pub proof fn law_request_changes_one_surface<T, E>(
    model: LoopModel<T, E>,
    reply: Reply,
    after: LoopModel<T, E>,
    command: Command<T, E>,
    id: Id,
    at: int,
)
    requires
        model.awaits(reply),
        model.steps(reply, after, command),
        model.phase is UserEvent || model.phase is SurfaceRequest,
        model.user_events.len() > 0,
        match model.user_events[0] {
            Event::LayerSurface(action) => match action {
                Action::Size { id: named, .. } => named == id,
                Action::Anchor { id: named, .. } => named == id,
                Action::ExclusiveZone { id: named, .. } => named == id,
                Action::Margin { id: named, .. } => named == id,
                Action::KeyboardInteractivity { id: named, .. } => named == id,
                Action::Layer { id: named, .. } => named == id,
                _ => false,
            },
            _ => false,
        },
        0 <= at < model.state.layer_surfaces.len(),
        model.state.layer_surfaces[at].id == id,
        forall|k: int| 0 <= k < at ==> (#[trigger] model.state.layer_surfaces[k]).id != id,
    ensures
        after == (LoopModel {
            control_flow: after.control_flow,
            phase: Phase::SurfaceRequest,
            state: StateModel { layer_surfaces: after.state.layer_surfaces, ..model.state },
            user_events: model.user_events.drop_first(),
            ..model
        }),
        after.state.layer_surfaces.len() == model.state.layer_surfaces.len(),
        forall|k: int|
            0 <= k < model.state.layer_surfaces.len() && k != at ==> (
            #[trigger] after.state.layer_surfaces[k]) == model.state.layer_surfaces[k],
        after.state.layer_surfaces[at].id == id,
        after.state.layer_surfaces[at].surface == model.state.layer_surfaces[at].surface,
{
    lemma_first_found(model.state.layer_surfaces, with_id(id), at);
    walked(model, reply, after, command);
}

/// A change of size is noted and asked for of the first surface with the identifier: the width
/// if there is one and 0 otherwise, whatever the height, and the height if there is one and 0
/// otherwise, whatever the width. The other settings stay.
pub proof fn law_size_is_asked_for<T, E>(
    model: LoopModel<T, E>,
    reply: Reply,
    after: LoopModel<T, E>,
    command: Command<T, E>,
    id: Id,
    width: Option<u32>,
    height: Option<u32>,
    at: int,
)
    requires
        model.awaits(reply),
        model.steps(reply, after, command),
        model.phase is UserEvent || model.phase is SurfaceRequest,
        model.user_events.len() > 0,
        model.user_events[0] == Event::<T, E>::LayerSurface(Action::Size { id, width, height }),
        0 <= at < model.state.layer_surfaces.len(),
        model.state.layer_surfaces[at].id == id,
        forall|k: int| 0 <= k < at ==> (#[trigger] model.state.layer_surfaces[k]).id != id,
    ensures
        command matches Command::SetSize { surface, width: w, height: h } && {
            &&& surface == model.state.layer_surfaces[at].surface
            &&& width is Some ==> w == width->0
            &&& width is None ==> w == 0
            &&& height is Some ==> h == height->0
            &&& height is None ==> h == 0
        },
        after.state.layer_surfaces[at].settings == (LayerSettings {
            requested_size: (width, height),
            ..model.state.layer_surfaces[at].settings
        }),
{
    lemma_first_found(model.state.layer_surfaces, with_id(id), at);
    walked(model, reply, after, command);
}

/// A change of the edges is noted and asked for as it is, of the first surface with the
/// identifier. The other settings stay.
pub proof fn law_anchor_is_asked_for<T, E>(
    model: LoopModel<T, E>,
    reply: Reply,
    after: LoopModel<T, E>,
    command: Command<T, E>,
    id: Id,
    anchor: Anchor,
    at: int,
)
    requires
        model.awaits(reply),
        model.steps(reply, after, command),
        model.phase is UserEvent || model.phase is SurfaceRequest,
        model.user_events.len() > 0,
        model.user_events[0] == Event::<T, E>::LayerSurface(Action::Anchor { id, anchor }),
        0 <= at < model.state.layer_surfaces.len(),
        model.state.layer_surfaces[at].id == id,
        forall|k: int| 0 <= k < at ==> (#[trigger] model.state.layer_surfaces[k]).id != id,
    ensures
        command == (Command::<T, E>::SetAnchor {
            surface: model.state.layer_surfaces[at].surface,
            anchor,
        }),
        after.state.layer_surfaces[at].settings == (LayerSettings { anchor, ..model.state.layer_surfaces[at].settings }),
{
    lemma_first_found(model.state.layer_surfaces, with_id(id), at);
    walked(model, reply, after, command);
}

/// A change of the exclusive zone is noted and asked for as it is, of the first surface with the
/// identifier. The other settings stay.
pub proof fn law_exclusive_zone_is_asked_for<T, E>(
    model: LoopModel<T, E>,
    reply: Reply,
    after: LoopModel<T, E>,
    command: Command<T, E>,
    id: Id,
    exclusive_zone: i32,
    at: int,
)
    requires
        model.awaits(reply),
        model.steps(reply, after, command),
        model.phase is UserEvent || model.phase is SurfaceRequest,
        model.user_events.len() > 0,
        model.user_events[0] == Event::<T, E>::LayerSurface(
            Action::ExclusiveZone { id, exclusive_zone },
        ),
        0 <= at < model.state.layer_surfaces.len(),
        model.state.layer_surfaces[at].id == id,
        forall|k: int| 0 <= k < at ==> (#[trigger] model.state.layer_surfaces[k]).id != id,
    ensures
        command == (Command::<T, E>::SetExclusiveZone {
            surface: model.state.layer_surfaces[at].surface,
            exclusive_zone,
        }),
        after.state.layer_surfaces[at].settings == (LayerSettings { exclusive_zone, ..model.state.layer_surfaces[at].settings }),
{
    lemma_first_found(model.state.layer_surfaces, with_id(id), at);
    walked(model, reply, after, command);
}

/// A change of the margin is noted and asked for edge by edge, of the first surface with the
/// identifier. The other settings stay.
pub proof fn law_margin_is_asked_for<T, E>(
    model: LoopModel<T, E>,
    reply: Reply,
    after: LoopModel<T, E>,
    command: Command<T, E>,
    id: Id,
    margin: IcedMargin,
    at: int,
)
    requires
        model.awaits(reply),
        model.steps(reply, after, command),
        model.phase is UserEvent || model.phase is SurfaceRequest,
        model.user_events.len() > 0,
        model.user_events[0] == Event::<T, E>::LayerSurface(Action::Margin { id, margin }),
        0 <= at < model.state.layer_surfaces.len(),
        model.state.layer_surfaces[at].id == id,
        forall|k: int| 0 <= k < at ==> (#[trigger] model.state.layer_surfaces[k]).id != id,
    ensures
        command == (Command::<T, E>::SetMargin {
            surface: model.state.layer_surfaces[at].surface,
            top: margin.top,
            right: margin.right,
            bottom: margin.bottom,
            left: margin.left,
        }),
        after.state.layer_surfaces[at].settings == (LayerSettings { margin, ..model.state.layer_surfaces[at].settings }),
{
    lemma_first_found(model.state.layer_surfaces, with_id(id), at);
    walked(model, reply, after, command);
}

/// A change in keyboard focus is noted and asked for as it is, of the first surface with the
/// identifier. The other settings stay.
pub proof fn law_keyboard_interactivity_is_asked_for<T, E>(
    model: LoopModel<T, E>,
    reply: Reply,
    after: LoopModel<T, E>,
    command: Command<T, E>,
    id: Id,
    keyboard_interactivity: KeyboardInteractivity,
    at: int,
)
    requires
        model.awaits(reply),
        model.steps(reply, after, command),
        model.phase is UserEvent || model.phase is SurfaceRequest,
        model.user_events.len() > 0,
        model.user_events[0] == Event::<T, E>::LayerSurface(
            Action::KeyboardInteractivity { id, keyboard_interactivity },
        ),
        0 <= at < model.state.layer_surfaces.len(),
        model.state.layer_surfaces[at].id == id,
        forall|k: int| 0 <= k < at ==> (#[trigger] model.state.layer_surfaces[k]).id != id,
    ensures
        command == (Command::<T, E>::SetKeyboardInteractivity {
            surface: model.state.layer_surfaces[at].surface,
            keyboard_interactivity,
        }),
        after.state.layer_surfaces[at].settings == (LayerSettings { keyboard_interactivity, ..model.state.layer_surfaces[at].settings }),
{
    lemma_first_found(model.state.layer_surfaces, with_id(id), at);
    walked(model, reply, after, command);
}

/// A change of the layer is noted and asked for as it is, of the first surface with the
/// identifier. The other settings stay.
pub proof fn law_layer_is_asked_for<T, E>(
    model: LoopModel<T, E>,
    reply: Reply,
    after: LoopModel<T, E>,
    command: Command<T, E>,
    id: Id,
    layer: Layer,
    at: int,
)
    requires
        model.awaits(reply),
        model.steps(reply, after, command),
        model.phase is UserEvent || model.phase is SurfaceRequest,
        model.user_events.len() > 0,
        model.user_events[0] == Event::<T, E>::LayerSurface(Action::Layer { id, layer }),
        0 <= at < model.state.layer_surfaces.len(),
        model.state.layer_surfaces[at].id == id,
        forall|k: int| 0 <= k < at ==> (#[trigger] model.state.layer_surfaces[k]).id != id,
    ensures
        command == (Command::<T, E>::SetLayer {
            surface: model.state.layer_surfaces[at].surface,
            layer,
        }),
        after.state.layer_surfaces[at].settings == (LayerSettings { layer, ..model.state.layer_surfaces[at].settings }),
{
    lemma_first_found(model.state.layer_surfaces, with_id(id), at);
    walked(model, reply, after, command);
}

/// When the events have been handed out the requests are taken up. An entry leads to a redraw
/// exactly if a redraw was requested in it or the frame is to be refreshed, each by itself being
/// enough, and leads to one only. An entry takes the place of the first drawing of its surface,
/// and the other drawings stay as they came. Afterwards the entries are still there and nothing
/// is asked for in any. The entries, and the places of the drawings that stay, are given.
pub proof fn law_requests_are_taken_up<T, E>(
    model: LoopModel<T, E>,
    reply: Reply,
    after: LoopModel<T, E>,
    command: Command<T, E>,
) -> (parts: (Seq<(ObjectId, SurfaceUserRequest)>, Seq<int>))
    requires
        model.awaits(reply),
        model.steps(reply, after, command),
        model.phase is MainEventsCleared,
    ensures
        ({
            let requests = model.state.window_user_requests;
            let drawings = model.must_redraw;
            let quiet = after.state.window_user_requests;
            let (asked, stay) = parts;
            &&& forall|k: int|
                0 <= k < asked.len() ==> requests.contains_key((#[trigger] asked[k]).0.0)
            &&& forall|k: int|
                0 <= k < asked.len() ==> requests[(#[trigger] asked[k]).0.0] == asked[k].1
            &&& forall|k: int|
                0 <= k < asked.len() ==> (#[trigger] asked[k]).1.redraw_requested
                    || asked[k].1.refresh_frame
            &&& forall|j: int, k: int|
                #![trigger asked[j], asked[k]]
                0 <= j < k < asked.len() ==> asked[j].0 != asked[k].0
            &&& forall|key: u64| #[trigger]
                requests.contains_key(key) && requests[key].redraw_requested ==> asked.contains(
                    (ObjectId(key), requests[key]),
                )
            &&& forall|key: u64| #[trigger]
                requests.contains_key(key) && requests[key].refresh_frame ==> asked.contains(
                    (ObjectId(key), requests[key]),
                )
            &&& forall|k: int| 0 <= k < stay.len() ==> 0 <= #[trigger] stay[k] < drawings.len()
            &&& forall|j: int, k: int|
                #![trigger stay[j], stay[k]]
                0 <= j < k < stay.len() ==> stay[j] < stay[k]
            &&& forall|p: int|
                0 <= p < drawings.len() ==> (stay.contains(p) <==> !(requests.contains_key(
                    (#[trigger] drawings[p]).0,
                ) && forall|q: int| 0 <= q < p ==> #[trigger] drawings[q] != drawings[p]))
            &&& forall|key: u64| #[trigger]
                quiet.contains_key(key) <==> requests.contains_key(key)
            &&& forall|key: u64| #[trigger]
                quiet.contains_key(key) ==> !quiet[key].redraw_requested
                    && !quiet[key].refresh_frame
            &&& LoopModel {
                phase: Phase::Redraw,
                state: StateModel { window_user_requests: quiet, ..model.state },
                redraws: asked,
                must_redraw: Seq::new(stay.len(), |k: int| drawings[stay[k]]),
                ..model
            }.steps(reply, after, command)
        }),
{
    let order = walked(model, reply, after, command);
    let requests = model.state.window_user_requests;
    let drawings = model.must_redraw;
    let asked = order.filter(wants_redraw());
    let places = lemma_filter_places(order, wants_redraw());
    let stay = lemma_left_places(drawings, order);
    let left = Seq::new(stay.len(), |k: int| drawings[stay[k]]);
    assert(left =~= left_to_draw(drawings, order));
    let taken = LoopModel {
        phase: Phase::Redraw,
        state: StateModel { window_user_requests: settled(requests), ..model.state },
        redraws: asked,
        must_redraw: left,
        ..model
    };
    assert(taken.next(reply, order) == (after, command));
    assert(after.state.window_user_requests == settled(requests));
    assert forall|k: int| 0 <= k < asked.len() implies ({
        &&& requests.contains_key((#[trigger] asked[k]).0.0)
        &&& requests[asked[k].0.0] == asked[k].1
        &&& asked[k].1.redraw_requested || asked[k].1.refresh_frame
    }) by {
        assert(asked[k] == order[places[k]]);
        assert(wants_redraw()(order[places[k]]));
    }
    assert forall|j: int, k: int|
        #![trigger asked[j], asked[k]]
        0 <= j < k < asked.len() implies asked[j].0 != asked[k].0 by {
        assert(places[j] < places[k]);
        assert(order[places[j]].0 != order[places[k]].0);
    }
    assert forall|key: u64| #[trigger]
        requests.contains_key(key) && (requests[key].redraw_requested
            || requests[key].refresh_frame) implies asked.contains(
        (ObjectId(key), requests[key]),
    ) by {
        let i = choose|i: int| 0 <= i < order.len() && #[trigger] order[i].0 == ObjectId(key);
        assert(wants_redraw()(order[i]));
        assert(places.contains(i));
        let k = choose|k: int| 0 <= k < places.len() && places[k] == i;
        assert(asked[k] == (ObjectId(key), requests[key]));
    }
    assert forall|p: int| 0 <= p < drawings.len() implies (stay.contains(p) <==> !(
    requests.contains_key((#[trigger] drawings[p]).0) && forall|q: int|
        0 <= q < p ==> #[trigger] drawings[q] != drawings[p])) by {
        if requests.contains_key(drawings[p].0) {
            let i = choose|i: int|
                0 <= i < order.len() && #[trigger] order[i].0 == ObjectId(drawings[p].0);
            assert(order[i].0 == drawings[p]);
        }
    }
    (asked, stay)
}

/// The next surface that a redraw was requested for is redrawn; where its frame is to be
/// refreshed that comes first. After those come the surfaces that the compositor wants drawn,
/// and after those the application is told that the redraws have been asked for.
pub proof fn law_surfaces_are_redrawn_in_turn<T, E>(
    model: LoopModel<T, E>,
    reply: Reply,
    after: LoopModel<T, E>,
    command: Command<T, E>,
)
    requires
        model.awaits(reply),
        model.steps(reply, after, command),
        model.phase is Redraw || model.phase is Commit,
    ensures
        model.redraws.len() > 0 ==> {
            &&& after == (LoopModel {
                control_flow: after.control_flow,
                phase: after.phase,
                redraws: model.redraws.drop_first(),
                ..model
            })
            &&& model.redraws[0].1.refresh_frame ==> {
                &&& command == Command::<T, E>::RefreshFrame(model.redraws[0].0)
                &&& after.phase == (Phase::Refresh { surface: model.redraws[0].0 })
            }
            &&& !model.redraws[0].1.refresh_frame ==> {
                &&& command == Command::<T, E>::Callback(
                    IcedSctkEvent::RedrawRequested(model.redraws[0].0),
                )
                &&& after.phase is Redraw
            }
        },
        model.redraws.len() == 0 && model.must_redraw.len() > 0 ==> {
            &&& command == Command::<T, E>::Callback(
                IcedSctkEvent::RedrawRequested(model.must_redraw[0]),
            )
            &&& after == (LoopModel {
                control_flow: after.control_flow,
                phase: Phase::MustRedraw { surface: model.must_redraw[0] },
                must_redraw: model.must_redraw.drop_first(),
                ..model
            })
        },
        model.redraws.len() == 0 && model.must_redraw.len() == 0 ==> {
            &&& command == Command::<T, E>::Callback(IcedSctkEvent::RedrawEventsCleared)
            &&& after == (LoopModel {
                control_flow: after.control_flow,
                phase: Phase::RedrawEventsCleared,
                ..model
            })
        },
{
    walked(model, reply, after, command);
}

/// When the frame has been seen to, its window is redrawn.
pub proof fn law_refreshed_window_is_redrawn<T, E>(
    model: LoopModel<T, E>,
    reply: Reply,
    after: LoopModel<T, E>,
    command: Command<T, E>,
    surface: ObjectId,
)
    requires
        model.awaits(reply),
        model.steps(reply, after, command),
        model.phase == (Phase::Refresh { surface }),
    ensures
        command == Command::<T, E>::Callback(IcedSctkEvent::RedrawRequested(surface)),
        after == (LoopModel { control_flow: after.control_flow, phase: Phase::Redraw, ..model }),
{
    walked(model, reply, after, command);
}

/// A surface that the compositor wanted drawn is committed once it has been redrawn, exactly if
/// a layer surface is behind it. Otherwise the loop goes on with the next one.
pub proof fn law_drawn_layer_surfaces_are_committed<T, E>(
    model: LoopModel<T, E>,
    reply: Reply,
    after: LoopModel<T, E>,
    command: Command<T, E>,
    surface: ObjectId,
)
    requires
        model.awaits(reply),
        model.steps(reply, after, command),
        model.phase == (Phase::MustRedraw { surface }),
    ensures
        (exists|k: int|
            0 <= k < model.state.layer_surfaces.len() && (
            #[trigger] model.state.layer_surfaces[k]).surface == surface) ==> {
            &&& command == Command::<T, E>::Commit(surface)
            &&& after == (LoopModel {
                control_flow: after.control_flow,
                phase: Phase::Commit,
                ..model
            })
        },
        (forall|k: int|
            0 <= k < model.state.layer_surfaces.len() ==> (
            #[trigger] model.state.layer_surfaces[k]).surface != surface) ==> (LoopModel {
            phase: Phase::Redraw,
            ..model
        }).steps(reply, after, command),
{
    let order = walked(model, reply, after, command);
    let surfaces = model.state.layer_surfaces;
    if exists|k: int| 0 <= k < surfaces.len() && (#[trigger] surfaces[k]).surface == surface {
        let k = choose|k: int|
            0 <= k < surfaces.len() && (#[trigger] surfaces[k]).surface == surface;
        lemma_first_exists(surfaces, with_surface(surface), k);
    } else {
        assert(LoopModel { phase: Phase::Redraw, ..model }.next(reply, order) == (after, command));
    }
}

/// What comes out of the application's channel is queued last, and nothing else changes; a closed
/// channel changes nothing at all. A layer surface that was created stands last, with the
/// identifiers and settings that it was given, and nothing else changes.
pub proof fn law_what_is_noted_stands_last<T, E>(
    state: StateModel<T, E>,
    message: Event<T, E>,
    id: Id,
    settings: LayerSettings,
    surface: ObjectId,
)
    ensures
        state.after_channel(ChannelEvent::Closed) == state,
        state.after_channel(ChannelEvent::Msg(message)) == (StateModel {
            pending_user_events: state.pending_user_events.push(message),
            ..state
        }),
        state.with_layer_surface(id, settings, surface) == (StateModel {
            layer_surfaces: state.layer_surfaces.push(SctkLayerSurface { id, surface, settings }),
            ..state
        }),
{
}

/// What is known of a state is what it holds, field by field.
pub proof fn law_state_is_what_it_holds<T, E>(state: SctkState<T, E>)
    ensures
        state@.cursor_surface == state.cursor_surface,
        state@.multipool == state.multipool,
        state@.outputs == state.outputs@,
        state@.seats == state.seats@,
        state@.windows == state.windows@,
        state@.layer_surfaces == state.layer_surfaces@,
        state@.popups == state.popups@,
        state@.kbd_focus == state.kbd_focus,
        state@.window_user_requests == state.window_user_requests@,
        state@.window_compositor_updates == state.window_compositor_updates@,
        state@.layer_surface_user_requests == state.layer_surface_user_requests@,
        state@.layer_surface_compositor_updates == state.layer_surface_compositor_updates@,
        state@.popup_user_requests == state.popup_user_requests@,
        state@.popup_compositor_updates == state.popup_compositor_updates@,
        state@.sctk_events == state.sctk_events@,
        state@.pending_user_events == state.pending_user_events@,
{
}

} // verus!
