//! What the application and the compositor see of a turn.

use vstd::prelude::*;

use crate::application::Event;
use crate::event_loop::command::{Command, Reply};
use crate::event_loop::control_flow::ControlFlow;
use crate::event_loop::failure::{
    connection_failure, loop_failure, os_code, queue_failure, ConnectionFailure, LoopFailure,
    QueueFailure,
};
use crate::event_loop::laws::{history_step, lemma_begin_user_events, History};
use crate::event_loop::model::{LoopModel, Phase};
use crate::event_loop::state::StateModel;
use crate::event_loop::step_laws::{
    law_compositor_events_are_passed_on, law_compositor_events_are_taken_up,
    law_drawn_layer_surfaces_are_committed, law_own_events_are_taken_up, law_own_events_come_back,
    law_refreshed_window_is_redrawn, law_requests_are_taken_up, law_surfaces_are_redrawn_in_turn,
    law_the_application_sets_the_control_flow, walked,
};
use crate::layer_surface::SctkLayerSurface;
use crate::sctk_event::{IcedSctkEvent, SctkEvent, StartCause, SurfaceUserRequest};
use crate::time::Duration;
use crate::window::ObjectId;

verus! {

/// A step of a history while the loop is awake.
proof fn awake_step<T, E>(history: History<T, E>, i: int)
    requires
        history.is_valid(),
        0 <= i < history.replies.len(),
        history.models[i].phase.is_awake(),
    ensures
        history.models[i].is_consistent(),
        history.models[i].awaits(history.replies[i]),
        history.models[i].steps(history.replies[i], history.models[i + 1], history.commands[i]),
{
    let (after, order) = history_step(history, i);
    assert(history.models[i].next(history.replies[i], order) == (after, history.commands[i]));
}

/// At every step of a run the control flow becomes exactly what the application left behind,
/// whether that is to poll, to wait, to wait until a time or to exit, unless an exit was in force
/// before; an exit stays until the application has been told that the loop is over. Where the
/// application was not asked the control flow does not change.
pub proof fn law_control_flow_is_followed<T, E>(history: History<T, E>, i: int)
    requires
        history.is_valid(),
        0 <= i < history.replies.len(),
    ensures
        match history.replies[i] {
            Reply::Returned(flow) => {
                &&& !(history.models[i].control_flow is ExitWithCode)
                    ==> history.models[i + 1].control_flow == flow
                &&& history.models[i].control_flow is ExitWithCode && !(
                history.models[i].phase is LoopDestroyed) ==> history.models[i + 1].control_flow
                    == history.models[i].control_flow
            },
            _ => history.models[i + 1].control_flow == history.models[i].control_flow,
        },
{
    let (after, order) = history_step(history, i);
    assert(history.models[i].next(history.replies[i], order) == (after, history.commands[i]));
    law_the_application_sets_the_control_flow(
        history.models[i],
        history.replies[i],
        after,
        history.commands[i],
    );
}

/// How the loop waits and what it says when it wakes up, for each control flow and any number of
/// messages that were waiting already: polling does not wait; waiting has no limit, unless
/// messages were waiting; a deadline is waited for exactly, unless it has passed or messages were
/// waiting; and an exit ends the run with its code.
pub proof fn law_control_flow_decides<T, E>(history: History<T, E>, i: int, n: usize)
    requires
        history.is_valid(),
        0 <= i < history.replies.len(),
        history.models[i].phase is Pending,
        history.replies[i] == Reply::Pending(Ok(n)),
    ensures
        match history.models[i].control_flow {
            ControlFlow::Poll => {
                &&& history.commands[i] == Command::<T, E>::Dispatch(Some(Duration { nanos: 0 }))
                &&& i + 1 < history.replies.len() && history.replies[i + 1] == Reply::Dispatched(
                    Ok(()),
                ) ==> history.commands[i + 1] == Command::<T, E>::Callback(
                    IcedSctkEvent::NewEvents(StartCause::Poll),
                )
            },
            ControlFlow::Wait => {
                &&& n > 0 ==> history.commands[i] == Command::<T, E>::Dispatch(
                    Some(Duration { nanos: 0 }),
                )
                &&& n == 0 ==> history.commands[i] == Command::<T, E>::Dispatch(None)
                &&& i + 1 < history.replies.len() && history.replies[i + 1] == Reply::Dispatched(
                    Ok(()),
                ) ==> {
                    &&& history.commands[i + 1] is Now
                    &&& i + 2 < history.replies.len() ==> (
                    history.replies[i + 2] matches Reply::Time(start) && history.commands[i + 2]
                        == Command::<T, E>::Callback(
                        IcedSctkEvent::NewEvents(
                            StartCause::WaitCancelled { start, requested_resume: None },
                        ),
                    ))
                }
            },
            ControlFlow::WaitUntil(deadline) => {
                &&& history.commands[i] is Now
                &&& i + 1 < history.replies.len() ==> {
                    &&& history.replies[i + 1] matches Reply::Time(start)
                    &&& history.commands[i + 1] matches Command::Dispatch(Some(timeout))
                    &&& n > 0 || start.nanos >= deadline.nanos ==> timeout.nanos == 0
                    &&& n == 0 && start.nanos < deadline.nanos ==> start.nanos + timeout.nanos
                        == deadline.nanos
                    &&& i + 2 < history.replies.len() && history.replies[i + 2]
                        == Reply::Dispatched(Ok(())) ==> {
                        &&& history.commands[i + 2] is Now
                        &&& i + 3 < history.replies.len() ==> {
                            &&& history.replies[i + 3] matches Reply::Time(now)
                            &&& now.nanos < deadline.nanos ==> history.commands[i + 3] == Command::<
                                T,
                                E,
                            >::Callback(
                                IcedSctkEvent::NewEvents(
                                    StartCause::WaitCancelled {
                                        start,
                                        requested_resume: Some(deadline),
                                    },
                                ),
                            )
                            &&& now.nanos >= deadline.nanos ==> history.commands[i + 3]
                                == Command::<T, E>::Callback(
                                IcedSctkEvent::NewEvents(
                                    StartCause::ResumeTimeReached {
                                        start,
                                        requested_resume: deadline,
                                    },
                                ),
                            )
                        }
                    }
                }
            },
            ControlFlow::ExitWithCode(code) => {
                &&& history.commands[i] == Command::<T, E>::Callback(IcedSctkEvent::LoopDestroyed)
                &&& i + 1 < history.replies.len() ==> history.commands[i + 1] == Command::<
                    T,
                    E,
                >::Finish(code)
            },
        },
{
    history_step(history, i);
    if i + 1 < history.replies.len() {
        history_step(history, i + 1);
    }
    if i + 2 < history.replies.len() {
        history_step(history, i + 2);
    }
    if i + 3 < history.replies.len() {
        history_step(history, i + 3);
    }
}

/// A failed dispatch ends the run: the application is told that the loop is over, and the exit
/// code is the one that the system gave to the failure, or 1 if the system gave none or the
/// failure is not one of the system's.
pub proof fn law_failures_end_the_run<T, E>(history: History<T, E>, i: int)
    requires
        history.is_valid(),
        0 <= i < history.replies.len() - 1,
    ensures
        match history.replies[i] {
            Reply::Pending(Err(err)) => {
                &&& history.commands[i] == Command::<T, E>::Callback(IcedSctkEvent::LoopDestroyed)
                &&& history.commands[i + 1] matches Command::Finish(code)
                &&& match queue_failure(err) {
                    QueueFailure::BadMessage => code == 1,
                    QueueFailure::Backend(inner) => match connection_failure(inner) {
                        ConnectionFailure::Protocol => code == 1,
                        ConnectionFailure::Io(io) => {
                            &&& os_code(io) is Some ==> code == os_code(io)->0
                            &&& os_code(io) is None ==> code == 1
                        },
                    },
                }
            },
            Reply::Dispatched(Err(err)) => {
                &&& history.commands[i] == Command::<T, E>::Callback(IcedSctkEvent::LoopDestroyed)
                &&& history.commands[i + 1] matches Command::Finish(code)
                &&& match loop_failure(err) {
                    LoopFailure::InvalidToken => code == 1,
                    LoopFailure::Other => code == 1,
                    LoopFailure::Io(io) => {
                        &&& os_code(io) is Some ==> code == os_code(io)->0
                        &&& os_code(io) is None ==> code == 1
                    },
                }
            },
            _ => true,
        },
{
    history_step(history, i);
    history_step(history, i + 1);
}

/// The events from the compositor are passed on one after the other.
proof fn lemma_sink_run<T, E>(
    history: History<T, E>,
    i: int,
    sink: Seq<SctkEvent<E>>,
    must_redraw: Seq<ObjectId>,
    k: int,
)
    requires
        history.is_valid(),
        0 <= k < sink.len(),
        0 <= i,
        i + k < history.replies.len(),
        history.models[i].phase is NewEvents,
        (LoopModel {
            phase: Phase::SinkEvent,
            state: StateModel { sctk_events: seq![], ..history.models[i].state },
            sink,
            must_redraw,
            ..history.models[i]
        }).steps(history.replies[i], history.models[i + 1], history.commands[i]),
    ensures
        history.commands[i + k] == Command::<T, E>::Callback(IcedSctkEvent::SctkEvent(sink[k])),
        history.models[i + k + 1].phase is SinkEvent,
        history.models[i + k + 1].sink == sink.skip(k + 1),
        history.models[i + k + 1].must_redraw == must_redraw,
        history.models[i + k + 1].state == (StateModel {
            sctk_events: seq![],
            ..history.models[i].state
        }),
    decreases k,
{
    let model = history.models[i + k];
    let reply = history.replies[i + k];
    let after = history.models[i + k + 1];
    let command = history.commands[i + k];
    if k == 0 {
        awake_step(history, i);
        let taken = LoopModel {
            phase: Phase::SinkEvent,
            state: StateModel { sctk_events: seq![], ..model.state },
            sink,
            must_redraw,
            ..model
        };
        law_compositor_events_are_passed_on(taken, reply, after, command);
        assert(sink.drop_first() =~= sink.skip(1));
    } else {
        lemma_sink_run(history, i, sink, must_redraw, k - 1);
        awake_step(history, i + k);
        law_compositor_events_are_passed_on(model, reply, after, command);
        assert(sink.skip(k).drop_first() =~= sink.skip(k + 1));
    }
}

/// No event from the compositor is lost in a turn. Right after the application has been told why
/// the loop woke up it is told about each event that does not ask for a drawing, as it came and
/// in the order in which they came, and of the others each has its surface queued for drawing in
/// that order. The two together are as many as came. Their places are given.
pub proof fn law_no_compositor_event_is_lost<T, E>(history: History<T, E>, i: int) -> (parts: (
    Seq<int>,
    Seq<int>,
))
    requires
        history.is_valid(),
        0 <= i < history.replies.len(),
        history.models[i].phase is NewEvents,
    ensures
        ({
            let events = history.models[i].state.sctk_events;
            let (told, drawn) = parts;
            &&& told.len() + drawn.len() == events.len()
            &&& forall|k: int| 0 <= k < told.len() ==> 0 <= #[trigger] told[k] < events.len()
            &&& forall|k: int| 0 <= k < drawn.len() ==> 0 <= #[trigger] drawn[k] < events.len()
            &&& forall|k: int| 0 <= k < told.len() ==> !(events[#[trigger] told[k]] is Draw)
            &&& forall|k: int| 0 <= k < drawn.len() ==> events[#[trigger] drawn[k]] is Draw
            &&& forall|j: int, k: int|
                #![trigger told[j], told[k]]
                0 <= j < k < told.len() ==> told[j] < told[k]
            &&& forall|j: int, k: int|
                #![trigger drawn[j], drawn[k]]
                0 <= j < k < drawn.len() ==> drawn[j] < drawn[k]
            &&& forall|k: int|
                0 <= k < told.len() && i + k < history.commands.len() ==> history.commands[i + k]
                    == Command::<T, E>::Callback(
                    IcedSctkEvent::SctkEvent(events[#[trigger] told[k]]),
                )
            &&& i + told.len() < history.commands.len() ==> {
                let cleared = history.models[i + told.len() + 1];
                &&& !(cleared.phase is SinkEvent)
                &&& cleared.must_redraw.len() == drawn.len()
                &&& forall|k: int|
                    0 <= k < drawn.len() ==> SctkEvent::<E>::Draw(cleared.must_redraw[k])
                        == events[#[trigger] drawn[k]]
            }
        }),
{
    awake_step(history, i);
    let model = history.models[i];
    let events = model.state.sctk_events;
    let (told, drawn) = law_compositor_events_are_taken_up(
        model,
        history.replies[i],
        history.models[i + 1],
        history.commands[i],
    );
    let sink = Seq::new(told.len(), |k: int| events[told[k]]);
    let must_redraw = Seq::new(drawn.len(), |k: int| events[drawn[k]]->Draw_0);
    assert forall|k: int|
        0 <= k < told.len() && i + k < history.commands.len() implies history.commands[i + k]
        == Command::<T, E>::Callback(IcedSctkEvent::SctkEvent(events[#[trigger] told[k]])) by {
        lemma_sink_run(history, i, sink, must_redraw, k);
    }
    let last = i + told.len();
    if last < history.commands.len() {
        let reply = history.replies[last];
        let ready = if told.len() == 0 {
            LoopModel {
                phase: Phase::SinkEvent,
                state: StateModel { sctk_events: seq![], ..model.state },
                sink,
                must_redraw,
                ..model
            }
        } else {
            lemma_sink_run(history, i, sink, must_redraw, told.len() - 1);
            awake_step(history, last);
            history.models[last]
        };
        assert(ready.sink.len() == 0);
        walked(ready, reply, history.models[last + 1], history.commands[last]);
        lemma_begin_user_events(LoopModel { control_flow: ready.flow_after(reply), ..ready });
    }
    (told, drawn)
}

/// The events that go back to the application go back one after the other.
proof fn lemma_own_run<T, E>(
    history: History<T, E>,
    i: int,
    begun: LoopModel<T, E>,
    first: Seq<Event<T, E>>,
    second: Seq<Event<T, E>>,
    k: int,
)
    requires
        history.is_valid(),
        0 <= k < first.len(),
        0 <= i,
        i + k < history.replies.len(),
        forall|j: int| 0 <= j < first.len() ==> (#[trigger] first[j]) is SctkEvent,
        begun.phase is UserEvent,
        begun.user_events == first + second,
        begun.awaits(history.replies[i]),
        begun.steps(history.replies[i], history.models[i + 1], history.commands[i]),
    ensures
        history.commands[i + k] == Command::<T, E>::Callback(first[k]->SctkEvent_0),
        history.models[i + k + 1].phase is UserEvent,
        history.models[i + k + 1].user_events == first.skip(k + 1) + second,
        history.models[i + k + 1].state == begun.state,
    decreases k,
{
    let reply = history.replies[i + k];
    let after = history.models[i + k + 1];
    let command = history.commands[i + k];
    if k == 0 {
        law_own_events_come_back(begun, reply, after, command, first[0]->SctkEvent_0);
        assert((first + second).drop_first() =~= first.skip(1) + second);
    } else {
        lemma_own_run(history, i, begun, first, second, k - 1);
        awake_step(history, i + k);
        assert((first.skip(k) + second)[0] == first[k]);
        law_own_events_come_back(
            history.models[i + k],
            reply,
            after,
            command,
            first[k]->SctkEvent_0,
        );
        assert((first.skip(k) + second).drop_first() =~= first.skip(k + 1) + second);
    }
}

/// No event that the application sent is lost in a turn. When the events from the compositor
/// have been passed on, the application is given back every event that it sent for that, as it
/// is and in the order in which it sent them; all the others, in that order, are then there to
/// be acted on. Their places are given.
pub proof fn law_no_own_event_is_lost<T, E>(history: History<T, E>, i: int) -> (parts: (
    Seq<int>,
    Seq<int>,
))
    requires
        history.is_valid(),
        0 <= i < history.replies.len(),
        match history.models[i].phase {
            Phase::NewEvents => forall|k: int|
                0 <= k < history.models[i].state.sctk_events.len() ==> (
                #[trigger] history.models[i].state.sctk_events[k]) is Draw,
            Phase::SinkEvent => history.models[i].sink.len() == 0,
            _ => false,
        },
    ensures
        ({
            let events = history.models[i].state.pending_user_events;
            let (first, second) = parts;
            &&& first.len() + second.len() == events.len()
            &&& forall|k: int| 0 <= k < first.len() ==> 0 <= #[trigger] first[k] < events.len()
            &&& forall|k: int| 0 <= k < second.len() ==> 0 <= #[trigger] second[k] < events.len()
            &&& forall|k: int|
                0 <= k < second.len() ==> !(events[#[trigger] second[k]] is SctkEvent)
            &&& forall|j: int, k: int|
                #![trigger first[j], first[k]]
                0 <= j < k < first.len() ==> first[j] < first[k]
            &&& forall|j: int, k: int|
                #![trigger second[j], second[k]]
                0 <= j < k < second.len() ==> second[j] < second[k]
            &&& forall|k: int|
                0 <= k < first.len() && i + k < history.commands.len() ==> (
                events[#[trigger] first[k]] matches Event::SctkEvent(event)
                    && history.commands[i + k] == Command::<T, E>::Callback(event))
            &&& 0 < first.len() <= history.commands.len() - i ==> {
                let returned = history.models[i + first.len()];
                &&& returned.phase is UserEvent
                &&& returned.state.pending_user_events.len() == 0
                &&& returned.user_events.len() == second.len()
                &&& forall|k: int|
                    0 <= k < second.len() ==> returned.user_events[k] == events[
                    #[trigger] second[k]]
            }
        }),
{
    awake_step(history, i);
    let model = history.models[i];
    let reply = history.replies[i];
    let events = model.state.pending_user_events;
    let ready = if model.phase is NewEvents {
        let (told, drawn) = law_compositor_events_are_taken_up(
            model,
            reply,
            history.models[i + 1],
            history.commands[i],
        );
        if told.len() > 0 {
            assert(model.state.sctk_events[told[0]] is Draw);
        }
        LoopModel {
            phase: Phase::SinkEvent,
            state: StateModel { sctk_events: seq![], ..model.state },
            sink: Seq::new(told.len(), |k: int| model.state.sctk_events[told[k]]),
            must_redraw: Seq::new(
                drawn.len(),
                |k: int| model.state.sctk_events[drawn[k]]->Draw_0,
            ),
            ..model
        }
    } else {
        model
    };
    let (first, second) = law_own_events_are_taken_up(
        ready,
        reply,
        history.models[i + 1],
        history.commands[i],
    );
    let handed = Seq::new(first.len(), |k: int| events[first[k]]);
    let rest = Seq::new(second.len(), |k: int| events[second[k]]);
    let begun = LoopModel {
        phase: Phase::UserEvent,
        state: StateModel { pending_user_events: seq![], ..ready.state },
        user_events: handed + rest,
        ..ready
    };
    assert forall|j: int| 0 <= j < handed.len() implies (#[trigger] handed[j]) is SctkEvent by {
        assert(events[first[j]] is SctkEvent);
    }
    assert forall|k: int| 0 <= k < first.len() && i + k < history.commands.len() implies (
    events[#[trigger] first[k]] matches Event::SctkEvent(event) && history.commands[i + k]
        == Command::<T, E>::Callback(event)) by {
        lemma_own_run(history, i, begun, handed, rest, k);
        assert(handed[k] == events[first[k]]);
    }
    if 0 < first.len() <= history.commands.len() - i {
        lemma_own_run(history, i, begun, handed, rest, first.len() - 1);
        assert(handed.skip(first.len() as int) + rest =~= rest);
    }
    (first, second)
}

/// A request that waits for its redraw gets it before the turn ends.
proof fn lemma_waiting_request<T, E>(
    history: History<T, E>,
    n: int,
    j: int,
    model: LoopModel<T, E>,
    entry: (ObjectId, SurfaceUserRequest),
) -> (k: int)
    requires
        history.is_valid(),
        0 <= n <= j < history.commands.len(),
        history.commands[j] is Flush,
        model.phase is Redraw || model.phase is Commit,
        model.awaits(history.replies[n]),
        model.steps(history.replies[n], history.models[n + 1], history.commands[n]),
        model.redraws.contains(entry),
    ensures
        n <= k < j,
        history.commands[k] == Command::<T, E>::Callback(IcedSctkEvent::RedrawRequested(entry.0)),
        entry.1.refresh_frame ==> n < k && history.commands[k - 1] == Command::<
            T,
            E,
        >::RefreshFrame(entry.0),
    decreases j - n,
{
    law_surfaces_are_redrawn_in_turn(
        model,
        history.replies[n],
        history.models[n + 1],
        history.commands[n],
    );
    let waiting = model.redraws;
    let next = history.models[n + 1];
    assert(waiting[0] != entry ==> waiting.drop_first().contains(entry)) by {
        let i = choose|i: int| 0 <= i < waiting.len() && waiting[i] == entry;
        if i > 0 {
            assert(waiting.drop_first()[i - 1] == entry);
        }
    }
    if waiting[0].1.refresh_frame {
        awake_step(history, n + 1);
        law_refreshed_window_is_redrawn(
            next,
            history.replies[n + 1],
            history.models[n + 2],
            history.commands[n + 1],
            waiting[0].0,
        );
        if waiting[0] == entry {
            n + 1
        } else {
            awake_step(history, n + 2);
            lemma_waiting_request(history, n + 2, j, history.models[n + 2], entry)
        }
    } else if waiting[0] == entry {
        n
    } else {
        awake_step(history, n + 1);
        lemma_waiting_request(history, n + 1, j, next, entry)
    }
}

/// Every entry in which a redraw was requested, and every entry in which the frame is to be
/// refreshed, whatever else was asked for in it, has the application told to redraw its surface
/// before the turn ends. Where the frame is to be refreshed that is done right before. The place
/// of the command is given.
pub proof fn law_every_request_is_redrawn<T, E>(
    history: History<T, E>,
    i: int,
    j: int,
    key: u64,
) -> (k: int)
    requires
        history.is_valid(),
        0 <= i <= j < history.commands.len(),
        history.models[i].phase is MainEventsCleared,
        history.commands[j] is Flush,
        history.models[i].state.window_user_requests.contains_key(key),
        history.models[i].state.window_user_requests[key].redraw_requested
            || history.models[i].state.window_user_requests[key].refresh_frame,
    ensures
        i <= k < j,
        history.commands[k] == Command::<T, E>::Callback(
            IcedSctkEvent::RedrawRequested(ObjectId(key)),
        ),
        history.models[i].state.window_user_requests[key].refresh_frame ==> i < k
            && history.commands[k - 1] == Command::<T, E>::RefreshFrame(ObjectId(key)),
{
    awake_step(history, i);
    let model = history.models[i];
    let requests = model.state.window_user_requests;
    let after = history.models[i + 1];
    let (asked, stay) = law_requests_are_taken_up(
        model,
        history.replies[i],
        after,
        history.commands[i],
    );
    let taken = LoopModel {
        phase: Phase::Redraw,
        state: StateModel {
            window_user_requests: after.state.window_user_requests,
            ..model.state
        },
        redraws: asked,
        must_redraw: Seq::new(stay.len(), |k: int| model.must_redraw[stay[k]]),
        ..model
    };
    assert(asked.contains((ObjectId(key), requests[key])));
    lemma_waiting_request(history, i, j, taken, (ObjectId(key), requests[key]))
}

/// A drawing that waits for its redraw gets it before the turn ends.
proof fn lemma_waiting_drawing<T, E>(
    history: History<T, E>,
    n: int,
    j: int,
    model: LoopModel<T, E>,
    surface: ObjectId,
    surfaces: Seq<SctkLayerSurface>,
) -> (k: int)
    requires
        history.is_valid(),
        0 <= n <= j < history.commands.len(),
        history.commands[j] is Flush,
        model.phase is Redraw || model.phase is Commit,
        model.awaits(history.replies[n]),
        model.steps(history.replies[n], history.models[n + 1], history.commands[n]),
        model.must_redraw.contains(surface),
        model.state.layer_surfaces == surfaces,
    ensures
        n <= k < j,
        history.commands[k] == Command::<T, E>::Callback(IcedSctkEvent::RedrawRequested(surface)),
        (exists|l: int| 0 <= l < surfaces.len() && (#[trigger] surfaces[l]).surface == surface)
            ==> k + 1 < j && history.commands[k + 1] == Command::<T, E>::Commit(surface),
    decreases j - n,
{
    law_surfaces_are_redrawn_in_turn(
        model,
        history.replies[n],
        history.models[n + 1],
        history.commands[n],
    );
    let waiting = model.must_redraw;
    let next = history.models[n + 1];
    awake_step(history, n + 1);
    if model.redraws.len() > 0 {
        if model.redraws[0].1.refresh_frame {
            law_refreshed_window_is_redrawn(
                next,
                history.replies[n + 1],
                history.models[n + 2],
                history.commands[n + 1],
                model.redraws[0].0,
            );
            awake_step(history, n + 2);
            lemma_waiting_drawing(history, n + 2, j, history.models[n + 2], surface, surfaces)
        } else {
            lemma_waiting_drawing(history, n + 1, j, next, surface, surfaces)
        }
    } else {
        law_drawn_layer_surfaces_are_committed(
            next,
            history.replies[n + 1],
            history.models[n + 2],
            history.commands[n + 1],
            waiting[0],
        );
        if waiting[0] == surface {
            n
        } else {
            assert(waiting.drop_first().contains(surface)) by {
                let i = choose|i: int| 0 <= i < waiting.len() && waiting[i] == surface;
                assert(waiting.drop_first()[i - 1] == surface);
            }
            if exists|l: int|
                0 <= l < surfaces.len() && (#[trigger] surfaces[l]).surface == waiting[0] {
                awake_step(history, n + 2);
                lemma_waiting_drawing(history, n + 2, j, history.models[n + 2], surface, surfaces)
            } else {
                let ready = LoopModel { phase: Phase::Redraw, ..next };
                lemma_waiting_drawing(history, n + 1, j, ready, surface, surfaces)
            }
        }
    }
}

/// Every drawing that the compositor wants has the application told to redraw its surface before
/// the turn ends, unless it is the first drawing of a surface for which there is an entry among
/// the requests. If a layer surface is behind it, it is committed right after. The place of the
/// command is given.
pub proof fn law_every_drawing_is_redrawn<T, E>(
    history: History<T, E>,
    i: int,
    j: int,
    p: int,
) -> (k: int)
    requires
        history.is_valid(),
        0 <= i <= j < history.commands.len(),
        history.models[i].phase is MainEventsCleared,
        history.commands[j] is Flush,
        0 <= p < history.models[i].must_redraw.len(),
        !history.models[i].state.window_user_requests.contains_key(
            history.models[i].must_redraw[p].0,
        ) || exists|q: int|
            0 <= q < p && #[trigger] history.models[i].must_redraw[q]
                == history.models[i].must_redraw[p],
    ensures
        i <= k < j,
        history.commands[k] == Command::<T, E>::Callback(
            IcedSctkEvent::RedrawRequested(history.models[i].must_redraw[p]),
        ),
        (exists|l: int|
            0 <= l < history.models[i].state.layer_surfaces.len() && (
            #[trigger] history.models[i].state.layer_surfaces[l]).surface
                == history.models[i].must_redraw[p]) ==> k + 1 < j && history.commands[k + 1]
            == Command::<T, E>::Commit(history.models[i].must_redraw[p]),
{
    awake_step(history, i);
    let model = history.models[i];
    let after = history.models[i + 1];
    let (asked, stay) = law_requests_are_taken_up(
        model,
        history.replies[i],
        after,
        history.commands[i],
    );
    let left = Seq::new(stay.len(), |k: int| model.must_redraw[stay[k]]);
    let taken = LoopModel {
        phase: Phase::Redraw,
        state: StateModel {
            window_user_requests: after.state.window_user_requests,
            ..model.state
        },
        redraws: asked,
        must_redraw: left,
        ..model
    };
    let drawing = model.must_redraw[p];
    assert(stay.contains(p));
    let k = choose|k: int| 0 <= k < stay.len() && stay[k] == p;
    assert(left[k] == drawing);
    lemma_waiting_drawing(history, i, j, taken, drawing, model.state.layer_surfaces)
}

} // verus!
