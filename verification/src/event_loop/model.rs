//! The rules of the loop: from the state and the answer to a command, the next state and the
//! next command.

use calloop::channel::Sender;
use vstd::prelude::*;

use crate::application::Event;
use crate::event_loop::command::{Command, Reply};
use crate::event_loop::control_flow::ControlFlow;
use crate::event_loop::failure::{
    loop_failure, loop_failure_code, queue_failure, queue_failure_code,
};
use crate::event_loop::queues::{
    draws_nothing, drawn_surfaces, in_turn, left_to_draw, lists, settled, wants_redraw,
};
use crate::event_loop::state::{first_where, has_window, with_id, with_surface, StateModel};
use crate::layer_surface::{Action, LayerSettings};
use crate::sctk_event::{
    IcedSctkEvent, LayerSurfaceEventVariant, SctkEvent, StartCause, SurfaceUserRequest,
};
use crate::time::{Duration, Instant};
use crate::window::{Id, ObjectId};

verus! {

/// The command that the loop waits to hear of.
#[derive(Debug, Clone, Copy)]
pub enum Phase {
    /// No run is under way.
    Idle,
    /// The application is told that the loop starts.
    Init,
    /// A turn begins: what is buffered is sent.
    Flush,
    /// The messages that wait already are dispatched.
    Pending,
    /// Events are dispatched without waiting.
    PollDispatch,
    /// Events are waited for.
    WaitDispatch,
    /// The clock is read after the wait.
    WaitTime,
    /// The clock is read before a wait with a deadline.
    DeadlineStart { deadline: Instant, instant_wakeup: bool },
    /// Events are waited for until the deadline.
    DeadlineDispatch { start: Instant, deadline: Instant },
    /// The clock is read after a wait with a deadline.
    DeadlineTime { start: Instant, deadline: Instant },
    /// The application is told why the loop woke up.
    NewEvents,
    /// The application is told about an event from the compositor.
    SinkEvent,
    /// The application is told about one of its own events, or what came of it.
    UserEvent,
    /// A layer surface is created.
    LayerSurface { id: Id, settings: LayerSettings },
    /// A request is made of a layer surface, or it is given up.
    SurfaceRequest,
    /// The application is told that a layer surface is gone.
    SurfaceDone { surface: ObjectId },
    /// The application is told that the events of the turn have been handed out.
    MainEventsCleared,
    /// The frame around a window is seen to.
    Refresh { surface: ObjectId },
    /// The application is told to redraw a surface that a redraw was requested for.
    Redraw,
    /// The application is told to redraw a surface that the compositor wants drawn.
    MustRedraw { surface: ObjectId },
    /// What the application drew is committed.
    Commit,
    /// The application is told that the redraws of the turn have been asked for.
    RedrawEventsCleared,
    /// The application is told that the loop is over.
    LoopDestroyed { code: i32 },
}

impl Phase {
    /// Whether the application is told about an event.
    pub open spec fn is_callback(self) -> bool {
        ||| self is Init
        ||| self is NewEvents
        ||| self is LoopDestroyed
        ||| self.is_sticky()
    }

    /// Whether the application is told about an event and cannot take back an exit.
    pub open spec fn is_sticky(self) -> bool {
        ||| self is SinkEvent
        ||| self is UserEvent
        ||| self is SurfaceDone
        ||| self is MainEventsCleared
        ||| self is Redraw
        ||| self is MustRedraw
        ||| self is RedrawEventsCleared
    }

    /// Whether the application is told about an event and cannot take back an exit.
    pub fn keeps_exit(self) -> (keeps: bool)
        ensures
            keeps == self.is_sticky(),
    {
        match self {
            Phase::SinkEvent
            | Phase::UserEvent
            | Phase::SurfaceDone { .. }
            | Phase::MainEventsCleared
            | Phase::Redraw
            | Phase::MustRedraw { .. }
            | Phase::RedrawEventsCleared => true,
            _ => false,
        }
    }
}

/// The loop between two commands.
#[verifier::ext_equal]
#[verifier::reject_recursive_types(T)]
#[verifier::reject_recursive_types(E)]
pub struct LoopModel<T, E> {
    /// The channel that the application's events go into.
    pub channel: Sender<Event<T, E>>,
    /// What the handlers of the compositor's messages fill.
    pub state: StateModel<T, E>,
    /// What the application wants next.
    pub control_flow: ControlFlow,
    /// The command that was given last.
    pub phase: Phase,
    /// The events from the compositor that the application has not been told about.
    pub sink: Seq<SctkEvent<E>>,
    /// The events of the application that have not been worked through.
    pub user_events: Seq<Event<T, E>>,
    /// The requests for a redraw that the application has not been told about.
    pub redraws: Seq<(ObjectId, SurfaceUserRequest)>,
    /// The surfaces that the compositor wants drawn.
    pub must_redraw: Seq<ObjectId>,
}

/// What an event of the application leads to: the state after it, the phase that follows and
/// the command; nothing if there is nothing to do.
pub open spec fn act<T, E>(state: StateModel<T, E>, event: Event<T, E>) -> Option<
    (StateModel<T, E>, Phase, Command<T, E>),
> {
    match event {
        Event::SctkEvent(event) => Some((state, Phase::UserEvent, Command::Callback(event))),
        Event::LayerSurface(action) => act_on_surface(state, action),
        Event::SetCursor(_) => None,
    }
}

/// The event that tells the application what became of a layer surface.
pub open spec fn surface_event<T, E>(
    variant: LayerSurfaceEventVariant,
    id: ObjectId,
) -> IcedSctkEvent<T, E> {
    IcedSctkEvent::SctkEvent(SctkEvent::LayerSurfaceEvent { variant, id })
}

/// A size that the compositor is told: 0 leaves the choice to it.
pub open spec fn size_or_zero(size: Option<u32>) -> u32 {
    match size {
        Some(size) => size,
        None => 0,
    }
}

/// What an action on a layer surface leads to. An action on a surface that does not exist
/// leads to nothing.
pub open spec fn act_on_surface<T, E>(state: StateModel<T, E>, action: Action) -> Option<
    (StateModel<T, E>, Phase, Command<T, E>),
> {
    let surfaces = state.layer_surfaces;
    match action {
        Action::LayerSurface { builder } => Some(
            (
                state,
                Phase::LayerSurface { id: builder.id, settings: builder.settings },
                Command::CreateLayerSurface(builder),
            ),
        ),
        Action::Destroy(id) => match first_where(surfaces, with_id(id)) {
            Some(at) => Some(
                (
                    state.without_layer_surface(at),
                    Phase::SurfaceDone { surface: surfaces[at].surface },
                    Command::Callback(
                        surface_event(LayerSurfaceEventVariant::Done, surfaces[at].surface),
                    ),
                ),
            ),
            None => None,
        },
        Action::Size { id, width, height } => match first_where(surfaces, with_id(id)) {
            Some(at) => Some(
                (
                    state.with_settings(
                        at,
                        LayerSettings {
                            requested_size: (width, height),
                            ..surfaces[at].settings
                        },
                    ),
                    Phase::SurfaceRequest,
                    Command::SetSize {
                        surface: surfaces[at].surface,
                        width: size_or_zero(width),
                        height: size_or_zero(height),
                    },
                ),
            ),
            None => None,
        },
        Action::Anchor { id, anchor } => match first_where(surfaces, with_id(id)) {
            Some(at) => Some(
                (
                    state.with_settings(at, LayerSettings { anchor, ..surfaces[at].settings }),
                    Phase::SurfaceRequest,
                    Command::SetAnchor { surface: surfaces[at].surface, anchor },
                ),
            ),
            None => None,
        },
        Action::ExclusiveZone { id, exclusive_zone } => match first_where(surfaces, with_id(id)) {
            Some(at) => Some(
                (
                    state.with_settings(
                        at,
                        LayerSettings { exclusive_zone, ..surfaces[at].settings },
                    ),
                    Phase::SurfaceRequest,
                    Command::SetExclusiveZone { surface: surfaces[at].surface, exclusive_zone },
                ),
            ),
            None => None,
        },
        Action::Margin { id, margin } => match first_where(surfaces, with_id(id)) {
            Some(at) => Some(
                (
                    state.with_settings(at, LayerSettings { margin, ..surfaces[at].settings }),
                    Phase::SurfaceRequest,
                    Command::SetMargin {
                        surface: surfaces[at].surface,
                        top: margin.top,
                        right: margin.right,
                        bottom: margin.bottom,
                        left: margin.left,
                    },
                ),
            ),
            None => None,
        },
        Action::KeyboardInteractivity { id, keyboard_interactivity } => match first_where(
            surfaces,
            with_id(id),
        ) {
            Some(at) => Some(
                (
                    state.with_settings(
                        at,
                        LayerSettings { keyboard_interactivity, ..surfaces[at].settings },
                    ),
                    Phase::SurfaceRequest,
                    Command::SetKeyboardInteractivity {
                        surface: surfaces[at].surface,
                        keyboard_interactivity,
                    },
                ),
            ),
            None => None,
        },
        Action::Layer { id, layer } => match first_where(surfaces, with_id(id)) {
            Some(at) => Some(
                (
                    state.with_settings(at, LayerSettings { layer, ..surfaces[at].settings }),
                    Phase::SurfaceRequest,
                    Command::SetLayer { surface: surfaces[at].surface, layer },
                ),
            ),
            None => None,
        },
    }
}

/// How long to wait when the application asked to be woken at `deadline`.
pub open spec fn time_left(start: Instant, deadline: Instant, instant_wakeup: bool) -> Duration {
    if deadline.nanos > start.nanos && !instant_wakeup {
        Duration { nanos: (deadline.nanos - start.nanos) as u128 }
    } else {
        Duration::zero()
    }
}

/// Why the loop woke up at `now` from a wait for `deadline` that began at `start`.
pub open spec fn cause_at(start: Instant, deadline: Instant, now: Instant) -> StartCause {
    if now.nanos < deadline.nanos {
        StartCause::WaitCancelled { start, requested_resume: Some(deadline) }
    } else {
        StartCause::ResumeTimeReached { start, requested_resume: deadline }
    }
}

impl<T, E> LoopModel<T, E> {
    /// The loop as it is before the first run.
    pub open spec fn idle(channel: Sender<Event<T, E>>) -> Self {
        LoopModel {
            channel,
            state: StateModel::empty(),
            control_flow: ControlFlow::Poll,
            phase: Phase::Idle,
            sink: seq![],
            user_events: seq![],
            redraws: seq![],
            must_redraw: seq![],
        }
    }

    /// The start of a run: the loop polls until the application says otherwise, and nothing is
    /// left of an earlier run but the state.
    pub open spec fn start(self) -> (Self, Command<T, E>) {
        (
            LoopModel { phase: Phase::Init, state: self.state, ..Self::idle(self.channel) },
            Command::Callback(IcedSctkEvent::NewEvents(StartCause::Init)),
        )
    }

    /// A turn begins.
    pub open spec fn begin_turn(self) -> (Self, Command<T, E>) {
        (LoopModel { phase: Phase::Flush, ..self }, Command::Flush)
    }

    /// The loop is left.
    pub open spec fn destroy(self, code: i32) -> (Self, Command<T, E>) {
        (
            LoopModel { phase: Phase::LoopDestroyed { code }, ..self },
            Command::Callback(IcedSctkEvent::LoopDestroyed),
        )
    }

    /// The messages that waited already have been dispatched: what the application wants now
    /// decides. Where any were dispatched the loop does not wait.
    pub open spec fn decide(self, instant_wakeup: bool) -> (Self, Command<T, E>) {
        match self.control_flow {
            ControlFlow::ExitWithCode(code) => self.destroy(code),
            ControlFlow::Poll => (
                LoopModel { phase: Phase::PollDispatch, ..self },
                Command::Dispatch(Some(Duration::zero())),
            ),
            ControlFlow::Wait => (
                LoopModel { phase: Phase::WaitDispatch, ..self },
                Command::Dispatch(
                    if instant_wakeup {
                        Some(Duration::zero())
                    } else {
                        None
                    },
                ),
            ),
            ControlFlow::WaitUntil(deadline) => (
                LoopModel { phase: Phase::DeadlineStart { deadline, instant_wakeup }, ..self },
                Command::Now,
            ),
        }
    }

    /// The application is told why the loop woke up.
    pub open spec fn wake(self, cause: StartCause) -> (Self, Command<T, E>) {
        (
            LoopModel { phase: Phase::NewEvents, ..self },
            Command::Callback(IcedSctkEvent::NewEvents(cause)),
        )
    }

    /// The events from the compositor are taken up.
    pub open spec fn begin_sink(self) -> (Self, Command<T, E>) {
        LoopModel {
            state: StateModel { sctk_events: seq![], ..self.state },
            sink: self.state.sctk_events.filter(draws_nothing()),
            must_redraw: drawn_surfaces(self.state.sctk_events),
            ..self
        }.next_sink_event()
    }

    /// The application is told about the next event from the compositor.
    pub open spec fn next_sink_event(self) -> (Self, Command<T, E>) {
        if self.sink.len() > 0 {
            (
                LoopModel { phase: Phase::SinkEvent, sink: self.sink.drop_first(), ..self },
                Command::Callback(IcedSctkEvent::SctkEvent(self.sink.first())),
            )
        } else {
            self.begin_user_events()
        }
    }

    /// The application's events are taken up.
    pub open spec fn begin_user_events(self) -> (Self, Command<T, E>) {
        LoopModel {
            state: StateModel { pending_user_events: seq![], ..self.state },
            user_events: in_turn(self.state.pending_user_events),
            ..self
        }.next_user_event()
    }

    /// The next of the application's events that leads to something is worked through.
    pub open spec fn next_user_event(self) -> (Self, Command<T, E>)
        decreases self.user_events.len(),
    {
        if self.user_events.len() > 0 {
            let rest = self.user_events.drop_first();
            match act(self.state, self.user_events.first()) {
                Some((state, phase, command)) => (
                    LoopModel { state, phase, user_events: rest, ..self },
                    command,
                ),
                None => LoopModel { user_events: rest, ..self }.next_user_event(),
            }
        } else {
            (
                LoopModel { phase: Phase::MainEventsCleared, ..self },
                Command::Callback(IcedSctkEvent::MainEventsCleared),
            )
        }
    }

    /// The layer surface has been created.
    pub open spec fn created(self, id: Id, settings: LayerSettings, surface: ObjectId) -> (
        Self,
        Command<T, E>,
    ) {
        (
            LoopModel {
                state: self.state.with_layer_surface(id, settings, surface),
                phase: Phase::UserEvent,
                ..self
            },
            Command::Callback(
                surface_event(LayerSurfaceEventVariant::Created(surface, id), surface),
            ),
        )
    }

    /// The requests are taken up, in the order in which they are walked.
    pub open spec fn begin_redraws(self, order: Seq<(ObjectId, SurfaceUserRequest)>) -> (
        Self,
        Command<T, E>,
    ) {
        LoopModel {
            state: StateModel {
                window_user_requests: settled(self.state.window_user_requests),
                ..self.state
            },
            redraws: order.filter(wants_redraw()),
            must_redraw: left_to_draw(self.must_redraw, order),
            ..self
        }.next_redraw()
    }

    /// The application is told to redraw a surface that a redraw was requested for.
    pub open spec fn redraw(self, surface: ObjectId) -> (Self, Command<T, E>) {
        (
            LoopModel { phase: Phase::Redraw, ..self },
            Command::Callback(IcedSctkEvent::RedrawRequested(surface)),
        )
    }

    /// The next surface is redrawn. Where its frame is to be refreshed, that comes first.
    pub open spec fn next_redraw(self) -> (Self, Command<T, E>) {
        if self.redraws.len() > 0 {
            let (surface, request) = self.redraws.first();
            let rest = LoopModel { redraws: self.redraws.drop_first(), ..self };
            if request.refresh_frame {
                (
                    LoopModel { phase: Phase::Refresh { surface }, ..rest },
                    Command::RefreshFrame(surface),
                )
            } else {
                rest.redraw(surface)
            }
        } else if self.must_redraw.len() > 0 {
            (
                LoopModel {
                    phase: Phase::MustRedraw { surface: self.must_redraw.first() },
                    must_redraw: self.must_redraw.drop_first(),
                    ..self
                },
                Command::Callback(IcedSctkEvent::RedrawRequested(self.must_redraw.first())),
            )
        } else {
            (
                LoopModel { phase: Phase::RedrawEventsCleared, ..self },
                Command::Callback(IcedSctkEvent::RedrawEventsCleared),
            )
        }
    }

    /// The application has redrawn a surface that the compositor wants drawn: a layer surface
    /// is committed.
    pub open spec fn drawn(self, surface: ObjectId) -> (Self, Command<T, E>) {
        if first_where(self.state.layer_surfaces, with_surface(surface)) is Some {
            (LoopModel { phase: Phase::Commit, ..self }, Command::Commit(surface))
        } else {
            self.next_redraw()
        }
    }

    /// Whether this is an answer to the command that was given last. A frame can be refreshed
    /// only around a window that exists.
    pub open spec fn awaits(self, reply: Reply) -> bool {
        match self.phase {
            Phase::Idle => false,
            Phase::Flush | Phase::SurfaceRequest | Phase::Commit => reply is Done,
            Phase::Pending => reply is Pending,
            Phase::PollDispatch | Phase::WaitDispatch | Phase::DeadlineDispatch { .. } => {
                reply is Dispatched
            },
            Phase::WaitTime | Phase::DeadlineStart { .. } | Phase::DeadlineTime { .. } => {
                reply is Time
            },
            Phase::LayerSurface { .. } => reply is Surface,
            Phase::Refresh { surface } => {
                reply is Done && has_window(self.state.windows, surface)
            },
            _ => reply is Returned,
        }
    }

    /// The control flow after an answer: what the application left behind. Within a turn an
    /// exit that was in force before stays.
    pub open spec fn flow_after(self, reply: Reply) -> ControlFlow {
        match reply {
            Reply::Returned(proposed) => if self.phase.is_sticky() {
                self.control_flow.sticky(proposed)
            } else {
                proposed
            },
            _ => self.control_flow,
        }
    }

    /// What follows an answer, where `order` is the order in which the requests are walked if
    /// they are.
    pub open spec fn next(self, reply: Reply, order: Seq<(ObjectId, SurfaceUserRequest)>) -> (
        Self,
        Command<T, E>,
    ) {
        let after = LoopModel { control_flow: self.flow_after(reply), ..self };
        match (self.phase, reply) {
            (Phase::Init, _) => after.begin_turn(),
            (Phase::Flush, _) => (
                LoopModel { phase: Phase::Pending, ..after },
                Command::DispatchPending,
            ),
            (Phase::Pending, Reply::Pending(Ok(dispatched))) => after.decide(dispatched > 0),
            (Phase::Pending, Reply::Pending(Err(err))) => after.destroy(
                queue_failure_code(queue_failure(err)),
            ),
            (_, Reply::Dispatched(Err(err))) => after.destroy(
                loop_failure_code(loop_failure(err)),
            ),
            (Phase::PollDispatch, _) => after.wake(StartCause::Poll),
            (Phase::WaitDispatch, _) => (
                LoopModel { phase: Phase::WaitTime, ..after },
                Command::Now,
            ),
            (Phase::WaitTime, Reply::Time(start)) => after.wake(
                StartCause::WaitCancelled { start, requested_resume: None },
            ),
            (Phase::DeadlineStart { deadline, instant_wakeup }, Reply::Time(start)) => (
                LoopModel { phase: Phase::DeadlineDispatch { start, deadline }, ..after },
                Command::Dispatch(Some(time_left(start, deadline, instant_wakeup))),
            ),
            (Phase::DeadlineDispatch { start, deadline }, _) => (
                LoopModel { phase: Phase::DeadlineTime { start, deadline }, ..after },
                Command::Now,
            ),
            (Phase::DeadlineTime { start, deadline }, Reply::Time(now)) => after.wake(
                cause_at(start, deadline, now),
            ),
            (Phase::NewEvents, _) => after.begin_sink(),
            (Phase::SinkEvent, _) => after.next_sink_event(),
            (Phase::UserEvent, _) => after.next_user_event(),
            (Phase::LayerSurface { id, settings }, Reply::Surface(surface)) => after.created(
                id,
                settings,
                surface,
            ),
            (Phase::SurfaceRequest, _) => after.next_user_event(),
            (Phase::SurfaceDone { surface }, _) => (
                LoopModel { phase: Phase::SurfaceRequest, ..after },
                Command::DropLayerSurface(surface),
            ),
            (Phase::MainEventsCleared, _) => after.begin_redraws(order),
            (Phase::Refresh { surface }, _) => after.redraw(surface),
            (Phase::Redraw, _) => after.next_redraw(),
            (Phase::MustRedraw { surface }, _) => after.drawn(surface),
            (Phase::Commit, _) => after.next_redraw(),
            (Phase::RedrawEventsCleared, _) => after.begin_turn(),
            (Phase::LoopDestroyed { code }, _) => (
                LoopModel { phase: Phase::Idle, ..after },
                Command::Finish(code),
            ),
            _ => (after, Command::Flush),
        }
    }

    /// Whether `after` and `command` can follow an answer. Only the order in which the requests
    /// are walked is open.
    pub open spec fn steps(self, reply: Reply, after: Self, command: Command<T, E>) -> bool {
        exists|order: Seq<(ObjectId, SurfaceUserRequest)>|
            (self.phase is MainEventsCleared ==> lists(order, self.state.window_user_requests))
                && #[trigger] self.next(reply, order) == (after, command)
    }

    /// Keeping an exit before the answer is given changes nothing about what follows.
    pub proof fn lemma_sticky_twice(self, proposed: ControlFlow, after: Self, command: Command<T, E>)
        requires
            self.phase.is_sticky(),
        ensures
            self.steps(Reply::Returned(self.control_flow.sticky(proposed)), after, command)
                == self.steps(Reply::Returned(proposed), after, command),
    {
        let kept = Reply::Returned(self.control_flow.sticky(proposed));
        let free = Reply::Returned(proposed);
        assert forall|order: Seq<(ObjectId, SurfaceUserRequest)>|
            #[trigger] self.next(kept, order) == self.next(free, order) by {}
        assert forall|order: Seq<(ObjectId, SurfaceUserRequest)>|
            #[trigger] self.next(free, order) == self.next(kept, order) by {}
    }
}

} // verus!
