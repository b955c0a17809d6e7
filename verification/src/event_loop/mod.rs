//! The event loop.

use std::collections::VecDeque;

use calloop::channel::Sender;
use vstd::pervasive::unreached;
use vstd::prelude::*;

use crate::application::Event;
use crate::layer_surface::{Action, IcedLayerSurface, LayerSettings, SctkLayerSurface};
use crate::sctk_event::{
    IcedSctkEvent, LayerSurfaceEventVariant, SctkEvent, StartCause, SurfaceUserRequest,
};
use crate::time::{Duration, Instant};
use crate::window::{Id, ObjectId};

use self::command::{Command, Reply};
use self::control_flow::ControlFlow;
use self::failure::{raw_os_err, raw_queue_err};
use self::model::{LoopModel, Phase};
use self::proxy::Proxy;
use self::queues::{
    collect_requested, forget_requested, lists, order_events, split_draws, take_requests,
};
use self::state::{has_layer_surface, position_of_id, SctkState};

pub mod command;
pub mod control_flow;
pub mod deliveries;
pub mod failure;
pub mod laws;
pub mod model;
pub mod places;
pub mod proxy;
pub mod queues;
pub mod redraw_laws;
pub mod run_laws;
pub mod state;
pub mod step_laws;
pub mod surface_laws;
pub mod turn_laws;

verus! {

/// What the loop supports beyond the core protocol: nothing so far.
#[derive(Debug, Default, Clone, Copy)]
pub struct Features {}

/// The event loop of a Wayland client, without its input and output.
///
/// [`run_return`](SctkEventLoop::run_return) starts a run and gives the first command;
/// [`resume`](SctkEventLoop::resume) takes the answer to a command and gives the next one,
/// until [`Command::Finish`].
#[verifier::reject_recursive_types(T)]
#[verifier::reject_recursive_types(E)]
pub struct SctkEventLoop<T, E> {
    features: Features,
    user_events_sender: Sender<Event<T, E>>,
    state: SctkState<T, E>,
    control_flow: ControlFlow,
    phase: Phase,
    sink: VecDeque<SctkEvent<E>>,
    user_events: VecDeque<Event<T, E>>,
    redraws: VecDeque<(ObjectId, SurfaceUserRequest)>,
    must_redraw: VecDeque<ObjectId>,
}

impl<T, E> View for SctkEventLoop<T, E> {
    type V = LoopModel<T, E>;

    closed spec fn view(&self) -> LoopModel<T, E> {
        LoopModel {
            channel: self.user_events_sender,
            state: self.state@,
            control_flow: self.control_flow,
            phase: self.phase,
            sink: self.sink@,
            user_events: self.user_events@,
            redraws: self.redraws@,
            must_redraw: self.must_redraw@,
        }
    }
}

impl<T, E> SctkEventLoop<T, E> {
    /// A loop that has not run, with nothing in its state. The application sends its events
    /// through `user_events_sender`; what comes out at the other end is handed to
    /// [`SctkState::handle_channel_event`].
    pub fn new(user_events_sender: Sender<Event<T, E>>) -> (event_loop: Self)
        ensures
            event_loop@ == LoopModel::<T, E>::idle(user_events_sender),
    {
        SctkEventLoop {
            features: Features {  },
            user_events_sender,
            state: SctkState::new(),
            control_flow: ControlFlow::Poll,
            phase: Phase::Idle,
            sink: VecDeque::new(),
            user_events: VecDeque::new(),
            redraws: VecDeque::new(),
            must_redraw: VecDeque::new(),
        }
    }

    /// The state that the loop and the handlers of the compositor's messages share.
    pub closed spec fn shared(&self) -> SctkState<T, E> {
        self.state
    }

    /// A proxy through which the application can send events to this loop.
    pub fn proxy(&self) -> (proxy: Proxy<Event<T, E>>)
        ensures
            proxy.channel() == self@.channel,
    {
        Proxy::new(self.user_events_sender.clone())
    }

    /// What the loop supports beyond the core protocol.
    pub fn features(&self) -> (features: Features)
        ensures
            features == (Features {  }),
    {
        self.features
    }

    /// The state, to be looked at.
    pub fn state(&self) -> (state: &SctkState<T, E>)
        ensures
            *state == self.shared(),
            state@ == self@.state,
    {
        &self.state
    }

    /// The state, for the handlers of the compositor's messages to fill.
    pub fn state_mut(&mut self) -> (state: &mut SctkState<T, E>)
        ensures
            *state == old(self).shared(),
            state@ == old(self)@.state,
            final(self)@ == (LoopModel { state: final(state)@, ..old(self)@ }),
            final(self).shared() == *final(state),
    {
        &mut self.state
    }

    /// What the application wants next: it is handed to the application with each event.
    pub fn control_flow(&self) -> (control_flow: ControlFlow)
        ensures
            control_flow == self@.control_flow,
    {
        self.control_flow
    }

    /// Takes note of the layer surface that the compositor created from a description, and
    /// gives the identifiers under which the application and the compositor know it.
    pub fn get_layer_surface(&mut self, layer_surface: IcedLayerSurface, surface: ObjectId) -> (ids: (
        Id,
        ObjectId,
    ))
        ensures
            final(self)@ == (LoopModel {
                state: old(self)@.state.with_layer_surface(
                    layer_surface.id,
                    layer_surface.settings,
                    surface,
                ),
                ..old(self)@
            }),
            ids == (layer_surface.id, surface),
    {
        self.state.get_layer_surface(layer_surface, surface)
    }

    /// Starts a run: the loop polls until the application says otherwise, and nothing is left
    /// of an earlier run but the state.
    pub fn run_return(&mut self) -> (command: Command<T, E>)
        ensures
            (final(self)@, command) == old(self)@.start(),
    {
        self.control_flow = ControlFlow::Poll;
        self.phase = Phase::Init;
        self.sink = VecDeque::new();
        self.user_events = VecDeque::new();
        self.redraws = VecDeque::new();
        self.must_redraw = VecDeque::new();
        Command::Callback(IcedSctkEvent::NewEvents(StartCause::Init))
    }

    fn begin_turn(&mut self) -> (command: Command<T, E>)
        ensures
            (final(self)@, command) == old(self)@.begin_turn(),
    {
        self.phase = Phase::Flush;
        Command::Flush
    }

    fn destroy(&mut self, code: i32) -> (command: Command<T, E>)
        ensures
            (final(self)@, command) == old(self)@.destroy(code),
    {
        self.phase = Phase::LoopDestroyed { code };
        Command::Callback(IcedSctkEvent::LoopDestroyed)
    }

    fn decide(&mut self, instant_wakeup: bool) -> (command: Command<T, E>)
        ensures
            (final(self)@, command) == old(self)@.decide(instant_wakeup),
    {
        match self.control_flow {
            ControlFlow::ExitWithCode(code) => self.destroy(code),
            ControlFlow::Poll => {
                self.phase = Phase::PollDispatch;
                Command::Dispatch(Some(Duration::zero()))
            },
            ControlFlow::Wait => {
                self.phase = Phase::WaitDispatch;
                let timeout: Option<Duration> = if instant_wakeup {
                    Some(Duration::zero())
                } else {
                    None
                };
                Command::Dispatch(timeout)
            },
            ControlFlow::WaitUntil(deadline) => {
                self.phase = Phase::DeadlineStart { deadline, instant_wakeup };
                Command::Now
            },
        }
    }

    fn wake(&mut self, cause: StartCause) -> (command: Command<T, E>)
        ensures
            (final(self)@, command) == old(self)@.wake(cause),
    {
        self.phase = Phase::NewEvents;
        Command::Callback(IcedSctkEvent::NewEvents(cause))
    }

    fn begin_sink(&mut self) -> (command: Command<T, E>)
        ensures
            (final(self)@, command) == old(self)@.begin_sink(),
    {
        let mut events: Vec<SctkEvent<E>> = Vec::new();
        std::mem::swap(&mut events, &mut self.state.sctk_events);
        let (sink, must_redraw) = split_draws(events);
        self.sink = sink;
        self.must_redraw = must_redraw;
        self.next_sink_event()
    }

    fn next_sink_event(&mut self) -> (command: Command<T, E>)
        ensures
            (final(self)@, command) == old(self)@.next_sink_event(),
    {
        match self.sink.pop_front() {
            Some(event) => {
                self.phase = Phase::SinkEvent;
                Command::Callback(IcedSctkEvent::SctkEvent(event))
            },
            None => self.begin_user_events(),
        }
    }

    fn begin_user_events(&mut self) -> (command: Command<T, E>)
        ensures
            (final(self)@, command) == old(self)@.begin_user_events(),
    {
        let mut events: Vec<Event<T, E>> = Vec::new();
        std::mem::swap(&mut events, &mut self.state.pending_user_events);
        self.user_events = order_events(events);
        self.next_user_event()
    }

    fn next_user_event(&mut self) -> (command: Command<T, E>)
        ensures
            (final(self)@, command) == old(self)@.next_user_event(),
    {
        loop
            invariant
                self@.next_user_event() == old(self)@.next_user_event(),
            decreases self@.user_events.len(),
        {
            let ghost before = self@;
            match self.user_events.pop_front() {
                Some(event) => {
                    assert(self@ =~= LoopModel {
                        user_events: before.user_events.drop_first(),
                        ..before
                    });
                    match self.act(event) {
                        Some(command) => {
                            return command;
                        },
                        None => {},
                    }
                },
                None => {
                    self.phase = Phase::MainEventsCleared;
                    return Command::Callback(IcedSctkEvent::MainEventsCleared);
                },
            }
        }
    }

    fn act(&mut self, event: Event<T, E>) -> (command: Option<Command<T, E>>)
        ensures
            match model::act(old(self)@.state, event) {
                Some((state, phase, next)) => {
                    &&& command == Some(next)
                    &&& final(self)@ == LoopModel { state, phase, ..old(self)@ }
                },
                None => command is None && final(self)@ == old(self)@,
            },
    {
        match event {
            Event::SctkEvent(event) => {
                self.phase = Phase::UserEvent;
                Some(Command::Callback(event))
            },
            Event::LayerSurface(action) => self.act_on_surface(action),
            Event::SetCursor(_) => None,
        }
    }

    fn change_surface(&mut self, at: usize, settings: LayerSettings) -> (surface: ObjectId)
        requires
            at < old(self)@.state.layer_surfaces.len(),
        ensures
            final(self)@ == (LoopModel {
                state: old(self)@.state.with_settings(at as int, settings),
                phase: Phase::SurfaceRequest,
                ..old(self)@
            }),
            surface == old(self)@.state.layer_surfaces[at as int].surface,
    {
        let old_surface = self.state.layer_surfaces[at];
        self.state.layer_surfaces.set(at, SctkLayerSurface { settings, ..old_surface });
        self.phase = Phase::SurfaceRequest;
        old_surface.surface
    }

    fn act_on_surface(&mut self, action: Action) -> (command: Option<Command<T, E>>)
        ensures
            match model::act_on_surface(old(self)@.state, action) {
                Some((state, phase, next)) => {
                    &&& command == Some(next)
                    &&& final(self)@ == LoopModel { state, phase, ..old(self)@ }
                },
                None => command is None && final(self)@ == old(self)@,
            },
    {
        match action {
            Action::LayerSurface { builder } => {
                self.phase = Phase::LayerSurface { id: builder.id, settings: builder.settings };
                Some(Command::CreateLayerSurface(builder))
            },
            Action::Destroy(id) => match position_of_id(&self.state.layer_surfaces, id) {
                Some(at) => {
                    let gone = self.state.layer_surfaces.remove(at);
                    self.phase = Phase::SurfaceDone { surface: gone.surface };
                    Some(
                        Command::Callback(
                            IcedSctkEvent::SctkEvent(
                                SctkEvent::LayerSurfaceEvent {
                                    variant: LayerSurfaceEventVariant::Done,
                                    id: gone.surface,
                                },
                            ),
                        ),
                    )
                },
                None => None,
            },
            Action::Size { id, width, height } => match position_of_id(
                &self.state.layer_surfaces,
                id,
            ) {
                Some(at) => {
                    let settings = LayerSettings {
                        requested_size: (width, height),
                        ..self.state.layer_surfaces[at].settings
                    };
                    let surface = self.change_surface(at, settings);
                    Some(
                        Command::SetSize {
                            surface,
                            width: width.unwrap_or(0),
                            height: height.unwrap_or(0),
                        },
                    )
                },
                None => None,
            },
            Action::Anchor { id, anchor } => match position_of_id(&self.state.layer_surfaces, id) {
                Some(at) => {
                    let settings = LayerSettings {
                        anchor,
                        ..self.state.layer_surfaces[at].settings
                    };
                    let surface = self.change_surface(at, settings);
                    Some(Command::SetAnchor { surface, anchor })
                },
                None => None,
            },
            Action::ExclusiveZone { id, exclusive_zone } => match position_of_id(
                &self.state.layer_surfaces,
                id,
            ) {
                Some(at) => {
                    let settings = LayerSettings {
                        exclusive_zone,
                        ..self.state.layer_surfaces[at].settings
                    };
                    let surface = self.change_surface(at, settings);
                    Some(Command::SetExclusiveZone { surface, exclusive_zone })
                },
                None => None,
            },
            Action::Margin { id, margin } => match position_of_id(&self.state.layer_surfaces, id) {
                Some(at) => {
                    let settings = LayerSettings {
                        margin,
                        ..self.state.layer_surfaces[at].settings
                    };
                    let surface = self.change_surface(at, settings);
                    Some(
                        Command::SetMargin {
                            surface,
                            top: margin.top,
                            right: margin.right,
                            bottom: margin.bottom,
                            left: margin.left,
                        },
                    )
                },
                None => None,
            },
            Action::KeyboardInteractivity { id, keyboard_interactivity } => match position_of_id(
                &self.state.layer_surfaces,
                id,
            ) {
                Some(at) => {
                    let settings = LayerSettings {
                        keyboard_interactivity,
                        ..self.state.layer_surfaces[at].settings
                    };
                    let surface = self.change_surface(at, settings);
                    Some(
                        Command::SetKeyboardInteractivity {
                            surface,
                            keyboard_interactivity,
                        },
                    )
                },
                None => None,
            },
            Action::Layer { id, layer } => match position_of_id(&self.state.layer_surfaces, id) {
                Some(at) => {
                    let settings = LayerSettings {
                        layer,
                        ..self.state.layer_surfaces[at].settings
                    };
                    let surface = self.change_surface(at, settings);
                    Some(Command::SetLayer { surface, layer })
                },
                None => None,
            },
        }
    }

    fn created(&mut self, id: Id, settings: LayerSettings, surface: ObjectId) -> (command: Command<
        T,
        E,
    >)
        ensures
            (final(self)@, command) == old(self)@.created(id, settings, surface),
    {
        self.state.add_layer_surface(id, settings, surface);
        self.phase = Phase::UserEvent;
        Command::Callback(
            IcedSctkEvent::SctkEvent(
                SctkEvent::LayerSurfaceEvent {
                    variant: LayerSurfaceEventVariant::Created(surface, id),
                    id: surface,
                },
            ),
        )
    }

    fn begin_redraws(&mut self) -> (command: Command<T, E>)
        ensures
            exists|order: Seq<(ObjectId, SurfaceUserRequest)>|
                lists(order, old(self)@.state.window_user_requests)
                    && (final(self)@, command) == #[trigger] old(self)@.begin_redraws(order),
    {
        let order = take_requests(&mut self.state.window_user_requests);
        self.redraws = collect_requested(&order);
        forget_requested(&mut self.must_redraw, &order);
        let command = self.next_redraw();
        assert((self@, command) == old(self)@.begin_redraws(order@));
        command
    }

    fn redraw(&mut self, surface: ObjectId) -> (command: Command<T, E>)
        ensures
            (final(self)@, command) == old(self)@.redraw(surface),
    {
        self.phase = Phase::Redraw;
        Command::Callback(IcedSctkEvent::RedrawRequested(surface))
    }

    fn next_redraw(&mut self) -> (command: Command<T, E>)
        ensures
            (final(self)@, command) == old(self)@.next_redraw(),
    {
        match self.redraws.pop_front() {
            Some((surface, request)) => if request.refresh_frame {
                self.phase = Phase::Refresh { surface };
                Command::RefreshFrame(surface)
            } else {
                self.redraw(surface)
            },
            None => match self.must_redraw.pop_front() {
                Some(surface) => {
                    self.phase = Phase::MustRedraw { surface };
                    Command::Callback(IcedSctkEvent::RedrawRequested(surface))
                },
                None => {
                    self.phase = Phase::RedrawEventsCleared;
                    Command::Callback(IcedSctkEvent::RedrawEventsCleared)
                },
            },
        }
    }

    fn drawn(&mut self, surface: ObjectId) -> (command: Command<T, E>)
        ensures
            (final(self)@, command) == old(self)@.drawn(surface),
    {
        if has_layer_surface(&self.state.layer_surfaces, surface) {
            self.phase = Phase::Commit;
            Command::Commit(surface)
        } else {
            self.next_redraw()
        }
    }

    fn time_left(start: Instant, deadline: Instant, instant_wakeup: bool) -> (timeout: Duration)
        ensures
            timeout == model::time_left(start, deadline, instant_wakeup),
    {
        if deadline.nanos > start.nanos && !instant_wakeup {
            deadline.duration_since(start)
        } else {
            Duration::zero()
        }
    }

    fn cause_at(start: Instant, deadline: Instant, now: Instant) -> (cause: StartCause)
        ensures
            cause == model::cause_at(start, deadline, now),
    {
        if now.nanos < deadline.nanos {
            StartCause::WaitCancelled { start, requested_resume: Some(deadline) }
        } else {
            StartCause::ResumeTimeReached { start, requested_resume: deadline }
        }
    }

    /// Takes the answer to the command that was given last, and gives the next command.
    ///
    /// A frame can be refreshed only around a window that exists: before the answer to
    /// [`Command::RefreshFrame`] that is to be tested ([`state::window_exists`]).
    pub fn resume(&mut self, reply: Reply) -> (command: Command<T, E>)
        requires
            old(self)@.awaits(reply),
        ensures
            old(self)@.steps(reply, final(self)@, command),
    {
        let command = match (reply, self.phase) {
            (Reply::Returned(proposed), _) => {
                return self.returned(proposed);
            },
            (Reply::Done, Phase::Flush) => {
                self.phase = Phase::Pending;
                Command::DispatchPending
            },
            (Reply::Done, Phase::SurfaceRequest) => self.next_user_event(),
            (Reply::Done, Phase::Refresh { surface }) => self.redraw(surface),
            (Reply::Done, Phase::Commit) => self.next_redraw(),
            (Reply::Pending(Ok(dispatched)), _) => self.decide(dispatched > 0),
            (Reply::Pending(Err(err)), _) => {
                let code: i32 = raw_queue_err(err);
                self.destroy(code)
            },
            (Reply::Dispatched(Err(err)), _) => {
                let code: i32 = raw_os_err(err);
                self.destroy(code)
            },
            (Reply::Dispatched(Ok(())), Phase::PollDispatch) => self.wake(StartCause::Poll),
            (Reply::Dispatched(Ok(())), Phase::WaitDispatch) => {
                self.phase = Phase::WaitTime;
                Command::Now
            },
            (Reply::Dispatched(Ok(())), Phase::DeadlineDispatch { start, deadline }) => {
                self.phase = Phase::DeadlineTime { start, deadline };
                Command::Now
            },
            (Reply::Time(time), Phase::WaitTime) => self.wake(
                StartCause::WaitCancelled { start: time, requested_resume: None },
            ),
            (Reply::Time(time), Phase::DeadlineStart { deadline, instant_wakeup }) => {
                self.phase = Phase::DeadlineDispatch { start: time, deadline };
                Command::Dispatch(Some(Self::time_left(time, deadline, instant_wakeup)))
            },
            (Reply::Time(time), Phase::DeadlineTime { start, deadline }) => {
                let cause = Self::cause_at(start, deadline, time);
                self.wake(cause)
            },
            (Reply::Surface(surface), Phase::LayerSurface { id, settings }) => self.created(
                id,
                settings,
                surface,
            ),
            _ => unreached(),
        };
        assert(old(self)@.next(reply, seq![]) == (self@, command));
        command
    }

    fn returned(&mut self, proposed: ControlFlow) -> (command: Command<T, E>)
        requires
            old(self)@.awaits(Reply::Returned(proposed)),
        ensures
            old(self)@.steps(Reply::Returned(proposed), final(self)@, command),
    {
        let ghost reply = Reply::Returned(proposed);
        self.control_flow = if self.phase.keeps_exit() {
            self.control_flow.keep_exit(proposed)
        } else {
            proposed
        };
        let command = match self.phase {
            Phase::Init => self.begin_turn(),
            Phase::NewEvents => self.begin_sink(),
            Phase::SinkEvent => self.next_sink_event(),
            Phase::UserEvent => self.next_user_event(),
            Phase::SurfaceDone { surface } => {
                self.phase = Phase::SurfaceRequest;
                Command::DropLayerSurface(surface)
            },
            Phase::MainEventsCleared => {
                let ghost after = self@;
                let command = self.begin_redraws();
                proof {
                    let order = choose|order: Seq<(ObjectId, SurfaceUserRequest)>|
                        lists(order, after.state.window_user_requests) && (self@, command)
                            == #[trigger] after.begin_redraws(order);
                    assert(old(self)@.next(reply, order) == (self@, command));
                }
                return command;
            },
            Phase::Redraw => self.next_redraw(),
            Phase::MustRedraw { surface } => self.drawn(surface),
            Phase::RedrawEventsCleared => self.begin_turn(),
            Phase::LoopDestroyed { code } => {
                self.phase = Phase::Idle;
                Command::Finish(code)
            },
            _ => unreached(),
        };
        assert(old(self)@.next(reply, seq![]) == (self@, command));
        command
    }

    /// Tells the application about the event of a [`Command::Callback`], and gives the next
    /// command.
    pub fn call_back<F>(&mut self, event: IcedSctkEvent<T, E>, callback: &mut F) -> (command:
        Command<T, E>) where F: FnMut(IcedSctkEvent<T, E>, &SctkState<T, E>, &mut ControlFlow)
        requires
            old(self)@.phase.is_callback(),
            forall|flow: &mut ControlFlow|
                *flow == old(self)@.control_flow ==> #[trigger] call_requires(
                    *old(callback),
                    (event, &old(self).shared(), flow),
                ),
        ensures
            exists|left: &mut ControlFlow|
                {
                    &&& *left == old(self)@.control_flow
                    &&& #[trigger] call_ensures(
                        *old(callback),
                        (event, &old(self).shared(), left),
                        (),
                    )
                    &&& old(self)@.steps(Reply::Returned(*final(left)), final(self)@, command)
                },
    {
        let mut flow = self.control_flow;
        assert(self.state == old(self).shared());
        if self.phase.keeps_exit() {
            sticky_exit_callback(event, &self.state, &mut flow, callback);
            let command = self.returned(flow);
            proof {
                let left = choose|left: &mut ControlFlow|
                    {
                        &&& *left == old(self)@.control_flow
                        &&& #[trigger] call_ensures(
                            *old(callback),
                            (event, &old(self).shared(), left),
                            (),
                        )
                        &&& flow == old(self)@.control_flow.sticky(*final(left))
                    };
                old(self)@.lemma_sticky_twice(*final(left), self@, command);
            }
            command
        } else {
            callback(event, &self.state, &mut flow);
            self.returned(flow)
        }
    }
}

/// Tells the application about an event. An exit that is already in force is kept, whatever
/// the application leaves behind: it is handed a copy.
pub fn sticky_exit_callback<T, E, F>(
    evt: IcedSctkEvent<T, E>,
    target: &SctkState<T, E>,
    control_flow: &mut ControlFlow,
    callback: &mut F,
) where F: FnMut(IcedSctkEvent<T, E>, &SctkState<T, E>, &mut ControlFlow)
    requires
        forall|flow: &mut ControlFlow|
            *flow == *old(control_flow) ==> #[trigger] call_requires(
                *old(callback),
                (evt, target, flow),
            ),
    ensures
        exists|left: &mut ControlFlow|
            {
                &&& *left == *old(control_flow)
                &&& #[trigger] call_ensures(*old(callback), (evt, target, left), ())
                &&& *final(control_flow) == (*old(control_flow)).sticky(*final(left))
                &&& (*old(control_flow)) is ExitWithCode ==> *final(control_flow)
                    == *old(control_flow)
                &&& !((*old(control_flow)) is ExitWithCode) ==> *final(control_flow)
                    == *final(left)
            },
{
    if let ControlFlow::ExitWithCode(code) = *control_flow {
        let mut dummy = ControlFlow::ExitWithCode(code);
        callback(evt, target, &mut dummy)
    } else {
        callback(evt, target, control_flow)
    }
}

} // verus!
