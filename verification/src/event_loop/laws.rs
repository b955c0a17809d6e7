//! What holds of every run, whatever the application and the compositor do.

use vstd::prelude::*;

use crate::event_loop::command::{Command, Reply};
use crate::event_loop::control_flow::ControlFlow;
use crate::event_loop::failure::{
    loop_failure, loop_failure_code, queue_failure, queue_failure_code,
};
use crate::event_loop::model::{act, LoopModel, Phase};
use crate::event_loop::queues::{draws_nothing, drawn_surfaces, in_turn, lists};
use crate::event_loop::state::StateModel;
use crate::sctk_event::{IcedSctkEvent, StartCause, SurfaceUserRequest};
use crate::time::{Duration, Instant};
use crate::window::ObjectId;

verus! {

impl Phase {
    /// Whether the application's own events are being worked through.
    pub open spec fn is_user_event(self) -> bool {
        ||| self is UserEvent
        ||| self is LayerSurface
        ||| self is SurfaceRequest
        ||| self is SurfaceDone
    }

    /// Whether surfaces are being redrawn.
    pub open spec fn is_redraw(self) -> bool {
        ||| self is Refresh
        ||| self is Redraw
        ||| self is MustRedraw
        ||| self is Commit
    }

    /// How far a turn has come since the loop woke up; less is further.
    pub open spec fn stage(self) -> nat {
        if self is NewEvents {
            5
        } else if self is SinkEvent {
            4
        } else if self.is_user_event() {
            3
        } else if self is MainEventsCleared {
            2
        } else if self.is_redraw() {
            1
        } else {
            0
        }
    }

    /// Whether the loop has woken up and not yet begun another turn.
    pub open spec fn is_awake(self) -> bool {
        self.stage() > 0 || self is RedrawEventsCleared
    }

    /// Whether a run is under way and has not been decided to end.
    pub open spec fn is_running(self) -> bool {
        !(self is Idle) && !(self is LoopDestroyed)
    }
}

impl<T, E> LoopModel<T, E> {
    /// Whether the parts of the loop fit together: nothing is left in a queue that has been
    /// worked through, and the way in which the loop waits is the one that the application
    /// chose.
    pub open spec fn is_consistent(self) -> bool {
        &&& !(self.phase is SinkEvent) ==> self.sink.len() == 0
        &&& !self.phase.is_user_event() ==> self.user_events.len() == 0
        &&& !self.phase.is_redraw() ==> self.redraws.len() == 0
        &&& self.phase is MustRedraw || self.phase is Commit ==> self.redraws.len() == 0
        &&& !(self.phase is SinkEvent) && !self.phase.is_user_event()
            && !(self.phase is MainEventsCleared) && !self.phase.is_redraw()
            ==> self.must_redraw.len() == 0
        &&& self.phase is Init || self.phase is PollDispatch ==> self.control_flow is Poll
        &&& self.phase is WaitDispatch || self.phase is WaitTime ==> self.control_flow is Wait
        &&& self.phase matches Phase::DeadlineStart { deadline, .. } ==> self.control_flow
            == ControlFlow::WaitUntil(deadline)
        &&& self.phase matches Phase::DeadlineDispatch { deadline, .. } ==> self.control_flow
            == ControlFlow::WaitUntil(deadline)
        &&& self.phase matches Phase::DeadlineTime { deadline, .. } ==> self.control_flow
            == ControlFlow::WaitUntil(deadline)
        &&& self.phase is NewEvents ==> !(self.control_flow is ExitWithCode)
    }

    /// How much is left to do before the turn gets to its next stage.
    pub open spec fn work(self) -> nat {
        if self.phase is SinkEvent {
            self.sink.len()
        } else if self.phase.is_user_event() {
            2 * self.user_events.len() + if self.phase is LayerSurface || self.phase is SurfaceDone {
                1nat
            } else {
                0
            }
        } else if self.phase.is_redraw() {
            2 * (self.redraws.len() + self.must_redraw.len()) + if self.phase is MustRedraw
                || self.phase is Refresh {
                1nat
            } else {
                0
            }
        } else {
            0
        }
    }
}

/// What working through the application's events leaves alone, and where it leads.
proof fn lemma_next_user_event<T, E>(model: LoopModel<T, E>)
    ensures
        ({
            let (after, command) = model.next_user_event();
            &&& after.channel == model.channel
            &&& after.control_flow == model.control_flow
            &&& after.sink == model.sink
            &&& after.redraws == model.redraws
            &&& after.must_redraw == model.must_redraw
            &&& after.state == (StateModel {
                layer_surfaces: after.state.layer_surfaces,
                ..model.state
            })
            &&& after.phase.is_user_event() || after.phase is MainEventsCleared
            &&& after.phase is MainEventsCleared ==> {
                &&& after.user_events.len() == 0
                &&& after.state == model.state
                &&& command == Command::<T, E>::Callback(IcedSctkEvent::MainEventsCleared)
            }
            &&& after.phase.is_user_event() ==> after.user_events.len() < model.user_events.len()
            &&& !(command is Flush) && !(command is Finish) && !(command is DispatchPending)
                && !(command is Dispatch) && !(command is RefreshFrame)
        }),
    decreases model.user_events.len(),
{
    if model.user_events.len() > 0 && act(model.state, model.user_events.first()) is None {
        lemma_next_user_event(
            LoopModel { user_events: model.user_events.drop_first(), ..model },
        );
    }
}

/// A run starts with everything in place.
pub proof fn law_start_is_consistent<T, E>(model: LoopModel<T, E>)
    ensures
        model.start().0.is_consistent(),
        LoopModel::<T, E>::idle(model.channel).is_consistent(),
{
}

/// What taking up the application's events leaves alone, and where it leads.
pub proof fn lemma_begin_user_events<T, E>(model: LoopModel<T, E>)
    ensures
        ({
            let (after, command) = model.begin_user_events();
            &&& after.channel == model.channel
            &&& after.control_flow == model.control_flow
            &&& after.sink == model.sink
            &&& after.redraws == model.redraws
            &&& after.must_redraw == model.must_redraw
            &&& after.state == (StateModel {
                layer_surfaces: after.state.layer_surfaces,
                pending_user_events: seq![],
                ..model.state
            })
            &&& after.phase.is_user_event() || after.phase is MainEventsCleared
            &&& after.phase is MainEventsCleared ==> after.user_events.len() == 0
            &&& !(command is Flush) && !(command is Finish) && !(command is DispatchPending)
                && !(command is Dispatch) && !(command is RefreshFrame)
        }),
{
    lemma_next_user_event(
        LoopModel {
            state: StateModel { pending_user_events: seq![], ..model.state },
            user_events: in_turn(model.state.pending_user_events),
            ..model
        },
    );
}

/// The exit code that an answer decides, if it ends the run.
pub open spec fn decided_code<T, E>(model: LoopModel<T, E>, reply: Reply) -> Option<i32> {
    match reply {
        Reply::Pending(Err(err)) => Some(queue_failure_code(queue_failure(err))),
        Reply::Pending(Ok(_)) => match model.control_flow {
            ControlFlow::ExitWithCode(code) => Some(code),
            _ => None,
        },
        Reply::Dispatched(Err(err)) => Some(loop_failure_code(loop_failure(err))),
        _ => None,
    }
}

/// What every step leaves alone, what it does to the queues, and what its command says of where
/// it leads.
pub proof fn lemma_step<T, E>(
    model: LoopModel<T, E>,
    reply: Reply,
    order: Seq<(ObjectId, SurfaceUserRequest)>,
)
    requires
        model.is_consistent(),
        model.awaits(reply),
    ensures
        ({
            let (after, command) = model.next(reply, order);
            &&& after.is_consistent()
            &&& after.channel == model.channel
            &&& after.control_flow == model.flow_after(reply)
            &&& after.state == (StateModel {
                layer_surfaces: after.state.layer_surfaces,
                window_user_requests: after.state.window_user_requests,
                sctk_events: after.state.sctk_events,
                pending_user_events: after.state.pending_user_events,
                ..model.state
            })
            &&& !(model.phase is NewEvents) ==> after.state.sctk_events == model.state.sctk_events
            &&& !(model.phase is NewEvents) && !(model.phase is SinkEvent)
                || after.phase is SinkEvent ==> after.state.pending_user_events
                == model.state.pending_user_events
            &&& !(model.phase is MainEventsCleared) ==> after.state.window_user_requests
                == model.state.window_user_requests
            &&& after.phase is Flush <==> command is Flush
            &&& after.phase is Idle <==> command is Finish
            &&& command is Dispatch ==> model.phase is Pending || model.phase is DeadlineStart
            &&& command is DispatchPending ==> model.phase is Flush
            &&& after.phase matches Phase::LoopDestroyed { code } ==> {
                &&& decided_code(model, reply) == Some(code)
                &&& command == Command::<T, E>::Callback(IcedSctkEvent::LoopDestroyed)
            }
            &&& decided_code(model, reply) is Some ==> after.phase is LoopDestroyed
            &&& after.phase is NewEvents ==> (command matches Command::Callback(
                IcedSctkEvent::NewEvents(cause),
            ) && !(cause is Init))
            &&& after.phase matches Phase::MustRedraw { surface } ==> command == Command::<
                T,
                E,
            >::Callback(IcedSctkEvent::RedrawRequested(surface))
            &&& command matches Command::RefreshFrame(surface) ==> after.phase == (Phase::Refresh {
                surface,
            })
            &&& model.phase.stage() > 2 ==> after.phase.stage() >= 2
            &&& model.phase.stage() > 0 ==> !(command is Flush)
            &&& model.phase.is_awake() ==> {
                ||| command is Flush
                ||| after.phase.is_awake() && after.phase.stage() < model.phase.stage()
                ||| {
                    &&& after.phase.is_awake()
                    &&& after.phase.stage() == model.phase.stage()
                    &&& after.work() < model.work()
                }
            }
        }),
{
    let answered = LoopModel { control_flow: model.flow_after(reply), ..model };
    lemma_next_user_event(answered);
    lemma_begin_user_events(answered);
    lemma_begin_user_events(
        LoopModel {
            state: StateModel { sctk_events: seq![], ..model.state },
            sink: model.state.sctk_events.filter(draws_nothing()),
            must_redraw: drawn_surfaces(model.state.sctk_events),
            ..answered
        },
    );
}

/// The parts of the loop keep fitting together, whatever the answers are.
pub proof fn law_steps_keep_consistent<T, E>(
    model: LoopModel<T, E>,
    reply: Reply,
    after: LoopModel<T, E>,
    command: Command<T, E>,
)
    requires
        model.is_consistent(),
        model.awaits(reply),
        model.steps(reply, after, command),
    ensures
        after.is_consistent(),
{
    let order = choose|order: Seq<(ObjectId, SurfaceUserRequest)>|
        #[trigger] model.next(reply, order) == (after, command);
    lemma_step(model, reply, order);
}

impl<T, E> Command<T, E> {
    /// Whether carrying out the command lets the handlers of the compositor's messages change
    /// the state.
    pub open spec fn dispatches(self) -> bool {
        self is DispatchPending || self is Dispatch
    }
}

/// Whether the loop, answered with `reply`, gives `command` and is `next` when that command has
/// been carried out.
pub open spec fn follows<T, E>(
    model: LoopModel<T, E>,
    reply: Reply,
    command: Command<T, E>,
    next: LoopModel<T, E>,
) -> bool {
    exists|after: LoopModel<T, E>|
        {
            &&& #[trigger] model.steps(reply, after, command)
            &&& next == (LoopModel { state: next.state, ..after })
            &&& !command.dispatches() ==> next.state == after.state
        }
}

/// A stretch of a run: the loop each time a command has been carried out, the answers, and the
/// commands that followed them.
#[verifier::reject_recursive_types(T)]
#[verifier::reject_recursive_types(E)]
pub struct History<T, E> {
    pub models: Seq<LoopModel<T, E>>,
    pub replies: Seq<Reply>,
    pub commands: Seq<Command<T, E>>,
}

impl<T, E> History<T, E> {
    /// Whether the stretch can happen.
    pub open spec fn is_valid(self) -> bool {
        &&& self.models.len() == self.replies.len() + 1
        &&& self.commands.len() == self.replies.len()
        &&& self.models.first().is_consistent()
        &&& forall|i: int|
            #![trigger self.replies[i]]
            0 <= i < self.replies.len() ==> self.models[i].awaits(self.replies[i]) && follows(
                self.models[i],
                self.replies[i],
                self.commands[i],
                self.models[i + 1],
            )
    }
}

/// The loop is consistent throughout a history.
pub proof fn law_history_is_consistent<T, E>(history: History<T, E>, i: int)
    requires
        history.is_valid(),
        0 <= i < history.models.len(),
    ensures
        history.models[i].is_consistent(),
    decreases i,
{
    if i > 0 {
        law_history_is_consistent(history, i - 1);
        assert(history.models[i - 1].awaits(history.replies[i - 1]));
        choose_step(
            history.models[i - 1],
            history.replies[i - 1],
            history.commands[i - 1],
            history.models[i],
        );
    }
}

/// The loop before a command is carried out, and the order in which requests were walked.
proof fn choose_step<T, E>(
    model: LoopModel<T, E>,
    reply: Reply,
    command: Command<T, E>,
    next: LoopModel<T, E>,
) -> (step: (LoopModel<T, E>, Seq<(ObjectId, SurfaceUserRequest)>))
    requires
        model.is_consistent(),
        model.awaits(reply),
        follows(model, reply, command, next),
    ensures
        model.next(reply, step.1) == (step.0, command),
        model.phase is MainEventsCleared ==> lists(step.1, model.state.window_user_requests),
        next == (LoopModel { state: next.state, ..step.0 }),
        !command.dispatches() ==> next.state == step.0.state,
        next.is_consistent(),
        next.control_flow == model.flow_after(reply),
        model.phase.is_awake() ==> next == step.0,
{
    let after = choose|after: LoopModel<T, E>|
        {
            &&& #[trigger] model.steps(reply, after, command)
            &&& next == (LoopModel { state: next.state, ..after })
            &&& !command.dispatches() ==> next.state == after.state
        };
    let order = choose|order: Seq<(ObjectId, SurfaceUserRequest)>|
        (model.phase is MainEventsCleared ==> lists(order, model.state.window_user_requests))
            && #[trigger] model.next(reply, order) == (after, command);
    lemma_step(model, reply, order);
    (after, order)
}

/// A step of a history.
pub proof fn history_step<T, E>(history: History<T, E>, i: int) -> (step: (
    LoopModel<T, E>,
    Seq<(ObjectId, SurfaceUserRequest)>,
))
    requires
        history.is_valid(),
        0 <= i < history.replies.len(),
    ensures
        ({
            let model = history.models[i];
            let next = history.models[i + 1];
            &&& model.is_consistent()
            &&& model.awaits(history.replies[i])
            &&& model.next(history.replies[i], step.1) == (step.0, history.commands[i])
            &&& model.phase is MainEventsCleared ==> lists(
                step.1,
                model.state.window_user_requests,
            )
            &&& next == (LoopModel { state: next.state, ..step.0 })
            &&& !history.commands[i].dispatches() ==> next.state == step.0.state
            &&& next.is_consistent()
            &&& next.control_flow == model.flow_after(history.replies[i])
            &&& model.phase.is_awake() ==> next == step.0
        }),
{
    law_history_is_consistent(history, i);
    choose_step(
        history.models[i],
        history.replies[i],
        history.commands[i],
        history.models[i + 1],
    )
}

/// An exit that the application has decided on stays in force as long as the run goes on:
/// nothing that the application leaves behind later takes it back or changes its code.
pub proof fn law_exit_is_sticky<T, E>(history: History<T, E>, code: i32, i: int, j: int)
    requires
        history.is_valid(),
        0 <= i <= j < history.models.len(),
        history.models[i].control_flow == ControlFlow::ExitWithCode(code),
        forall|k: int| i <= k < j ==> (#[trigger] history.models[k]).phase.is_running(),
    ensures
        history.models[j].control_flow == ControlFlow::ExitWithCode(code),
    decreases j - i,
{
    if i < j {
        law_exit_is_sticky(history, code, i, j - 1);
        history_step(history, j - 1);
    }
}

/// Whether the dispatch of the messages that wait already failed between `i` and `j`, with an
/// error that leads to this exit code.
pub open spec fn queue_failed<T, E>(history: History<T, E>, i: int, j: int, code: i32) -> bool {
    exists|k: int, err: wayland_client::DispatchError|
        #![trigger history.replies[k], queue_failure(err)]
        {
            &&& i <= k < j
            &&& history.replies[k] == Reply::Pending(Err(err))
            &&& code == queue_failure_code(queue_failure(err))
        }
}

/// Where an exit leads: the loop goes on with it, or has decided to end.
pub proof fn lemma_exit_leads<T, E>(history: History<T, E>, code: i32, i: int, j: int)
    requires
        history.is_valid(),
        0 <= i <= j < history.models.len(),
        history.models[i].control_flow == ControlFlow::ExitWithCode(code),
        history.models[i].phase.is_running(),
        forall|k: int| i <= k < j ==> !((#[trigger] history.commands[k]) is Finish),
    ensures
        ({
            let model = history.models[j];
            ||| {
                &&& model.phase.is_running()
                &&& model.control_flow == ControlFlow::ExitWithCode(code)
            }
            ||| {
                &&& model.phase matches Phase::LoopDestroyed { code: ended }
                &&& ended == code || queue_failed(history, i, j, ended)
            }
        }),
    decreases j - i,
{
    if i < j {
        lemma_exit_leads(history, code, i, j - 1);
        assert(!(history.commands[j - 1] is Finish));
        let (_, order) = history_step(history, j - 1);
        lemma_step(history.models[j - 1], history.replies[j - 1], order);
    }
}

/// The run ends with the exit code that the application decided on, unless the connection to
/// the compositor fails first, which decides the exit code in its place.
pub proof fn law_exit_code_is_returned<T, E>(
    history: History<T, E>,
    code: i32,
    i: int,
    j: int,
    finished: i32,
)
    requires
        history.is_valid(),
        0 <= i <= j < history.commands.len(),
        history.models[i].control_flow == ControlFlow::ExitWithCode(code),
        history.models[i].phase.is_running(),
        forall|k: int| i <= k < j ==> !((#[trigger] history.commands[k]) is Finish),
        history.commands[j] == Command::<T, E>::Finish(finished),
    ensures
        finished == code || queue_failed(history, i, j, finished),
{
    lemma_exit_leads(history, code, i, j);
    let (_, order) = history_step(history, j);
    lemma_step(history.models[j], history.replies[j], order);
}

/// Once the application has decided on an exit the loop does not wait for events again.
pub proof fn law_exit_does_not_wait<T, E>(history: History<T, E>, code: i32, i: int, j: int)
    requires
        history.is_valid(),
        0 <= i <= j < history.commands.len(),
        history.models[i].control_flow == ControlFlow::ExitWithCode(code),
        forall|k: int| i <= k <= j ==> (#[trigger] history.models[k]).phase.is_running(),
    ensures
        !(history.commands[j] is Dispatch),
{
    law_exit_is_sticky(history, code, i, j);
    let (_, order) = history_step(history, j);
    lemma_step(history.models[j], history.replies[j], order);
}

/// A run ends in one way only: a dispatch fails, or the application has decided on an exit.
/// The application is told so, that is the last event it is told about, and the run is over
/// with the code that was decided, whatever the application answers.
pub proof fn law_how_a_run_ends<T, E>(history: History<T, E>, i: int)
    requires
        history.is_valid(),
        0 <= i < history.replies.len() - 1,
        history.models[i].phase.is_running(),
    ensures
        match decided_code(history.models[i], history.replies[i]) {
            Some(code) => {
                &&& history.commands[i] == Command::<T, E>::Callback(IcedSctkEvent::LoopDestroyed)
                &&& history.commands[i + 1] == Command::<T, E>::Finish(code)
            },
            None => {
                &&& !(history.commands[i] is Finish)
                &&& !(history.commands[i + 1] is Finish)
            },
        },
{
    let (_, order) = history_step(history, i);
    lemma_step(history.models[i], history.replies[i], order);
    let (_, later_order) = history_step(history, i + 1);
    lemma_step(history.models[i + 1], history.replies[i + 1], later_order);
}

/// Where messages were waiting already the loop behaves as if they had just arrived: it does
/// not wait, whatever the application asked for.
pub proof fn law_waiting_messages_wake_at_once<T, E>(history: History<T, E>, i: int, n: usize)
    requires
        history.is_valid(),
        0 <= i < history.replies.len() - 1,
        history.models[i].phase is Pending,
        history.replies[i] == Reply::Pending(Ok(n)),
        n > 0,
    ensures
        history.commands[i] matches Command::Dispatch(timeout) ==> timeout == Some(
            Duration::zero(),
        ),
        history.commands[i] is Now ==> history.commands[i + 1] == Command::<T, E>::Dispatch(
            Some(Duration::zero()),
        ),
        history.commands[i] is Dispatch || history.commands[i] is Now
            || history.models[i].control_flow is ExitWithCode,
{
    history_step(history, i);
    history_step(history, i + 1);
}

/// How long the loop waits when nothing was waiting already: not at all for an application
/// that polls, without limit for one that waits, and until the deadline for one that set a
/// deadline, or not at all if that has passed.
pub proof fn law_waits_as_asked<T, E>(history: History<T, E>, i: int)
    requires
        history.is_valid(),
        0 <= i < history.replies.len() - 1,
        history.models[i].phase is Pending,
        history.replies[i] == Reply::Pending(Ok(0)),
    ensures
        match history.models[i].control_flow {
            ControlFlow::Poll => history.commands[i] == Command::<T, E>::Dispatch(
                Some(Duration::zero()),
            ),
            ControlFlow::Wait => history.commands[i] == Command::<T, E>::Dispatch(None),
            ControlFlow::WaitUntil(deadline) => {
                &&& history.commands[i] is Now
                &&& history.replies[i + 1] matches Reply::Time(start)
                &&& history.commands[i + 1] matches Command::Dispatch(Some(timeout))
                &&& start.nanos <= deadline.nanos ==> start.nanos + timeout.nanos
                    == deadline.nanos
                &&& start.nanos > deadline.nanos ==> timeout.nanos == 0
            },
            ControlFlow::ExitWithCode(_) => history.commands[i] == Command::<T, E>::Callback(
                IcedSctkEvent::LoopDestroyed,
            ),
        },
{
    history_step(history, i);
    history_step(history, i + 1);
}

/// An application that asked to be woken at a time is told that the time has come exactly if it
/// has, and otherwise that the wait was cut short.
pub proof fn law_wakes_with_the_true_cause<T, E>(
    history: History<T, E>,
    i: int,
    deadline: Instant,
    start: Instant,
    now: Instant,
)
    requires
        history.is_valid(),
        0 <= i < history.replies.len() - 2,
        history.models[i].phase matches Phase::DeadlineStart { deadline: d, .. } && d == deadline,
        history.replies[i] == Reply::Time(start),
        history.replies[i + 1] == Reply::Dispatched(Ok(())),
        history.replies[i + 2] == Reply::Time(now),
    ensures
        history.commands[i + 2] == Command::<T, E>::Callback(
            IcedSctkEvent::NewEvents(
                if now.nanos >= deadline.nanos {
                    StartCause::ResumeTimeReached { start, requested_resume: deadline }
                } else {
                    StartCause::WaitCancelled { start, requested_resume: Some(deadline) }
                },
            ),
        ),
{
    history_step(history, i);
    history_step(history, i + 1);
    history_step(history, i + 2);
}

/// A turn comes to its end: each step gets to a later stage or leaves less to do in the same
/// one, and no step goes back to an earlier stage.
pub proof fn law_turn_advances<T, E>(
    model: LoopModel<T, E>,
    reply: Reply,
    after: LoopModel<T, E>,
    command: Command<T, E>,
)
    requires
        model.is_consistent(),
        model.awaits(reply),
        model.phase.is_awake(),
        model.steps(reply, after, command),
    ensures
        ({
            ||| command is Flush
            ||| after.phase.is_awake() && after.phase.stage() < model.phase.stage()
            ||| {
                &&& after.phase.is_awake()
                &&& after.phase.stage() == model.phase.stage()
                &&& after.work() < model.work()
            }
        }),
{
    let order = choose|order: Seq<(ObjectId, SurfaceUserRequest)>|
        #[trigger] model.next(reply, order) == (after, command);
    lemma_step(model, reply, order);
}

/// What arrives while a turn is under way waits for the next one: events from the compositor
/// are taken up only when the loop has told the application why it woke up, and the
/// application's own only when those from the compositor have been passed on.
pub proof fn law_later_events_wait<T, E>(
    model: LoopModel<T, E>,
    reply: Reply,
    after: LoopModel<T, E>,
    command: Command<T, E>,
)
    requires
        model.is_consistent(),
        model.awaits(reply),
        model.steps(reply, after, command),
    ensures
        !(model.phase is NewEvents) ==> after.state.sctk_events == model.state.sctk_events,
        !(model.phase is NewEvents) && !(model.phase is SinkEvent) || after.phase is SinkEvent
            ==> after.state.pending_user_events == model.state.pending_user_events,
{
    let order = choose|order: Seq<(ObjectId, SurfaceUserRequest)>|
        #[trigger] model.next(reply, order) == (after, command);
    lemma_step(model, reply, order);
}

/// The loop works on the layer surfaces, on what was asked for windows and on the two queues of
/// events. Everything else in the state is left as the handlers of the compositor's messages
/// put it there.
pub proof fn law_rest_of_the_state_is_left_alone<T, E>(
    model: LoopModel<T, E>,
    reply: Reply,
    after: LoopModel<T, E>,
    command: Command<T, E>,
)
    requires
        model.is_consistent(),
        model.awaits(reply),
        model.steps(reply, after, command),
    ensures
        after.state == (StateModel {
            layer_surfaces: after.state.layer_surfaces,
            window_user_requests: after.state.window_user_requests,
            sctk_events: after.state.sctk_events,
            pending_user_events: after.state.pending_user_events,
            ..model.state
        }),
{
    let order = choose|order: Seq<(ObjectId, SurfaceUserRequest)>|
        #[trigger] model.next(reply, order) == (after, command);
    lemma_step(model, reply, order);
}

} // verus!
