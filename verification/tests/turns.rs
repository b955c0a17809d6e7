use sctk_event_loop::application::{Event, Interaction};
use sctk_event_loop::event_loop::command::{Command, Reply};
use sctk_event_loop::event_loop::control_flow::ControlFlow;
use sctk_event_loop::event_loop::SctkEventLoop;
use sctk_event_loop::layer_surface::{
    Action, Anchor, IcedLayerSurface, IcedMargin, KeyboardInteractivity, Layer, LayerSettings,
};
use sctk_event_loop::sctk_event::{IcedSctkEvent, SctkEvent, StartCause, SurfaceUserRequest};
use sctk_event_loop::time::{Duration, Instant};
use sctk_event_loop::window::{Id, ObjectId};

type Loop = SctkEventLoop<u8, &'static str>;

fn new_loop() -> Loop {
    let (sender, _channel) = calloop::channel::channel();
    SctkEventLoop::new(sender)
}

/// Starts a run in which the application wants `flow`, up to the dispatch of waiting messages.
fn at_pending(flow: ControlFlow) -> Loop {
    let mut l = new_loop();
    l.run_return();
    assert!(matches!(l.resume(Reply::Returned(flow)), Command::Flush));
    assert!(matches!(l.resume(Reply::Done), Command::DispatchPending));
    l
}

/// Continues a polling run up to the event that says so.
fn wake(l: &mut Loop) {
    assert!(matches!(l.resume(Reply::Pending(Ok(0))), Command::Dispatch(Some(_))));
    assert!(matches!(
        l.resume(Reply::Dispatched(Ok(()))),
        Command::Callback(IcedSctkEvent::NewEvents(StartCause::Poll))
    ));
}

/// The events of a turn, after the application was told why the loop woke up.
fn rest_of_turn(l: &mut Loop, surface: u64) -> Vec<String> {
    let mut told = Vec::new();
    let mut command = l.resume(Reply::Returned(ControlFlow::Poll));
    loop {
        command = match command {
            Command::Flush => return told,
            Command::Callback(event) => {
                told.push(format!("{:?}", event));
                l.resume(Reply::Returned(ControlFlow::Poll))
            }
            Command::CreateLayerSurface(_) => l.resume(Reply::Surface(ObjectId(surface))),
            _ => l.resume(Reply::Done),
        };
    }
}

fn description(id: u64) -> IcedLayerSurface {
    IcedLayerSurface {
        id: Id(id),
        namespace: String::from("panel"),
        settings: LayerSettings {
            requested_size: (None, Some(32)),
            anchor: Anchor { bits: 1 },
            exclusive_zone: 0,
            margin: IcedMargin { top: 0, right: 0, bottom: 0, left: 0 },
            keyboard_interactivity: KeyboardInteractivity::Never,
            layer: Layer::Top,
        },
    }
}

#[test]
fn a_run_starts_with_init() {
    let mut l = new_loop();
    assert!(matches!(
        l.run_return(),
        Command::Callback(IcedSctkEvent::NewEvents(StartCause::Init))
    ));
    assert_eq!(l.control_flow(), ControlFlow::Poll);
    let _ = l.features();
}

#[test]
fn polling_does_not_wait() {
    let mut l = at_pending(ControlFlow::Poll);
    match l.resume(Reply::Pending(Ok(0))) {
        Command::Dispatch(timeout) => assert_eq!(timeout, Some(Duration { nanos: 0 })),
        other => panic!("{:?}", other),
    }
    assert!(matches!(
        l.resume(Reply::Dispatched(Ok(()))),
        Command::Callback(IcedSctkEvent::NewEvents(StartCause::Poll))
    ));
}

#[test]
fn waiting_has_no_limit() {
    let mut l = at_pending(ControlFlow::Wait);
    assert!(matches!(l.resume(Reply::Pending(Ok(0))), Command::Dispatch(None)));
    assert!(matches!(l.resume(Reply::Dispatched(Ok(()))), Command::Now));
    match l.resume(Reply::Time(Instant { nanos: 17 })) {
        Command::Callback(IcedSctkEvent::NewEvents(StartCause::WaitCancelled {
            start,
            requested_resume,
        })) => {
            assert_eq!(start, Instant { nanos: 17 });
            assert_eq!(requested_resume, None);
        }
        other => panic!("{:?}", other),
    }
}

#[test]
fn waiting_messages_wake_at_once() {
    let mut l = at_pending(ControlFlow::Wait);
    match l.resume(Reply::Pending(Ok(3))) {
        Command::Dispatch(timeout) => assert_eq!(timeout, Some(Duration { nanos: 0 })),
        other => panic!("{:?}", other),
    }

    let mut l = at_pending(ControlFlow::WaitUntil(Instant { nanos: 900 }));
    assert!(matches!(l.resume(Reply::Pending(Ok(1))), Command::Now));
    match l.resume(Reply::Time(Instant { nanos: 100 })) {
        Command::Dispatch(timeout) => assert_eq!(timeout, Some(Duration { nanos: 0 })),
        other => panic!("{:?}", other),
    }
}

fn timeout(deadline: i128, start: i128) -> u128 {
    let mut l = at_pending(ControlFlow::WaitUntil(Instant { nanos: deadline }));
    assert!(matches!(l.resume(Reply::Pending(Ok(0))), Command::Now));
    match l.resume(Reply::Time(Instant { nanos: start })) {
        Command::Dispatch(Some(timeout)) => timeout.nanos,
        other => panic!("{:?}", other),
    }
}

#[test]
fn a_deadline_limits_the_wait() {
    assert_eq!(timeout(1000, 400), 600);
    assert_eq!(timeout(400, 400), 0);
    assert_eq!(timeout(399, 400), 0);
    assert_eq!(timeout(5, -7), 12);
    assert_eq!(timeout(-5, -7), 2);
    assert_eq!(timeout(i128::MAX, i128::MIN), u128::MAX);
}

fn cause(deadline: i128, now: i128) -> String {
    let mut l = at_pending(ControlFlow::WaitUntil(Instant { nanos: deadline }));
    l.resume(Reply::Pending(Ok(0)));
    l.resume(Reply::Time(Instant { nanos: 10 }));
    assert!(matches!(l.resume(Reply::Dispatched(Ok(()))), Command::Now));
    match l.resume(Reply::Time(Instant { nanos: now })) {
        Command::Callback(IcedSctkEvent::NewEvents(cause)) => format!("{:?}", cause),
        other => panic!("{:?}", other),
    }
}

#[test]
fn the_cause_of_waking_is_true() {
    let start = Instant { nanos: 10 };
    let deadline = Instant { nanos: 20 };
    let cut_short = StartCause::WaitCancelled { start, requested_resume: Some(deadline) };
    let come = StartCause::ResumeTimeReached { start, requested_resume: deadline };
    assert_eq!(cause(20, 19), format!("{:?}", cut_short));
    assert_eq!(cause(20, 20), format!("{:?}", come));
    assert_eq!(cause(20, 21), format!("{:?}", come));
}

#[test]
fn a_turn_delivers_everything_in_order() {
    let mut l = at_pending(ControlFlow::Poll);
    wake(&mut l);
    let state = l.state_mut();
    state.sctk_events.push(SctkEvent::Other("first"));
    state.sctk_events.push(SctkEvent::Draw(ObjectId(5)));
    state.sctk_events.push(SctkEvent::Other("second"));
    state.sctk_events.push(SctkEvent::Draw(ObjectId(6)));
    state.pending_user_events.push(Event::SetCursor(Interaction::Grab));
    state.pending_user_events.push(Event::SctkEvent(IcedSctkEvent::UserEvent(7)));
    state
        .pending_user_events
        .push(Event::LayerSurface(Action::LayerSurface { builder: description(40) }));
    state.pending_user_events.push(Event::LayerSurface(Action::Destroy(Id(40))));
    state.pending_user_events.push(Event::SctkEvent(IcedSctkEvent::UserEvent(8)));
    state.window_user_requests.insert(
        6,
        SurfaceUserRequest { redraw_requested: true, refresh_frame: false },
    );
    assert_eq!(
        rest_of_turn(&mut l, 90),
        vec![
            "SctkEvent(Other(\"first\"))",
            "SctkEvent(Other(\"second\"))",
            "UserEvent(7)",
            "UserEvent(8)",
            "SctkEvent(LayerSurfaceEvent { variant: Created(ObjectId(90), Id(40)), id: ObjectId(90) })",
            "SctkEvent(LayerSurfaceEvent { variant: Done, id: ObjectId(90) })",
            "MainEventsCleared",
            "RedrawRequested(ObjectId(6))",
            "RedrawRequested(ObjectId(5))",
            "RedrawEventsCleared",
        ]
    );
    assert!(l.state().sctk_events.is_empty());
    assert!(l.state().pending_user_events.is_empty());
    assert!(l.state().layer_surfaces.is_empty());
}

#[test]
fn an_empty_turn_tells_that_it_is_over() {
    let mut l = at_pending(ControlFlow::Poll);
    wake(&mut l);
    assert_eq!(rest_of_turn(&mut l, 0), vec!["MainEventsCleared", "RedrawEventsCleared"]);
}

#[test]
fn later_events_wait_for_the_next_turn() {
    let mut l = at_pending(ControlFlow::Poll);
    wake(&mut l);
    l.state_mut().sctk_events.push(SctkEvent::Other("now"));
    assert!(matches!(
        l.resume(Reply::Returned(ControlFlow::Poll)),
        Command::Callback(IcedSctkEvent::SctkEvent(SctkEvent::Other("now")))
    ));
    l.state_mut().sctk_events.push(SctkEvent::Other("later"));
    l.state_mut().pending_user_events.push(Event::SctkEvent(IcedSctkEvent::UserEvent(1)));
    assert!(matches!(
        l.resume(Reply::Returned(ControlFlow::Poll)),
        Command::Callback(IcedSctkEvent::UserEvent(1))
    ));
    l.state_mut().pending_user_events.push(Event::SctkEvent(IcedSctkEvent::UserEvent(2)));
    assert!(matches!(
        l.resume(Reply::Returned(ControlFlow::Poll)),
        Command::Callback(IcedSctkEvent::MainEventsCleared)
    ));
    assert_eq!(l.state().sctk_events.len(), 1);
    assert_eq!(l.state().pending_user_events.len(), 1);
}

#[test]
fn the_last_control_flow_decides() {
    let mut l = at_pending(ControlFlow::Poll);
    wake(&mut l);
    l.resume(Reply::Returned(ControlFlow::Wait));
    l.resume(Reply::Returned(ControlFlow::WaitUntil(Instant { nanos: 3 })));
    assert!(matches!(l.resume(Reply::Returned(ControlFlow::Wait)), Command::Flush));
    assert_eq!(l.control_flow(), ControlFlow::Wait);
    l.resume(Reply::Done);
    assert!(matches!(l.resume(Reply::Pending(Ok(0))), Command::Dispatch(None)));
}
