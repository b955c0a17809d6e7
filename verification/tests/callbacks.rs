use sctk_event_loop::application::Event;
use sctk_event_loop::event_loop::command::{Command, Reply};
use sctk_event_loop::event_loop::control_flow::ControlFlow;
use sctk_event_loop::event_loop::state::{ChannelEvent, SctkState};
use sctk_event_loop::event_loop::{sticky_exit_callback, SctkEventLoop};
use sctk_event_loop::sctk_event::{IcedSctkEvent, SctkEvent, SurfaceCompositorUpdate};
use sctk_event_loop::time::{Duration, Instant};
use sctk_event_loop::window::ObjectId;

type Told = IcedSctkEvent<u8, u8>;
type State = SctkState<u8, u8>;

#[test]
fn an_exit_survives_the_callback() {
    let state: State = SctkState::new();
    let mut seen = Vec::new();
    let mut callback = |event: Told, _: &State, flow: &mut ControlFlow| {
        seen.push((format!("{:?}", event), *flow));
        *flow = ControlFlow::Wait;
    };
    let mut flow = ControlFlow::ExitWithCode(5);
    sticky_exit_callback(IcedSctkEvent::MainEventsCleared, &state, &mut flow, &mut callback);
    assert_eq!(flow, ControlFlow::ExitWithCode(5));
    let mut flow = ControlFlow::Poll;
    sticky_exit_callback(IcedSctkEvent::UserEvent(3), &state, &mut flow, &mut callback);
    assert_eq!(flow, ControlFlow::Wait);
    assert_eq!(
        seen,
        vec![
            (String::from("MainEventsCleared"), ControlFlow::ExitWithCode(5)),
            (String::from("UserEvent(3)"), ControlFlow::Poll),
        ]
    );
}

#[test]
fn an_exit_is_kept() {
    let exit = ControlFlow::ExitWithCode(1);
    assert_eq!(exit.keep_exit(ControlFlow::Poll), exit);
    assert_eq!(exit.keep_exit(ControlFlow::ExitWithCode(2)), exit);
    assert_eq!(ControlFlow::Wait.keep_exit(exit), exit);
    assert_eq!(ControlFlow::Wait.keep_exit(ControlFlow::Poll), ControlFlow::Poll);
}

#[test]
fn a_whole_run_with_a_callback() {
    let (sender, _channel) = calloop::channel::channel();
    let mut l: SctkEventLoop<u8, u8> = SctkEventLoop::new(sender);
    let mut told = Vec::new();
    let mut callback = |event: Told, state: &State, flow: &mut ControlFlow| {
        if let IcedSctkEvent::SctkEvent(SctkEvent::Other(code)) = &event {
            *flow = ControlFlow::ExitWithCode(*code as i32);
        } else {
            *flow = ControlFlow::Poll;
        }
        told.push(format!("{:?} {}", event, state.windows.len()));
    };
    let mut command = l.run_return();
    let code = loop {
        command = match command {
            Command::Finish(code) => break code,
            Command::Callback(event) => l.call_back(event, &mut callback),
            Command::DispatchPending => {
                l.state_mut().sctk_events.push(SctkEvent::Draw(ObjectId(1)));
                l.state_mut().sctk_events.push(SctkEvent::Other(77));
                l.state_mut().sctk_events.push(SctkEvent::Other(78));
                l.resume(Reply::Pending(Ok(3)))
            }
            Command::Dispatch(_) => l.resume(Reply::Dispatched(Ok(()))),
            _ => l.resume(Reply::Done),
        };
    };
    assert_eq!(code, 77);
    assert_eq!(
        told,
        vec![
            "NewEvents(Init) 0",
            "NewEvents(Poll) 0",
            "SctkEvent(Other(77)) 0",
            "SctkEvent(Other(78)) 0",
            "MainEventsCleared 0",
            "RedrawRequested(ObjectId(1)) 0",
            "RedrawEventsCleared 0",
            "LoopDestroyed 0",
        ]
    );
}

#[test]
fn a_proxy_sends_into_the_channel_of_the_loop() {
    let (sender, channel) = calloop::channel::channel();
    let l: SctkEventLoop<u8, u8> = SctkEventLoop::new(sender);
    let proxy = l.proxy();
    proxy.sender().send(Event::SctkEvent(IcedSctkEvent::UserEvent(9))).unwrap();
    assert!(matches!(
        channel.recv(),
        Ok(Event::SctkEvent(IcedSctkEvent::UserEvent(9)))
    ));
}

#[test]
fn messages_from_the_channel_are_queued() {
    let mut state: State = SctkState::new();
    state.handle_channel_event(ChannelEvent::Msg(Event::SctkEvent(IcedSctkEvent::UserEvent(1))));
    state.handle_channel_event(ChannelEvent::Closed);
    state.handle_channel_event(ChannelEvent::Msg(Event::SctkEvent(IcedSctkEvent::UserEvent(2))));
    assert_eq!(
        format!("{:?}", state.pending_user_events),
        "[SctkEvent(UserEvent(1)), SctkEvent(UserEvent(2))]"
    );
}

#[test]
fn spans_of_time_are_exact() {
    let at = |nanos: i128| Instant { nanos };
    assert_eq!(at(9).duration_since(at(4)), Duration { nanos: 5 });
    assert_eq!(at(4).duration_since(at(-4)), Duration { nanos: 8 });
    assert_eq!(at(-4).duration_since(at(-9)), Duration { nanos: 5 });
    assert_eq!(at(0).duration_since(at(0)), Duration::zero());
}

#[test]
fn a_new_loop_is_empty() {
    let (sender, _channel) = calloop::channel::channel();
    let l: SctkEventLoop<u8, u8> = SctkEventLoop::new(sender);
    let state = l.state();
    assert_eq!(state.cursor_surface, None);
    assert_eq!(state.multipool, None);
    assert_eq!(state.kbd_focus, None);
    assert!(state.outputs.is_empty() && state.seats.is_empty());
    assert!(state.windows.is_empty() && state.layer_surfaces.is_empty());
    assert!(state.popups.is_empty());
    assert!(state.window_user_requests.is_empty());
    assert!(state.window_compositor_updates.is_empty());
    assert!(state.layer_surface_user_requests.is_empty());
    assert!(state.layer_surface_compositor_updates.is_empty());
    assert!(state.popup_user_requests.is_empty());
    assert!(state.popup_compositor_updates.is_empty());
    assert!(state.sctk_events.is_empty() && state.pending_user_events.is_empty());
}

#[test]
fn a_run_leaves_the_rest_of_the_state_alone() {
    let (sender, _channel) = calloop::channel::channel();
    let mut l: SctkEventLoop<u8, u8> = SctkEventLoop::new(sender);
    let update = SurfaceCompositorUpdate { size: Some((4, 5)), scale_factor: None, close: false };
    l.state_mut().outputs.push(ObjectId(70));
    l.state_mut().kbd_focus = Some(ObjectId(71));
    l.state_mut().popup_compositor_updates.insert(72, update);
    let mut turns = 0;
    let mut command = l.run_return();
    while !matches!(command, Command::Finish(_)) {
        command = match command {
            Command::Callback(event) => {
                let over = matches!(event, IcedSctkEvent::RedrawEventsCleared);
                turns += over as i32;
                let flow = if turns == 2 { ControlFlow::ExitWithCode(0) } else { ControlFlow::Poll };
                l.resume(Reply::Returned(flow))
            }
            Command::DispatchPending => l.resume(Reply::Pending(Ok(0))),
            Command::Dispatch(_) => l.resume(Reply::Dispatched(Ok(()))),
            _ => l.resume(Reply::Done),
        };
    }
    assert_eq!(turns, 2);
    assert_eq!(l.state().outputs, vec![ObjectId(70)]);
    assert_eq!(l.state().kbd_focus, Some(ObjectId(71)));
    assert_eq!(l.state().popup_compositor_updates.get(&72), Some(&update));
}

#[test]
fn a_run_has_a_start_whole_rounds_and_an_end() {
    let (sender, _channel) = calloop::channel::channel();
    let mut l: SctkEventLoop<u8, u8> = SctkEventLoop::new(sender);
    let mut told = Vec::new();
    let mut command = l.run_return();
    while !matches!(command, Command::Finish(_)) {
        command = match command {
            Command::Callback(event) => {
                told.push(format!("{:?}", event));
                let flow = if told.len() == 5 { ControlFlow::ExitWithCode(0) } else { ControlFlow::Poll };
                l.resume(Reply::Returned(flow))
            }
            Command::DispatchPending => l.resume(Reply::Pending(Ok(0))),
            Command::Dispatch(_) => l.resume(Reply::Dispatched(Ok(()))),
            _ => l.resume(Reply::Done),
        };
    }
    assert_eq!(
        told,
        vec![
            "NewEvents(Init)",
            "NewEvents(Poll)",
            "MainEventsCleared",
            "RedrawEventsCleared",
            "NewEvents(Poll)",
            "MainEventsCleared",
            "RedrawEventsCleared",
            "LoopDestroyed",
        ]
    );
}
