use std::io;

use sctk_event_loop::event_loop::command::{Command, Reply};
use sctk_event_loop::event_loop::control_flow::ControlFlow;
use sctk_event_loop::event_loop::failure::{
    code_or_one, connection_exit_code, loop_exit_code, queue_exit_code, raw_os_err, raw_queue_err,
    ConnectionFailure, LoopFailure, QueueFailure,
};
use sctk_event_loop::event_loop::SctkEventLoop;
use sctk_event_loop::sctk_event::{IcedSctkEvent, SctkEvent, StartCause};
use wayland_backend::client::{ObjectId, WaylandError};
use wayland_backend::protocol::ProtocolError;
use wayland_client::DispatchError;

type Loop = SctkEventLoop<u8, u8>;

fn new_loop() -> Loop {
    let (sender, _channel) = calloop::channel::channel();
    SctkEventLoop::new(sender)
}

fn at_pending(flow: ControlFlow) -> Loop {
    let mut l = new_loop();
    l.run_return();
    l.resume(Reply::Returned(flow));
    assert!(matches!(l.resume(Reply::Done), Command::DispatchPending));
    l
}

fn ends_with(l: &mut Loop, command: Command<u8, u8>) -> i32 {
    assert!(matches!(command, Command::Callback(IcedSctkEvent::LoopDestroyed)));
    match l.resume(Reply::Returned(ControlFlow::Poll)) {
        Command::Finish(code) => code,
        other => panic!("{:?}", other),
    }
}

fn system_error(code: i32) -> io::Error {
    io::Error::from_raw_os_error(code)
}

fn other_error() -> io::Error {
    io::Error::new(io::ErrorKind::Other, "no code")
}

fn bad_message() -> DispatchError {
    DispatchError::BadMessage { sender_id: ObjectId::null(), interface: "wl_surface", opcode: 2 }
}

fn protocol_error() -> WaylandError {
    WaylandError::Protocol(ProtocolError {
        code: 7,
        object_id: 3,
        object_interface: String::from("wl_surface"),
        message: String::from("bad size"),
    })
}

#[test]
fn loop_errors_have_exit_codes() {
    assert_eq!(raw_os_err(calloop::Error::IoError(system_error(13))), 13);
    assert_eq!(raw_os_err(calloop::Error::IoError(other_error())), 1);
    assert_eq!(raw_os_err(calloop::Error::InvalidToken), 1);
    assert_eq!(raw_os_err(calloop::Error::OtherError(Box::new(system_error(13)))), 1);
}

#[test]
fn queue_errors_have_exit_codes() {
    assert_eq!(raw_queue_err(DispatchError::Backend(WaylandError::Io(system_error(32)))), 32);
    assert_eq!(raw_queue_err(DispatchError::Backend(WaylandError::Io(other_error()))), 1);
    assert_eq!(raw_queue_err(DispatchError::Backend(protocol_error())), 1);
    assert_eq!(raw_queue_err(bad_message()), 1);
}

#[test]
fn failures_have_exit_codes() {
    assert_eq!(loop_exit_code(LoopFailure::Io(system_error(4))), 4);
    assert_eq!(loop_exit_code(LoopFailure::Io(other_error())), 1);
    assert_eq!(loop_exit_code(LoopFailure::InvalidToken), 1);
    assert_eq!(loop_exit_code(LoopFailure::Other), 1);
    assert_eq!(connection_exit_code(ConnectionFailure::Io(system_error(4))), 4);
    assert_eq!(connection_exit_code(ConnectionFailure::Protocol), 1);
    assert_eq!(queue_exit_code(QueueFailure::BadMessage), 1);
    assert_eq!(queue_exit_code(QueueFailure::Backend(WaylandError::Io(system_error(4)))), 4);
    assert_eq!(queue_exit_code(QueueFailure::Backend(protocol_error())), 1);
}

#[test]
fn an_error_without_a_code_is_one() {
    assert_eq!(code_or_one(Some(0)), 0);
    assert_eq!(code_or_one(Some(-4)), -4);
    assert_eq!(code_or_one(None), 1);
}

#[test]
fn an_exit_ends_the_run_with_its_code() {
    let mut l = at_pending(ControlFlow::ExitWithCode(42));
    let command = l.resume(Reply::Pending(Ok(0)));
    assert_eq!(ends_with(&mut l, command), 42);
}

#[test]
fn a_broken_connection_decides_over_an_exit() {
    let mut l = at_pending(ControlFlow::ExitWithCode(42));
    let command =
        l.resume(Reply::Pending(Err(DispatchError::Backend(WaylandError::Io(system_error(32))))));
    assert_eq!(ends_with(&mut l, command), 32);
}

#[test]
fn a_failed_dispatch_ends_the_run() {
    for flow in vec![ControlFlow::Poll, ControlFlow::Wait] {
        let mut l = at_pending(flow);
        l.resume(Reply::Pending(Ok(0)));
        let command = l.resume(Reply::Dispatched(Err(calloop::Error::IoError(system_error(9)))));
        assert_eq!(ends_with(&mut l, command), 9);
    }

    let mut l = at_pending(ControlFlow::WaitUntil(sctk_event_loop::time::Instant { nanos: 5 }));
    l.resume(Reply::Pending(Ok(0)));
    l.resume(Reply::Time(sctk_event_loop::time::Instant { nanos: 1 }));
    let command = l.resume(Reply::Dispatched(Err(calloop::Error::InvalidToken)));
    assert_eq!(ends_with(&mut l, command), 1);

    let mut l = at_pending(ControlFlow::Wait);
    let command = l.resume(Reply::Pending(Err(bad_message())));
    assert_eq!(ends_with(&mut l, command), 1);
}

#[test]
fn an_exit_cannot_be_taken_back() {
    let mut l = at_pending(ControlFlow::Poll);
    l.resume(Reply::Pending(Ok(0)));
    l.resume(Reply::Dispatched(Ok(())));
    l.state_mut().sctk_events.push(SctkEvent::Other(1));
    l.state_mut().sctk_events.push(SctkEvent::Other(2));
    l.resume(Reply::Returned(ControlFlow::Poll));
    l.resume(Reply::Returned(ControlFlow::ExitWithCode(3)));
    assert_eq!(l.control_flow(), ControlFlow::ExitWithCode(3));
    assert!(matches!(
        l.resume(Reply::Returned(ControlFlow::Poll)),
        Command::Callback(IcedSctkEvent::MainEventsCleared)
    ));
    assert_eq!(l.control_flow(), ControlFlow::ExitWithCode(3));
    l.resume(Reply::Returned(ControlFlow::ExitWithCode(4)));
    assert!(matches!(l.resume(Reply::Returned(ControlFlow::Wait)), Command::Flush));
    l.resume(Reply::Done);
    let command = l.resume(Reply::Pending(Ok(5)));
    assert_eq!(ends_with(&mut l, command), 3);
}

#[test]
fn an_exit_while_waking_is_kept_for_the_turn() {
    let mut l = at_pending(ControlFlow::Poll);
    l.resume(Reply::Pending(Ok(0)));
    l.resume(Reply::Dispatched(Ok(())));
    l.resume(Reply::Returned(ControlFlow::ExitWithCode(8)));
    l.resume(Reply::Returned(ControlFlow::Poll));
    l.resume(Reply::Returned(ControlFlow::Poll));
    l.resume(Reply::Done);
    let command = l.resume(Reply::Pending(Ok(0)));
    assert_eq!(ends_with(&mut l, command), 8);
}

#[test]
fn a_loop_can_run_again() {
    let mut l = at_pending(ControlFlow::ExitWithCode(1));
    let command = l.resume(Reply::Pending(Ok(0)));
    assert_eq!(ends_with(&mut l, command), 1);
    assert!(matches!(
        l.run_return(),
        Command::Callback(IcedSctkEvent::NewEvents(StartCause::Init))
    ));
    assert_eq!(l.control_flow(), ControlFlow::Poll);
    assert!(matches!(l.resume(Reply::Returned(ControlFlow::Poll)), Command::Flush));
}
