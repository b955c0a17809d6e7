//! The exit codes that failures of the outside event loops lead to.
//!
//! A failure that the operating system reported ends the loop with the system's own error
//! code; every other failure ends it with 1.

use vstd::prelude::*;

verus! {

/// The error of the calloop event loop.
#[verifier::external_type_specification]
#[verifier::external_body]
pub struct ExLoopError(calloop::Error);

/// The error of a Wayland event queue.
#[verifier::external_type_specification]
#[verifier::external_body]
pub struct ExDispatchError(wayland_client::DispatchError);

/// The error of a Wayland connection.
#[verifier::external_type_specification]
#[verifier::external_body]
pub struct ExWaylandError(wayland_backend::client::WaylandError);

/// The error of an operation of the system.
#[verifier::external_type_specification]
#[verifier::external_body]
pub struct ExIoError(std::io::Error);

/// The kinds of failure of the calloop event loop.
pub enum LoopFailure {
    /// An operation of the system failed.
    Io(std::io::Error),
    /// The token of an event source is not valid.
    InvalidToken,
    /// An event source failed in its own way.
    Other,
}

/// The kinds of failure of a Wayland event queue.
pub enum QueueFailure {
    /// A message does not fit the interface of its object.
    BadMessage,
    /// The connection failed.
    Backend(wayland_backend::client::WaylandError),
}

/// The kinds of failure of a Wayland connection.
pub enum ConnectionFailure {
    /// An operation of the system failed.
    Io(std::io::Error),
    /// The compositor reported an error of the client.
    Protocol,
}

/// Which variant of `calloop::Error` an error is, with the error of the system inside it.
pub uninterp spec fn loop_failure(err: calloop::Error) -> LoopFailure;

/// Which variant of `wayland_client::DispatchError` an error is, with the error of the
/// connection inside it.
pub uninterp spec fn queue_failure(err: wayland_client::DispatchError) -> QueueFailure;

/// Which variant of `wayland_backend::client::WaylandError` an error is, with the error of the
/// system inside it.
pub uninterp spec fn connection_failure(
    err: wayland_backend::client::WaylandError,
) -> ConnectionFailure;

/// The code that `std::io::Error::raw_os_error` gives for an error.
pub uninterp spec fn os_code(err: std::io::Error) -> Option<i32>;

/// `std::io::Error::raw_os_error`: the code depends on the error alone. Which errors carry a
/// code, and which code, is not said.
pub assume_specification[ std::io::Error::raw_os_error ](err: &std::io::Error) -> (code: Option<
    i32,
>)
    ensures
        code == os_code(*err),
;

/// Tells the variants of `calloop::Error` apart: `IoError` is handed on with the error inside
/// it.
#[verifier::external_body]
fn split_loop_error(err: calloop::Error) -> (failure: LoopFailure)
    ensures
        failure == loop_failure(err),
{
    match err {
        calloop::Error::IoError(err) => LoopFailure::Io(err),
        calloop::Error::InvalidToken => LoopFailure::InvalidToken,
        calloop::Error::OtherError(_) => LoopFailure::Other,
    }
}

/// Tells the variants of `wayland_client::DispatchError` apart: `Backend` is handed on with the
/// error inside it.
#[verifier::external_body]
fn split_queue_error(err: wayland_client::DispatchError) -> (failure: QueueFailure)
    ensures
        failure == queue_failure(err),
{
    match err {
        wayland_client::DispatchError::BadMessage { .. } => QueueFailure::BadMessage,
        wayland_client::DispatchError::Backend(err) => QueueFailure::Backend(err),
    }
}

/// Tells the variants of `wayland_backend::client::WaylandError` apart: `Io` is handed on with
/// the error inside it.
#[verifier::external_body]
fn split_connection_error(err: wayland_backend::client::WaylandError) -> (failure:
    ConnectionFailure)
    ensures
        failure == connection_failure(err),
{
    match err {
        wayland_backend::client::WaylandError::Io(err) => ConnectionFailure::Io(err),
        wayland_backend::client::WaylandError::Protocol(_) => ConnectionFailure::Protocol,
    }
}

/// The exit code for an error that may carry a code of the system.
pub open spec fn exit_code(code: Option<i32>) -> i32 {
    match code {
        Some(code) => code,
        None => 1,
    }
}

/// The exit code for a failure of the calloop event loop.
pub open spec fn loop_failure_code(failure: LoopFailure) -> i32 {
    match failure {
        LoopFailure::Io(err) => exit_code(os_code(err)),
        _ => 1,
    }
}

/// The exit code for a failure of a Wayland connection.
pub open spec fn connection_failure_code(failure: ConnectionFailure) -> i32 {
    match failure {
        ConnectionFailure::Io(err) => exit_code(os_code(err)),
        ConnectionFailure::Protocol => 1,
    }
}

/// The exit code for a failure of a Wayland event queue.
pub open spec fn queue_failure_code(failure: QueueFailure) -> i32 {
    match failure {
        QueueFailure::BadMessage => 1,
        QueueFailure::Backend(err) => connection_failure_code(connection_failure(err)),
    }
}

/// The exit code for an error that may carry a code of the system: that code, or 1.
pub fn code_or_one(code: Option<i32>) -> (exit: i32)
    ensures
        exit == exit_code(code),
{
    match code {
        Some(code) => code,
        None => 1,
    }
}

/// The exit code for a failure of the calloop event loop.
pub fn loop_exit_code(failure: LoopFailure) -> (exit: i32)
    ensures
        exit == loop_failure_code(failure),
{
    let code: Option<i32> = match failure {
        LoopFailure::Io(err) => err.raw_os_error(),
        _ => None,
    };
    code_or_one(code)
}

/// The exit code for a failure of a Wayland connection.
pub fn connection_exit_code(failure: ConnectionFailure) -> (exit: i32)
    ensures
        exit == connection_failure_code(failure),
{
    let code: Option<i32> = match failure {
        ConnectionFailure::Io(err) => err.raw_os_error(),
        ConnectionFailure::Protocol => None,
    };
    code_or_one(code)
}

/// The exit code for a failure of a Wayland event queue.
pub fn queue_exit_code(failure: QueueFailure) -> (exit: i32)
    ensures
        exit == queue_failure_code(failure),
{
    match failure {
        QueueFailure::BadMessage => code_or_one(None),
        QueueFailure::Backend(err) => connection_exit_code(split_connection_error(err)),
    }
}

/// The exit code for a failed dispatch of the calloop event loop.
pub fn raw_os_err(err: calloop::Error) -> (exit: i32)
    ensures
        exit == loop_failure_code(loop_failure(err)),
{
    loop_exit_code(split_loop_error(err))
}

/// The exit code for a failed dispatch of the messages that wait in a Wayland event queue.
pub fn raw_queue_err(err: wayland_client::DispatchError) -> (exit: i32)
    ensures
        exit == queue_failure_code(queue_failure(err)),
{
    queue_exit_code(split_queue_error(err))
}

} // verus!
