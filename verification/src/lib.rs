//! The decisions of a Wayland client event loop, with their contracts proved.
//!
//! [`event_loop::SctkEventLoop`] decides what happens next: which event the application is
//! told about, how long to wait for the compositor, what to ask of a surface, when to stop and
//! with which exit code. It does no input or output of its own. It hands out one
//! [`event_loop::command::Command`] at a time; whoever drives it carries the command out and
//! answers with a [`event_loop::command::Reply`].

pub mod application;
pub mod event_loop;
pub mod layer_surface;
pub mod sctk_event;
pub mod time;
pub mod window;
