//! What the loop asks for, and what it is answered.

use vstd::prelude::*;

use crate::event_loop::control_flow::ControlFlow;
use crate::layer_surface::{Anchor, IcedLayerSurface, KeyboardInteractivity, Layer};
use crate::sctk_event::IcedSctkEvent;
use crate::time::{Duration, Instant};
use crate::window::ObjectId;

verus! {

/// What has to be done next.
#[derive(Debug)]
pub enum Command<T, E> {
    /// Tell the application about an event. Answer: [`Reply::Returned`].
    Callback(IcedSctkEvent<T, E>),
    /// Send what is buffered to the compositor; a failure is ignored. Answer: [`Reply::Done`].
    Flush,
    /// Dispatch the messages that wait in the Wayland event queue. Answer: [`Reply::Pending`].
    DispatchPending,
    /// Wait for events, at most this long if a time is given, and dispatch them. Answer:
    /// [`Reply::Dispatched`].
    Dispatch(Option<Duration>),
    /// Read the clock. Answer: [`Reply::Time`].
    Now,
    /// Have the compositor create a layer surface. Answer: [`Reply::Surface`].
    CreateLayerSurface(IcedLayerSurface),
    /// Ask for another size of a layer surface, 0 where the compositor is to choose. Answer:
    /// [`Reply::Done`].
    SetSize { surface: ObjectId, width: u32, height: u32 },
    /// Anchor a layer surface. Answer: [`Reply::Done`].
    SetAnchor { surface: ObjectId, anchor: Anchor },
    /// Set the exclusive zone of a layer surface. Answer: [`Reply::Done`].
    SetExclusiveZone { surface: ObjectId, exclusive_zone: i32 },
    /// Set the margin of a layer surface. Answer: [`Reply::Done`].
    SetMargin { surface: ObjectId, top: i32, right: i32, bottom: i32, left: i32 },
    /// Set how a layer surface takes part in keyboard focus. Answer: [`Reply::Done`].
    SetKeyboardInteractivity {
        surface: ObjectId,
        keyboard_interactivity: KeyboardInteractivity,
    },
    /// Move a layer surface to another layer. Answer: [`Reply::Done`].
    SetLayer { surface: ObjectId, layer: Layer },
    /// Give up the layer surface, which the loop has forgotten. Answer: [`Reply::Done`].
    DropLayerSurface(ObjectId),
    /// See to the frame around a window, which has to exist; the window is redrawn next. Answer:
    /// [`Reply::Done`].
    RefreshFrame(ObjectId),
    /// Commit what was drawn on a surface. Answer: [`Reply::Done`].
    Commit(ObjectId),
    /// The run is over, with this exit code. There is nothing to answer.
    Finish(i32),
}

/// How a command was carried out.
#[derive(Debug)]
pub enum Reply {
    /// The application has handled the event and left this control flow behind.
    Returned(ControlFlow),
    /// It is done.
    Done,
    /// How many messages were dispatched from the Wayland event queue.
    Pending(Result<usize, wayland_client::DispatchError>),
    /// Whether waiting and dispatching went well.
    Dispatched(Result<(), calloop::Error>),
    /// The time that the clock shows.
    Time(Instant),
    /// The surface that was created.
    Surface(ObjectId),
}

} // verus!
