//! What the application puts into the event loop.

use vstd::prelude::*;

use crate::layer_surface::Action;
use crate::sctk_event::IcedSctkEvent;

verus! {

/// The shape of the mouse cursor.
#[derive(Debug, Clone, Copy, PartialEq, Eq, Structural)]
pub enum Interaction {
    Idle,
    Pointer,
    Grab,
    Text,
    Crosshair,
    Working,
    Grabbing,
    ResizingHorizontally,
    ResizingVertically,
    NotAllowed,
}

/// An event that the application sends to the event loop.
#[derive(Debug)]
pub enum Event<T, E> {
    /// To be handed back to the application as it is.
    SctkEvent(IcedSctkEvent<T, E>),
    /// To be carried out on a layer surface.
    LayerSurface(Action),
    /// To show another cursor. Cursor themes are not available: nothing is done.
    SetCursor(Interaction),
}

} // verus!
