//! The events that the event loop tells the application about.

use vstd::prelude::*;

use crate::time::Instant;
use crate::window::{Id, ObjectId};

verus! {

/// Why the event loop woke up.
#[allow(inconsistent_fields)]
#[derive(Debug, Clone, Copy)]
pub enum StartCause {
    /// The loop has just started.
    Init,
    /// The application asked for another turn at once.
    Poll,
    /// Something arrived before the time that the application asked to be woken at.
    WaitCancelled { start: Instant, requested_resume: Option<Instant> },
    /// The time that the application asked to be woken at has come.
    ResumeTimeReached { start: Instant, requested_resume: Instant },
}

/// What became of a layer surface.
#[derive(Debug, Clone, Copy)]
pub enum LayerSurfaceEventVariant {
    /// The surface was created for the application's identifier.
    Created(ObjectId, Id),
    /// The surface is gone.
    Done,
}

/// An event that comes from the compositor; `E` are the kinds that the loop only passes on.
#[derive(Debug)]
pub enum SctkEvent<E> {
    /// A surface has to be drawn.
    Draw(ObjectId),
    /// Something happened to a layer surface.
    LayerSurfaceEvent { variant: LayerSurfaceEventVariant, id: ObjectId },
    /// Any other event.
    Other(E),
}

/// An event that the application is told about; `T` are the application's own.
#[derive(Debug)]
pub enum IcedSctkEvent<T, E> {
    /// A turn of the loop begins.
    NewEvents(StartCause),
    /// An event of the application's own.
    UserEvent(T),
    /// An event from the compositor.
    SctkEvent(SctkEvent<E>),
    /// Every event of this turn has been handed out; drawing is next.
    MainEventsCleared,
    /// A surface has to be redrawn.
    RedrawRequested(ObjectId),
    /// Every redraw of this turn has been asked for.
    RedrawEventsCleared,
    /// The loop is over; this is the last event.
    LoopDestroyed,
}

/// What was asked for one surface since the loop last looked.
#[derive(Debug, Clone, Copy, PartialEq, Eq, Structural)]
pub struct SurfaceUserRequest {
    /// The surface is to be redrawn.
    pub redraw_requested: bool,
    /// The frame around the surface is to be drawn anew.
    pub refresh_frame: bool,
}

/// What the compositor changed about one surface since the application last looked.
#[derive(Debug, Clone, Copy, PartialEq, Eq)]
pub struct SurfaceCompositorUpdate {
    /// Width and height that the surface is to take.
    pub size: Option<(u32, u32)>,
    /// The factor by which what is drawn is to be scaled.
    pub scale_factor: Option<i32>,
    /// The surface is to be closed.
    pub close: bool,
}

impl SurfaceUserRequest {
    /// Nothing was asked for.
    pub open spec fn nothing() -> SurfaceUserRequest {
        SurfaceUserRequest { redraw_requested: false, refresh_frame: false }
    }

    /// Whether the request leads to a redraw: refreshing the frame needs a commit of the
    /// surface, which forces one.
    pub open spec fn wants_redraw(self) -> bool {
        self.redraw_requested || self.refresh_frame
    }
}

impl Default for SurfaceUserRequest {
    fn default() -> (request: Self)
        ensures
            request == SurfaceUserRequest::nothing(),
    {
        SurfaceUserRequest { redraw_requested: false, refresh_frame: false }
    }
}

} // verus!
