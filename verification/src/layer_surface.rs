//! Layer surfaces, and what the application can ask of them.

use vstd::prelude::*;

use crate::window::{Id, ObjectId};

verus! {

/// The depth at which a layer surface is drawn, from the back to the front.
#[derive(Debug, Clone, Copy, PartialEq, Eq, Structural)]
pub enum Layer {
    Background,
    Bottom,
    Top,
    Overlay,
}

/// How a layer surface takes part in keyboard focus.
#[derive(Debug, Clone, Copy, PartialEq, Eq, Structural)]
pub enum KeyboardInteractivity {
    /// The surface never has the focus.
    Never,
    /// The surface takes the focus for itself.
    Exclusive,
    /// The compositor moves the focus as it does for ordinary windows.
    OnDemand,
}

/// The edges of the output that a layer surface is anchored to: 1 is the top edge, 2 the
/// bottom, 4 the left, 8 the right, and a combination is their sum.
#[derive(Debug, Clone, Copy, PartialEq, Eq, Structural)]
pub struct Anchor {
    /// The set of edges.
    pub bits: u32,
}

/// The distance that a layer surface keeps from the edges it is anchored to.
#[derive(Debug, Clone, Copy, PartialEq, Eq, Structural)]
pub struct IcedMargin {
    pub top: i32,
    pub right: i32,
    pub bottom: i32,
    pub left: i32,
}

/// What can be changed about a layer surface while it exists.
#[derive(Debug, Clone, Copy)]
pub struct LayerSettings {
    /// Width and height; an absent one is left to the compositor.
    pub requested_size: (Option<u32>, Option<u32>),
    pub anchor: Anchor,
    pub exclusive_zone: i32,
    pub margin: IcedMargin,
    pub keyboard_interactivity: KeyboardInteractivity,
    pub layer: Layer,
}

/// The description of a layer surface that is to be created.
#[derive(Debug)]
pub struct IcedLayerSurface {
    /// The identifier that the application gives to the surface.
    pub id: Id,
    /// The purpose of the surface, told to the compositor.
    pub namespace: String,
    /// The settings that the surface starts with.
    pub settings: LayerSettings,
}

/// A layer surface that exists.
#[derive(Debug, Clone, Copy)]
pub struct SctkLayerSurface {
    /// The identifier that the application gave to the surface.
    pub id: Id,
    /// The Wayland surface behind it.
    pub surface: ObjectId,
    /// The settings that were last asked for.
    pub settings: LayerSettings,
}

/// What the application asks of a layer surface.
#[derive(Debug)]
pub enum Action {
    /// Create a surface.
    LayerSurface { builder: IcedLayerSurface },
    /// Change the size of a surface.
    Size { id: Id, width: Option<u32>, height: Option<u32> },
    /// Destroy a surface.
    Destroy(Id),
    /// Anchor a surface to other edges.
    Anchor { id: Id, anchor: Anchor },
    /// Change the exclusive zone of a surface.
    ExclusiveZone { id: Id, exclusive_zone: i32 },
    /// Change the margin of a surface.
    Margin { id: Id, margin: IcedMargin },
    /// Change how a surface takes part in keyboard focus.
    KeyboardInteractivity { id: Id, keyboard_interactivity: KeyboardInteractivity },
    /// Move a surface to another layer.
    Layer { id: Id, layer: Layer },
}

} // verus!
