//! Names of the surfaces that the application owns.

use vstd::prelude::*;

verus! {

/// The identifier under which the application knows one of its surfaces.
#[derive(Debug, Clone, Copy, PartialEq, Eq, Structural)]
pub struct Id(pub u64);

/// The identifier of an object of the Wayland protocol, such as a surface.
///
/// Two identifiers are equal exactly when they name the same protocol object.
#[derive(Debug, Clone, Copy, PartialEq, Eq, Structural)]
pub struct ObjectId(pub u64);

} // verus!
