//! The value objects that identify a shadow configuration: the surface
//! rectangle in logical pixels and its four corner radii.

use vstd::prelude::*;

verus! {

/// Largest admitted magnitude of a surface coordinate or size, in logical
/// pixels; keeps unit arithmetic far from `i64` overflow at every scale.
pub const GEO_LIMIT: i32 = 0x10_0000;

/// A surface rectangle in logical pixels.
#[derive(Clone, Copy, Debug, PartialEq, Eq, Structural)]
pub struct IntRect {
    pub x: i32,
    pub y: i32,
    pub w: i32,
    pub h: i32,
}

impl IntRect {
    /// Every coordinate within [`GEO_LIMIT`].
    pub open spec fn bounded(self) -> bool {
        -GEO_LIMIT <= self.x <= GEO_LIMIT && -GEO_LIMIT <= self.y <= GEO_LIMIT
            && -GEO_LIMIT <= self.w <= GEO_LIMIT && -GEO_LIMIT <= self.h <= GEO_LIMIT
    }

    /// A rectangle from its position and size.
    pub fn new(x: i32, y: i32, w: i32, h: i32) -> (r: IntRect)
        ensures
            r == (IntRect { x, y, w, h }),
    {
        IntRect { x, y, w, h }
    }
}

/// The four corner radii of a surface, in logical pixels, in the order
/// top-left, top-right, bottom-left, bottom-right.
#[derive(Clone, Copy, Debug, PartialEq, Eq, Structural)]
pub struct Radii {
    pub tl: u8,
    pub tr: u8,
    pub bl: u8,
    pub br: u8,
}

impl Radii {
    /// Radii from the four corner values.
    pub fn new(tl: u8, tr: u8, bl: u8, br: u8) -> (r: Radii)
        ensures
            r == (Radii { tl, tr, bl, br }),
    {
        Radii { tl, tr, bl, br }
    }
}

/// The inputs that determine a shadow's geometry; compared for change
/// detection by the cache. Immutable once constructed.
#[derive(Clone, Copy, Debug, PartialEq, Eq, Structural)]
pub struct ShadowParameters {
    pub geo: IntRect,
    pub radius: Radii,
}

impl ShadowParameters {
    /// Parameters from a surface rectangle and its corner radii.
    pub fn new(geo: IntRect, radius: Radii) -> (r: ShadowParameters)
        ensures
            r == (ShadowParameters { geo, radius }),
    {
        ShadowParameters { geo, radius }
    }
}

} // verus!
