use vstd::prelude::*;

verus! {

/// An axis-aligned rectangle in pixel coordinates.
#[derive(Clone, Copy, Debug, Default, PartialEq, Eq, Structural)]
pub struct CropSize {
    pub x: u32,
    pub y: u32,
    pub width: u32,
    pub height: u32,
}

/// The ways an analysis can fail.
#[derive(Clone, Copy, Debug, PartialEq, Eq, Structural)]
pub enum CropError {
    /// A zero-sized image, or a configuration that cannot describe a crop.
    InvalidInput,
    /// No candidate rectangle fits inside the image.
    NoCropFound,
    /// Dimension arithmetic would leave the representable range.
    NumericOverflow,
}

/// The rectangle lies wholly inside a `w` by `h` image.
pub open spec fn inside(c: CropSize, w: nat, h: nat) -> bool {
    &&& c.x + c.width <= w
    &&& c.y + c.height <= h
}

} // verus!
