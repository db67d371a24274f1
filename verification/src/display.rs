use vstd::prelude::*;

verus! {

/// A specific display model: its pixel dimensions, for callers that size
/// their drawing to the panel.
pub trait DisplayVariant {
    /// Width and height of the display in pixels.
    fn dimensions() -> (r: (u8, u8));
}

/// Static rotation of the display content.
#[derive(Clone, Copy, Debug, PartialEq, Eq)]
pub enum DisplayRotation {
    /// No rotation.
    Rotate0,
    /// Rotated 90 degrees clockwise.
    Rotate90,
    /// Rotated 180 degrees clockwise.
    Rotate180,
    /// Rotated 270 degrees clockwise.
    Rotate270,
}

} // verus!
