//! Plain geometric values shared by the layout engine.

use vstd::prelude::*;

verus! {

/// The axis along which a container lays out its children.
#[derive(Clone, Copy, Debug, PartialEq, Eq, Structural)]
pub enum Direction {
    Horizontal,
    Vertical,
}

/// A rectangle on the terminal grid.
///
/// The extent of a rectangle always fits in sixteen bits. Its position is
/// kept wider, since fixed-size regions that exceed their container are
/// placed past the container's far edge rather than being cut off.
#[derive(Clone, Copy, Debug, PartialEq, Eq, Structural)]
pub struct Rect {
    pub x: u64,
    pub y: u64,
    pub width: u16,
    pub height: u16,
}

/// The mathematical model of a rectangle.
pub ghost struct Region {
    pub x: int,
    pub y: int,
    pub width: int,
    pub height: int,
}

impl View for Rect {
    type V = Region;

    open spec fn view(&self) -> Region {
        Region {
            x: self.x as int,
            y: self.y as int,
            width: self.width as int,
            height: self.height as int,
        }
    }
}

impl Rect {
    /// A rectangle with the given position and extent.
    pub fn new(x: u64, y: u64, width: u16, height: u16) -> (r: Rect)
        ensures
            r == (Rect { x, y, width, height }),
    {
        Rect { x, y, width, height }
    }
}

} // verus!
