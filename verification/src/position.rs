//! Named positions on a grid: signed (as given by clients) and unsigned
//! (as used to index a board).

use vstd::prelude::*;

verus! {

/// A possibly-negative position, as a client submits it.
#[derive(Clone, Copy, Debug, PartialEq, Eq, Structural)]
pub struct INamedPosition {
    pub x: isize,
    pub y: isize,
}

impl INamedPosition {
    pub fn new(x: isize, y: isize) -> (r: Self)
        ensures
            r.x == x,
            r.y == y,
    {
        INamedPosition { x, y }
    }
}

/// A non-negative position, usable as a board index.
#[derive(Clone, Copy, Debug, PartialEq, Eq, Structural)]
pub struct UNamedPosition {
    pub x: usize,
    pub y: usize,
}

impl UNamedPosition {
    pub fn new(x: usize, y: usize) -> (r: Self)
        ensures
            r.x == x,
            r.y == y,
    {
        UNamedPosition { x, y }
    }

    /// Converts a signed position; `None` exactly when a component is negative.
    pub fn try_from_signed(pos: INamedPosition) -> (r: Option<UNamedPosition>)
        ensures
            (pos.x >= 0 && pos.y >= 0) <==> r is Some,
            r is Some ==> r->0.x == pos.x && r->0.y == pos.y,
    {
        if pos.x >= 0 && pos.y >= 0 {
            Some(UNamedPosition { x: pos.x as usize, y: pos.y as usize })
        } else {
            None
        }
    }
}

} // verus!
