use vstd::prelude::*;

verus! {

/// A text cursor position.
pub struct Cursor {
    pub x: u32,
    pub y: u32,
}

impl Cursor {
    /// A cursor at the top left corner.
    pub fn new() -> (c: Self)
        ensures
            c.x == 0,
            c.y == 0,
    {
        Self { x: 0, y: 0 }
    }
}

} // verus!
