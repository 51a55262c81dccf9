use vstd::prelude::*;

verus! {

/// Offsets, in surface coordinates, between a surface and the edges it is
/// anchored to.
#[derive(Clone, Copy, Debug, PartialEq, Eq, Structural)]
pub struct Margin {
    pub top: u32,
    pub bottom: u32,
    pub left: u32,
    pub right: u32,
}

impl Margin {
    /// A margin of zero on every side.
    pub fn new() -> (r: Self)
        ensures
            r == (Margin { top: 0, bottom: 0, left: 0, right: 0 }),
    {
        Self { top: 0, bottom: 0, left: 0, right: 0 }
    }

    /// The same margin with the top offset replaced.
    pub fn top(self, top: u32) -> (r: Self)
        ensures
            r == (Margin { top, ..self }),
    {
        Margin { top, ..self }
    }

    /// The same margin with the bottom offset replaced.
    pub fn bottom(self, bottom: u32) -> (r: Self)
        ensures
            r == (Margin { bottom, ..self }),
    {
        Margin { bottom, ..self }
    }

    /// The same margin with the left offset replaced.
    pub fn left(self, left: u32) -> (r: Self)
        ensures
            r == (Margin { left, ..self }),
    {
        Margin { left, ..self }
    }

    /// The same margin with the right offset replaced.
    pub fn right(self, right: u32) -> (r: Self)
        ensures
            r == (Margin { right, ..self }),
    {
        Margin { right, ..self }
    }
}

} // verus!
