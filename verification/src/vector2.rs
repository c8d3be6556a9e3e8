use vstd::prelude::*;

verus! {

/// A pair of coordinates or extents, `x` first and `y` second.
#[derive(Clone, Copy, Debug, PartialEq, Eq)]
pub struct Vector2<N> {
    pub x: N,
    pub y: N,
}

impl<N> Vector2<N> {
    /// Builds the pair `(x, y)`.
    pub fn new(x: N, y: N) -> (r: Self)
        ensures
            r.x == x,
            r.y == y,
    {
        Vector2 { x, y }
    }
}

} // verus!
