use vstd::prelude::*;

verus! {

/// A cell position on the playing field: column, then row (rows grow downwards).
#[derive(Debug, Copy, Clone, Hash, PartialEq, Eq, Structural)]
pub struct Coord(pub i32, pub i32);

/// The mathematical value of a position.
pub open spec fn pos(c: Coord) -> (int, int) {
    (c.0 as int, c.1 as int)
}

impl Coord {
    /// Translation by `rhs`.
    pub fn add(self, rhs: Coord) -> (r: Coord)
        requires
            i32::MIN <= self.0 + rhs.0 <= i32::MAX,
            i32::MIN <= self.1 + rhs.1 <= i32::MAX,
        ensures
            pos(r) == (self.0 + rhs.0, self.1 + rhs.1),
    {
        Coord(self.0 + rhs.0, self.1 + rhs.1)
    }
}

} // verus!
