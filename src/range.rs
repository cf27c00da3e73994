use vstd::prelude::*;

verus! {

/// A closed range of integers `[a, b]`.
#[derive(Debug, PartialEq, Eq, Structural, Clone, Copy)]
pub struct IntRange {
    pub a: i32,
    pub b: i32,
}

impl IntRange {
    /// The number of integers in the closed range, `b - a + 1`.
    pub fn size_closed(&self) -> (r: i32)
        requires
            i32::MIN <= self.b - self.a + 1 <= i32::MAX,
        ensures
            r == self.b - self.a + 1,
    {
        ((self.b as i64) - (self.a as i64) + 1) as i32
    }
}

} // verus!
