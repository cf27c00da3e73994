use vstd::prelude::*;

verus! {

/// A size with a width and a height.
#[derive(Debug, PartialEq, Eq, Structural, Clone, Copy)]
pub struct Size {
    pub width: usize,
    pub height: usize,
}

impl Size {
    /// Whether the width, the height or both are zero.
    pub fn is_empty(&self) -> (r: bool)
        ensures
            r == (self.width == 0 || self.height == 0),
    {
        self.width == 0 || self.height == 0
    }
}

} // verus!
