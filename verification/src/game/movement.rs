use vstd::prelude::*;

verus! {

/// Dropping a piece into a column (0 is the leftmost column).
#[derive(Debug, Clone, Copy, PartialEq, Eq, Hash, Structural)]
pub struct Movement {
    pub column: usize,
}

impl Movement {
    /// The movement that drops a piece into `column`.
    pub fn new(column: usize) -> (movement: Self)
        ensures
            movement.column == column,
    {
        Self { column }
    }
}

} // verus!
