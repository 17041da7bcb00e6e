use vstd::prelude::*;

verus! {

/// A grid coordinate: `x` is the column, `y` the row.
#[derive(Clone, Copy, Debug, PartialEq, Eq, Structural)]
pub struct Location {
    pub x: usize,
    pub y: usize,
}

} // verus!
