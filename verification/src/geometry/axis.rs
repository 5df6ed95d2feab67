//! The two axes of the grid.
use vstd::prelude::*;

verus! {

/// An axis of the grid.
#[derive(Debug, Clone, Copy, PartialEq, Eq, Structural)]
pub enum Axis {
    Horizontal,
    Vertical,
}

} // verus!
