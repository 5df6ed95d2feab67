//! Grid-based vector graphics: points and regions on a grid, shapes and styled objects
//! arranged in named layers on a canvas, and their rendering to SVG text.
use vstd::prelude::*;

pub mod examples;
pub mod fonts;
pub mod laws;
pub mod project;
pub mod geometry;
pub mod graphics;
pub mod random;
pub mod rendering;
pub mod synchronization;
pub mod text;
pub mod ui;
pub mod video;

verus! {

/// The optional features this build was made with: none, as this library has no optional
/// feature.
pub fn enabled_features() -> (features: Vec<&'static str>)
    ensures
        features@.len() == 0,
{
    Vec::new()
}

/// A value with two states that can be flipped.
pub trait Toggleable: Sized {
    /// The other state.
    spec fn toggled(self) -> Self;

    /// Flips to the other state.
    fn toggle(&mut self)
        ensures
            *final(self) == old(self).toggled(),
    ;
}

impl Toggleable for bool {
    open spec fn toggled(self) -> bool {
        !self
    }

    fn toggle(&mut self) {
        *self = !*self;
    }
}

} // verus!
