//! How shapes are filled.
use vstd::prelude::*;
use crate::graphics::color::Color;
use crate::graphics::scalar::{Angle, Scalar};

verus! {

/// The paint of a shape.
#[derive(Debug, Clone, Copy, PartialEq, Eq, Structural)]
pub enum Fill {
    Solid(Color),
    Translucent(Color, Scalar),
    /// Hatches(color, angle, thickness_ratio, spacing)
    Hatches(Color, Angle, Scalar, Scalar),
    /// Dotted(color, diameter, spacing)
    Dotted(Color, Scalar, Scalar),
}

impl Color {
    /// This color, opaque.
    pub fn solid(self) -> (f: Fill)
        ensures
            f == Fill::Solid(self),
    {
        Fill::Solid(self)
    }

    /// This color at `opacity`.
    pub fn translucent(self, opacity: Scalar) -> (f: Fill)
        ensures
            f == Fill::Translucent(self, opacity),
    {
        Fill::Translucent(self, opacity)
    }

    /// Hatches of this color.
    pub fn hatches(self, angle: Angle, thickness: Scalar, spacing: Scalar) -> (f: Fill)
        ensures
            f == Fill::Hatches(self, angle, thickness, spacing),
    {
        Fill::Hatches(self, angle, thickness, spacing)
    }

    /// Dots of this color.
    pub fn dotted(self, diameter: Scalar, spacing: Scalar) -> (f: Fill)
        ensures
            f == Fill::Dotted(self, diameter, spacing),
    {
        Fill::Dotted(self, diameter, spacing)
    }
}

/// The fill at `opacity`: solid and translucent fills become translucent at that opacity,
/// patterns are kept.
pub open spec fn opacified(f: Fill, opacity: Scalar) -> Fill {
    match f {
        Fill::Solid(color) => Fill::Translucent(color, opacity),
        Fill::Translucent(color, _) => Fill::Translucent(color, opacity),
        _ => f,
    }
}

/// Operations that can be applied on fills.
pub trait FillOperations: Sized {
    spec fn spec_opacify(&self, opacity: Scalar) -> Self;

    /// The fill at `opacity` (see `opacified`).
    fn opacify(&self, opacity: Scalar) -> (r: Self)
        ensures
            r == self.spec_opacify(opacity),
    ;
}

impl FillOperations for Fill {
    open spec fn spec_opacify(&self, opacity: Scalar) -> Fill {
        opacified(*self, opacity)
    }

    fn opacify(&self, opacity: Scalar) -> (r: Fill) {
        match self {
            Fill::Solid(color) => Fill::Translucent(*color, opacity),
            Fill::Translucent(color, _) => Fill::Translucent(*color, opacity),
            _ => *self,
        }
    }
}

impl FillOperations for Option<Fill> {
    open spec fn spec_opacify(&self, opacity: Scalar) -> Option<Fill> {
        match *self {
            Some(f) => Some(opacified(f, opacity)),
            None => None,
        }
    }

    fn opacify(&self, opacity: Scalar) -> (r: Option<Fill>) {
        match self {
            Some(f) => Some(f.opacify(opacity)),
            None => None,
        }
    }
}

impl Fill {
    /// Hatches of `color` at 45 degrees.
    pub fn bottom_up_hatches(color: Color, thickness: Scalar, spacing: Scalar) -> (f: Fill)
        ensures
            f == Fill::Hatches(color, Angle(Scalar(0x4234_0000)), thickness, spacing),
    {
        Fill::Hatches(color, Angle(Scalar::forty_five()), thickness, spacing)
    }

    /// Whether the fill is a pattern (hatches or dots).
    pub fn is_pattern(&self) -> (r: bool)
        ensures
            r == (self is Hatches || self is Dotted),
    {
        match self {
            Fill::Hatches(..) | Fill::Dotted(..) => true,
            _ => false,
        }
    }
}

} // verus!
