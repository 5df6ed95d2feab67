//! Real-valued parameters (sizes, angles, opacities) carried through the library unchanged.
use vstd::prelude::*;

verus! {

/// A real-valued parameter, held as the bit pattern of its IEEE 754 single-precision form.
/// The library carries such values without computing on them; rendering reads them.
#[derive(Debug, Clone, Copy, PartialEq, Eq, Structural)]
pub struct Scalar(pub u32);

impl Scalar {
    /// One quarter.
    pub fn quarter() -> (s: Scalar)
        ensures
            s == Scalar(0x3E80_0000),
    {
        Scalar(0x3E80_0000)
    }

    /// One half.
    pub fn half() -> (s: Scalar)
        ensures
            s == Scalar(0x3F00_0000),
    {
        Scalar(0x3F00_0000)
    }

    /// Two.
    pub fn two() -> (s: Scalar)
        ensures
            s == Scalar(0x4000_0000),
    {
        Scalar(0x4000_0000)
    }

    /// Five.
    pub fn five() -> (s: Scalar)
        ensures
            s == Scalar(0x40A0_0000),
    {
        Scalar(0x40A0_0000)
    }

    /// Forty-five.
    pub fn forty_five() -> (s: Scalar)
        ensures
            s == Scalar(0x4234_0000),
    {
        Scalar(0x4234_0000)
    }
}

/// An angle, in degrees.
#[derive(Debug, Clone, Copy, PartialEq, Eq, Structural)]
pub struct Angle(pub Scalar);

impl Angle {
    /// The angle of `degrees` degrees.
    pub fn from_degrees(degrees: Scalar) -> (a: Angle)
        ensures
            a == Angle(degrees),
    {
        Angle(degrees)
    }

    /// The angle in degrees.
    pub fn degrees(&self) -> (d: Scalar)
        ensures
            d == self.0,
    {
        self.0
    }
}

} // verus!
