//! SVG transformations applied to objects.
use vstd::prelude::*;
use crate::graphics::scalar::Scalar;

verus! {

/// The kind of a transformation.
#[derive(Debug, Clone, Copy, PartialEq, Eq, Structural)]
pub enum TransformationType {
    Scale,
    Rotate,
    Skew,
    Matrix,
}

/// A transformation with its parameters.
#[derive(Debug, Clone, Copy, PartialEq, Eq, Structural)]
pub enum Transformation {
    Scale(Scalar, Scalar),
    Rotate(Scalar),
    Skew(Scalar, Scalar),
    Matrix(Scalar, Scalar, Scalar, Scalar, Scalar, Scalar),
}

/// The name of a transformation.
pub open spec fn transformation_name(t: Transformation) -> Seq<char> {
    match t {
        Transformation::Matrix(..) => seq!['m', 'a', 't', 'r', 'i', 'x'],
        Transformation::Rotate(..) => seq!['r', 'o', 't', 'a', 't', 'e'],
        Transformation::Scale(..) => seq!['s', 'c', 'a', 'l', 'e'],
        Transformation::Skew(..) => seq!['s', 'k', 'e', 'w'],
    }
}

impl Transformation {
    /// The name of the transformation: `matrix`, `rotate`, `scale` or `skew`.
    pub fn name(&self) -> (s: String)
        ensures
            s@ == transformation_name(*self),
    {
        let s = match self {
            Transformation::Matrix(..) => "matrix",
            Transformation::Rotate(..) => "rotate",
            Transformation::Scale(..) => "scale",
            Transformation::Skew(..) => "skew",
        };
        proof {
            reveal_strlit("matrix");
            reveal_strlit("rotate");
            reveal_strlit("scale");
            reveal_strlit("skew");
            assert("matrix"@ =~= seq!['m', 'a', 't', 'r', 'i', 'x']);
            assert("rotate"@ =~= seq!['r', 'o', 't', 'a', 't', 'e']);
            assert("scale"@ =~= seq!['s', 'c', 'a', 'l', 'e']);
            assert("skew"@ =~= seq!['s', 'k', 'e', 'w']);
        }
        String::from_str(s)
    }

    /// Scaling by the same factor on both axes.
    #[allow(non_snake_case)]
    pub fn ScaleUniform(scale: Scalar) -> (t: Transformation)
        ensures
            t == Transformation::Scale(scale, scale),
    {
        Transformation::Scale(scale, scale)
    }
}

} // verus!
