pub mod color;
pub mod fill;
pub mod filter;
pub mod scalar;
pub mod transform;

pub use color::{Color, ColorMapping};
pub use fill::{Fill, FillOperations};
pub use filter::{Filter, FilterType};
pub use scalar::{Angle, Scalar};
pub use transform::{Transformation, TransformationType};
pub mod objects;
pub mod shapes;

pub use objects::{Object, ObjectSizes};
pub use shapes::{LineSegment, Shape};
pub mod layer;
pub mod canvas;

pub use layer::Layer;
pub use canvas::Canvas;
