pub mod axis;
pub mod point;
pub mod region;

pub use axis::Axis;
pub use point::Point;
pub use region::{Containable, Region, RegionError, RegionIterator};
