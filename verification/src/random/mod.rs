pub mod source;
pub mod color;
pub mod fill;
pub mod point;
pub mod region;
pub mod objects;
pub mod canvas;
