pub mod pairs;
pub mod svg;
pub mod renderable;
pub mod compose;
