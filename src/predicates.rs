pub mod orientation;
pub mod in_circle;
