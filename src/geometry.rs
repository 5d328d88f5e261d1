pub mod point;
pub mod circumcircle;
