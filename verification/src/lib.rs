//! Ray casting of spheres and planes lit by one directional light, in
//! fixed-point arithmetic.
//!
//! Every number is a [`scalar::Scalar`]: a signed count of millionths.
//! Each operation computes its mathematical result exactly in wide
//! integers and rounds once, towards negative infinity, so that every
//! contract is an equation over `int`.

pub mod scalar;
pub mod error;
pub mod vector3;
pub mod point;
pub mod color;
pub mod scene;
pub mod rendering;
