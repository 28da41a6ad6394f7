//! Escape-time fractal rendering over a fixed-point complex plane.
//!
//! Real numbers are held as `i64` counts of `2^-32` (see [`fixed`]), so every
//! step of the coordinate transform, the iteration rules and the colouring is
//! exact integer arithmetic that the contracts describe precisely.
//!
//! The format bounds what a view can hold: a zoom in `(0, 256]`, offsets within
//! `±2^20`, escape radii up to `2^20`. Pan and zoom calls that would leave these
//! ranges fail with `ViewError::OutOfRange` and change nothing.
use vstd::prelude::*;

pub mod fixed;
pub mod fractals;
pub mod color;
pub mod view;

verus! {

} // verus!
