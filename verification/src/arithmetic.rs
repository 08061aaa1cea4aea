//! Integers modulo the field prime and the group order, and the group of
//! curve points.
//!
//! The protocol layer needs four capabilities from here: reducing 32 bytes to
//! a scalar, inverting a scalar, decompressing a point from its x-coordinate,
//! and the linear combination of two points.

pub mod affine;
pub mod bytes;
pub mod field;
pub mod modular;
pub mod scalar;
