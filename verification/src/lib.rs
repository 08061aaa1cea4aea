//! ECDSA signature verification and public-key recovery over the NIST P-256
//! curve, with contracts checked by Verus.
//!
//! The crate is split along the boundary between curve arithmetic and the
//! signature protocol:
//!
//! - [`arithmetic`] holds the integers modulo the field prime and the group
//!   order, the affine group law and the two-term linear combination.
//! - [`ecdsa`] holds the fixed-width signature formats, the recovery
//!   identifier, the verification equation and public-key recovery.
//! - [`point_encoding`] reads and writes SEC1 octet strings.
//! - [`hash`] computes the SHA-256 digest that the convenience entry points
//!   apply to a message.
//!
//! Every entry point of the protocol takes a 32-byte prehash; hashing the
//! message is the caller's responsibility unless one of the SHA-256
//! convenience functions is used.

pub mod arithmetic;
pub mod ecdsa;
pub mod error;
pub mod hash;
pub mod point_encoding;
