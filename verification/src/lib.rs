//! A verified implementation of the BLAKE2b cryptographic hash function
//! (RFC 7693): unkeyed or keyed, variable digest length, sequential
//! single-instance mode.
//!
//! The executable entry point is [`blake2b`]; its contract ties the digest
//! to the mathematical model in [`model`].
pub mod hash;
pub mod model;

pub use hash::add;
pub use hash::blank_block;
pub use hash::blake2;
pub use hash::blake2b;
pub use hash::bytes_to_word;
pub use hash::ceil;
pub use hash::f;
pub use hash::g;
