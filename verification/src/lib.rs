//! A Pedersen vector-commitment engine producing Hyrax-style matrix
//! commitments to byte-valued data over the BN254 G1 group.
//!
//! A long byte vector is reshaped into a matrix with a fixed number of
//! columns; each row is bound to a single curve point that hides the row
//! under a secret blinding factor.  Generators are derived deterministically
//! from a public string through SHAKE256, and blinding factors are drawn from
//! a ChaCha20 stream seeded by the caller.

pub mod bytes;
pub mod curves;
pub mod iriscode_commit;
pub mod pedersen;
pub mod transcript;
pub mod utils;
