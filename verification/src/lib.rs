//! Elliptic-curve point arithmetic over a prime field, an ElGamal-style
//! encryption of two field elements built on it, and the combination of
//! partial decryption shares held by several key-share holders.
//!
//! Every executable function carries a contract over mathematical integers,
//! and the contracts are proved. The arbitrary-precision integers come from
//! `num_bigint`; what is believed of them is stated in [`bignum`].

pub mod bignum;
pub mod curve;
pub mod error;
pub mod euclid;
pub mod field;
pub mod group;
pub mod group_law;
pub mod modular;
pub mod scheme;
pub mod threshold;
