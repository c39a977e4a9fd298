//! Verified cores of a family of classic cryptographic algorithms.
//!
//! The centrepiece is [`streebog`], a 512-bit Merkle–Damgård-style hash
//! around a 12-round substitution-permutation cipher, with its parameter
//! tables in [`tables`]. Around it stand [`magma`], a 32-round Feistel
//! cipher with an authenticator mode, [`belt`], a four-word block cipher
//! with a counter mode, [`gost94`], an older 256-bit hash, [`sha1`], a
//! 160-bit compression round with its padding, [`rabin`], a
//! quadratic-residue cipher with the extended Euclidean algorithm and
//! modular exponentiation, [`f2m`], finite fields of characteristic two
//! with the prime-power test behind them, [`goppa`], code-parameter
//! validation, and [`rowvec`], bit vectors packed into byte streams.
//! [`convert`] holds the big-endian word conversions they share.

pub mod belt;
pub mod convert;
pub mod f2m;
pub mod goppa;
pub mod gost94;
pub mod magma;
pub mod rabin;
pub mod rowvec;
pub mod sha1;
pub mod streebog;
pub mod tables;
