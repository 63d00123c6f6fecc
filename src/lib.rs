//! Bivariate KZG polynomial commitments over BLS12-381.
//!
//! Scalars are elements of the curve's scalar field, modelled as integers
//! modulo `fr_modulus()`. Group elements are held as their canonical
//! compressed encodings. The curve and field arithmetic is done by
//! `lambdaworks_math`; the polynomial algebra, the multi-scalar
//! multiplication and the commitment scheme are verified here.

pub mod bytes;
pub mod error;
pub mod field;
pub mod group;
pub mod msm;
pub mod polynomial;
pub mod scheme;
pub mod srs;
