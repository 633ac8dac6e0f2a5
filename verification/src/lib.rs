//! Fixed-point signed-number arithmetic.
//!
//! A value is a two's-complement integer mantissa read at an implicit scale of
//! `2^-fraction_bitcount`, together with a declared total bit-width. The
//! constructor sign-extends the mantissa above the declared width; addition
//! and multiplication track the widths of their results.

pub mod extend;
pub mod signed_number;

pub use signed_number::SignedNumber;
