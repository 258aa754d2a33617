//! Lossy compression of fixed-width integers into a compact triple.
//!
//! A value is reduced to `(bit length, percentage, sign)`: the number of bits
//! its magnitude occupies, the integer percentage of that bit length's ceiling
//! that best undershoots the magnitude, and a sign flag. The triple fits in
//! 24 bits (16 when positivity is guaranteed) and decodes back to an
//! approximation of the original value. Every operation is a pure function of
//! its inputs, and each carries a contract that pins its result down to the
//! mathematical model in [`encoding`].

pub mod encoding;
pub mod numeric;
pub mod pairs;
pub mod percentage;
pub mod power;
pub mod small_value;

pub use numeric::SpecialBytes;
pub use small_value::SmallValue;
