//! Fixed-width integer value types with checked arithmetic and
//! little-endian byte encoding: `U128`, `I128` and `U256`.

mod bytes;
pub mod laws;
mod signed;
mod unsigned;
mod wide;

pub use bytes::{byte_weight, le_value};
pub use signed::{as_signed, as_unsigned, I128};
pub use unsigned::{decimal, digit_char, seq_sum, two_pow_128, U128};
pub use wide::{two_pow_256, wide_sum, U256};
