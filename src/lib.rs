//! A fixed-point decimal value and its fixed-width little-endian binary encoding.

pub mod codec;
pub mod decimal;
pub mod le;

pub use codec::ENCODED_LEN;
pub use decimal::{CodecError, Decimal, DecimalParts};
