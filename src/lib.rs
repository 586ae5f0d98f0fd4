//! Bit-level extraction of unsigned integers from byte buffers, most
//! significant bit first, with verified contracts.
pub mod bits;
pub mod buffer;
pub mod strategies;

pub use buffer::{BitBuf, ReadError};
pub use strategies::Strategy;
