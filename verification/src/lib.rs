//! Fixed-width unsigned integers (128, 256 and 512 bits) with lossless
//! widening conversions, checked narrowing conversions, an exact widening
//! multiply and bit-level float interop, together with fixed-size byte
//! identifiers (160, 256 and 512 bits) and the one embedding bridge between
//! the 160-bit and 256-bit identifier widths.
use vstd::prelude::*;

pub mod f64bits;
pub mod fixed_bytes;
pub mod limbs;
pub mod uint;

pub use fixed_bytes::H160;
pub use fixed_bytes::H256;
pub use fixed_bytes::H512;
pub use uint::U128;
pub use uint::U256;
pub use uint::U512;

verus! {

/// Error type for conversion.
#[derive(Debug, PartialEq, Eq, Structural)]
pub enum Error {
    /// Overflow encountered.
    Overflow,
}

} // verus!
