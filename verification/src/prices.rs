use vstd::prelude::*;

verus! {

/// A price in minor currency units (cents).
pub type PriceValue = u64;

/// A price in millionths of a dollar, the scale used by the statistical
/// analyzer so that sub-cent inputs and interpolation stay exact.
pub type MicroPrice = u64;

/// Millionths of a dollar per cent.
pub const MICROS_PER_CENT: u64 = 10_000;

} // verus!
