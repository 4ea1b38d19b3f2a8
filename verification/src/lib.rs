use vstd::prelude::*;

pub mod batch;
pub mod discover;
pub mod infer;
pub mod normalize;
pub mod ops;
pub mod parse;
pub mod pipeline;
pub mod train;

verus! {

/// A single timestep of a light curve: the flux and time channels, each held
/// as the raw bit pattern of an IEEE 754 single-precision value. The library
/// never interprets the bits arithmetically; scalar arithmetic is delegated
/// to a `ScalarOps` implementation supplied by the caller.
#[derive(Clone, Copy, PartialEq, Eq, Structural, Debug)]
pub struct Point {
    pub flux: u32,
    pub time: u32,
}

/// Bit pattern of IEEE 754 single-precision positive zero.
pub const F32_ZERO_BITS: u32 = 0;

impl Point {
    /// The padding element appended when a sequence is shorter than the
    /// target length: both channels are zero.
    pub fn zero() -> (r: Point)
        ensures
            r == (Point { flux: F32_ZERO_BITS, time: F32_ZERO_BITS }),
    {
        Point { flux: F32_ZERO_BITS, time: F32_ZERO_BITS }
    }
}

} // verus!
