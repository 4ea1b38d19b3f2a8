use vstd::prelude::*;
use crate::Point;
use crate::batch::Batch;

verus! {

/// Scalar arithmetic over IEEE 754 bit patterns (`u32` for single precision,
/// `u64` for double precision). The library stores and moves scalars as bit
/// patterns only; an implementation of this trait — supplied by the caller,
/// outside the verified library — performs the actual floating-point
/// operations. The methods carry no contracts: nothing about floating-point
/// arithmetic is assumed here, and every caller's guarantee holds whatever an
/// implementation returns.
pub trait ScalarOps {
    /// Parses one whitespace-free token as a single-precision value,
    /// returning its bit pattern, or `None` when the token is not numeric.
    fn parse_scalar(&self, token: &Vec<u8>) -> Option<u32>;

    /// Sum of two single-precision values.
    fn add(&self, a: u32, b: u32) -> u32;

    /// Difference of two single-precision values.
    fn sub(&self, a: u32, b: u32) -> u32;

    /// Quotient of two single-precision values.
    fn div(&self, a: u32, b: u32) -> u32;

    /// Second integer power of a single-precision value.
    fn square(&self, a: u32) -> u32;

    /// Square root of a single-precision value.
    fn sqrt(&self, a: u32) -> u32;

    /// The single-precision value of a count of elements.
    fn of_count(&self, n: usize) -> u32;

    /// Whether a single-precision value is strictly greater than zero.
    fn is_positive(&self, a: u32) -> bool;

    /// Whether double-precision `a` is strictly lower than `b`.
    fn loss_lower(&self, a: u64, b: u64) -> bool;
}

/// The sequence-classifier capability. The model's internal mathematics —
/// recurrent cells, linear layers, gradients, the optimizer's update rule —
/// are outside this library; the training and inference pipelines only
/// orchestrate when each operation happens. Loss values cross the boundary
/// as double-precision bit patterns.
pub trait Classifier {
    /// One epoch over the full batch: forward pass, classification loss
    /// against the integer labels, and the combined backward-and-step
    /// update. Returns the epoch's loss.
    fn run_epoch(&mut self, batch: &Batch) -> u64;

    /// Persists the current parameters as the checkpoint; `true` on success,
    /// `false` when the write failed.
    fn save_checkpoint(&mut self) -> bool;

    /// Forward pass over one aligned sequence followed by arg-max decoding
    /// of the output logits: the predicted class index.
    fn classify(&mut self, input: &Vec<Point>) -> i64;
}

/// Receiver of training progress reports, emitted at every sampling
/// boundary of the training loop.
pub trait ProgressSink {
    /// A report that `epoch` of `total` epochs are complete, with the
    /// current loss as a double-precision bit pattern.
    fn emit(&mut self, epoch: usize, total: usize, loss: u64);
}

} // verus!
