use vstd::prelude::*;
use crate::Point;
use crate::F32_ZERO_BITS;
use crate::ops::ScalarOps;

verus! {

/// A sample after per-sample z-score normalization. `flux_scaled` /
/// `time_scaled` record whether the channel's standard deviation was
/// strictly positive: a constant channel is not rescaled — every one of its
/// normalized values is exactly zero instead, so no division by zero occurs.
pub struct NormalizedSample {
    pub points: Vec<Point>,
    pub flux_scaled: bool,
    pub time_scaled: bool,
}

/// Mean and standard deviation of one channel, in the order the values
/// appear: the sum of the values divided by the count, and the square root
/// of the mean of squared deviations from that mean.
fn channel_stats<N: ScalarOps>(ops: &N, values: &Vec<u32>) -> (r: (u32, u32))
    requires
        values@.len() > 0,
{
    let n = ops.of_count(values.len());
    let mut sum: u32 = F32_ZERO_BITS;
    let mut i: usize = 0;
    while i < values.len()
        invariant
            i <= values@.len(),
        decreases values@.len() - i,
    {
        sum = ops.add(sum, values[i]);
        i = i + 1;
    }
    let mean = ops.div(sum, n);

    let mut sq_sum: u32 = F32_ZERO_BITS;
    let mut j: usize = 0;
    while j < values.len()
        invariant
            j <= values@.len(),
        decreases values@.len() - j,
    {
        sq_sum = ops.add(sq_sum, ops.square(ops.sub(values[j], mean)));
        j = j + 1;
    }
    let std = ops.sqrt(ops.div(sq_sum, n));
    (mean, std)
}

/// One channel of a sample, in timestep order.
fn channel_of<F: Fn(Point) -> u32>(points: &Vec<Point>, f: F) -> (r: Vec<u32>)
    requires
        forall|p: Point| #[trigger] f.requires((p,)),
    ensures
        r@.len() == points@.len(),
{
    let mut r: Vec<u32> = Vec::new();
    let mut i: usize = 0;
    while i < points.len()
        invariant
            i <= points@.len(),
            r@.len() == i,
            forall|p: Point| #[trigger] f.requires((p,)),
        decreases points@.len() - i,
    {
        r.push(f(points[i]));
        i = i + 1;
    }
    r
}

/// Per-sample z-score normalization: each channel (flux, time) is
/// independently centered and scaled by the mean and standard deviation of
/// this sample's own sequence — never by corpus-wide statistics. A channel
/// whose standard deviation is not strictly positive comes out as exactly
/// zero at every timestep.
pub fn normalize_points<N: ScalarOps>(ops: &N, points: &Vec<Point>) -> (r: NormalizedSample)
    requires
        points@.len() > 0,
    ensures
        r.points@.len() == points@.len(),
        !r.flux_scaled ==> forall|i: int|
            0 <= i < r.points@.len() ==> r.points@[i].flux == F32_ZERO_BITS,
        !r.time_scaled ==> forall|i: int|
            0 <= i < r.points@.len() ==> r.points@[i].time == F32_ZERO_BITS,
{
    let flux_values = channel_of(points, |p: Point| -> u32 { p.flux });
    let time_values = channel_of(points, |p: Point| -> u32 { p.time });
    let (flux_mean, flux_std) = channel_stats(ops, &flux_values);
    let (time_mean, time_std) = channel_stats(ops, &time_values);
    let flux_scaled = ops.is_positive(flux_std);
    let time_scaled = ops.is_positive(time_std);

    let mut out: Vec<Point> = Vec::new();
    let mut i: usize = 0;
    while i < points.len()
        invariant
            i <= points@.len(),
            out@.len() == i,
            !flux_scaled ==> forall|j: int| 0 <= j < i ==> out@[j].flux == F32_ZERO_BITS,
            !time_scaled ==> forall|j: int| 0 <= j < i ==> out@[j].time == F32_ZERO_BITS,
        decreases points@.len() - i,
    {
        let p = points[i];
        let flux = if flux_scaled {
            ops.div(ops.sub(p.flux, flux_mean), flux_std)
        } else {
            F32_ZERO_BITS
        };
        let time = if time_scaled {
            ops.div(ops.sub(p.time, time_mean), time_std)
        } else {
            F32_ZERO_BITS
        };
        out.push(Point { flux, time });
        i = i + 1;
    }
    NormalizedSample { points: out, flux_scaled, time_scaled }
}

} // verus!
