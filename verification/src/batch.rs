use vstd::prelude::*;
use crate::Point;
use crate::F32_ZERO_BITS;

verus! {

/// The aligned value of a sequence at a target length: the prefix of the
/// sequence where it is long enough, and zero points past its end.
pub open spec fn align_spec(s: Seq<Point>, n: int) -> Seq<Point> {
    Seq::new(n as nat, |i: int| if i < s.len() {
        s[i]
    } else {
        Point { flux: F32_ZERO_BITS, time: F32_ZERO_BITS }
    })
}

/// Pads or truncates a normalized sequence to exactly `seq_len` timesteps:
/// truncated from the end if longer, padded with zero points at the end if
/// shorter, unchanged if equal. Order-preserving, no resampling.
pub fn align_points(points: &Vec<Point>, seq_len: usize) -> (r: Vec<Point>)
    ensures
        r@ == align_spec(points@, seq_len as int),
        r@.len() == seq_len,
        forall|i: int| 0 <= i < seq_len && i < points@.len() ==> r@[i] == points@[i],
        forall|i: int| points@.len() <= i < seq_len ==> r@[i] == (Point {
            flux: F32_ZERO_BITS,
            time: F32_ZERO_BITS,
        }),
{
    let mut r: Vec<Point> = Vec::new();
    let mut i: usize = 0;
    while i < seq_len
        invariant
            i <= seq_len,
            r@.len() == i,
            forall|j: int| 0 <= j < i ==> r@[j] == align_spec(points@, seq_len as int)[j],
        decreases seq_len - i,
    {
        if i < points.len() {
            r.push(points[i]);
        } else {
            r.push(Point::zero());
        }
        i = i + 1;
    }
    proof {
        assert(r@ =~= align_spec(points@, seq_len as int));
    }
    r
}

/// A full-batch dataset: one row of exactly `seq_len` aligned points per
/// sample, with a parallel vector of integer class labels, in sample order.
#[derive(Debug)]
pub struct Batch {
    pub seq_len: usize,
    pub rows: Vec<Vec<Point>>,
    pub labels: Vec<i64>,
}

impl Batch {
    /// Every row has exactly `seq_len` timesteps and a label of its own.
    pub open spec fn wf(&self) -> bool {
        &&& self.rows@.len() == self.labels@.len()
        &&& forall|i: int| 0 <= i < self.rows@.len() ==> self.rows@[i]@.len() == self.seq_len
    }

    /// Number of samples in the batch.
    pub fn len(&self) -> (n: usize)
        ensures
            n == self.rows@.len(),
    {
        self.rows.len()
    }
}

/// Stacks already-normalized samples into one training batch, aligning each
/// sequence to `seq_len` and keeping sample order; labels stay parallel to
/// their rows. The whole dataset forms a single batch.
pub fn assemble_batch(samples: &Vec<(Vec<Point>, i64)>, seq_len: usize) -> (b: Batch)
    ensures
        b.wf(),
        b.seq_len == seq_len,
        b.rows@.len() == samples@.len(),
        b.labels@.len() == samples@.len(),
        forall|i: int| 0 <= i < samples@.len() ==> b.labels@[i] == samples@[i].1,
        forall|i: int| 0 <= i < samples@.len() ==> b.rows@[i]@ == align_spec(
            samples@[i].0@,
            seq_len as int,
        ),
{
    let mut rows: Vec<Vec<Point>> = Vec::new();
    let mut labels: Vec<i64> = Vec::new();
    let mut i: usize = 0;
    while i < samples.len()
        invariant
            i <= samples@.len(),
            rows@.len() == i,
            labels@.len() == i,
            forall|j: int| 0 <= j < i ==> labels@[j] == samples@[j].1,
            forall|j: int| 0 <= j < i ==> rows@[j]@ == align_spec(samples@[j].0@, seq_len as int),
        decreases samples@.len() - i,
    {
        let row = align_points(&samples[i].0, seq_len);
        rows.push(row);
        labels.push(samples[i].1);
        i = i + 1;
    }
    Batch { seq_len, rows, labels }
}

/// The largest sample length in a non-empty collection: the per-run `seq_len`
/// is derived once, before training, as the maximum number of data points
/// over all discovered samples.
pub fn max_sample_len(samples: &Vec<(Vec<Point>, i64)>) -> (r: usize)
    requires
        samples@.len() > 0,
    ensures
        forall|i: int| 0 <= i < samples@.len() ==> samples@[i].0@.len() <= r,
        exists|i: int| 0 <= i < samples@.len() && samples@[i].0@.len() == r,
{
    let mut r: usize = samples[0].0.len();
    let mut i: usize = 1;
    while i < samples.len()
        invariant
            1 <= i <= samples@.len(),
            forall|j: int| 0 <= j < i ==> samples@[j].0@.len() <= r,
            exists|j: int| 0 <= j < i && samples@[j].0@.len() == r,
        decreases samples@.len() - i,
    {
        let li = samples[i].0.len();
        if li > r {
            r = li;
        }
        i = i + 1;
    }
    r
}

} // verus!
