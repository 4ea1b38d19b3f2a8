use vstd::prelude::*;
use crate::Point;
use crate::F32_ZERO_BITS;
use crate::batch::align_points;
use crate::normalize::normalize_points;
use crate::ops::Classifier;
use crate::ops::ScalarOps;
use crate::parse::spec_tokens;
use crate::parse::tokenize;

verus! {

/// Why one interactively entered line was skipped: not exactly two tokens,
/// or a token the scalar capability could not read as a number. Recoverable
/// — the caller reports it and keeps reading.
#[derive(Clone, Copy, PartialEq, Eq, Structural, Debug)]
pub enum InputLineError {
    WrongTokenCount,
    NonNumeric,
}

/// The sentinel token ending interactive input.
pub open spec fn end_token() -> Seq<u8> {
    seq![101u8, 110u8, 100u8]
}

/// Recognizes the end sentinel: a line holding exactly the one token `end`.
pub fn is_end_line(line: &Vec<u8>) -> (r: bool)
    ensures
        r == (spec_tokens(line@) == seq![end_token()]),
{
    let toks = tokenize(line);
    let ghost ts = spec_tokens(line@);
    if toks.len() != 1 {
        proof {
            assert(ts.len() == toks@.len());
        }
        return false;
    }
    let t = &toks[0];
    let r = t.len() == 3 && t[0] == 101 && t[1] == 110 && t[2] == 100;
    proof {
        assert(ts[0] == toks@[0]@);
        if r {
            assert(t@ =~= end_token());
            assert(ts =~= seq![end_token()]);
        } else {
            if ts == seq![end_token()] {
                assert(t@ == end_token());
                assert(t@.len() == 3 && t@[0] == 101 && t@[1] == 110 && t@[2] == 100);
            }
        }
    }
    r
}

/// Parses one interactively entered line as a flux/time pair: exactly two
/// whitespace-separated tokens, each readable by the scalar capability.
pub fn parse_point_line<N: ScalarOps>(ops: &N, line: &Vec<u8>) -> (r: Result<
    Point,
    InputLineError,
>)
    ensures
        (r matches Err(InputLineError::WrongTokenCount)) <==> spec_tokens(line@).len() != 2,
        r matches Err(InputLineError::NonNumeric) ==> spec_tokens(line@).len() == 2,
        r is Ok ==> spec_tokens(line@).len() == 2,
{
    let toks = tokenize(line);
    proof {
        assert(spec_tokens(line@).len() == toks@.len());
    }
    if toks.len() != 2 {
        return Err(InputLineError::WrongTokenCount);
    }
    let fb = ops.parse_scalar(&toks[0]);
    let tb = ops.parse_scalar(&toks[1]);
    match (fb, tb) {
        (Some(flux), Some(time)) => Ok(Point { flux, time }),
        _ => Err(InputLineError::NonNumeric),
    }
}

/// Predicting from an empty entered sequence: the normalization statistics
/// are undefined over zero samples, so the input is rejected before any
/// normalization or classifier work.
#[derive(Clone, Copy, PartialEq, Eq, Structural, Debug)]
pub enum InferError {
    DegenerateInput,
}

/// Prepares freshly entered samples for the classifier exactly as training
/// data is prepared: per-sample z-score normalization over this sequence's
/// own statistics, then alignment to the training-time `seq_len`. Zero
/// entered samples are a degenerate input, rejected before normalization.
pub fn prepare_inference_input<N: ScalarOps>(ops: &N, points: &Vec<Point>, seq_len: usize) -> (r:
    Result<Vec<Point>, InferError>)
    ensures
        (r is Err) <==> points@.len() == 0,
        r is Ok ==> r->Ok_0@.len() == seq_len,
        r is Ok ==> forall|i: int|
            points@.len() <= i < seq_len ==> r->Ok_0@[i] == (Point {
                flux: F32_ZERO_BITS,
                time: F32_ZERO_BITS,
            }),
{
    if points.len() == 0 {
        return Err(InferError::DegenerateInput);
    }
    let normalized = normalize_points(ops, points);
    Ok(align_points(&normalized.points, seq_len))
}

/// The full inference step: prepare the entered sequence, then one forward
/// pass and arg-max decoding through the classifier. A degenerate (empty)
/// input is rejected without ever invoking the classifier: the classifier
/// then comes back exactly as it went in.
pub fn predict_model<C: Classifier, N: ScalarOps>(
    clf: &mut C,
    ops: &N,
    points: &Vec<Point>,
    seq_len: usize,
) -> (r: Result<i64, InferError>)
    ensures
        (r is Err) <==> points@.len() == 0,
        points@.len() == 0 ==> *final(clf) == *old(clf),
{
    match prepare_inference_input(ops, points, seq_len) {
        Err(e) => Err(e),
        Ok(input) => Ok(clf.classify(&input)),
    }
}

} // verus!
