use vstd::prelude::*;
use crate::Point;
use crate::batch::align_spec;
use crate::batch::assemble_batch;
use crate::batch::max_sample_len;
use crate::batch::Batch;
use crate::normalize::normalize_points;
use crate::ops::ScalarOps;
use crate::parse::all_lines_wf;
use crate::parse::data_line_count;
use crate::parse::is_data_line;
use crate::parse::line_struct_malformed;
use crate::parse::parse_learn_content;
use crate::parse::spec_label;
use crate::parse::spec_lines;
use crate::parse::ParseError;

verus! {

/// Parses one sample file's content and normalizes it, yielding the
/// per-sample z-scored flux/time pairs and the label — one data point per
/// data line, in order.
pub fn prepare_sample<N: ScalarOps>(ops: &N, content: &Vec<u8>) -> (r: Result<
    (Vec<Point>, i64),
    ParseError,
>)
    ensures
        r is Ok ==> all_lines_wf(spec_lines(content@)),
        r is Ok ==> r->Ok_0.0@.len() == data_line_count(spec_lines(content@)),
        r is Ok ==> data_line_count(spec_lines(content@)) > 0,
        r is Ok ==> r->Ok_0.1 == spec_label(spec_lines(content@)),
        (r matches Err(ParseError::DegenerateSample)) <==> (all_lines_wf(spec_lines(content@))
            && data_line_count(spec_lines(content@)) == 0),
        r matches Err(ParseError::MalformedRecord { line }) ==> {
            let ls = spec_lines(content@);
            &&& 0 <= line < ls.len()
            &&& (line_struct_malformed(ls[line as int]) || is_data_line(ls[line as int]))
            &&& forall|j: int| 0 <= j < line ==> !line_struct_malformed(#[trigger] ls[j])
        },
        !all_lines_wf(spec_lines(content@)) ==> r matches Err(ParseError::MalformedRecord { .. }),
{
    match parse_learn_content(ops, content) {
        Err(e) => Err(e),
        Ok(raw) => {
            let normalized = normalize_points(ops, &raw.points);
            Ok((normalized.points, raw.label))
        },
    }
}

/// Why a dataset could not be built: the file at the given index (in
/// discovery order) was rejected, for the given cause.
#[derive(Clone, Copy, PartialEq, Eq, Structural, Debug)]
pub struct DatasetError {
    pub file: usize,
    pub cause: ParseError,
}

/// Builds the one full-batch dataset of a run from the discovered files'
/// contents, in discovery order: each file is parsed and normalized, the
/// run's `seq_len` is derived as the largest data-line count over all
/// files, and every sample is aligned to it. The first rejected file stops
/// the run: a partial corpus would bias training.
pub fn prepare_dataset<N: ScalarOps>(ops: &N, contents: &Vec<Vec<u8>>) -> (r: Result<
    Batch,
    DatasetError,
>)
    requires
        contents@.len() > 0,
    ensures
        r is Ok ==> {
            let b = r->Ok_0;
            &&& b.wf()
            &&& b.rows@.len() == contents@.len()
            &&& forall|i: int|
                0 <= i < contents@.len() ==> all_lines_wf(spec_lines(#[trigger] contents@[i]@))
                    && data_line_count(spec_lines(contents@[i]@)) > 0
            &&& forall|i: int|
                0 <= i < contents@.len() ==> b.labels@[i] == spec_label(
                    spec_lines(#[trigger] contents@[i]@),
                )
            &&& forall|i: int|
                0 <= i < contents@.len() ==> data_line_count(spec_lines(#[trigger] contents@[i]@))
                    <= b.seq_len
            &&& exists|i: int|
                0 <= i < contents@.len() && data_line_count(
                    spec_lines(#[trigger] contents@[i]@),
                ) == b.seq_len
        },
        r matches Err(DatasetError { file, cause }) ==> {
            &&& 0 <= file < contents@.len()
            &&& ((cause matches ParseError::DegenerateSample) <==> (all_lines_wf(
                spec_lines(contents@[file as int]@),
            ) && data_line_count(spec_lines(contents@[file as int]@)) == 0))
            &&& (!all_lines_wf(spec_lines(contents@[file as int]@)) ==> cause matches ParseError::MalformedRecord { .. })
            &&& (cause matches ParseError::MalformedRecord { line } ==> {
                let ls = spec_lines(contents@[file as int]@);
                &&& 0 <= line < ls.len()
                &&& (line_struct_malformed(ls[line as int]) || is_data_line(ls[line as int]))
                &&& forall|j: int| 0 <= j < line ==> !line_struct_malformed(#[trigger] ls[j])
            })
            &&& forall|j: int|
                0 <= j < file ==> all_lines_wf(spec_lines(#[trigger] contents@[j]@))
                    && data_line_count(spec_lines(contents@[j]@)) > 0
        },
{
    let mut samples: Vec<(Vec<Point>, i64)> = Vec::new();
    let mut i: usize = 0;
    while i < contents.len()
        invariant
            i <= contents@.len(),
            samples@.len() == i,
            forall|j: int|
                0 <= j < i ==> samples@[j].0@.len() == data_line_count(
                    spec_lines(#[trigger] contents@[j]@),
                ),
            forall|j: int|
                0 <= j < i ==> samples@[j].1 == spec_label(spec_lines(#[trigger] contents@[j]@)),
            forall|j: int|
                0 <= j < i ==> all_lines_wf(spec_lines(#[trigger] contents@[j]@))
                    && data_line_count(spec_lines(contents@[j]@)) > 0,
        decreases contents@.len() - i,
    {
        match prepare_sample(ops, &contents[i]) {
            Err(cause) => {
                return Err(DatasetError { file: i, cause });
            },
            Ok(sample) => {
                samples.push(sample);
            },
        }
        i = i + 1;
    }
    let seq_len = max_sample_len(&samples);
    proof {
        let j = choose|j: int| 0 <= j < samples@.len() && samples@[j].0@.len() == seq_len;
        assert(data_line_count(spec_lines(contents@[j]@)) == seq_len);
    }
    let batch = assemble_batch(&samples, seq_len);
    Ok(batch)
}

} // verus!
