use vstd::prelude::*;
use crate::Point;
use crate::ops::ScalarOps;

verus! {

/// ASCII whitespace: space, tab, line feed, vertical tab, form feed,
/// carriage return. Tokens of the sample format are separated by these.
pub open spec fn is_ws(b: u8) -> bool {
    b == 32 || b == 9 || b == 10 || b == 11 || b == 12 || b == 13
}

fn is_ws_byte(b: u8) -> (r: bool)
    ensures
        r == is_ws(b),
{
    b == 32 || b == 9 || b == 10 || b == 11 || b == 12 || b == 13
}

/// Length of the maximal whitespace-free prefix.
pub open spec fn token_end(s: Seq<u8>) -> nat
    decreases s.len(),
{
    if s.len() == 0 || is_ws(s[0]) {
        0
    } else {
        1 + token_end(s.drop_first())
    }
}

proof fn lemma_token_end_le(s: Seq<u8>)
    ensures
        token_end(s) <= s.len(),
    decreases s.len(),
{
    if s.len() == 0 || is_ws(s[0]) {
    } else {
        lemma_token_end_le(s.drop_first());
    }
}

/// The whitespace-separated tokens of a byte sequence, in order.
pub open spec fn spec_tokens(s: Seq<u8>) -> Seq<Seq<u8>>
    decreases s.len(),
    via spec_tokens_dec
{
    if s.len() == 0 {
        Seq::empty()
    } else if is_ws(s[0]) {
        spec_tokens(s.drop_first())
    } else {
        seq![s.take(token_end(s) as int)] + spec_tokens(s.skip(token_end(s) as int))
    }
}

#[via_fn]
proof fn spec_tokens_dec(s: Seq<u8>) {
    if s.len() > 0 && !is_ws(s[0]) {
        lemma_token_end_le(s);
        assert(token_end(s) == 1 + token_end(s.drop_first()));
    }
}

/// Splits a line into its whitespace-separated tokens.
pub fn tokenize(line: &Vec<u8>) -> (r: Vec<Vec<u8>>)
    ensures
        r@.map_values(|t: Vec<u8>| t@) == spec_tokens(line@),
{
    let ghost s = line@;
    let mut r: Vec<Vec<u8>> = Vec::new();
    let mut i: usize = 0;
    proof {
        assert(s.skip(0) =~= s);
        assert(r@.map_values(|t: Vec<u8>| t@) + spec_tokens(s) =~= spec_tokens(s));
    }
    while i < line.len()
        invariant
            i <= s.len(),
            line@ == s,
            r@.map_values(|t: Vec<u8>| t@) + spec_tokens(s.skip(i as int)) == spec_tokens(s),
        decreases s.len() - i,
    {
        if is_ws_byte(line[i]) {
            proof {
                assert(s.skip(i as int)[0] == s[i as int]);
                assert(s.skip(i as int).drop_first() =~= s.skip(i as int + 1));
            }
            i = i + 1;
        } else {
            let start = i;
            let mut j: usize = i;
            proof {
                assert(s.skip(start as int)[0] == s[start as int]);
            }
            while j < line.len() && !is_ws_byte(line[j])
                invariant
                    start <= j <= s.len(),
                    line@ == s,
                    token_end(s.skip(start as int)) == (j - start) + token_end(s.skip(j as int)),
                decreases s.len() - j,
            {
                proof {
                    assert(s.skip(j as int)[0] == s[j as int]);
                    assert(s.skip(j as int).drop_first() =~= s.skip(j as int + 1));
                    assert(token_end(s.skip(j as int)) == 1 + token_end(s.skip(j as int + 1)));
                }
                j = j + 1;
            }
            proof {
                if j < s.len() {
                    assert(s.skip(j as int)[0] == s[j as int]);
                }
                assert(token_end(s.skip(j as int)) == 0);
                assert(token_end(s.skip(start as int)) == j - start);
            }
            let mut tok: Vec<u8> = Vec::new();
            let mut k: usize = start;
            while k < j
                invariant
                    start <= k <= j <= s.len(),
                    line@ == s,
                    tok@ == s.subrange(start as int, k as int),
                decreases j - k,
            {
                tok.push(line[k]);
                proof {
                    assert(tok@ =~= s.subrange(start as int, k as int + 1));
                }
                k = k + 1;
            }
            proof {
                let rest = s.skip(start as int);
                assert(tok@ =~= rest.take(token_end(rest) as int));
                assert(rest.skip(token_end(rest) as int) =~= s.skip(j as int));
                assert(spec_tokens(rest) == seq![tok@] + spec_tokens(s.skip(j as int)));
                assert((r@.push(tok)).map_values(|t: Vec<u8>| t@) =~= r@.map_values(
                    |t: Vec<u8>| t@,
                ).push(tok@));
                assert(r@.map_values(|t: Vec<u8>| t@).push(tok@) + spec_tokens(s.skip(j as int))
                    =~= r@.map_values(|t: Vec<u8>| t@) + spec_tokens(rest));
            }
            r.push(tok);
            i = j;
        }
    }
    proof {
        assert(s.skip(s.len() as int) =~= Seq::<u8>::empty());
        assert(r@.map_values(|t: Vec<u8>| t@) + spec_tokens(s.skip(s.len() as int)) =~= r@
            .map_values(|t: Vec<u8>| t@));
    }
    r
}

/// Index of the first line feed, or the whole length when there is none.
pub open spec fn newline_at(s: Seq<u8>) -> nat
    decreases s.len(),
{
    if s.len() == 0 || s[0] == 10 {
        0
    } else {
        1 + newline_at(s.drop_first())
    }
}

proof fn lemma_newline_at_le(s: Seq<u8>)
    ensures
        newline_at(s) <= s.len(),
    decreases s.len(),
{
    if s.len() == 0 || s[0] == 10 {
    } else {
        lemma_newline_at_le(s.drop_first());
    }
}

/// A line with a trailing carriage return loses it: line endings are either
/// a line feed or a carriage return followed by a line feed.
pub open spec fn strip_cr(l: Seq<u8>) -> Seq<u8> {
    if l.len() > 0 && l[l.len() - 1] == 13 {
        l.drop_last()
    } else {
        l
    }
}

/// The lines of a text: split at line feeds, each line losing one trailing
/// carriage return; a final line ending opens no empty last line.
pub open spec fn spec_lines(s: Seq<u8>) -> Seq<Seq<u8>>
    decreases s.len(),
    via spec_lines_dec
{
    if s.len() == 0 {
        Seq::empty()
    } else {
        let k = newline_at(s) as int;
        if k == s.len() {
            seq![strip_cr(s)]
        } else {
            seq![strip_cr(s.take(k))] + spec_lines(s.skip(k + 1))
        }
    }
}

#[via_fn]
proof fn spec_lines_dec(s: Seq<u8>) {
    if s.len() > 0 {
        lemma_newline_at_le(s);
    }
}

/// Splits text into lines.
pub fn split_lines(content: &Vec<u8>) -> (r: Vec<Vec<u8>>)
    ensures
        r@.map_values(|l: Vec<u8>| l@) == spec_lines(content@),
{
    let ghost s = content@;
    let mut r: Vec<Vec<u8>> = Vec::new();
    let mut i: usize = 0;
    proof {
        assert(s.skip(0) =~= s);
        assert(r@.map_values(|l: Vec<u8>| l@) + spec_lines(s) =~= spec_lines(s));
    }
    while i < content.len()
        invariant
            i <= s.len(),
            content@ == s,
            r@.map_values(|l: Vec<u8>| l@) + spec_lines(s.skip(i as int)) == spec_lines(s),
        decreases s.len() - i,
    {
        let start = i;
        let mut j: usize = i;
        while j < content.len() && content[j] != 10
            invariant
                start <= j <= s.len(),
                content@ == s,
                newline_at(s.skip(start as int)) == (j - start) + newline_at(s.skip(j as int)),
            decreases s.len() - j,
        {
            proof {
                assert(s.skip(j as int)[0] == s[j as int]);
                assert(s.skip(j as int).drop_first() =~= s.skip(j as int + 1));
                assert(newline_at(s.skip(j as int)) == 1 + newline_at(s.skip(j as int + 1)));
            }
            j = j + 1;
        }
        proof {
            if j < s.len() {
                assert(s.skip(j as int)[0] == s[j as int]);
            }
            assert(newline_at(s.skip(j as int)) == 0);
            assert(newline_at(s.skip(start as int)) == j - start);
        }
        let mut line: Vec<u8> = Vec::new();
        let mut k: usize = start;
        while k < j
            invariant
                start <= k <= j <= s.len(),
                content@ == s,
                line@ == s.subrange(start as int, k as int),
            decreases j - k,
        {
            line.push(content[k]);
            proof {
                assert(line@ =~= s.subrange(start as int, k as int + 1));
            }
            k = k + 1;
        }
        if line.len() > 0 && line[line.len() - 1] == 13 {
            let _ = line.pop();
        }
        proof {
            let rest = s.skip(start as int);
            assert(rest.take(newline_at(rest) as int) =~= s.subrange(start as int, j as int));
            assert(line@ == strip_cr(s.subrange(start as int, j as int)));
            if j == s.len() {
                assert(rest.take(newline_at(rest) as int) =~= rest);
                assert(spec_lines(rest) == seq![strip_cr(rest)]);
                assert(s.skip(s.len() as int) =~= Seq::<u8>::empty());
                assert(spec_lines(s.skip(s.len() as int)) == Seq::<Seq<u8>>::empty());
            } else {
                assert(rest.skip(newline_at(rest) as int + 1) =~= s.skip(j as int + 1));
                assert(spec_lines(rest) == seq![strip_cr(s.subrange(start as int, j as int))]
                    + spec_lines(s.skip(j as int + 1)));
            }
            assert((r@.push(line)).map_values(|l: Vec<u8>| l@) =~= r@.map_values(
                |l: Vec<u8>| l@,
            ).push(line@));
            assert(r@.map_values(|l: Vec<u8>| l@).push(line@) + spec_lines(
                s.skip(if j == s.len() {
                    j as int
                } else {
                    j as int + 1
                }),
            ) =~= r@.map_values(|l: Vec<u8>| l@) + spec_lines(rest));
        }
        r.push(line);
        if j == content.len() {
            i = j;
        } else {
            i = j + 1;
        }
    }
    proof {
        assert(s.skip(s.len() as int) =~= Seq::<u8>::empty());
        assert(r@.map_values(|l: Vec<u8>| l@) + spec_lines(s.skip(s.len() as int)) =~= r@
            .map_values(|l: Vec<u8>| l@));
    }
    r
}

/// ASCII decimal digit.
pub open spec fn is_digit(b: u8) -> bool {
    48 <= b <= 57
}

pub open spec fn all_digits(t: Seq<u8>) -> bool {
    forall|i: int| 0 <= i < t.len() ==> is_digit(#[trigger] t[i])
}

/// Value of a digit string, most significant digit first.
pub open spec fn digits_val(t: Seq<u8>) -> int
    decreases t.len(),
{
    if t.len() == 0 {
        0
    } else {
        digits_val(t.drop_last()) * 10 + (t.last() - 48)
    }
}

proof fn lemma_digits_val_nonneg(t: Seq<u8>)
    requires
        all_digits(t),
    ensures
        digits_val(t) >= 0,
    decreases t.len(),
{
    if t.len() > 0 {
        assert(all_digits(t.drop_last()));
        lemma_digits_val_nonneg(t.drop_last());
    }
}

/// A digit string is at least as large as any of its prefixes.
proof fn lemma_digits_val_prefix(t: Seq<u8>, i: int)
    requires
        all_digits(t),
        0 <= i <= t.len(),
    ensures
        digits_val(t.take(i)) <= digits_val(t),
    decreases t.len() - i,
{
    if i < t.len() {
        lemma_digits_val_prefix(t, i + 1);
        assert(t.take(i + 1).drop_last() =~= t.take(i));
        assert(all_digits(t.take(i)));
        lemma_digits_val_nonneg(t.take(i));
        assert(digits_val(t.take(i + 1)) == digits_val(t.take(i)) * 10 + (t.take(i + 1).last()
            - 48));
    } else {
        assert(t.take(i) =~= t);
    }
}

/// Value of an integer token: an optional sign followed by one or more
/// decimal digits, worth its decimal value, rejected outside the 64-bit
/// signed range or on any other shape.
pub open spec fn parse_i64_spec(t: Seq<u8>) -> Option<i64> {
    let neg = t.len() > 0 && t[0] == 45;
    let mag = if t.len() > 0 && (t[0] == 43 || t[0] == 45) {
        t.drop_first()
    } else {
        t
    };
    if mag.len() == 0 || !all_digits(mag) {
        None
    } else if neg {
        if -digits_val(mag) >= i64::MIN {
            Some((-digits_val(mag)) as i64)
        } else {
            None
        }
    } else {
        if digits_val(mag) <= i64::MAX {
            Some(digits_val(mag) as i64)
        } else {
            None
        }
    }
}

/// Parses an integer token, exactly as `parse_i64_spec` says.
pub fn parse_i64(t: &Vec<u8>) -> (r: Option<i64>)
    ensures
        r == parse_i64_spec(t@),
{
    let mut idx: usize = 0;
    let mut neg = false;
    if t.len() > 0 && (t[0] == 43 || t[0] == 45) {
        neg = t[0] == 45;
        idx = 1;
    }
    let ghost mag = if idx == 1 {
        t@.drop_first()
    } else {
        t@
    };
    if idx >= t.len() {
        proof {
            assert(mag.len() == 0);
        }
        return None;
    }
    let limit: u64 = if neg {
        9223372036854775808
    } else {
        9223372036854775807
    };
    let mut acc: u64 = 0;
    let mut k: usize = idx;
    proof {
        assert(mag.take(0) =~= Seq::<u8>::empty());
    }
    while k < t.len()
        invariant
            idx <= k <= t@.len(),
            idx <= 1,
            idx < t@.len(),
            (idx == 1) == (t@.len() > 0 && (t@[0] == 43 || t@[0] == 45)),
            neg == (t@.len() > 0 && t@[0] == 45),
            mag == (if idx == 1 {
                t@.drop_first()
            } else {
                t@
            }),
            mag.len() == t@.len() - idx,
            forall|j: int| 0 <= j < mag.len() ==> mag[j] == t@[j + idx],
            all_digits(mag.take(k - idx)),
            acc == digits_val(mag.take(k - idx)),
            acc <= limit,
            limit == (if neg {
                9223372036854775808u64
            } else {
                9223372036854775807u64
            }),
        decreases t@.len() - k,
    {
        let b = t[k];
        if b < 48 || b > 57 {
            proof {
                assert(mag[k - idx] == t@[k as int]);
                assert(!all_digits(mag));
            }
            return None;
        }
        let d = (b - 48) as u64;
        let step_ok = acc <= (limit - d) / 10;
        proof {
            vstd::arithmetic::div_mod::lemma_fundamental_div_mod((limit - d) as int, 10);
            vstd::arithmetic::div_mod::lemma_mod_bound((limit - d) as int, 10);
            assert(mag.take(k - idx + 1).drop_last() =~= mag.take(k - idx));
            assert(mag.take(k - idx + 1).last() == t@[k as int]);
            assert(all_digits(mag.take(k - idx + 1)));
            assert(digits_val(mag.take(k - idx + 1)) == acc * 10 + d);
        }
        if !step_ok {
            proof {
                if all_digits(mag) {
                    lemma_digits_val_prefix(mag, k - idx + 1);
                    assert(digits_val(mag) >= acc * 10 + d > limit);
                }
            }
            return None;
        }
        acc = acc * 10 + d;
        k = k + 1;
    }
    proof {
        assert(mag.take(k - idx) =~= mag);
        lemma_digits_val_nonneg(mag);
    }
    if neg {
        if acc == 9223372036854775808 {
            Some(i64::MIN)
        } else {
            Some(0i64 - (acc as i64))
        }
    } else {
        Some(acc as i64)
    }
}

/// The marker bytes `result` that open a label line.
pub open spec fn result_marker() -> Seq<u8> {
    seq![114u8, 101u8, 115u8, 117u8, 108u8, 116u8]
}

/// A label line is recognized by its fixed leading marker.
pub open spec fn is_result_line(l: Seq<u8>) -> bool {
    l.len() >= 6 && l.take(6) == result_marker()
}

/// Every line that is not a label line is a data line.
pub open spec fn is_data_line(l: Seq<u8>) -> bool {
    !is_result_line(l)
}

/// A line broken independently of scalar parsing: a label line missing its
/// integer (or carrying a non-integer), or a data line with other than two
/// tokens.
pub open spec fn line_struct_malformed(l: Seq<u8>) -> bool {
    if is_result_line(l) {
        spec_tokens(l).len() < 2 || parse_i64_spec(spec_tokens(l)[1]) is None
    } else {
        spec_tokens(l).len() != 2
    }
}

/// Number of data lines.
pub open spec fn data_line_count(ls: Seq<Seq<u8>>) -> int
    decreases ls.len(),
{
    if ls.len() == 0 {
        0
    } else {
        data_line_count(ls.drop_last()) + if is_data_line(ls.last()) {
            1int
        } else {
            0int
        }
    }
}

proof fn lemma_data_count_nonneg(ls: Seq<Seq<u8>>)
    ensures
        data_line_count(ls) >= 0,
    decreases ls.len(),
{
    if ls.len() > 0 {
        lemma_data_count_nonneg(ls.drop_last());
    }
}

proof fn lemma_data_count_pos(ls: Seq<Seq<u8>>, j: int)
    requires
        0 <= j < ls.len(),
        is_data_line(ls[j]),
    ensures
        data_line_count(ls) >= 1,
    decreases ls.len(),
{
    lemma_data_count_nonneg(ls.drop_last());
    if j == ls.len() - 1 {
    } else {
        assert(ls.drop_last()[j] == ls[j]);
        lemma_data_count_pos(ls.drop_last(), j);
    }
}

/// The label of a sample: the integer of the last well-formed label line,
/// or 0 when no label line appears — a missing label defaults rather than
/// failing the file.
pub open spec fn spec_label(ls: Seq<Seq<u8>>) -> i64
    decreases ls.len(),
{
    if ls.len() == 0 {
        0
    } else if is_result_line(ls.last()) && spec_tokens(ls.last()).len() >= 2 && parse_i64_spec(
        spec_tokens(ls.last())[1],
    ) is Some {
        parse_i64_spec(spec_tokens(ls.last())[1])->Some_0
    } else {
        spec_label(ls.drop_last())
    }
}

/// No line of the file is structurally malformed.
pub open spec fn all_lines_wf(ls: Seq<Seq<u8>>) -> bool {
    forall|j: int| 0 <= j < ls.len() ==> !line_struct_malformed(#[trigger] ls[j])
}

/// Why a sample file was rejected: a malformed record at the given line
/// index (zero-based), or a file with zero data lines, over which the
/// normalization statistics are undefined.
#[derive(Clone, Copy, PartialEq, Eq, Structural, Debug)]
pub enum ParseError {
    MalformedRecord { line: usize },
    DegenerateSample,
}

/// One parsed sample file: the raw flux/time pairs in data-line order and
/// the integer class label.
#[derive(Debug)]
pub struct RawSample {
    pub points: Vec<Point>,
    pub label: i64,
}

fn starts_with_result(line: &Vec<u8>) -> (r: bool)
    ensures
        r == is_result_line(line@),
{
    if line.len() < 6 {
        return false;
    }
    let r = line[0] == 114 && line[1] == 101 && line[2] == 115 && line[3] == 117 && line[4] == 108
        && line[5] == 116;
    proof {
        if r {
            assert(line@.take(6) =~= result_marker());
        } else {
            if line@.take(6) == result_marker() {
                assert(line@[0] == 114 && line@[1] == 101 && line@[2] == 115 && line@[3] == 117
                    && line@[4] == 108 && line@[5] == 116) by {
                    assert(forall|i: int|
                        0 <= i < 6 ==> #[trigger] line@.take(6)[i] == line@[i]);
                }
            }
        }
    }
    r
}

/// Parses one sample file's textual content. Each line is either a label
/// line — the `result` marker followed by an integer — or a data line of
/// exactly two whitespace-separated numeric tokens, flux then time. The
/// last label line wins; a missing label defaults to 0. A data line with
/// the wrong token count or a non-numeric token, and a label line without
/// a parseable integer, are malformed records naming the offending line; a
/// file with zero data lines is a degenerate sample. Scalar tokens are read
/// by the scalar capability; everything else is decided here.
pub fn parse_learn_content<N: ScalarOps>(ops: &N, content: &Vec<u8>) -> (r: Result<
    RawSample,
    ParseError,
>)
    ensures
        r is Ok ==> all_lines_wf(spec_lines(content@)),
        r is Ok ==> r->Ok_0.points@.len() == data_line_count(spec_lines(content@)),
        r is Ok ==> data_line_count(spec_lines(content@)) > 0,
        r is Ok ==> r->Ok_0.label == spec_label(spec_lines(content@)),
        (r matches Err(ParseError::DegenerateSample)) <==> (all_lines_wf(spec_lines(content@))
            && data_line_count(spec_lines(content@)) == 0),
        r matches Err(ParseError::MalformedRecord { line }) ==> {
            let ls = spec_lines(content@);
            &&& 0 <= line < ls.len()
            &&& (line_struct_malformed(ls[line as int]) || is_data_line(ls[line as int]))
            &&& forall|j: int| 0 <= j < line ==> !line_struct_malformed(#[trigger] ls[j])
        },
        !all_lines_wf(spec_lines(content@)) ==> r matches Err(ParseError::MalformedRecord { .. }),
{
    let ghost ls = spec_lines(content@);
    let lines = split_lines(content);
    let mut points: Vec<Point> = Vec::new();
    let mut label: i64 = 0;
    let mut li: usize = 0;
    proof {
        assert(ls.take(0) =~= Seq::<Seq<u8>>::empty());
    }
    while li < lines.len()
        invariant
            ls == spec_lines(content@),
            lines@.map_values(|l: Vec<u8>| l@) == ls,
            li <= ls.len(),
            forall|j: int| 0 <= j < li ==> !line_struct_malformed(#[trigger] ls[j]),
            points@.len() == data_line_count(ls.take(li as int)),
            label == spec_label(ls.take(li as int)),
        decreases ls.len() - li,
    {
        let line = &lines[li];
        proof {
            assert(line@ == ls[li as int]);
            assert(ls.take(li as int + 1).drop_last() =~= ls.take(li as int));
            assert(ls.take(li as int + 1).last() == ls[li as int]);
        }
        let toks = tokenize(line);
        proof {
            assert(toks@.map_values(|t: Vec<u8>| t@).len() == toks@.len());
        }
        if starts_with_result(line) {
            if toks.len() < 2 {
                proof {
                    assert(line_struct_malformed(ls[li as int]));
                }
                return Err(ParseError::MalformedRecord { line: li });
            }
            proof {
                assert(toks@[1]@ == spec_tokens(ls[li as int])[1]);
            }
            match parse_i64(&toks[1]) {
                None => {
                    return Err(ParseError::MalformedRecord { line: li });
                },
                Some(v) => {
                    label = v;
                },
            }
        } else {
            if toks.len() != 2 {
                return Err(ParseError::MalformedRecord { line: li });
            }
            let fb = ops.parse_scalar(&toks[0]);
            let tb = ops.parse_scalar(&toks[1]);
            match (fb, tb) {
                (Some(flux), Some(time)) => {
                    points.push(Point { flux, time });
                },
                _ => {
                    proof {
                        lemma_data_count_pos(ls, li as int);
                    }
                    return Err(ParseError::MalformedRecord { line: li });
                },
            }
        }
        li = li + 1;
    }
    proof {
        assert(ls.take(ls.len() as int) =~= ls);
    }
    if points.len() == 0 {
        return Err(ParseError::DegenerateSample);
    }
    Ok(RawSample { points, label })
}

} // verus!
