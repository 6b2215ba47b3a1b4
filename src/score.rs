use vstd::prelude::*;
use vstd::arithmetic::div_mod::{lemma_div_is_ordered, lemma_div_multiples_vanish};

verus! {

/// Ordinal of the character that encodes a Phred score of zero.
pub const PHRED_OFFSET: i64 = 33;

/// Largest ordinal a `char` can have.
pub const MAX_CHAR_ORDINAL: i64 = 0x10FFFF;

/// Fixed-point unit in which one record's mean enters a collection mean:
/// each record mean is kept to twelve decimal places, rounded down.
pub const MEAN_SCALE: i128 = 1_000_000_000_000;

/// The Phred+33 score of one quality symbol: its ordinal less 33.
pub open spec fn score(c: char) -> int {
    c as int - PHRED_OFFSET
}

/// Sum of the scores of every symbol of a quality line.
pub open spec fn total_score(q: Seq<char>) -> int
    decreases q.len(),
{
    if q.len() == 0 {
        0
    } else {
        total_score(q.drop_last()) + score(q.last())
    }
}

/// An exact quotient `numer / denom` with a positive denominator.
#[derive(Clone, Copy, Debug, PartialEq, Eq)]
pub struct Ratio {
    pub numer: i128,
    pub denom: i128,
}

/// The ways an average can fail to exist.
#[derive(Clone, Copy, Debug, PartialEq, Eq)]
pub enum AggregationError {
    /// No records, or a record whose quality line is empty.
    EmptyInput,
}

/// The score of one quality symbol: its ordinal less 33. Defined for every
/// character; symbols below `!` give negative scores.
pub fn convert_ascii_to_score(ascii: char) -> (r: i64)
    ensures
        r == score(ascii),
        -PHRED_OFFSET <= r <= MAX_CHAR_ORDINAL - PHRED_OFFSET,
{
    (ascii as u32) as i64 - PHRED_OFFSET
}

/// Sum of the scores of every symbol of `qual`. Each score lies between
/// -33 and 1114078 (the largest ordinal less 33), which bounds the sum.
pub fn quality_total(qual: &str) -> (r: i128)
    ensures
        r == total_score(qual@),
        r + 33 * qual@.len() >= 0,
        r <= 1114078 * qual@.len(),
{
    let len = qual.unicode_len();
    let mut sum: i128 = 0;
    for c in it: qual.chars()
        invariant
            it.seq() == qual@,
            len == qual@.len(),
            it.index() <= len,
            sum == total_score(qual@.take(it.index() as int)),
            sum + 33 * (it.index() as int) >= 0,
            sum <= 1114078 * (it.index() as int),
    {
        proof {
            let k = it.index() as int;
            assert(qual@.take(k + 1).drop_last() =~= qual@.take(k));
        }
        let v = convert_ascii_to_score(c);
        sum = sum + v as i128;
    }
    proof {
        assert(qual@.take(qual@.len() as int) =~= qual@);
    }
    sum
}

/// One record's mean score in units of `1 / MEAN_SCALE`, rounded down.
pub open spec fn scaled_mean(q: Seq<char>) -> int {
    total_score(q) * MEAN_SCALE / (q.len() as int)
}

/// The mean score of a quality line, as the exact quotient of its total
/// score by its length; an empty line has no mean.
pub fn calculate_fastq_quality_score(qual: &str) -> (r: Result<Ratio, AggregationError>)
    ensures
        match r {
            Ok(m) => qual@.len() > 0 && m.numer == total_score(qual@) && m.denom == qual@.len(),
            Err(e) => qual@.len() == 0 && e == AggregationError::EmptyInput,
        },
{
    let len = qual.unicode_len();
    if len == 0 {
        return Err(AggregationError::EmptyInput);
    }
    let total = quality_total(qual);
    Ok(Ratio { numer: total, denom: len as i128 })
}

/// The mean score of a non-empty quality line in units of `1 / MEAN_SCALE`,
/// rounded down.
pub fn scaled_quality_mean(qual: &str) -> (r: i128)
    requires
        qual@.len() > 0,
    ensures
        r == scaled_mean(qual@),
        r + 33 * MEAN_SCALE >= 0,
        r <= 1114078 * MEAN_SCALE,
{
    let len = qual.unicode_len();
    let total = quality_total(qual);
    let n = len as i128;
    proof {
        let l = len as int;
        assert(l <= 0xFFFF_FFFF_FFFF_FFFF);
        assert(total * MEAN_SCALE <= 1114078 * MEAN_SCALE * 0xFFFF_FFFF_FFFF_FFFF) by (nonlinear_arith)
            requires total <= 1114078 * l, l <= 0xFFFF_FFFF_FFFF_FFFF;
        assert(total * MEAN_SCALE >= -33 * MEAN_SCALE * 0xFFFF_FFFF_FFFF_FFFF) by (nonlinear_arith)
            requires total + 33 * l >= 0, l <= 0xFFFF_FFFF_FFFF_FFFF;
        lemma_scaled_mean_bounds(qual@);
    }
    let scaled = total * MEAN_SCALE;
    scaled.checked_div_euclid(n).unwrap()
}

/// Every `char` has an ordinal between 0 and `MAX_CHAR_ORDINAL`.
pub proof fn lemma_char_range(c: char)
    ensures
        0 <= c as int,
        c as int <= MAX_CHAR_ORDINAL,
{
}

/// Scores lie between -33 and 1114078 (the largest ordinal less 33), so a
/// line's total lies between those bounds times its length.
pub proof fn lemma_total_score_bounds(q: Seq<char>)
    ensures
        total_score(q) + 33 * q.len() >= 0,
        total_score(q) <= 1114078 * q.len(),
    decreases q.len(),
{
    if q.len() > 0 {
        lemma_total_score_bounds(q.drop_last());
        lemma_char_range(q.last());
    }
}

/// A scaled record mean lies between the scaled lowest and highest scores.
pub proof fn lemma_scaled_mean_bounds(q: Seq<char>)
    requires
        q.len() > 0,
    ensures
        scaled_mean(q) + 33 * MEAN_SCALE >= 0,
        scaled_mean(q) <= 1114078 * MEAN_SCALE,
{
    let total = total_score(q);
    let l = q.len() as int;
    lemma_total_score_bounds(q);
    assert(total * MEAN_SCALE <= 1114078 * MEAN_SCALE * l) by (nonlinear_arith)
        requires total <= 1114078 * l, l > 0;
    assert(total * MEAN_SCALE >= -33 * MEAN_SCALE * l) by (nonlinear_arith)
        requires total + 33 * l >= 0, l > 0;
    lemma_div_is_ordered(total * MEAN_SCALE, 1114078 * MEAN_SCALE * l, l);
    lemma_div_is_ordered(-33 * MEAN_SCALE * l, total * MEAN_SCALE, l);
    lemma_div_multiples_vanish(1114078 * MEAN_SCALE, l);
    lemma_div_multiples_vanish(-33 * MEAN_SCALE, l);
    assert(l * (1114078 * MEAN_SCALE) == 1114078 * MEAN_SCALE * l) by (nonlinear_arith);
    assert(l * (-33 * MEAN_SCALE) == -33 * MEAN_SCALE * l) by (nonlinear_arith);
}

} // verus!
