use vstd::prelude::*;
use crate::record::Record;
use crate::score::{
    lemma_scaled_mean_bounds, scaled_mean, scaled_quality_mean, AggregationError, Ratio, MEAN_SCALE,
};

verus! {

/// The quality lines of a sequence of records, in order.
pub open spec fn qualities(rs: Seq<Record>) -> Seq<Seq<char>> {
    rs.map_values(|r: Record| r.qual@)
}

/// Every quality line holds at least one symbol.
pub open spec fn all_nonempty(qs: Seq<Seq<char>>) -> bool {
    forall|i: int| 0 <= i < qs.len() ==> #[trigger] qs[i].len() > 0
}

/// Sum of the scaled means of the quality lines `qs`.
pub open spec fn scaled_sum(qs: Seq<Seq<char>>) -> int
    decreases qs.len(),
{
    if qs.len() == 0 {
        0
    } else {
        scaled_sum(qs.drop_last()) + scaled_mean(qs.last())
    }
}

/// A collection has a mean when it holds a record and none of its quality
/// lines is empty.
pub open spec fn has_mean(rs: Seq<Record>) -> bool {
    rs.len() > 0 && all_nonempty(qualities(rs))
}

/// What a collection average returns: the sum of the records' scaled means
/// over the record count times the scale, or `EmptyInput` where there is no
/// mean.
pub open spec fn collection_mean(rs: Seq<Record>) -> Result<Ratio, AggregationError> {
    if has_mean(rs) {
        Ok(Ratio { numer: scaled_sum(qualities(rs)) as i128, denom: (rs.len() * MEAN_SCALE) as i128 })
    } else {
        Err(AggregationError::EmptyInput)
    }
}

/// What summing the scaled means of `qs` gives: `None` when a line is empty.
pub open spec fn mean_sum_of(qs: Seq<Seq<char>>) -> Option<i128> {
    if all_nonempty(qs) {
        Some(scaled_sum(qs) as i128)
    } else {
        None
    }
}

/// The sum over lines put one after the other is the sum of the two sums.
pub proof fn lemma_scaled_sum_append(a: Seq<Seq<char>>, b: Seq<Seq<char>>)
    ensures
        scaled_sum(a + b) == scaled_sum(a) + scaled_sum(b),
    decreases b.len(),
{
    if b.len() == 0 {
        assert(a + b =~= a);
    } else {
        lemma_scaled_sum_append(a, b.drop_last());
        assert((a + b).drop_last() =~= a + b.drop_last());
    }
}

/// Each scaled mean lies between the scaled lowest and highest scores, so
/// their sum lies between those bounds times the number of lines.
pub proof fn lemma_scaled_sum_bounds(qs: Seq<Seq<char>>)
    requires
        all_nonempty(qs),
    ensures
        scaled_sum(qs) + 33 * MEAN_SCALE * qs.len() >= 0,
        scaled_sum(qs) <= 1114078 * MEAN_SCALE * qs.len(),
    decreases qs.len(),
{
    if qs.len() > 0 {
        assert(qs.last() == qs[qs.len() - 1]);
        lemma_scaled_sum_bounds(qs.drop_last());
        lemma_scaled_mean_bounds(qs.last());
    }
}

/// Sum of the scaled means of the records' quality lines, or `None` when
/// one of them is empty.
pub fn scaled_mean_sum(records: &[Record]) -> (r: Option<i128>)
    ensures
        r == mean_sum_of(qualities(records@)),
        r is Some ==> r->0 + 33 * MEAN_SCALE * records@.len() >= 0,
        r is Some ==> r->0 <= 1114078 * MEAN_SCALE * records@.len(),
{
    let mut sum: i128 = 0;
    let n = records.len();
    let mut i: usize = 0;
    while i < n
        invariant
            n == records@.len(),
            i <= n,
            all_nonempty(qualities(records@.take(i as int))),
            sum == scaled_sum(qualities(records@.take(i as int))),
            sum + 33_000_000_000_000 * (i as int) >= 0,
            sum <= 1_114_078_000_000_000_000 * (i as int),
        decreases n - i,
    {
        let rec = &records[i];
        if rec.qual.unicode_len() == 0 {
            proof {
                assert(qualities(records@)[i as int] == rec.qual@);
            }
            return None;
        }
        let m = scaled_quality_mean(rec.qual.as_str());
        proof {
            let q = qualities(records@.take(i as int + 1));
            assert(q.drop_last() =~= qualities(records@.take(i as int)));
            assert(q.last() == rec.qual@);
            assert forall|j: int| 0 <= j < q.len() implies #[trigger] q[j].len() > 0 by {
                if j < i {
                    assert(q[j] == qualities(records@.take(i as int))[j]);
                }
            }
        }
        sum = sum + m;
        i = i + 1;
    }
    proof {
        assert(records@.take(n as int) =~= records@);
    }
    Some(sum)
}

/// The mean over the records of each record's mean score: the sum of the
/// scaled record means over `records.len() * MEAN_SCALE`. `EmptyInput` when
/// there are no records or a quality line is empty.
pub fn get_average_quality_score(records: &Vec<Record>) -> (r: Result<Ratio, AggregationError>)
    ensures
        r == collection_mean(records@),
{
    if records.len() == 0 {
        return Err(AggregationError::EmptyInput);
    }
    match scaled_mean_sum(records.as_slice()) {
        Some(s) => {
            let n = records.len() as i128;
            assert(n * MEAN_SCALE <= 0xFFFF_FFFF_FFFF_FFFF * MEAN_SCALE) by (nonlinear_arith)
                requires n <= 0xFFFF_FFFF_FFFF_FFFF, n >= 0;
            Ok(Ratio { numer: s, denom: n * MEAN_SCALE })
        },
        None => Err(AggregationError::EmptyInput),
    }
}

} // verus!
