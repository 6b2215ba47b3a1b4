use vstd::prelude::*;
use crate::average::qualities;
use crate::record::Record;
use crate::score::{convert_ascii_to_score, lemma_char_range, score, Ratio};

verus! {

/// Number of lines of `qs` that reach position `i`.
pub open spec fn pos_count(qs: Seq<Seq<char>>, i: int) -> nat
    decreases qs.len(),
{
    if qs.len() == 0 {
        0
    } else {
        pos_count(qs.drop_last(), i) + if 0 <= i < qs.last().len() { 1nat } else { 0nat }
    }
}

/// Sum of the scores at position `i` of the lines of `qs` that reach it.
pub open spec fn pos_sum(qs: Seq<Seq<char>>, i: int) -> int
    decreases qs.len(),
{
    if qs.len() == 0 {
        0
    } else {
        pos_sum(qs.drop_last(), i) + if 0 <= i < qs.last().len() { score(qs.last()[i]) } else { 0 }
    }
}

/// Length of the longest line of `qs`; zero when there is none.
pub open spec fn max_len(qs: Seq<Seq<char>>) -> nat
    decreases qs.len(),
{
    if qs.len() == 0 {
        0
    } else if max_len(qs.drop_last()) >= qs.last().len() {
        max_len(qs.drop_last())
    } else {
        qs.last().len()
    }
}

/// Past the longest line no line contributes; before it at least one does,
/// and never more than there are lines. The sum at a position lies between
/// the lowest and highest scores times the number of lines.
pub proof fn lemma_position_facts(qs: Seq<Seq<char>>, i: int)
    requires
        0 <= i,
    ensures
        pos_count(qs, i) <= qs.len(),
        i >= max_len(qs) ==> pos_count(qs, i) == 0 && pos_sum(qs, i) == 0,
        i < max_len(qs) ==> pos_count(qs, i) > 0,
        pos_sum(qs, i) + 33 * qs.len() >= 0,
        pos_sum(qs, i) <= 1114078 * qs.len(),
    decreases qs.len(),
{
    if qs.len() > 0 {
        lemma_position_facts(qs.drop_last(), i);
        if i < qs.last().len() {
            lemma_char_range(qs.last()[i]);
        }
    }
}

/// For each position up to the longest quality line: how many records reach
/// it, and the sum of their scores there. Shorter records add nothing past
/// their end.
pub fn get_index_scores_and_count(records: &Vec<Record>) -> (r: (Vec<usize>, Vec<i128>))
    ensures
        r.0@.len() == max_len(qualities(records@)),
        r.1@.len() == max_len(qualities(records@)),
        forall|i: int| 0 <= i < r.0@.len() ==> #[trigger] r.0@[i] == pos_count(qualities(records@), i),
        forall|i: int| 0 <= i < r.1@.len() ==> #[trigger] r.1@[i] == pos_sum(qualities(records@), i),
{
    let ghost qs = qualities(records@);
    let n = records.len();
    let mut counts: Vec<usize> = Vec::new();
    let mut sums: Vec<i128> = Vec::new();
    for k in 0..n
        invariant
            n == records@.len(),
            qs == qualities(records@),
            counts@.len() == max_len(qs.take(k as int)),
            sums@.len() == counts@.len(),
            forall|i: int| 0 <= i < counts@.len() ==> #[trigger] counts@[i] == pos_count(qs.take(k as int), i),
            forall|i: int| 0 <= i < sums@.len() ==> #[trigger] sums@[i] == pos_sum(qs.take(k as int), i),
    {
        let ghost done = qs.take(k as int);
        let ghost next = qs.take(k as int + 1);
        let qual = records[k].qual.as_str();
        proof {
            assert(next.drop_last() =~= done);
            assert(next.last() == qual@);
        }
        let len = qual.unicode_len();
        while counts.len() < len
            invariant
                sums@.len() == counts@.len(),
                counts@.len() >= max_len(done),
                counts@.len() == max_len(done) || counts@.len() <= len,
                forall|i: int| 0 <= i < counts@.len() ==> #[trigger] counts@[i] == pos_count(done, i),
                forall|i: int| 0 <= i < sums@.len() ==> #[trigger] sums@[i] == pos_sum(done, i),
            decreases len - counts@.len(),
        {
            proof {
                lemma_position_facts(done, counts@.len() as int);
            }
            counts.push(0);
            sums.push(0);
        }
        let ghost width = counts@.len();
        let mut j: usize = 0;
        for c in it: qual.chars()
            invariant
                it.seq() == qual@,
                j == it.index(),
                j <= len,
                len == qual@.len(),
                len <= width,
                k < n,
                done.len() == k,
                counts@.len() == width,
                sums@.len() == width,
                forall|i: int| 0 <= i < j ==> #[trigger] counts@[i] == pos_count(done, i) + 1,
                forall|i: int| 0 <= i < j ==> #[trigger] sums@[i] == pos_sum(done, i) + score(qual@[i]),
                forall|i: int| j <= i < width ==> #[trigger] counts@[i] == pos_count(done, i),
                forall|i: int| j <= i < width ==> #[trigger] sums@[i] == pos_sum(done, i),
        {
            proof {
                lemma_position_facts(done, j as int);
            }
            let v = convert_ascii_to_score(c);
            let cnt = counts[j] + 1;
            counts.set(j, cnt);
            let sm = sums[j] + v as i128;
            sums.set(j, sm);
            j = j + 1;
        }
        proof {
            assert(max_len(next) == width) by {
                if max_len(done) < width {
                    assert(width == len);
                }
            }
            assert forall|i: int| 0 <= i < counts@.len() implies #[trigger] counts@[i] == pos_count(next, i) by {}
            assert forall|i: int| 0 <= i < sums@.len() implies #[trigger] sums@[i] == pos_sum(next, i) by {}
        }
    }
    proof {
        assert(qs.take(n as int) =~= qs);
    }
    (counts, sums)
}

/// For each position up to the longest quality line, the mean score there
/// over the records that reach it: the exact quotient of their score sum by
/// their count, so each position has its own denominator.
pub fn average_quality_at_index(records: &Vec<Record>) -> (r: Vec<Ratio>)
    ensures
        r@.len() == max_len(qualities(records@)),
        forall|i: int| 0 <= i < r@.len() ==> pos_count(qualities(records@), i) > 0,
        forall|i: int| 0 <= i < r@.len() ==> #[trigger] r@[i] == (Ratio {
            numer: pos_sum(qualities(records@), i) as i128,
            denom: pos_count(qualities(records@), i) as i128,
        }),
{
    let (counts, sums) = get_index_scores_and_count(records);
    let mut out: Vec<Ratio> = Vec::new();
    for i in 0..counts.len()
        invariant
            counts@.len() == max_len(qualities(records@)),
            sums@.len() == counts@.len(),
            forall|p: int| 0 <= p < counts@.len() ==> #[trigger] counts@[p] == pos_count(qualities(records@), p),
            forall|p: int| 0 <= p < sums@.len() ==> #[trigger] sums@[p] == pos_sum(qualities(records@), p),
            out@.len() == i,
            forall|p: int| 0 <= p < i ==> #[trigger] out@[p] == (Ratio {
                numer: pos_sum(qualities(records@), p) as i128,
                denom: pos_count(qualities(records@), p) as i128,
            }),
    {
        out.push(Ratio { numer: sums[i], denom: counts[i] as i128 });
    }
    proof {
        assert forall|i: int| 0 <= i < out@.len() implies pos_count(qualities(records@), i) > 0 by {
            lemma_position_facts(qualities(records@), i);
        }
    }
    out
}

} // verus!
