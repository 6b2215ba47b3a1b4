use vstd::prelude::*;
use rayon::iter::{IndexedParallelIterator, ParallelIterator};
use rayon::slice::ParallelSlice;
use crate::average::{
    all_nonempty, collection_mean, lemma_scaled_sum_append, lemma_scaled_sum_bounds, mean_sum_of,
    qualities, scaled_mean_sum, scaled_sum,
};
use crate::record::Record;
use crate::score::{AggregationError, Ratio, MEAN_SCALE};

verus! {

/// Number of records each worker reduces when no chunk length is given.
pub const PARALLEL_CHUNK_LEN: usize = 4096;

/// How many chunks of `k` consecutive items cover `n` items.
pub open spec fn chunk_count(n: nat, k: nat) -> nat {
    if k == 0 {
        0
    } else {
        ((n + k - 1) / (k as int)) as nat
    }
}

/// The `j`-th chunk of `s`: items `j * k` up to `(j + 1) * k`, the last
/// chunk ending with `s`.
pub open spec fn chunk<T>(s: Seq<T>, k: nat, j: int) -> Seq<T> {
    let end = if (j + 1) * k <= s.len() { (j + 1) * k } else { s.len() as int };
    s.subrange(j * k, end)
}

/// Sum of a sequence of integers.
pub open spec fn sum_of(s: Seq<int>) -> int
    decreases s.len(),
{
    if s.len() == 0 {
        0
    } else {
        sum_of(s.drop_last()) + s.last()
    }
}

/// The scaled-mean sums of the chunks of `qs`, in chunk order.
pub open spec fn chunk_sums(qs: Seq<Seq<char>>, k: nat) -> Seq<int> {
    Seq::new(chunk_count(qs.len(), k), |j: int| scaled_sum(chunk(qs, k, j)))
}

proof fn lemma_chunk_layout(n: nat, k: nat, j: int)
    requires
        k > 0,
        0 <= j < chunk_count(n, k),
    ensures
        j * k < n,
        (j + 1) * k == j * k + k,
        j + 1 == chunk_count(n, k) ==> n <= (j + 1) * k,
        j + 1 < chunk_count(n, k) ==> (j + 1) * k < n,
{
    let c = chunk_count(n, k) as int;
    let ki = k as int;
    vstd::arithmetic::div_mod::lemma_fundamental_div_mod(n + ki - 1, ki);
    assert((n + ki - 1) % ki < ki) by {
        vstd::arithmetic::div_mod::lemma_mod_bound(n + ki - 1, ki);
    }
    assert(ki * c + (n + ki - 1) % ki == n + ki - 1);
    assert(c * ki <= n + ki - 1) by (nonlinear_arith)
        requires ki * c + (n + ki - 1) % ki == n + ki - 1, (n + ki - 1) % ki >= 0;
    assert(c * ki > n - 1) by (nonlinear_arith)
        requires ki * c + (n + ki - 1) % ki == n + ki - 1, (n + ki - 1) % ki < ki;
    assert(j * ki < n) by (nonlinear_arith)
        requires j + 1 <= c, c * ki <= n + ki - 1, ki > 0, j >= 0;
    assert(j + 2 <= c ==> (j + 1) * ki < n) by (nonlinear_arith)
        requires c * ki <= n + ki - 1, ki > 0, j >= 0;
    assert((j + 1) * ki == j * ki + ki) by (nonlinear_arith);
    if j + 1 == c {
        assert(n <= (j + 1) * ki);
    }
}

proof fn lemma_chunk_count_positive(n: nat, k: nat)
    requires
        k > 0,
        n > 0,
    ensures
        chunk_count(n, k) >= 1,
{
    vstd::arithmetic::div_mod::lemma_div_is_ordered(k as int, n + k - 1, k as int);
    vstd::arithmetic::div_mod::lemma_div_by_multiple(1, k as int);
}

/// The chunks before chunk `j` make up the first `j * k` items.
proof fn lemma_chunks_prefix(qs: Seq<Seq<char>>, k: nat, j: int)
    requires
        k > 0,
        0 <= j <= chunk_count(qs.len(), k),
    ensures
        j * k <= qs.len() || j == chunk_count(qs.len(), k),
        sum_of(chunk_sums(qs, k).take(j)) == scaled_sum(qs.take(if j * k <= qs.len() { j * k } else { qs.len() as int })),
    decreases j,
{
    let n = qs.len();
    if j == 0 {
        assert(qs.take(0) =~= Seq::<Seq<char>>::empty());
        assert(chunk_sums(qs, k).take(0) =~= Seq::<int>::empty());
    } else {
        lemma_chunks_prefix(qs, k, j - 1);
        lemma_chunk_layout(n, k, j - 1);
        if j < chunk_count(n, k) {
            lemma_chunk_layout(n, k, j);
        }
        let lo = (j - 1) * k;
        let hi = if j * k <= n { j * k } else { n as int };
        assert(chunk_sums(qs, k).take(j).drop_last() =~= chunk_sums(qs, k).take(j - 1));
        assert(qs.take(lo) + chunk(qs, k, j - 1) =~= qs.take(hi));
        lemma_scaled_sum_append(qs.take(lo), chunk(qs, k, j - 1));
    }
}

/// Summing the chunk sums, for any chunk length, gives the sum over all
/// lines: a chunked reduction agrees with the sequential one.
pub proof fn lemma_chunked_sum_is_sequential(qs: Seq<Seq<char>>, k: nat)
    requires
        k > 0,
    ensures
        sum_of(chunk_sums(qs, k)) == scaled_sum(qs),
{
    let c = chunk_count(qs.len(), k) as int;
    lemma_chunks_prefix(qs, k, c);
    assert(chunk_sums(qs, k).take(c) =~= chunk_sums(qs, k));
    if qs.len() > 0 {
        lemma_chunk_count_positive(qs.len(), k);
        lemma_chunk_layout(qs.len(), k, c - 1);
    }
    assert(qs.take(qs.len() as int) =~= qs);
}

/// Relies on rayon's `par_chunks` (consecutive, non-overlapping chunks of
/// `chunk_len` records, the last one possibly shorter) and
/// `collect_into_vec` (one result per chunk, stored in chunk order); each
/// chunk is reduced by `scaled_mean_sum`.
#[verifier::external_body]
fn par_chunk_mean_sums(records: &[Record], chunk_len: usize) -> (r: Vec<Option<i128>>)
    requires
        chunk_len > 0,
    ensures
        r@.len() == chunk_count(records@.len(), chunk_len as nat),
        forall|j: int| 0 <= j < r@.len() ==>
            #[trigger] r@[j] == mean_sum_of(qualities(chunk(records@, chunk_len as nat, j))),
{
    let mut out: Vec<Option<i128>> = Vec::new();
    records.par_chunks(chunk_len).map(|c| scaled_mean_sum(c)).collect_into_vec(&mut out);
    out
}

/// The collection average computed by parallel workers, each reducing
/// `chunk_len` consecutive records to a partial sum; the partial sums are
/// added and divided by the total record count, which weights each chunk by
/// its size. The result is the sequential one exactly.
pub fn rayon_get_average_quality_score_chunked(records: &Vec<Record>, chunk_len: usize) -> (r: Result<Ratio, AggregationError>)
    requires
        chunk_len > 0,
    ensures
        r == collection_mean(records@),
{
    let n = records.len();
    if n == 0 {
        return Err(AggregationError::EmptyInput);
    }
    let partials = par_chunk_mean_sums(records.as_slice(), chunk_len);
    proof {
        lemma_chunk_count_positive(n as nat, chunk_len as nat);
    }
    let ghost qs = qualities(records@);
    let ghost k = chunk_len as nat;
    let mut sum: i128 = 0;
    let mut j: usize = 0;
    while j < partials.len()
        invariant
            k == chunk_len,
            k > 0,
            n == records@.len(),
            qs == qualities(records@),
            qs.len() == n,
            partials@.len() == chunk_count(n as nat, k),
            forall|i: int| 0 <= i < partials@.len() ==>
                #[trigger] partials@[i] == mean_sum_of(qualities(chunk(records@, k, i))),
            j <= partials@.len(),
            j * k <= n || j == partials@.len(),
            all_nonempty(qs.take(if j * k <= n { j * k } else { n as int })),
            sum == scaled_sum(qs.take(if j * k <= n { j * k } else { n as int })),
        decreases partials@.len() - j,
    {
        let ghost lo = j * k;
        proof {
            lemma_chunk_layout(n as nat, k, j as int);
            if j + 1 < partials@.len() {
                lemma_chunk_layout(n as nat, k, j as int + 1);
            }
        }
        let ghost hi = if (j + 1) * k <= n { (j + 1) * k } else { n as int };
        let ghost part = chunk(qs, k, j as int);
        proof {
            assert(qualities(chunk(records@, k, j as int)) =~= part);
            assert(qs.take(lo) + part =~= qs.take(hi));
            lemma_scaled_sum_append(qs.take(lo), part);
        }
        match partials[j] {
            Some(p) => {
                proof {
                    assert(all_nonempty(qs.take(hi))) by {
                        assert forall|i: int| 0 <= i < qs.take(hi).len() implies #[trigger] qs.take(hi)[i].len() > 0 by {
                            if i < lo {
                                assert(qs.take(hi)[i] == qs.take(lo)[i]);
                            } else {
                                assert(qs.take(hi)[i] == part[i - lo]);
                            }
                        }
                    }
                    lemma_scaled_sum_bounds(qs.take(hi));
                    lemma_scaled_sum_bounds(part);
                    assert(hi <= 0xFFFF_FFFF_FFFF_FFFF);
                }
                sum = sum + p;
            },
            None => {
                proof {
                    let i = choose|i: int| 0 <= i < part.len() && !(#[trigger] part[i].len() > 0);
                    assert(qs[lo + i] == part[i]);
                }
                return Err(AggregationError::EmptyInput);
            },
        }
        j = j + 1;
    }
    proof {
        lemma_chunk_layout(n as nat, k, j as int - 1);
        assert(qs.take(n as int) =~= qs);
    }
    assert(n * MEAN_SCALE <= 0xFFFF_FFFF_FFFF_FFFF * MEAN_SCALE) by (nonlinear_arith)
        requires n <= 0xFFFF_FFFF_FFFF_FFFF;
    Ok(Ratio { numer: sum, denom: n as i128 * MEAN_SCALE })
}

/// The collection average computed by parallel workers over chunks of
/// `PARALLEL_CHUNK_LEN` records; equal to the sequential result.
pub fn rayon_get_average_quality_score(records: &Vec<Record>) -> (r: Result<Ratio, AggregationError>)
    ensures
        r == collection_mean(records@),
{
    rayon_get_average_quality_score_chunked(records, PARALLEL_CHUNK_LEN)
}

} // verus!
