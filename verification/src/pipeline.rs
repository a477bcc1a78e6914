use vstd::prelude::*;
use crate::triangular::lemma_rows_before_monotonic;
use crate::triangular::lemma_triangle_offset_in_range;
use crate::triangular::rows_before;
use crate::triangular::triangle_offset;
use crate::triangular::triangle_size;
use crate::util::find_max_index;
use crate::util::find_max_index_u64;
use crate::util::is_first_max;
use crate::util::is_first_max_u64;

verus! {

/// The sum of a sequence of integers.
pub open spec fn seq_sum(s: Seq<int>) -> int
    decreases s.len(),
{
    if s.len() == 0 {
        0
    } else {
        seq_sum(s.drop_last()) + s.last()
    }
}

proof fn lemma_seq_sum_update(s: Seq<int>, k: int, v: int)
    requires
        0 <= k < s.len(),
    ensures
        seq_sum(s.update(k, v)) == seq_sum(s) - s[k] + v,
    decreases s.len(),
{
    if s.len() > 0 {
        if k == s.len() - 1 {
            assert(s.update(k, v).drop_last() =~= s.drop_last());
        } else {
            lemma_seq_sum_update(s.drop_last(), k, v);
            assert(s.update(k, v).drop_last() =~= s.drop_last().update(k, v));
        }
    }
}

proof fn lemma_seq_sum_nonneg(s: Seq<int>)
    requires
        forall|a: int| 0 <= a < s.len() ==> s[a] >= 0,
    ensures
        seq_sum(s) >= 0,
    decreases s.len(),
{
    if s.len() > 0 {
        assert(forall|a: int| 0 <= a < s.drop_last().len() ==> s.drop_last()[a] >= 0);
        lemma_seq_sum_nonneg(s.drop_last());
    }
}

proof fn lemma_seq_sum_bound(s: Seq<int>, k: int)
    requires
        0 <= k < s.len(),
        forall|a: int| 0 <= a < s.len() ==> s[a] >= 0,
    ensures
        s[k] <= seq_sum(s),
        seq_sum(s) >= 0,
    decreases s.len(),
{
    assert(forall|a: int| 0 <= a < s.drop_last().len() ==> s.drop_last()[a] >= 0);
    if k == s.len() - 1 {
        lemma_seq_sum_nonneg(s.drop_last());
    } else {
        lemma_seq_sum_bound(s.drop_last(), k);
    }
}

/// The class that wins decision pair `(i, j)`: `i` when the decision value
/// came out positive, else `j`.
pub open spec fn pair_winner(n: nat, dp: Seq<bool>, i: nat, j: nat) -> int {
    if dp[triangle_offset(n, i, j) as int] {
        i as int
    } else {
        j as int
    }
}

/// The vote tallies after processing, in order, every class pair that stands
/// lexicographically before `(i, j)`.
pub open spec fn votes_upto(n: nat, dp: Seq<bool>, i: nat, j: nat) -> Seq<int>
    recommends
        i < n,
        i < j <= n,
    decreases i, j,
{
    if i == 0 && j <= 1 {
        Seq::new(n, |k: int| 0int)
    } else if j <= i + 1 {
        if i == 0 {
            Seq::new(n, |k: int| 0int)
        } else {
            votes_upto(n, dp, (i - 1) as nat, n)
        }
    } else {
        let prev = votes_upto(n, dp, i, (j - 1) as nat);
        let w = pair_winner(n, dp, i, (j - 1) as nat);
        prev.update(w, prev[w] + 1)
    }
}

/// The vote tallies of the full one-vs-one pass over `n` classes.
pub open spec fn spec_votes(n: nat, dp: Seq<bool>) -> Seq<int> {
    if n == 0 {
        Seq::new(0, |k: int| 0int)
    } else {
        votes_upto(n, dp, (n - 1) as nat, n)
    }
}

/// Partial tallies stay nonnegative, sized `n`, and sum to the number of
/// pairs processed so far, which is the triangular offset of `(i, j)`.
pub proof fn lemma_votes_upto_sum(n: nat, dp: Seq<bool>, i: nat, j: nat)
    requires
        i < n,
        i < j <= n,
    ensures
        votes_upto(n, dp, i, j).len() == n,
        forall|k: int| 0 <= k < n ==> votes_upto(n, dp, i, j)[k] >= 0,
        seq_sum(votes_upto(n, dp, i, j)) == rows_before(n, i) + (j - i - 1),
    decreases i, j,
{
    if i == 0 && j <= 1 {
        lemma_seq_sum_zero(n);
    } else if j <= i + 1 {
        lemma_votes_upto_sum(n, dp, (i - 1) as nat, n);
    } else {
        lemma_votes_upto_sum(n, dp, i, (j - 1) as nat);
        let prev = votes_upto(n, dp, i, (j - 1) as nat);
        let w = pair_winner(n, dp, i, (j - 1) as nat);
        assert(0 <= w < n);
        lemma_seq_sum_update(prev, w, prev[w] + 1);
    }
}

proof fn lemma_seq_sum_zero(n: nat)
    ensures
        seq_sum(Seq::new(n, |k: int| 0int)) == 0,
    decreases n,
{
    if n > 0 {
        lemma_seq_sum_zero((n - 1) as nat);
        assert(Seq::new(n, |k: int| 0int).drop_last() =~= Seq::new((n - 1) as nat, |k: int| 0int));
    }
}

/// The law of the one-vs-one vote: whatever the decision values came out
/// as, the tallies of a pass over `n` classes always sum to the number of
/// class pairs, `n * (n - 1) / 2` — every pair hands out exactly one vote.
pub proof fn lemma_vote_total(n: nat, dp: Seq<bool>)
    requires
        n >= 1,
    ensures
        seq_sum(spec_votes(n, dp)) == triangle_size(n),
        spec_votes(n, dp).len() == n,
{
    lemma_votes_upto_sum(n, dp, (n - 1) as nat, n);
}

/// Counts the votes of a one-vs-one classification pass.
///
/// `decision_positive` holds, for every class pair `(i, j)` with
/// `i < j < nr_class` at its triangular offset, whether the pair's decision
/// value came out strictly positive. Class `i` takes the vote of such a pair,
/// class `j` any other.
///
/// The tallies always sum to the number of class pairs,
/// `nr_class * (nr_class - 1) / 2`.
pub fn count_votes(nr_class: usize, decision_positive: &Vec<bool>) -> (votes: Vec<u32>)
    requires
        decision_positive@.len() == triangle_size(nr_class as nat),
        triangle_size(nr_class as nat) < u32::MAX,
        nr_class * nr_class <= usize::MAX,
    ensures
        votes@.len() == nr_class,
        votes@.map_values(|v: u32| v as int) == spec_votes(nr_class as nat, decision_positive@),
        seq_sum(votes@.map_values(|v: u32| v as int)) == triangle_size(nr_class as nat),
{
    let n = nr_class;
    let ghost dp = decision_positive@;
    let mut votes: Vec<u32> = crate::util::filled(n, 0u32);
    if n == 0 {
        proof {
            assert(votes@.map_values(|v: u32| v as int) =~= spec_votes(0, dp));
        }
        return votes;
    }
    proof {
        assert(votes@.map_values(|v: u32| v as int) =~= Seq::new(n as nat, |k: int| 0int));
        assert(votes@.map_values(|v: u32| v as int) =~= votes_upto(n as nat, dp, 0, 1));
    }
    let mut i: usize = 0;
    while i < n
        invariant
            n == nr_class,
            dp == decision_positive@,
            dp.len() == triangle_size(n as nat),
            triangle_size(n as nat) < u32::MAX,
            n * n <= usize::MAX,
            i <= n,
            votes@.len() == n,
            votes@.map_values(|v: u32| v as int) == (if i < n {
                votes_upto(n as nat, dp, i as nat, (i + 1) as nat)
            } else {
                spec_votes(n as nat, dp)
            }),
        decreases n - i,
    {
        let mut j: usize = i + 1;
        while j < n
            invariant
                n == nr_class,
                dp == decision_positive@,
                dp.len() == triangle_size(n as nat),
                triangle_size(n as nat) < u32::MAX,
                n * n <= usize::MAX,
                i < n,
                i < j <= n,
                votes@.len() == n,
                votes@.map_values(|v: u32| v as int) == votes_upto(n as nat, dp, i as nat, j as nat),
            decreases n - j,
        {
            proof {
                lemma_triangle_offset_in_range(n as nat, i as nat, j as nat);
                lemma_votes_upto_sum(n as nat, dp, i as nat, j as nat);
                lemma_rows_before_monotonic(n as nat, i as nat + 1, n as nat);
            }
            let tri = crate::triangular::pair_offset(n, i, j);
            let index_to_vote = if decision_positive[tri] {
                i
            } else {
                j
            };
            proof {
                assert(index_to_vote == pair_winner(n as nat, dp, i as nat, j as nat));
                lemma_seq_sum_bound(
                    votes@.map_values(|v: u32| v as int),
                    index_to_vote as int,
                );
            }
            let bumped = votes[index_to_vote] + 1;
            votes.set(index_to_vote, bumped);
            proof {
                assert(votes@.map_values(|v: u32| v as int) =~= votes_upto(
                    n as nat,
                    dp,
                    i as nat,
                    (j + 1) as nat,
                ));
            }
            j += 1;
        }
        i += 1;
        proof {
            if i < n {
                assert(votes@.map_values(|v: u32| v as int) == votes_upto(
                    n as nat,
                    dp,
                    i as nat,
                    (i + 1) as nat,
                ));
            }
        }
    }
    proof {
        lemma_votes_upto_sum(n as nat, dp, (n - 1) as nat, n as nat);
    }
    votes
}

/// The winning label of a vote: the label of the class with the most votes,
/// the lowest class index breaking ties.
pub fn predict_label_from_votes(labels: &Vec<i32>, votes: &Vec<u32>) -> (r: i32)
    requires
        labels@.len() == votes@.len(),
        votes@.len() > 0,
    ensures
        exists|k: int| is_first_max(votes@, k) && labels@[k] == r,
{
    let highest_vote = find_max_index(votes);
    labels[highest_vote]
}

/// The label of the class with the largest probability estimate, the lowest
/// class index breaking ties.
///
/// The keys are expected to encode the estimates so that the ordering of the
/// keys is the ordering of the estimates; nonnegative IEEE doubles compare
/// like their raw bit patterns do, so their bits serve directly.
pub fn label_for_max_probability(labels: &Vec<i32>, probability_keys: &Vec<u64>) -> (r: i32)
    requires
        labels@.len() == probability_keys@.len(),
        probability_keys@.len() > 0,
    ensures
        exists|k: int| is_first_max_u64(probability_keys@, k) && labels@[k] == r,
{
    let max_index = find_max_index_u64(probability_keys);
    labels[max_index]
}

/// The iteration bound of the multiclass probability coupling.
pub fn max_coupling_iterations(nr_class: usize) -> (r: usize)
    ensures
        r == if nr_class >= 100 { nr_class as int } else { 100int },
{
    if nr_class >= 100 {
        nr_class
    } else {
        100
    }
}

/// A sequence of indices that strictly increases.
pub open spec fn strictly_increasing(s: Seq<u32>) -> bool {
    forall|a: int, b: int| 0 <= a < b < s.len() ==> s[a] < s[b]
}

/// The positions at which two ordered index sequences agree.
///
/// This is the merge-walk of the sparse kernels: both sides advance by the
/// smaller index, and only attribute indices present on both sides pair up.
/// The result lists exactly every `(i, j)` with `a[i] == b[j]`, in increasing
/// order on both components.
pub fn matched_pairs(a: &Vec<u32>, b: &Vec<u32>) -> (r: Vec<(usize, usize)>)
    requires
        strictly_increasing(a@),
        strictly_increasing(b@),
    ensures
        forall|m: int|
            0 <= m < r@.len() ==> (#[trigger] r@[m]).0 < a@.len() && r@[m].1 < b@.len()
                && a@[r@[m].0 as int] == b@[r@[m].1 as int],
        forall|i: int, j: int|
            0 <= i < a@.len() && 0 <= j < b@.len() && a@[i] == b@[j] ==> exists|m: int|
                0 <= m < r@.len() && (#[trigger] r@[m]) == (i as usize, j as usize),
        forall|m1: int, m2: int|
            0 <= m1 < m2 < r@.len() ==> (#[trigger] r@[m1]).0 < (#[trigger] r@[m2]).0
                && r@[m1].1 < r@[m2].1,
{
    let mut out: Vec<(usize, usize)> = Vec::new();
    let mut ia: usize = 0;
    let mut ib: usize = 0;
    let na = a.len();
    let nb = b.len();
    while ia < na && ib < nb
        invariant
            strictly_increasing(a@),
            strictly_increasing(b@),
            na == a@.len(),
            nb == b@.len(),
            ia <= na,
            ib <= nb,
            forall|m: int|
                0 <= m < out@.len() ==> (#[trigger] out@[m]).0 < ia && out@[m].1 < ib
                    && a@[out@[m].0 as int] == b@[out@[m].1 as int],
            forall|i: int, j: int|
                0 <= i < a@.len() && 0 <= j < b@.len() && a@[i] == b@[j] && (i < ia || j < ib)
                    ==> exists|m: int|
                    0 <= m < out@.len() && (#[trigger] out@[m]) == (i as usize, j as usize),
            forall|m1: int, m2: int|
                0 <= m1 < m2 < out@.len() ==> (#[trigger] out@[m1]).0 < (#[trigger] out@[m2]).0
                    && out@[m1].1 < out@[m2].1,
        decreases na - ia + nb - ib,
    {
        let va = a[ia];
        let vb = b[ib];
        let ghost prev = out@;
        if va == vb {
            out.push((ia, ib));
            proof {
                assert forall|i: int, j: int|
                    0 <= i < a@.len() && 0 <= j < b@.len() && a@[i] == b@[j] && (i < ia + 1 || j
                        < ib + 1) implies exists|m: int|
                    0 <= m < out@.len() && (#[trigger] out@[m]) == (
                    i as usize,
                    j as usize,
                ) by {
                    if i < ia || j < ib {
                        let m = choose|m: int|
                            0 <= m < prev.len() && (#[trigger] prev[m]) == (i as usize, j as usize);
                        assert(out@[m] == (i as usize, j as usize));
                    } else if i == ia && j == ib {
                        assert(out@[out@.len() - 1] == (i as usize, j as usize));
                    } else if i == ia {
                        assert(b@[ib as int] < b@[j]);
                    } else {
                        assert(a@[ia as int] < a@[i]);
                    }
                }
            }
            ia += 1;
            ib += 1;
        } else if va < vb {
            proof {
                assert forall|i: int, j: int|
                    0 <= i < a@.len() && 0 <= j < b@.len() && a@[i] == b@[j] && (i < ia + 1 || j
                        < ib) implies exists|m: int|
                    0 <= m < out@.len() && (#[trigger] out@[m]) == (
                    i as usize,
                    j as usize,
                ) by {
                    if i < ia || j < ib {
                    } else {
                        if j > ib {
                            assert(b@[ib as int] < b@[j]);
                        }
                    }
                }
            }
            ia += 1;
        } else {
            proof {
                assert forall|i: int, j: int|
                    0 <= i < a@.len() && 0 <= j < b@.len() && a@[i] == b@[j] && (i < ia || j < ib
                        + 1) implies exists|m: int|
                    0 <= m < out@.len() && (#[trigger] out@[m]) == (
                    i as usize,
                    j as usize,
                ) by {
                    if i < ia || j < ib {
                    } else {
                        if i > ia {
                            assert(a@[ia as int] < a@[i]);
                        }
                    }
                }
            }
            ib += 1;
        }
    }
    out
}

} // verus!
