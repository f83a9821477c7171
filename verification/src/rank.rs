//! The similarity ranker: orders candidate functions by a host-supplied
//! similarity key, descending, with ties kept in input order, and truncates
//! to the requested number of answers.

use vstd::prelude::*;

verus! {

/// Candidate `i` comes before candidate `j` in the ranking: a strictly
/// larger similarity key, or an equal key and an earlier input position.
/// This is a strict total order on distinct candidate positions.
pub open spec fn spec_precedes(scores: Seq<i64>, i: int, j: int) -> bool {
    scores[i] > scores[j] || (scores[i] == scores[j] && i < j)
}

/// `r` is a strictly `spec_precedes`-ordered sequence of valid candidate
/// positions. Strict ordering makes the positions pairwise distinct, and
/// puts equal-key candidates in input order.
pub open spec fn spec_ranked(scores: Seq<i64>, r: Seq<usize>) -> bool {
    &&& forall|k: int| 0 <= k < r.len() ==> (r[k] as int) < scores.len()
    &&& forall|k1: int, k2: int|
        0 <= k1 < k2 < r.len() ==> spec_precedes(scores, r[k1] as int, r[k2] as int)
}

/// Top-N selection over the similarity keys, one key per candidate in input
/// order. The result lists candidate positions:
/// - as many as requested, or all of them when fewer exist;
/// - ordered by descending key, equal keys in input order;
/// - and nothing better was left out: every candidate not listed ranks at
///   or below every listed one.
pub fn rank_top(scores: &Vec<i64>, top_n: usize) -> (r: Vec<usize>)
    ensures
        r@.len() == if top_n <= scores@.len() { top_n as int } else { scores@.len() as int },
        spec_ranked(scores@, r@),
        forall|k: int, j: usize|
            0 <= k < r@.len() && (j as int) < scores@.len() && !r@.contains(j)
                ==> spec_precedes(scores@, r@[k] as int, j as int),
        forall|j: usize|
            top_n >= scores@.len() && (j as int) < scores@.len() ==> #[trigger] r@.contains(j),
{
    let n = scores.len();
    let mut order: Vec<usize> = Vec::new();
    let mut idx: usize = 0;
    while idx < n
        invariant
            n == scores@.len(),
            0 <= idx <= n,
            order@.len() == idx,
            forall|k: int| 0 <= k < order@.len() ==> (order@[k] as int) < idx,
            forall|j: usize| (j as int) < idx ==> #[trigger] order@.contains(j),
            spec_ranked(scores@, order@),
        decreases n - idx,
    {
        let mut p: usize = 0;
        while p < order.len() && scores[order[p]] >= scores[idx]
            invariant
                n == scores@.len(),
                idx < n,
                order@.len() == idx,
                forall|k: int| 0 <= k < order@.len() ==> (order@[k] as int) < idx,
                spec_ranked(scores@, order@),
                0 <= p <= order@.len(),
                forall|k: int| 0 <= k < p ==> scores@[order@[k] as int] >= scores@[idx as int],
            decreases order@.len() - p,
        {
            p = p + 1;
        }
        let ghost old_order = order@;
        order.insert(p, idx);
        proof {
            old_order.insert_ensures(p as int, idx as usize);
            let new_order = order@;
            assert forall|k1: int, k2: int|
                0 <= k1 < k2 < new_order.len() implies spec_precedes(
                scores@,
                new_order[k1] as int,
                new_order[k2] as int,
            ) by {
                if k1 < p && k2 < p {
                    assert(new_order[k1] == old_order[k1]);
                    assert(new_order[k2] == old_order[k2]);
                } else if k1 < p && k2 == p {
                    assert(new_order[k1] == old_order[k1]);
                    assert(scores@[old_order[k1] as int] >= scores@[idx as int]);
                    assert((old_order[k1] as int) < idx);
                } else if k1 < p && k2 > p {
                    assert(new_order[k1] == old_order[k1]);
                    assert(new_order[k2] == old_order[k2 - 1]);
                } else if k1 == p {
                    // the inserted position: the search stopped before
                    // old_order[p], whose key is strictly smaller, and
                    // ordering carries that bound to everything after it
                    assert(new_order[k2] == old_order[k2 - 1]);
                    assert(scores@[idx as int] > scores@[old_order[p as int] as int]);
                    if k2 - 1 > p {
                        assert(spec_precedes(scores@, old_order[p as int] as int, old_order[k2 - 1] as int));
                    }
                } else {
                    assert(new_order[k1] == old_order[k1 - 1]);
                    assert(new_order[k2] == old_order[k2 - 1]);
                }
            }
            assert forall|j: usize| (j as int) < idx + 1 implies #[trigger] order@.contains(j) by {
                if j == idx {
                    assert(order@[p as int] == idx as usize);
                } else {
                    assert(old_order.contains(j));
                    let q = choose|q: int| 0 <= q < old_order.len() && old_order[q] == j;
                    if q < p {
                        assert(order@[q] == j);
                    } else {
                        assert(order@[q + 1] == j);
                    }
                }
            }
        }
        idx = idx + 1;
    }
    let m = if top_n <= n { top_n } else { n };
    let mut r: Vec<usize> = Vec::new();
    let mut k: usize = 0;
    while k < m
        invariant
            m <= n == scores@.len(),
            order@.len() == n,
            forall|j: usize| (j as int) < n ==> #[trigger] order@.contains(j),
            spec_ranked(scores@, order@),
            0 <= k <= m,
            r@ == order@.subrange(0, k as int),
        decreases m - k,
    {
        r.push(order[k]);
        proof {
            assert(r@ =~= order@.subrange(0, (k + 1) as int));
        }
        k = k + 1;
    }
    proof {
        assert(r@ =~= order@.subrange(0, m as int));
        assert forall|k1: int, j: usize|
            0 <= k1 < r@.len() && (j as int) < scores@.len() && !r@.contains(j)
                implies spec_precedes(scores@, r@[k1] as int, j as int) by {
            assert(order@.contains(j));
            let q = choose|q: int| 0 <= q < order@.len() && order@[q] == j;
            if q < m {
                assert(r@[q] == j);
                assert(r@.contains(j));
            } else {
                if k1 < q {
                    assert(spec_precedes(scores@, order@[k1] as int, order@[q] as int));
                }
            }
        }
        if top_n >= scores@.len() {
            assert forall|j: usize| (j as int) < scores@.len() implies #[trigger] r@.contains(j) by {
                assert(order@.contains(j));
                let q = choose|q: int| 0 <= q < order@.len() && order@[q] == j;
                assert(r@[q] == j);
            }
        }
    }
    r
}

} // verus!
