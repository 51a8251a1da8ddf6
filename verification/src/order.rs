//! The order in which scored items are listed: by score, highest first, and
//! among equal scores in the order in which the items stand in their table.
//!
//! The order is a sequence of indices into the sequence of scores.

use vstd::prelude::*;

verus! {

/// The item at index `i` is listed before the item at index `j`.
pub open spec fn outranks(scores: Seq<i128>, i: int, j: int) -> bool {
    scores[i] > scores[j] || (scores[i] == scores[j] && i < j)
}

/// `order` with index `x` put behind every index whose score is at least
/// that of `x`.
pub open spec fn insert_ranked(scores: Seq<i128>, order: Seq<int>, x: int) -> Seq<int>
    decreases order.len(),
{
    if order.len() == 0 {
        seq![x]
    } else if scores[order.last()] >= scores[x] {
        order.push(x)
    } else {
        insert_ranked(scores, order.drop_last(), x).push(order.last())
    }
}

/// The listing order of the first `n` indices.
pub open spec fn ranking_order(scores: Seq<i128>, n: int) -> Seq<int>
    decreases n,
{
    if n <= 0 {
        Seq::empty()
    } else {
        insert_ranked(scores, ranking_order(scores, n - 1), n - 1)
    }
}

/// The listing order of all of `scores`.
pub open spec fn descending_order(scores: Seq<i128>) -> Seq<int> {
    ranking_order(scores, scores.len() as int)
}

/// `order` lists each of the indices `0..n` once, every index before those
/// it outranks.
pub open spec fn is_listing(scores: Seq<i128>, order: Seq<int>, n: int) -> bool {
    &&& order.len() == n
    &&& forall|k: int| 0 <= k < n ==> 0 <= #[trigger] order[k] < n
    &&& forall|a: int, b: int| 0 <= a < b < n ==> outranks(scores, #[trigger] order[a], #[trigger] order[b])
    &&& forall|i: int| 0 <= i < n ==> #[trigger] order.contains(i)
}

/// Inserting `x` puts it at index `p`, where `p` is the start of the run of
/// lower scores that ends `order`.
pub proof fn lemma_insert_ranked_at(scores: Seq<i128>, order: Seq<int>, x: int, p: int)
    requires
        0 <= p <= order.len(),
        forall|j: int| p <= j < order.len() ==> scores[#[trigger] order[j]] < scores[x],
        p > 0 ==> scores[order[p - 1]] >= scores[x],
    ensures
        insert_ranked(scores, order, x) == order.insert(p, x),
    decreases order.len(),
{
    if order.len() == 0 {
        assert(seq![x] =~= order.insert(p, x));
    } else if scores[order.last()] >= scores[x] {
        if p < order.len() {
            assert(scores[order[order.len() - 1]] < scores[x]);
        }
        assert(order.push(x) =~= order.insert(p, x));
    } else {
        let front = order.drop_last();
        assert forall|j: int| p <= j < front.len() implies scores[#[trigger] front[j]]
            < scores[x] by {
            assert(front[j] == order[j]);
        }
        if p > 0 {
            assert(front[p - 1] == order[p - 1]);
        }
        lemma_insert_ranked_at(scores, front, x, p);
        assert(front.insert(p, x).push(order.last()) =~= order.insert(p, x));
    }
}

/// The index at which `insert_ranked` puts `x`.
pub open spec fn insertion_point(scores: Seq<i128>, order: Seq<int>, x: int) -> int
    decreases order.len(),
{
    if order.len() == 0 {
        0
    } else if scores[order.last()] >= scores[x] {
        order.len() as int
    } else {
        insertion_point(scores, order.drop_last(), x)
    }
}

proof fn lemma_insertion_point(scores: Seq<i128>, order: Seq<int>, x: int)
    ensures
        0 <= insertion_point(scores, order, x) <= order.len(),
        forall|j: int|
            insertion_point(scores, order, x) <= j < order.len() ==> scores[#[trigger] order[j]]
                < scores[x],
        insertion_point(scores, order, x) > 0 ==> scores[order[insertion_point(scores, order, x)
            - 1]] >= scores[x],
        insert_ranked(scores, order, x) == order.insert(insertion_point(scores, order, x), x),
    decreases order.len(),
{
    let p = insertion_point(scores, order, x);
    if order.len() == 0 {
    } else if scores[order.last()] >= scores[x] {
    } else {
        let front = order.drop_last();
        lemma_insertion_point(scores, front, x);
        assert forall|j: int| p <= j < order.len() implies scores[#[trigger] order[j]]
            < scores[x] by {
            if j < front.len() {
                assert(front[j] == order[j]);
            }
        }
        if p > 0 {
            assert(front[p - 1] == order[p - 1]);
        }
    }
    lemma_insert_ranked_at(scores, order, x, p);
}

/// The listing order is a listing: it holds every index once, scores never
/// rise along it, and equal scores keep the order of their indices.
pub proof fn lemma_ranking_order_is_listing(scores: Seq<i128>, n: int)
    requires
        0 <= n <= scores.len(),
    ensures
        is_listing(scores, ranking_order(scores, n), n),
    decreases n,
{
    if n > 0 {
        lemma_ranking_order_is_listing(scores, n - 1);
        let before = ranking_order(scores, n - 1);
        let x = n - 1;
        let p = insertion_point(scores, before, x);
        lemma_insertion_point(scores, before, x);
        let after = ranking_order(scores, n);
        assert(after == before.insert(p, x));
        assert forall|k: int| 0 <= k < n implies 0 <= #[trigger] after[k] < n by {
            if k < p {
                assert(after[k] == before[k]);
            } else if k > p {
                assert(after[k] == before[k - 1]);
            }
        }
        assert forall|a: int, b: int| 0 <= a < b < n implies outranks(
            scores,
            #[trigger] after[a],
            #[trigger] after[b],
        ) by {
            if b < p {
                assert(after[a] == before[a] && after[b] == before[b]);
            } else if b == p {
                assert(after[a] == before[a]);
                if a < p - 1 {
                    assert(outranks(scores, before[a], before[p - 1]));
                }
                assert(scores[before[a]] >= scores[x]);
                assert(before[a] < x);
            } else if a == p {
                assert(after[b] == before[b - 1]);
            } else if a < p {
                assert(after[a] == before[a] && after[b] == before[b - 1]);
            } else {
                assert(after[a] == before[a - 1] && after[b] == before[b - 1]);
            }
        }
        assert forall|i: int| 0 <= i < n implies #[trigger] after.contains(i) by {
            if i == x {
                assert(after[p] == i);
            } else {
                assert(before.contains(i));
                let k0 = before.index_of(i);
                if k0 < p {
                    assert(after[k0] == i);
                } else {
                    assert(after[k0 + 1] == i);
                }
            }
        }
    }
}

proof fn lemma_listings_agree(scores: Seq<i128>, a: Seq<int>, b: Seq<int>, n: int, k: int)
    requires
        is_listing(scores, a, n),
        is_listing(scores, b, n),
        0 <= k <= n,
    ensures
        forall|j: int| 0 <= j < k ==> a[j] == b[j],
    decreases k,
{
    if k > 0 {
        lemma_listings_agree(scores, a, b, n, k - 1);
        let x = a[k - 1];
        let y = b[k - 1];
        if x != y {
            assert(b.contains(x));
            let m = b.index_of(x);
            if m < k - 1 {
                assert(a[m] == b[m]);
                assert(outranks(scores, a[m], a[k - 1]));
            } else {
                assert(outranks(scores, b[k - 1], b[m]));
            }
            assert(a.contains(y));
            let l = a.index_of(y);
            if l < k - 1 {
                assert(a[l] == b[l]);
                assert(outranks(scores, b[l], b[k - 1]));
            } else {
                assert(outranks(scores, a[k - 1], a[l]));
            }
        }
    }
}

/// There is one listing and no other: the listing order is the only
/// arrangement of the indices in which each stands before those it
/// outranks.
pub proof fn lemma_listing_is_unique(scores: Seq<i128>, order: Seq<int>)
    requires
        is_listing(scores, order, scores.len() as int),
    ensures
        order == descending_order(scores),
{
    let n = scores.len() as int;
    lemma_ranking_order_is_listing(scores, n);
    lemma_listings_agree(scores, order, descending_order(scores), n, n);
    assert(order =~= descending_order(scores));
}

/// Computes the listing order of `scores`.
pub fn rank_indices(scores: &Vec<i128>) -> (order: Vec<usize>)
    ensures
        order@.len() == scores@.len(),
        order@.map_values(|i: usize| i as int) == descending_order(scores@),
        forall|k: int| 0 <= k < order@.len() ==> #[trigger] order@[k] < scores@.len(),
{
    let mut order: Vec<usize> = Vec::new();
    let mut x: usize = 0;
    assert(order@.map_values(|i: usize| i as int) =~= ranking_order(scores@, 0));
    while x < scores.len()
        invariant
            x <= scores.len(),
            order@.len() == x,
            order@.map_values(|i: usize| i as int) == ranking_order(scores@, x as int),
            forall|k: int| 0 <= k < order@.len() ==> #[trigger] order@[k] < x,
        decreases scores.len() - x,
    {
        let ghost before = order@.map_values(|i: usize| i as int);
        let mut p: usize = order.len();
        while p > 0 && scores[order[p - 1]] < scores[x]
            invariant
                p <= order.len(),
                x < scores.len(),
                order@.len() == x,
                before == order@.map_values(|i: usize| i as int),
                forall|k: int| 0 <= k < order@.len() ==> #[trigger] order@[k] < x,
                forall|j: int| p <= j < before.len() ==> scores@[#[trigger] before[j]] < scores@[x as int],
            decreases p,
        {
            assert(before[p - 1] == order@[p - 1] as int);
            p -= 1;
        }
        proof {
            if p > 0 {
                assert(before[p - 1] == order@[p - 1] as int);
            }
            lemma_insert_ranked_at(scores@, before, x as int, p as int);
        }
        order.insert(p, x);
        assert(order@.map_values(|i: usize| i as int) =~= before.insert(p as int, x as int));
        x += 1;
    }
    order
}

} // verus!
