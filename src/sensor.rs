//! Selection rules of the sensor model: which track segment a vehicle is in,
//! the order in which segments are scanned, and which boundary hit a ray keeps.
//!
//! Distances are passed as keys: any encoding that orders distances as the
//! distances themselves are ordered (for non-negative IEEE-754 values, their
//! bit patterns).

use vstd::prelude::*;

verus! {

/// `r` is the first position of a smallest key.
pub open spec fn first_minimum(keys: Seq<u32>, r: int) -> bool {
    &&& 0 <= r < keys.len()
    &&& forall|j: int| 0 <= j < keys.len() ==> keys[r] <= #[trigger] keys[j]
    &&& forall|j: int| 0 <= j < r ==> keys[r] < #[trigger] keys[j]
}

/// The segment a vehicle is in: the one whose midpoint is closest to it,
/// `distances[i]` being the key of its distance to the midpoint of segment `i`.
/// On a tie the lowest index wins.
pub fn closest_sector(distances: &Vec<u32>) -> (sector: usize)
    requires
        distances@.len() > 0,
    ensures
        first_minimum(distances@, sector as int),
{
    let mut sector: usize = 0;
    let mut i: usize = 1;
    while i < distances.len()
        invariant
            1 <= i <= distances@.len(),
            sector < i,
            forall|j: int| 0 <= j < i ==> distances@[sector as int] <= #[trigger] distances@[j],
            forall|j: int| 0 <= j < sector ==> distances@[sector as int] < #[trigger] distances@[j],
        decreases distances@.len() - i,
    {
        if distances[i] < distances[sector] {
            sector = i;
        }
        i = i + 1;
    }
    sector
}

/// `r` is the smaller of `cap` and every hit.
pub open spec fn closest_of(hits: Seq<Option<u32>>, cap: u32, r: u32) -> bool {
    &&& r <= cap
    &&& forall|j: int| 0 <= j < hits.len() ==> (#[trigger] hits[j] matches Some(d) ==> r <= d)
    &&& (r == cap || exists|j: int| 0 <= j < hits.len() && hits[j] == Some(r))
}

/// The distance key a ray reports: the closest of its hits on the boundary
/// edges, both edges of every segment counted, or `cap` when nothing closer
/// was hit. `None` stands for an edge the ray misses.
pub fn closest_hit(hits: &Vec<Option<u32>>, cap: u32) -> (r: u32)
    ensures
        closest_of(hits@, cap, r),
{
    let mut best: u32 = cap;
    let mut i: usize = 0;
    while i < hits.len()
        invariant
            i <= hits@.len(),
            closest_of(hits@.subrange(0, i as int), cap, best),
        decreases hits@.len() - i,
    {
        let ghost seen = hits@.subrange(0, i as int);
        let ghost next = hits@.subrange(0, i as int + 1);
        assert(forall|j: int| 0 <= j < i ==> next[j] == seen[j]);
        match hits[i] {
            Some(d) => {
                if d < best {
                    best = d;
                }
            },
            None => {},
        }
        proof {
            assert(next[i as int] == hits@[i as int]);
            if best != cap {
                if best == hits@[i as int]->0 && hits@[i as int] is Some {
                    assert(next[i as int] == Some(best));
                } else {
                    let j = choose|j: int| 0 <= j < seen.len() && seen[j] == Some(best);
                    assert(next[j] == Some(best));
                }
            }
        }
        i = i + 1;
    }
    assert(hits@.subrange(0, hits@.len() as int) =~= hits@);
    best
}

/// Segment `start + k` of a closed track of `n` points, counted round the loop.
pub open spec fn ring_index(start: int, k: int, n: int) -> int {
    (start + k) % n
}

/// The segments in the order a ray scans them: starting from `start`, round
/// the whole loop once.
pub fn scan_order(start: usize, n: usize) -> (order: Vec<usize>)
    requires
        start < n,
    ensures
        order@.len() == n,
        forall|k: int| 0 <= k < n ==> #[trigger] order@[k] as int == ring_index(start as int, k, n as int),
{
    let mut order: Vec<usize> = Vec::new();
    let mut k: usize = 0;
    while k < n
        invariant
            start < n,
            k <= n,
            order@.len() == k,
            forall|j: int| 0 <= j < k ==> #[trigger] order@[j] as int == ring_index(start as int, j, n as int),
        decreases n - k,
    {
        let index: usize = if k < n - start { start + k } else { k - (n - start) };
        proof {
            if k < n - start {
                vstd::arithmetic::div_mod::lemma_small_mod((start + k) as nat, n as nat);
            } else {
                vstd::arithmetic::div_mod::lemma_mod_sub_multiples_vanish((start + k) as int, n as int);
                vstd::arithmetic::div_mod::lemma_small_mod((start + k - n) as nat, n as nat);
            }
        }
        order.push(index);
        k = k + 1;
    }
    order
}

/// The points around segment `i` that its boundary edges are built from: the
/// previous point, the segment's two ends and the point after them.
pub fn segment_points(i: usize, n: usize) -> (r: (usize, usize, usize, usize))
    requires
        i < n,
    ensures
        r.0 as int == ring_index(i as int, n - 1, n as int),
        r.1 == i,
        r.2 as int == ring_index(i as int, 1, n as int),
        r.3 as int == ring_index(i as int, 2, n as int),
{
    let prev: usize = if i == 0 { n - 1 } else { i - 1 };
    let next: usize = if n - i > 1 { i + 1 } else { 0 };
    let after: usize = if n - i > 2 { i + 2 } else if n >= 2 { 2 - (n - i) } else { 0 };
    proof {
        let (ii, nn) = (i as int, n as int);
        if i == 0 {
            vstd::arithmetic::div_mod::lemma_small_mod((nn - 1) as nat, nn as nat);
        } else {
            vstd::arithmetic::div_mod::lemma_mod_sub_multiples_vanish(ii + nn - 1, nn);
            vstd::arithmetic::div_mod::lemma_small_mod((ii - 1) as nat, nn as nat);
        }
        if ii + 1 < nn {
            vstd::arithmetic::div_mod::lemma_small_mod((ii + 1) as nat, nn as nat);
        } else {
            vstd::arithmetic::div_mod::lemma_mod_self_0(nn);
        }
        if ii + 2 < nn {
            vstd::arithmetic::div_mod::lemma_small_mod((ii + 2) as nat, nn as nat);
        } else if nn >= 2 {
            vstd::arithmetic::div_mod::lemma_mod_sub_multiples_vanish(ii + 2, nn);
            vstd::arithmetic::div_mod::lemma_small_mod((ii + 2 - nn) as nat, nn as nat);
        } else {
            // n == 1: every index is 0.
            vstd::arithmetic::div_mod::lemma_mod_self_0(1);
            assert((ii + 2) % 1 == 0) by (nonlinear_arith);
        }
    }
    (prev, i, next, after)
}

} // verus!
