//! The importance order of transformed points.
//!
//! A transformed point is a packed record together with its sort key, the
//! bit pattern of `-(volume * alpha)`. Points are ordered by ascending key,
//! then by ascending x, y and z. Every comparison is the IEEE-754 total
//! order on bit patterns, so NaN keys and positions have a fixed place and
//! the order is total on all inputs.

use crate::splat::SplatPoint;
use core::cmp::Ordering;
use rayon::slice::ParallelSliceMut;
use vstd::prelude::*;

verus! {

/// Position of a single-precision bit pattern in the IEEE-754 total order:
/// negative NaN, negative infinity, negative finite values, negative zero,
/// positive zero, positive finite values, positive infinity, positive NaN.
///
/// Patterns with the sign bit clear rank by their own value; patterns with
/// the sign bit set rank below all of those, larger magnitudes lower.
pub open spec fn total_order_rank(bits: u32) -> int {
    if bits < 0x8000_0000 {
        bits as int
    } else {
        0x7fff_ffff - bits
    }
}

/// `a` comes strictly before `b`: lower key, or equal keys and lower x, or
/// equal keys and x and lower y, or equal keys, x and y and lower z.
pub open spec fn precedes(a: (SplatPoint, u32), b: (SplatPoint, u32)) -> bool {
    let ak = total_order_rank(a.1);
    let bk = total_order_rank(b.1);
    let ax = total_order_rank(a.0.pos[0]);
    let bx = total_order_rank(b.0.pos[0]);
    let ay = total_order_rank(a.0.pos[1]);
    let by = total_order_rank(b.0.pos[1]);
    let az = total_order_rank(a.0.pos[2]);
    let bz = total_order_rank(b.0.pos[2]);
    ak < bk || (ak == bk && (ax < bx || (ax == bx && (ay < by || (ay == by && az < bz)))))
}

/// Neither point comes before the other: key and position agree bit for bit.
pub open spec fn ties(a: (SplatPoint, u32), b: (SplatPoint, u32)) -> bool {
    &&& a.1 == b.1
    &&& a.0.pos[0] == b.0.pos[0]
    &&& a.0.pos[1] == b.0.pos[1]
    &&& a.0.pos[2] == b.0.pos[2]
}

/// `perm` lists each index below `n` exactly once.
pub open spec fn is_permutation(perm: Seq<int>, n: nat) -> bool {
    &&& perm.len() == n
    &&& forall|i: int| 0 <= i < n ==> 0 <= #[trigger] perm[i] < n
    &&& forall|i: int, j: int| 0 <= i < j < n ==> perm[i] != perm[j]
    &&& forall|v: int| 0 <= v < n ==> #[trigger] perm.contains(v)
}

/// `perm` is the stable importance order of `items`: read in the order that
/// `perm` gives, each point comes before the next, or ties with it and stood
/// before it in `items`.
pub open spec fn is_stable_order(items: Seq<(SplatPoint, u32)>, perm: Seq<int>) -> bool {
    &&& is_permutation(perm, items.len())
    &&& forall|i: int, j: int|
        0 <= i < j < items.len() ==> {
            ||| precedes(items[#[trigger] perm[i]], items[#[trigger] perm[j]])
            ||| (ties(items[perm[i]], items[perm[j]]) && perm[i] < perm[j])
        }
}

/// `items` read in the order that `perm` gives.
pub open spec fn rearranged(items: Seq<(SplatPoint, u32)>, perm: Seq<int>) -> Seq<
    (SplatPoint, u32),
> {
    Seq::new(perm.len(), |i: int| items[perm[i]])
}

/// The records of `items`, keys dropped.
pub open spec fn records(items: Seq<(SplatPoint, u32)>) -> Seq<SplatPoint> {
    Seq::new(items.len(), |i: int| items[i].0)
}

/// Rank of a bit pattern in the total order.
fn rank_of(bits: u32) -> (r: i64)
    ensures
        r == total_order_rank(bits),
{
    if bits < 0x8000_0000 {
        bits as i64
    } else {
        0x7fff_ffff - (bits as i64)
    }
}

/// Compares two bit patterns in the IEEE-754 total order.
pub fn compare_bits(a: u32, b: u32) -> (r: Ordering)
    ensures
        (r == Ordering::Less) == (total_order_rank(a) < total_order_rank(b)),
        (r == Ordering::Equal) == (a == b),
        (r == Ordering::Greater) == (total_order_rank(a) > total_order_rank(b)),
{
    let ra = rank_of(a);
    let rb = rank_of(b);
    if ra < rb {
        Ordering::Less
    } else if ra > rb {
        Ordering::Greater
    } else {
        Ordering::Equal
    }
}

/// Compares two transformed points: by key, then by x, y and z.
pub fn compare_keyed(a: &(SplatPoint, u32), b: &(SplatPoint, u32)) -> (r: Ordering)
    ensures
        (r == Ordering::Less) == precedes(*a, *b),
        (r == Ordering::Equal) == ties(*a, *b),
        (r == Ordering::Greater) == precedes(*b, *a),
{
    match compare_bits(a.1, b.1) {
        Ordering::Equal => match compare_bits(a.0.pos[0], b.0.pos[0]) {
            Ordering::Equal => match compare_bits(a.0.pos[1], b.0.pos[1]) {
                Ordering::Equal => compare_bits(a.0.pos[2], b.0.pos[2]),
                by_y => by_y,
            },
            by_x => by_x,
        },
        by_key => by_key,
    }
}

/// Sorts `data` into its stable importance order with rayon's
/// `ParallelSliceMut::par_sort_by`, handing it `compare_keyed` as the
/// comparator.
///
/// Trusted: rayon documents the sort as stable and as ordering the slice by
/// the comparator whenever that is a total order, which `compare_keyed` is
/// (see `lemma_order_is_total`). The contract says exactly that: the result
/// is the input rearranged so that each element comes before the next or
/// ties with it, and tied elements keep their relative input order.
#[verifier::external_body]
fn sort_by_importance(data: &mut Vec<(SplatPoint, u32)>)
    ensures
        exists|perm: Seq<int>|
            is_stable_order(old(data)@, perm) && final(data)@ == rearranged(old(data)@, perm),
{
    data.par_sort_by(|a, b| compare_keyed(a, b));
}

/// Arranges transformed points for output and drops their keys.
///
/// Without sorting the records come out in input order. With sorting they
/// come out in the stable importance order of the input: ascending key, ties
/// broken by ascending x, then y, then z, and points that agree in all four
/// left in input order.
pub fn ply_to_splat(keyed: Vec<(SplatPoint, u32)>, sort: bool) -> (out: Vec<SplatPoint>)
    ensures
        out@.len() == keyed@.len(),
        !sort ==> out@ == records(keyed@),
        sort ==> exists|perm: Seq<int>|
            is_stable_order(keyed@, perm) && out@ == records(rearranged(keyed@, perm)),
{
    let mut data = keyed;
    if sort {
        sort_by_importance(&mut data);
    }
    let mut out: Vec<SplatPoint> = Vec::new();
    let mut i: usize = 0;
    while i < data.len()
        invariant
            i <= data.len(),
            out@ == records(data@).take(i as int),
        decreases data.len() - i,
    {
        out.push(data[i].0);
        assert(out@ =~= records(data@).take(i + 1));
        i += 1;
    }
    assert(records(data@).take(i as int) =~= records(data@));
    out
}

/// The importance order is a total order on all transformed points, NaN keys
/// and NaN positions included: of "a before b", "a ties with b" and "b before
/// a" exactly one holds, and "before" is transitive and respects ties.
pub proof fn lemma_order_is_total(a: (SplatPoint, u32), b: (SplatPoint, u32), c: (SplatPoint, u32))
    ensures
        precedes(a, b) || ties(a, b) || precedes(b, a),
        !(precedes(a, b) && ties(a, b)),
        !(precedes(a, b) && precedes(b, a)),
        !(ties(a, b) && precedes(b, a)),
        ties(a, a),
        ties(a, b) ==> ties(b, a),
        ties(a, b) && ties(b, c) ==> ties(a, c),
        precedes(a, b) && precedes(b, c) ==> precedes(a, c),
        ties(a, b) && precedes(b, c) ==> precedes(a, c),
        precedes(a, b) && ties(b, c) ==> precedes(a, c),
{
}

/// Two stable importance orders of the same points agree on their first `k`
/// places.
proof fn lemma_orders_agree_upto(
    items: Seq<(SplatPoint, u32)>,
    p: Seq<int>,
    q: Seq<int>,
    k: int,
)
    requires
        is_stable_order(items, p),
        is_stable_order(items, q),
        0 <= k <= items.len(),
    ensures
        forall|i: int| 0 <= i < k ==> p[i] == q[i],
    decreases k,
{
    if k > 0 {
        let m = k - 1;
        lemma_orders_agree_upto(items, p, q, m);
        assert(q.contains(p[m]));
        let j = choose|j: int| 0 <= j < q.len() && q[j] == p[m];
        assert(p.contains(q[m]));
        let i = choose|i: int| 0 <= i < p.len() && p[i] == q[m];
        if j < m {
            assert(p[j] == q[j]);
            assert(false);
        }
        if i < m {
            assert(q[i] == p[i]);
            assert(false);
        }
        if j > m {
            assert(i > m);
            lemma_order_is_total(items[p[m]], items[q[m]], items[p[m]]);
            assert(precedes(items[q[m]], items[q[j]]) || (ties(items[q[m]], items[q[j]]) && q[m]
                < q[j]));
            assert(precedes(items[p[m]], items[p[i]]) || (ties(items[p[m]], items[p[i]]) && p[m]
                < p[i]));
            assert(false);
        }
    }
}

/// The sorted output is determined by the input alone: a sequence of points
/// has exactly one stable importance order, so any two sorts that meet the
/// contract of `ply_to_splat` emit the same records in the same places.
pub proof fn lemma_stable_order_unique(items: Seq<(SplatPoint, u32)>, p: Seq<int>, q: Seq<int>)
    requires
        is_stable_order(items, p),
        is_stable_order(items, q),
    ensures
        p == q,
{
    lemma_orders_agree_upto(items, p, q, items.len() as int);
    assert(p =~= q);
}

/// In a stable importance order keys never descend, and among equal keys
/// x never descends, then y, then z.
pub proof fn lemma_sorted_by_key_then_position(
    items: Seq<(SplatPoint, u32)>,
    perm: Seq<int>,
    i: int,
    j: int,
)
    requires
        is_stable_order(items, perm),
        0 <= i < j < items.len(),
    ensures
        ({
            let a = items[perm[i]];
            let b = items[perm[j]];
            &&& total_order_rank(a.1) <= total_order_rank(b.1)
            &&& a.1 == b.1 ==> total_order_rank(a.0.pos[0]) <= total_order_rank(b.0.pos[0])
            &&& a.1 == b.1 && a.0.pos[0] == b.0.pos[0] ==> total_order_rank(a.0.pos[1])
                <= total_order_rank(b.0.pos[1])
            &&& a.1 == b.1 && a.0.pos[0] == b.0.pos[0] && a.0.pos[1] == b.0.pos[1]
                ==> total_order_rank(a.0.pos[2]) <= total_order_rank(b.0.pos[2])
        }),
{
}

/// `perm` arranges `items` so that no point comes before one that stands
/// earlier in the arrangement.
pub open spec fn is_sorted_arrangement(items: Seq<(SplatPoint, u32)>, perm: Seq<int>) -> bool {
    &&& is_permutation(perm, items.len())
    &&& forall|i: int, j: int|
        0 <= i < j < items.len() ==> !precedes(items[#[trigger] perm[j]], items[#[trigger] perm[i]])
}

/// More than `m` values below `m` cannot all differ.
proof fn lemma_pigeonhole(f: Seq<int>, m: int)
    requires
        0 <= m < f.len(),
        forall|i: int| 0 <= i < f.len() ==> 0 <= #[trigger] f[i] < m,
    ensures
        exists|i: int, j: int| 0 <= i < j < f.len() && f[i] == f[j],
    decreases m,
{
    if m == 0 {
        assert(f[0] < m);
    } else if exists|i: int, j: int| 0 <= i < j < f.len() && f[i] == f[j] {
    } else {
        let top = m - 1;
        let at = if f.contains(top) {
            choose|i: int| 0 <= i < f.len() && f[i] == top
        } else {
            f.len() - 1
        };
        let g = f.remove(at);
        assert forall|i: int| 0 <= i < g.len() implies 0 <= #[trigger] g[i] < top by {
            let src = if i < at {
                i
            } else {
                i + 1
            };
            assert(g[i] == f[src]);
            if f[src] == top {
                assert(f.contains(top));
                if src < at {
                    assert(f[src] == f[at]);
                } else {
                    assert(f[at] == f[src]);
                }
            }
        }
        lemma_pigeonhole(g, top);
        let (i, j) = choose|i: int, j: int| 0 <= i < j < g.len() && g[i] == g[j];
        let si = if i < at {
            i
        } else {
            i + 1
        };
        let sj = if j < at {
            j
        } else {
            j + 1
        };
        assert(f[si] == f[sj]);
    }
}

/// If `p` and `s` both arrange `items` in order and the point at place `k`
/// of `p` came before the point at place `k` of `s`, then the first `k + 1`
/// points of `p` would all have to stand in the first `k` places of `s`.
proof fn lemma_no_gap_between_arrangements(
    items: Seq<(SplatPoint, u32)>,
    p: Seq<int>,
    s: Seq<int>,
    k: int,
)
    requires
        is_sorted_arrangement(items, p),
        is_sorted_arrangement(items, s),
        0 <= k < items.len(),
    ensures
        !precedes(items[p[k]], items[s[k]]),
{
    if precedes(items[p[k]], items[s[k]]) {
        let n = items.len() as int;
        let place = |i: int| choose|j: int| 0 <= j < n && s[j] == p[i];
        let f = Seq::new((k + 1) as nat, place);
        assert forall|i: int| 0 <= i < f.len() implies 0 <= #[trigger] f[i] < k by {
            assert(s.contains(p[i]));
            let j = f[i];
            assert(0 <= j < n && s[j] == p[i]);
            lemma_order_is_total(items[p[i]], items[p[k]], items[s[k]]);
            lemma_order_is_total(items[p[i]], items[s[k]], items[s[j]]);
            if i < k {
                assert(!precedes(items[p[k]], items[p[i]]));
            }
            if j > k {
                assert(!precedes(items[s[j]], items[s[k]]));
            }
        }
        lemma_pigeonhole(f, k);
        let (i, j) = choose|i: int, j: int| 0 <= i < j < f.len() && f[i] == f[j];
        assert(s.contains(p[i]));
        assert(s.contains(p[j]));
        assert(s[f[i]] == p[i]);
        assert(s[f[j]] == p[j]);
        assert(p[i] != p[j]);
    }
}

/// Any two ways of arranging the same points in order put points with the
/// same key and the same position at every place.
pub proof fn lemma_sorted_arrangements_tie(
    items: Seq<(SplatPoint, u32)>,
    p: Seq<int>,
    s: Seq<int>,
    k: int,
)
    requires
        is_sorted_arrangement(items, p),
        is_sorted_arrangement(items, s),
        0 <= k < items.len(),
    ensures
        ties(items[p[k]], items[s[k]]),
{
    lemma_no_gap_between_arrangements(items, p, s, k);
    lemma_no_gap_between_arrangements(items, s, p, k);
    lemma_order_is_total(items[p[k]], items[s[k]], items[p[k]]);
}

/// The sorted output does not depend on the order in which the points
/// arrive: if `b` holds the points of `a` in another order, then at every
/// place the sorted `a` and the sorted `b` hold points with the same key and
/// the same position.
pub proof fn lemma_sorted_keys_ignore_input_order(
    a: Seq<(SplatPoint, u32)>,
    b: Seq<(SplatPoint, u32)>,
    shuffle: Seq<int>,
    p: Seq<int>,
    q: Seq<int>,
    k: int,
)
    requires
        is_permutation(shuffle, a.len()),
        b == rearranged(a, shuffle),
        is_stable_order(a, p),
        is_stable_order(b, q),
        0 <= k < a.len(),
    ensures
        ties(a[p[k]], b[q[k]]),
{
    let n = a.len() as int;
    let s = Seq::new(a.len(), |i: int| shuffle[q[i]]);
    assert forall|i: int| 0 <= i < n implies b[q[i]] == a[#[trigger] s[i]] by {}
    assert forall|i: int, j: int| 0 <= i < j < n implies s[i] != s[j] by {
        let qi = q[i];
        let qj = q[j];
        if qi < qj {
            assert(shuffle[qi] != shuffle[qj]);
        } else {
            assert(shuffle[qj] != shuffle[qi]);
        }
    }
    assert forall|v: int| 0 <= v < n implies #[trigger] s.contains(v) by {
        assert(shuffle.contains(v));
        let j = choose|j: int| 0 <= j < n && shuffle[j] == v;
        assert(q.contains(j));
        let i = choose|i: int| 0 <= i < n && q[i] == j;
        assert(s[i] == v);
    }
    assert forall|i: int, j: int| 0 <= i < j < n implies !precedes(
        a[#[trigger] s[j]],
        a[#[trigger] s[i]],
    ) by {
        lemma_order_is_total(b[q[i]], b[q[j]], b[q[i]]);
        assert(precedes(b[q[i]], b[q[j]]) || (ties(b[q[i]], b[q[j]]) && q[i] < q[j]));
    }
    assert forall|i: int, j: int| 0 <= i < j < n implies !precedes(
        a[#[trigger] p[j]],
        a[#[trigger] p[i]],
    ) by {
        lemma_order_is_total(a[p[i]], a[p[j]], a[p[i]]);
        assert(precedes(a[p[i]], a[p[j]]) || (ties(a[p[i]], a[p[j]]) && p[i] < p[j]));
    }
    lemma_sorted_arrangements_tie(a, p, s, k);
}

} // verus!
