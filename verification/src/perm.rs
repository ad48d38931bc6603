//! The permutation rank is a one-to-one mapping of the arrangements of `n`
//! labelled pieces onto the numbers below `n` factorial.

use vstd::prelude::*;
use vstd::arithmetic::div_mod::{lemma_fundamental_div_mod, lemma_fundamental_div_mod_converse};
use crate::cube::{Corner, Edge};
use crate::encode::{
    corner_ids, edge_ids, factorial, higher_count, lemma_factorial_grows, lemma_factorial_values,
    perm_rank,
};

verus! {

/// Whether `ids` is an arrangement of the pieces zero to `ids.len()` less
/// one: every position holds one of them and no two hold the same.
pub open spec fn is_arrangement(ids: Seq<int>) -> bool {
    &&& forall|i: int| 0 <= i < ids.len() ==> 0 <= #[trigger] ids[i] < ids.len()
    &&& forall|i: int, j: int| 0 <= i < j < ids.len() ==> #[trigger] ids[i] != #[trigger] ids[j]
}

/// The arrangement in which every piece is at its own position.
pub open spec fn identity(n: nat) -> Seq<int> {
    Seq::new(n, |i: int| i)
}

/// The number of positions before `n` that hold a piece with a number
/// above `x`.
pub open spec fn above_count(ids: Seq<int>, n: int, x: int) -> nat
    decreases n,
{
    if n <= 0 {
        0
    } else {
        above_count(ids, n - 1, x) + (if ids[n - 1] > x {
            1nat
        } else {
            0nat
        })
    }
}

/// The number of the numbers below `n` that lie above `x`.
pub open spec fn expected_above(n: int, x: int) -> int {
    if x < 0 {
        n
    } else if x >= n - 1 {
        0
    } else {
        n - 1 - x
    }
}

proof fn lemma_higher_is_above(ids: Seq<int>, i: int, j: int)
    ensures
        higher_count(ids, i, j) == above_count(ids, j, ids[i]),
        higher_count(ids, i, j) <= (if j < 0 { 0 } else { j }),
    decreases j,
{
    if j > 0 {
        lemma_higher_is_above(ids, i, j - 1);
    }
}

proof fn lemma_above_falls(ids: Seq<int>, n: int, x: int, y: int)
    requires
        x <= y,
    ensures
        above_count(ids, n, x) >= above_count(ids, n, y),
    decreases n,
{
    if n > 0 {
        lemma_above_falls(ids, n - 1, x, y);
    }
}

proof fn lemma_above_none(ids: Seq<int>, n: int, x: int)
    requires
        forall|j: int| 0 <= j < n ==> #[trigger] ids[j] <= x,
    ensures
        above_count(ids, n, x) == 0,
    decreases n,
{
    if n > 0 {
        lemma_above_none(ids, n - 1, x);
    }
}

proof fn lemma_above_same(p: Seq<int>, q: Seq<int>, n: int, x: int)
    requires
        forall|j: int| 0 <= j < n ==> #[trigger] p[j] == q[j],
    ensures
        above_count(p, n, x) == above_count(q, n, x),
    decreases n,
{
    if n > 0 {
        lemma_above_same(p, q, n - 1, x);
    }
}

proof fn lemma_above_remove(ids: Seq<int>, n: int, k: int, x: int)
    requires
        0 <= k < n <= ids.len(),
    ensures
        above_count(ids, n, x) == above_count(ids.remove(k), n - 1, x) + (if ids[k] > x {
            1nat
        } else {
            0nat
        }),
    decreases n,
{
    let rest = ids.remove(k);
    if k == n - 1 {
        assert forall|j: int| 0 <= j < n - 1 implies #[trigger] ids[j] == rest[j] by {}
        lemma_above_same(ids, rest, n - 1, x);
    } else {
        lemma_above_remove(ids, n - 1, k, x);
        assert(rest[n - 2] == ids[n - 1]);
    }
}

/// The position of the largest number among the first `n`.
pub open spec fn max_index(ids: Seq<int>, n: int) -> int
    decreases n,
{
    if n <= 1 {
        0
    } else {
        let before = max_index(ids, n - 1);
        if ids[n - 1] > ids[before] {
            n - 1
        } else {
            before
        }
    }
}

proof fn lemma_max_index(ids: Seq<int>, n: int)
    requires
        n >= 1,
    ensures
        0 <= max_index(ids, n) < n,
        forall|j: int| 0 <= j < n ==> #[trigger] ids[j] <= ids[max_index(ids, n)],
    decreases n,
{
    if n > 1 {
        lemma_max_index(ids, n - 1);
    }
}

/// In an arrangement of `n` pieces, as many positions hold a number above
/// `x` as there are numbers below `n` above `x`.
pub proof fn lemma_above_count(ids: Seq<int>, x: int)
    requires
        is_arrangement(ids),
    ensures
        above_count(ids, ids.len() as int, x) == expected_above(ids.len() as int, x),
    decreases ids.len(),
{
    let n = ids.len() as int;
    if n > 0 {
        lemma_max_index(ids, n);
        let k = max_index(ids, n);
        let top = ids[k];
        let rest = ids.remove(k);
        assert forall|j: int| 0 <= j < rest.len() implies 0 <= #[trigger] rest[j] < top by {
            if j < k {
                assert(rest[j] == ids[j]);
            } else {
                assert(rest[j] == ids[j + 1]);
            }
        }
        assert forall|i: int, j: int| 0 <= i < j < rest.len() implies #[trigger] rest[i]
            != #[trigger] rest[j] by {
            let a = if i < k { i } else { i + 1 };
            let b = if j < k { j } else { j + 1 };
            assert(rest[i] == ids[a]);
            assert(rest[j] == ids[b]);
        }
        assert(is_arrangement(rest));
        if top < n - 1 {
            lemma_above_count(rest, top - 1);
            assert forall|j: int| 0 <= j < n - 1 implies #[trigger] rest[j] <= top - 1 by {}
            lemma_above_none(rest, n - 1, top - 1);
            assert(false);
        }
        lemma_above_count(rest, x);
        lemma_above_remove(ids, n, k, x);
    }
}

proof fn lemma_above_without(ids: Seq<int>, n: int, v: int)
    requires
        forall|j: int| 0 <= j < n ==> #[trigger] ids[j] != v,
    ensures
        above_count(ids, n, v - 1) == above_count(ids, n, v),
    decreases n,
{
    if n > 0 {
        lemma_above_without(ids, n - 1, v);
    }
}

/// In an arrangement every piece is at some position.
pub proof fn lemma_arrangement_onto(ids: Seq<int>, v: int) -> (j: int)
    requires
        is_arrangement(ids),
        0 <= v < ids.len(),
    ensures
        0 <= j < ids.len(),
        ids[j] == v,
{
    if forall|k: int| 0 <= k < ids.len() ==> #[trigger] ids[k] != v {
        lemma_above_without(ids, ids.len() as int, v);
        lemma_above_count(ids, v - 1);
        lemma_above_count(ids, v);
        assert(false);
    }
    choose|k: int| 0 <= k < ids.len() && #[trigger] ids[k] == v
}

/// The rank of the first `n` pieces lies below `n` factorial.
pub proof fn lemma_rank_range(ids: Seq<int>, n: int)
    ensures
        perm_rank(ids, n) < factorial(if n < 0 { 0 } else { n as nat }),
    decreases n,
{
    if n <= 1 {
        assert(factorial(0) == 1);
        assert(factorial(1) == 1);
    } else {
        lemma_rank_range(ids, n - 1);
        lemma_higher_is_above(ids, n - 1, n - 1);
        let h = higher_count(ids, n - 1, n - 1) as int;
        let f = factorial((n - 1) as nat) as int;
        let below = perm_rank(ids, n - 1) as int;
        assert(below + h * f < n * f) by (nonlinear_arith)
            requires
                0 <= below < f,
                0 <= h <= n - 1,
        ;
    }
}

/// The arrangement in which every piece is at its own position has rank
/// zero.
pub proof fn lemma_rank_identity(n: nat)
    ensures
        is_arrangement(identity(n)),
        perm_rank(identity(n), n as int) == 0,
{
    lemma_identity_prefix(n, n as int);
}

proof fn lemma_identity_prefix(n: nat, m: int)
    requires
        m <= n,
    ensures
        perm_rank(identity(n), m) == 0,
    decreases m,
{
    if m > 1 {
        lemma_identity_prefix(n, m - 1);
        lemma_higher_is_above(identity(n), m - 1, m - 1);
        assert forall|j: int| 0 <= j < m - 1 implies #[trigger] identity(n)[j] <= identity(n)[m
            - 1] by {}
        lemma_above_none(identity(n), m - 1, identity(n)[m - 1]);
        assert(0 * factorial((m - 1) as nat) == 0) by (nonlinear_arith);
    }
}

/// Two lists with the same rank over the first `m` positions have, at each
/// of them, as many higher pieces before it.
proof fn lemma_rank_digits(p: Seq<int>, q: Seq<int>, m: int)
    requires
        perm_rank(p, m) == perm_rank(q, m),
    ensures
        forall|i: int| 0 <= i < m ==> #[trigger] higher_count(p, i, i) == higher_count(q, i, i),
    decreases m,
{
    if m <= 1 {
        assert forall|i: int| 0 <= i < m implies #[trigger] higher_count(p, i, i) == higher_count(
            q,
            i,
            i,
        ) by {}
    } else {
        let f = factorial((m - 1) as nat) as int;
        lemma_rank_range(p, m - 1);
        lemma_rank_range(q, m - 1);
        let hp = higher_count(p, m - 1, m - 1) as int;
        let hq = higher_count(q, m - 1, m - 1) as int;
        let rank = perm_rank(p, m) as int;
        lemma_fundamental_div_mod_converse(rank, f, hp, perm_rank(p, m - 1) as int);
        lemma_fundamental_div_mod_converse(rank, f, hq, perm_rank(q, m - 1) as int);
        lemma_rank_digits(p, q, m - 1);
        assert forall|i: int| 0 <= i < m implies #[trigger] higher_count(p, i, i) == higher_count(
            q,
            i,
            i,
        ) by {
            if i < m - 1 {
            }
        }
    }
}

/// Two lists that hold, above every number, equally many pieces among
/// their first `m`, and that have at each of these positions as many
/// higher pieces before it, are the same over these positions.
proof fn lemma_digits_decide(p: Seq<int>, q: Seq<int>, m: int)
    requires
        forall|x: int| #[trigger] above_count(p, m, x) == above_count(q, m, x),
        forall|i: int| 0 <= i < m ==> #[trigger] higher_count(p, i, i) == higher_count(q, i, i),
    ensures
        forall|j: int| 0 <= j < m ==> #[trigger] p[j] == q[j],
    decreases m,
{
    if m > 0 {
        let x = p[m - 1];
        let y = q[m - 1];
        lemma_higher_is_above(p, m - 1, m - 1);
        lemma_higher_is_above(q, m - 1, m - 1);
        assert(higher_count(p, m - 1, m - 1) == higher_count(q, m - 1, m - 1));
        assert(above_count(p, m, x) == above_count(q, m, x));
        assert(above_count(p, m, y) == above_count(q, m, y));
        if x < y {
            lemma_above_falls(q, m - 1, x, y);
            assert(false);
        }
        if y < x {
            lemma_above_falls(p, m - 1, y, x);
            assert(false);
        }
        assert forall|z: int| #[trigger] above_count(p, m - 1, z) == above_count(q, m - 1, z) by {
            assert(above_count(p, m, z) == above_count(q, m, z));
        }
        lemma_digits_decide(p, q, m - 1);
    }
}

/// No two arrangements of the same pieces have the same rank.
pub proof fn lemma_rank_injective(p: Seq<int>, q: Seq<int>)
    requires
        is_arrangement(p),
        is_arrangement(q),
        p.len() == q.len(),
        perm_rank(p, p.len() as int) == perm_rank(q, q.len() as int),
    ensures
        p == q,
{
    let n = p.len() as int;
    lemma_rank_digits(p, q, n);
    assert forall|x: int| #[trigger] above_count(p, n, x) == above_count(q, n, x) by {
        lemma_above_count(p, x);
        lemma_above_count(q, x);
    }
    lemma_digits_decide(p, q, n);
    assert(p =~= q);
}

/// The arrangement `ids` of one piece fewer, with room made for the piece
/// `x`: the pieces from `x` on bear the next number.
pub open spec fn make_room(ids: Seq<int>, x: int) -> Seq<int> {
    Seq::new(
        ids.len(),
        |i: int|
            if ids[i] >= x {
                ids[i] + 1
            } else {
                ids[i]
            },
    )
}

/// The arrangement of `n` pieces with the rank `rank`.
pub open spec fn unrank(n: nat, rank: nat) -> Seq<int>
    decreases n,
{
    if n == 0 {
        Seq::empty()
    } else {
        let f = factorial((n - 1) as nat);
        let last = n - 1 - (rank / f);
        make_room(unrank((n - 1) as nat, rank % f), last).push(last)
    }
}

proof fn lemma_room_keeps_order(ids: Seq<int>, x: int, i: int, j: int)
    requires
        0 <= i < ids.len(),
        0 <= j <= ids.len(),
    ensures
        higher_count(make_room(ids, x), i, j) == higher_count(ids, i, j),
    decreases j,
{
    if j > 0 {
        lemma_room_keeps_order(ids, x, i, j - 1);
    }
}

proof fn lemma_room_keeps_rank(ids: Seq<int>, x: int, m: int)
    requires
        0 <= m <= ids.len(),
    ensures
        perm_rank(make_room(ids, x), m) == perm_rank(ids, m),
    decreases m,
{
    if m > 1 {
        lemma_room_keeps_rank(ids, x, m - 1);
        lemma_room_keeps_order(ids, x, m - 1, m - 1);
    }
}

proof fn lemma_room_above(ids: Seq<int>, x: int, m: int)
    requires
        0 <= m <= ids.len(),
    ensures
        above_count(make_room(ids, x), m, x) == above_count(ids, m, x - 1),
    decreases m,
{
    if m > 0 {
        lemma_room_above(ids, x, m - 1);
    }
}

proof fn lemma_rank_prefix(p: Seq<int>, q: Seq<int>, m: int)
    requires
        0 <= m <= p.len(),
        m <= q.len(),
        forall|j: int| 0 <= j < m ==> #[trigger] p[j] == q[j],
    ensures
        perm_rank(p, m) == perm_rank(q, m),
    decreases m,
{
    if m > 1 {
        lemma_rank_prefix(p, q, m - 1);
        lemma_higher_is_above(p, m - 1, m - 1);
        lemma_higher_is_above(q, m - 1, m - 1);
        lemma_above_same(p, q, m - 1, p[m - 1]);
    }
}

/// Every number below `n` factorial is the rank of an arrangement of `n`
/// pieces.
pub proof fn lemma_rank_surjective(n: nat, rank: nat)
    requires
        rank < factorial(n),
    ensures
        unrank(n, rank).len() == n,
        is_arrangement(unrank(n, rank)),
        perm_rank(unrank(n, rank), n as int) == rank,
    decreases n,
{
    if n == 0 {
    } else {
        let f = factorial((n - 1) as nat);
        lemma_factorial_grows(0, (n - 1) as nat);
        let h = rank / f;
        let low = rank % f;
        lemma_fundamental_div_mod(rank as int, f as int);
        assert(h <= n - 1) by (nonlinear_arith)
            requires
                rank < n * f,
                rank == f * h + low,
                0 <= low,
                f >= 1,
                h >= 0,
        ;
        let last = n - 1 - h;
        let before = unrank((n - 1) as nat, low);
        lemma_rank_surjective((n - 1) as nat, low);
        let shifted = make_room(before, last);
        let all = shifted.push(last);
        assert(all == unrank(n, rank));
        assert(is_arrangement(all)) by {
            assert forall|i: int| 0 <= i < all.len() implies 0 <= #[trigger] all[i] < all.len() by {
                if i < n - 1 {
                    assert(all[i] == shifted[i]);
                }
            }
            assert forall|i: int, j: int| 0 <= i < j < all.len() implies #[trigger] all[i]
                != #[trigger] all[j] by {
                assert(all[i] == shifted[i]);
                if j < n - 1 {
                    assert(all[j] == shifted[j]);
                    assert(before[i] != before[j]);
                }
            }
        }
        lemma_room_keeps_rank(before, last, n - 1);
        assert forall|j: int| 0 <= j < n - 1 implies #[trigger] all[j] == shifted[j] by {}
        lemma_rank_prefix(all, shifted, n - 1);
        lemma_higher_is_above(all, n - 1, n - 1);
        lemma_above_same(all, shifted, n - 1, last);
        lemma_room_above(before, last, n - 1);
        lemma_above_count(before, last - 1);
        assert(higher_count(all, n - 1, n - 1) == h);
        assert(h * f == f * h) by (nonlinear_arith);
        assert(perm_rank(all, n - 1) == low);
        assert(rank == f * h + low);
        if n == 1 {
            assert(factorial(0) == 1);
            assert(f == 1);
            assert(rank == 0);
        } else {
            assert(perm_rank(all, n as int) == perm_rank(all, n - 1) + higher_count(
                all,
                n - 1,
                n - 1,
            ) * factorial((n - 1) as nat));
        }
    }
}

/// The permutation coordinates lie below their sizes.
pub proof fn lemma_permutation_ranges(edges: Seq<Edge>, corners: Seq<Corner>)
    ensures
        perm_rank(corner_ids(corners), 8) < 40320,
        perm_rank(edge_ids(edges), 12) < 479001600,
{
    lemma_rank_range(corner_ids(corners), 8);
    lemma_rank_range(edge_ids(edges), 12);
    lemma_factorial_values();
}

} // verus!
