//! The encodings behind the coordinates: numbers in a radix, permutation
//! ranks, ranks of sets of places, and the twist of the corner orbits.

use vstd::prelude::*;
use vstd::arithmetic::div_mod::lemma_fundamental_div_mod_converse;
use crate::cube::{Axis, Corner, Edge};

verus! {

/// `radix` to the power of `n`.
pub open spec fn power(radix: nat, n: nat) -> nat
    decreases n,
{
    if n == 0 {
        1
    } else {
        radix * power(radix, (n - 1) as nat)
    }
}

/// The number that the digits stand for in the given radix, the first digit
/// being the least significant: the sum of `digits[i]` times `radix` to the
/// power of `i`.
pub open spec fn digits_value(digits: Seq<nat>, radix: nat) -> nat
    decreases digits.len(),
{
    if digits.len() == 0 {
        0
    } else {
        digits[0] + radix * digits_value(digits.skip(1), radix)
    }
}

/// The product of the numbers from one to `n`.
pub open spec fn factorial(n: nat) -> nat
    decreases n,
{
    if n == 0 {
        1
    } else {
        n * factorial((n - 1) as nat)
    }
}

/// The number of ways to choose `k` of `n` things.
pub open spec fn binom(n: nat, k: nat) -> nat
    decreases n,
{
    if k == 0 {
        1
    } else if n == 0 {
        0
    } else {
        binom((n - 1) as nat, k) + binom((n - 1) as nat, (k - 1) as nat)
    }
}

/// Whether an edge is oriented with respect to an axis.
pub open spec fn spec_edge_oriented(e: Edge, axis: Axis) -> bool {
    match axis {
        Axis::X => e.oriented_rl,
        Axis::Y => e.oriented_ud,
        Axis::Z => e.oriented_fb,
    }
}

#[verifier::when_used_as_spec(spec_edge_oriented)]
pub fn edge_oriented(e: Edge, axis: Axis) -> (r: bool)
    ensures
        r == spec_edge_oriented(e, axis),
{
    match axis {
        Axis::X => e.oriented_rl,
        Axis::Y => e.oriented_ud,
        Axis::Z => e.oriented_fb,
    }
}

/// The digits of an edge orientation coordinate: for each of the positions
/// `places`, one where the edge there is not oriented with respect to
/// `axis`, else zero.
pub open spec fn eo_digits(edges: Seq<Edge>, axis: Axis, places: Seq<int>) -> Seq<nat> {
    Seq::new(
        places.len(),
        |i: int|
            if spec_edge_oriented(edges[places[i]], axis) {
                0nat
            } else {
                1nat
            },
    )
}

/// The first eleven edge positions: the orientation of the twelfth edge
/// follows from the others.
pub open spec fn eo_places() -> Seq<int> {
    seq![0, 1, 2, 3, 4, 5, 6, 7, 8, 9, 10]
}

/// The edge orientation coordinate with respect to `axis`: radix two, the
/// edge at position zero least significant.
pub open spec fn eo_value(edges: Seq<Edge>, axis: Axis) -> nat {
    digits_value(eo_digits(edges, axis, eo_places()), 2)
}

/// The positions outside the slice between up and down but for the last.
pub open spec fn eo_outer_places() -> Seq<int> {
    seq![0, 1, 2, 3, 8, 9, 10]
}

/// The orientation with respect to the front/back axis of the edges outside
/// the slice between up and down.
pub open spec fn eo_outer_value(edges: Seq<Edge>) -> nat {
    digits_value(eo_digits(edges, Axis::Z, eo_outer_places()), 2)
}

/// The digits of the corner orientation coordinate: the twists of the first
/// seven corners, each taken modulo three.
pub open spec fn co_digits(corners: Seq<Corner>) -> Seq<nat> {
    Seq::new(7, |i: int| (corners[i].orientation % 3) as nat)
}

/// The corner orientation coordinate: radix three, the corner at position
/// zero least significant.
pub open spec fn co_value(corners: Seq<Corner>) -> nat {
    digits_value(co_digits(corners), 3)
}

/// The number of positions before `j` that hold a piece with a higher
/// number than the piece at position `i`.
pub open spec fn higher_count(ids: Seq<int>, i: int, j: int) -> nat
    decreases j,
{
    if j <= 0 {
        0
    } else {
        higher_count(ids, i, j - 1) + (if ids[j - 1] > ids[i] {
            1nat
        } else {
            0nat
        })
    }
}

/// The rank of the arrangement of the first `n` pieces: the sum, over the
/// positions `i` from one on, of `i` factorial times the number of earlier
/// positions that hold a piece with a higher number.
pub open spec fn perm_rank(ids: Seq<int>, n: int) -> nat
    decreases n,
{
    if n <= 1 {
        0
    } else {
        perm_rank(ids, n - 1) + higher_count(ids, n - 1, n - 1) * factorial((n - 1) as nat)
    }
}

/// The numbers of the pieces at the edge positions.
pub open spec fn edge_ids(edges: Seq<Edge>) -> Seq<int> {
    Seq::new(edges.len(), |i: int| edges[i].id as int)
}

/// The numbers of the pieces at the corner positions.
pub open spec fn corner_ids(corners: Seq<Corner>) -> Seq<int> {
    Seq::new(corners.len(), |i: int| corners[i].id as int)
}

/// The number of marks among the first `n` places.
pub open spec fn marks_before(marks: Seq<bool>, n: int) -> nat
    decreases n,
{
    if n <= 0 {
        0
    } else {
        marks_before(marks, n - 1) + (if marks[n - 1] {
            1nat
        } else {
            0nat
        })
    }
}

/// The rank of the set of marked places among the first `n`: the sum, over
/// the first four marked places, of the number of ways to choose as many
/// places as the mark counts from the places before it. It depends on
/// which places are marked and on nothing else, and is zero where the
/// first four places are the marked ones.
pub open spec fn choose_rank(marks: Seq<bool>, n: int) -> nat
    decreases n,
{
    if n <= 0 {
        0
    } else {
        let found = marks_before(marks, n - 1);
        choose_rank(marks, n - 1) + (if marks[n - 1] && found < 4 {
            binom((n - 1) as nat, found + 1)
        } else {
            0nat
        })
    }
}

/// Whether an edge belongs in the slice between up and down.
pub open spec fn spec_in_ud_slice(id: u8) -> bool {
    4 <= id <= 7
}

#[verifier::when_used_as_spec(spec_in_ud_slice)]
pub fn in_ud_slice(id: u8) -> (r: bool)
    ensures
        r == spec_in_ud_slice(id),
{
    4 <= id && id <= 7
}

/// Whether an edge belongs in the slice between front and back.
pub open spec fn spec_in_fb_slice(id: u8) -> bool {
    id == 1 || id == 3 || id == 9 || id == 11
}

#[verifier::when_used_as_spec(spec_in_fb_slice)]
pub fn in_fb_slice(id: u8) -> (r: bool)
    ensures
        r == spec_in_fb_slice(id),
{
    id == 1 || id == 3 || id == 9 || id == 11
}

/// Whether a corner belongs to the orbit of the corner at position zero:
/// the corners that half turns can bring there.
pub open spec fn spec_in_first_orbit(id: u8) -> bool {
    id % 2 == 0
}

#[verifier::when_used_as_spec(spec_in_first_orbit)]
pub fn in_first_orbit(id: u8) -> (r: bool)
    ensures
        r == spec_in_first_orbit(id),
{
    id % 2 == 0
}

/// The edge positions, those of the slice between up and down first.
pub open spec fn ud_slice_places() -> Seq<int> {
    seq![4, 5, 6, 7, 0, 1, 2, 3, 8, 9, 10, 11]
}

/// The edge positions outside the slice between up and down, those of the
/// slice between front and back first.
pub open spec fn fb_slice_places() -> Seq<int> {
    seq![1, 3, 9, 11, 0, 2, 8, 10]
}

/// The corner positions, those of the first orbit first.
pub open spec fn orbit_places() -> Seq<int> {
    seq![0, 2, 4, 6, 1, 3, 5, 7]
}

/// The coordinate of the slice between up and down: the rank of the set of
/// places that hold an edge of that slice.
pub open spec fn ud_slice_value(edges: Seq<Edge>) -> nat {
    choose_rank(
        Seq::new(12, |k: int| spec_in_ud_slice(edges[ud_slice_places()[k]].id)),
        12,
    )
}

/// The coordinate of the slice between front and back: the rank of the set
/// of places outside the slice between up and down that hold an edge of
/// that slice.
pub open spec fn fb_slice_value(edges: Seq<Edge>) -> nat {
    choose_rank(Seq::new(8, |k: int| spec_in_fb_slice(edges[fb_slice_places()[k]].id)), 8)
}

/// The coordinate of the corner orbits: the rank of the set of places that
/// hold a corner of the first orbit.
pub open spec fn orbit_value(corners: Seq<Corner>) -> nat {
    choose_rank(Seq::new(8, |k: int| spec_in_first_orbit(corners[orbit_places()[k]].id)), 8)
}

/// The number of pairs of corner positions that hold their pieces in
/// falling order, among the first `n` positions.
pub open spec fn inversions(ids: Seq<int>, n: int) -> nat
    decreases n,
{
    if n <= 0 {
        0
    } else {
        inversions(ids, n - 1) + higher_count(ids, n - 1, n - 1)
    }
}

/// The parity of the corner permutation: one where the number of
/// inversions is odd.
pub open spec fn parity_value(corners: Seq<Corner>) -> nat {
    inversions(corner_ids(corners), 8) % 2
}

/// The corners of one orbit among the first `n` positions, in the order of
/// the positions, each by its place within the orbit.
pub open spec fn orbit_labels(corners: Seq<Corner>, first: bool, n: int) -> Seq<int>
    decreases n,
{
    if n <= 0 {
        Seq::empty()
    } else if spec_in_first_orbit(corners[n - 1].id) == first {
        orbit_labels(corners, first, n - 1).push(((corners[n - 1].id / 2) % 4) as int)
    } else {
        orbit_labels(corners, first, n - 1)
    }
}

/// The item `k` of `labels`, or zero.
pub open spec fn label_at(labels: Seq<int>, k: int) -> int {
    if 0 <= k < labels.len() {
        labels[k]
    } else {
        0
    }
}

/// The way of splitting four things into two pairs in which `a` and `b`
/// are together: zero for 0-1 and 2-3, one for 0-2 and 1-3, two for 0-3 and
/// 1-2.
pub open spec fn spec_pairing(a: int, b: int) -> int {
    if (a == 0 && b == 2) || (a == 2 && b == 0) || (a == 1 && b == 3) || (a == 3 && b == 1) {
        1
    } else if (a == 0 && b == 3) || (a == 3 && b == 0) || (a == 1 && b == 2) || (a == 2 && b
        == 1) {
        2
    } else {
        0
    }
}

/// The twist of the corner orbits. Each orbit's corners, read in the order
/// of their positions, permute the three ways of splitting the orbit into
/// two pairs; the twist says where the two permutations differ. It is zero
/// after any sequence of half turns.
pub open spec fn orbit_twist_value(corners: Seq<Corner>) -> nat {
    let a = orbit_labels(corners, true, 8);
    let b = orbit_labels(corners, false, 8);
    let twist = if spec_pairing(label_at(b, 0), label_at(b, 1)) == 0 {
        spec_pairing(label_at(a, 0), label_at(a, 1))
    } else if spec_pairing(label_at(b, 0), label_at(b, 2)) == 0 {
        spec_pairing(label_at(a, 0), label_at(a, 2))
    } else {
        spec_pairing(label_at(a, 0), label_at(a, 3))
    };
    twist as nat
}

/// Two coordinates as one: `a` below `size_a`, least significant.
pub open spec fn spec_compose(a: nat, b: nat, size_a: nat) -> nat {
    a + b * size_a
}

/// The coordinate of the slice between up and down together with the
/// corner orientation, the slice least significant.
pub open spec fn drud_value(edges: Seq<Edge>, corners: Seq<Corner>) -> nat {
    spec_compose(ud_slice_value(edges), co_value(corners), 495)
}

/// The coordinate of the half-turn reduction: the parity, the twist of the
/// orbits, the orbits and the slice between front and back, the parity
/// least significant.
pub open spec fn htrdrud_value(edges: Seq<Edge>, corners: Seq<Corner>) -> nat {
    spec_compose(
        parity_value(corners),
        spec_compose(
            orbit_twist_value(corners),
            spec_compose(orbit_value(corners), fb_slice_value(edges), 70),
            3,
        ),
        2,
    )
}

/// The two coordinates that `value` is composed of.
pub open spec fn spec_decompose(value: nat, size_a: nat) -> (nat, nat) {
    (value % size_a, value / size_a)
}

/// Taking a composed coordinate apart gives back the two coordinates that
/// it was composed of, whatever they are, as long as the first is below
/// its size.
pub proof fn lemma_compose_round_trip(a: nat, b: nat, size_a: nat)
    requires
        a < size_a,
    ensures
        spec_decompose(spec_compose(a, b, size_a), size_a) == (a, b),
{
    let value = spec_compose(a, b, size_a);
    lemma_fundamental_div_mod_converse(value as int, size_a as int, b as int, a as int);
}

/// Two coordinates as one: `a` below `size_a`, least significant.
pub fn compose(a: usize, b: usize, size_a: usize) -> (r: usize)
    requires
        a + b * size_a <= usize::MAX,
    ensures
        r == spec_compose(a as nat, b as nat, size_a as nat),
{
    proof {
        assert(b * size_a >= 0) by (nonlinear_arith)
            requires
                b >= 0,
                size_a >= 0,
        ;
    }
    a + b * size_a
}

/// The two coordinates that `value` is composed of.
pub fn decompose(value: usize, size_a: usize) -> (r: (usize, usize))
    requires
        size_a > 0,
    ensures
        (r.0 as nat, r.1 as nat) == spec_decompose(value as nat, size_a as nat),
{
    (value % size_a, value / size_a)
}

/// The values of the factorials that the permutation coordinates need.
pub proof fn lemma_factorial_values()
    ensures
        factorial(8) == 40320,
        factorial(12) == 479001600,
{
    assert(factorial(0) == 1);
    assert(factorial(1) == 1);
    assert(factorial(2) == 2);
    assert(factorial(3) == 6);
    assert(factorial(4) == 24);
    assert(factorial(5) == 120);
    assert(factorial(6) == 720);
    assert(factorial(7) == 5040);
    assert(factorial(8) == 40320);
    assert(factorial(9) == 362880);
    assert(factorial(10) == 3628800);
    assert(factorial(11) == 39916800);
    assert(factorial(12) == 479001600);
}

/// The factorial does not fall.
pub proof fn lemma_factorial_grows(i: nat, j: nat)
    requires
        i <= j,
    ensures
        1 <= factorial(i) <= factorial(j),
    decreases j,
{
    if j == 0 {
    } else if i == j {
        lemma_factorial_grows(0, (j - 1) as nat);
        let f = factorial((j - 1) as nat);
        assert(j * f >= 1) by (nonlinear_arith)
            requires
                j >= 1,
                f >= 1,
        ;
    } else {
        lemma_factorial_grows(i, (j - 1) as nat);
        let f = factorial((j - 1) as nat);
        assert(j * f >= f) by (nonlinear_arith)
            requires
                j >= 1,
                f >= 1,
        ;
    }
}

/// The numbers of ways to choose up to four of eight and of twelve things.
pub proof fn lemma_binom_values()
    ensures
        binom(8, 1) == 8,
        binom(8, 2) == 28,
        binom(8, 3) == 56,
        binom(8, 4) == 70,
        binom(12, 1) == 12,
        binom(12, 2) == 66,
        binom(12, 3) == 220,
        binom(12, 4) == 495,
{
    assert(binom(0, 0) == 1 && binom(0, 1) == 0 && binom(0, 2) == 0
        && binom(0, 3) == 0 && binom(0, 4) == 0);
    assert(binom(1, 0) == 1 && binom(1, 1) == 1 && binom(1, 2) == 0
        && binom(1, 3) == 0 && binom(1, 4) == 0);
    assert(binom(2, 0) == 1 && binom(2, 1) == 2 && binom(2, 2) == 1
        && binom(2, 3) == 0 && binom(2, 4) == 0);
    assert(binom(3, 0) == 1 && binom(3, 1) == 3 && binom(3, 2) == 3
        && binom(3, 3) == 1 && binom(3, 4) == 0);
    assert(binom(4, 0) == 1 && binom(4, 1) == 4 && binom(4, 2) == 6
        && binom(4, 3) == 4 && binom(4, 4) == 1);
    assert(binom(5, 0) == 1 && binom(5, 1) == 5 && binom(5, 2) == 10
        && binom(5, 3) == 10 && binom(5, 4) == 5);
    assert(binom(6, 0) == 1 && binom(6, 1) == 6 && binom(6, 2) == 15
        && binom(6, 3) == 20 && binom(6, 4) == 15);
    assert(binom(7, 0) == 1 && binom(7, 1) == 7 && binom(7, 2) == 21
        && binom(7, 3) == 35 && binom(7, 4) == 35);
    assert(binom(8, 0) == 1 && binom(8, 1) == 8 && binom(8, 2) == 28
        && binom(8, 3) == 56 && binom(8, 4) == 70);
    assert(binom(9, 0) == 1 && binom(9, 1) == 9 && binom(9, 2) == 36
        && binom(9, 3) == 84 && binom(9, 4) == 126);
    assert(binom(10, 0) == 1 && binom(10, 1) == 10 && binom(10, 2) == 45
        && binom(10, 3) == 120 && binom(10, 4) == 210);
    assert(binom(11, 0) == 1 && binom(11, 1) == 11 && binom(11, 2) == 55
        && binom(11, 3) == 165 && binom(11, 4) == 330);
    assert(binom(12, 0) == 1 && binom(12, 1) == 12 && binom(12, 2) == 66
        && binom(12, 3) == 220 && binom(12, 4) == 495);
}

/// With more things to choose from there are no fewer ways to choose.
pub proof fn lemma_binom_grows(n: nat, m: nat, k: nat)
    requires
        n <= m,
    ensures
        binom(n, k) <= binom(m, k),
    decreases m,
{
    if n < m {
        lemma_binom_grows(n, (m - 1) as nat, k);
    }
}

/// The orientation coordinate of the edges at `places` with respect to
/// `axis`.
pub fn orientation_index(edges: &[Edge; 12], axis: Axis, places: &[usize]) -> (r: u16)
    requires
        places@.len() <= 11,
        forall|i: int| 0 <= i < places@.len() ==> places@[i] < 12,
    ensures
        r == digits_value(eo_digits(edges@, axis, places@.map_values(|p: usize| p as int)), 2),
        r < power(2, places@.len()),
{
    let ghost digits = eo_digits(edges@, axis, places@.map_values(|p: usize| p as int));
    let mut acc: u16 = 0;
    let mut i: usize = places.len();
    proof {
        assert(digits.skip(i as int) =~= Seq::<nat>::empty());
        reveal_with_fuel(power, 12);
    }
    while i > 0
        invariant
            i <= places@.len() <= 11,
            forall|k: int| 0 <= k < places@.len() ==> places@[k] < 12,
            digits == eo_digits(edges@, axis, places@.map_values(|p: usize| p as int)),
            acc == digits_value(digits.skip(i as int), 2),
            acc < power(2, (places@.len() - i) as nat),
            power(2, (places@.len() - i) as nat) <= 2048,
        decreases i,
    {
        i -= 1;
        proof {
            assert(digits.skip(i as int).skip(1) =~= digits.skip(i as int + 1));
            reveal_with_fuel(power, 12);
        }
        let digit: u16 = if edge_oriented(edges[places[i]], axis) {
            0
        } else {
            1
        };
        acc = acc * 2 + digit;
    }
    proof {
        assert(digits.skip(0) =~= digits);
    }
    acc
}

/// The corner orientation coordinate.
pub fn corner_orientation_index(corners: &[Corner; 8]) -> (r: u16)
    ensures
        r == co_value(corners@),
        r < 2187,
{
    let ghost digits = co_digits(corners@);
    let mut acc: u16 = 0;
    let mut i: usize = 7;
    proof {
        assert(digits.skip(7) =~= Seq::<nat>::empty());
        reveal_with_fuel(power, 8);
    }
    while i > 0
        invariant
            i <= 7,
            digits == co_digits(corners@),
            acc == digits_value(digits.skip(i as int), 3),
            acc < power(3, (7 - i) as nat),
            power(3, (7 - i) as nat) <= 2187,
        decreases i,
    {
        i -= 1;
        proof {
            assert(digits.skip(i as int).skip(1) =~= digits.skip(i as int + 1));
            reveal_with_fuel(power, 8);
        }
        acc = acc * 3 + (corners[i].orientation % 3) as u16;
    }
    proof {
        assert(digits.skip(0) =~= digits);
        reveal_with_fuel(power, 8);
    }
    acc
}

/// The numbers of a list of pieces.
pub open spec fn ids_of(ids: Seq<u8>) -> Seq<int> {
    Seq::new(ids.len(), |i: int| ids[i] as int)
}

/// The numbers of the pieces at the edge positions.
pub fn edge_id_list(edges: &[Edge; 12]) -> (r: Vec<u8>)
    ensures
        ids_of(r@) == edge_ids(edges@),
        r@.len() == 12,
{
    let mut r: Vec<u8> = Vec::new();
    let mut i: usize = 0;
    while i < 12
        invariant
            i <= 12,
            r@.len() == i,
            forall|k: int| 0 <= k < i ==> r@[k] == edges@[k].id,
        decreases 12 - i,
    {
        r.push(edges[i].id);
        i += 1;
    }
    proof {
        assert(ids_of(r@) =~= edge_ids(edges@));
    }
    r
}

/// The numbers of the pieces at the corner positions.
pub fn corner_id_list(corners: &[Corner; 8]) -> (r: Vec<u8>)
    ensures
        ids_of(r@) == corner_ids(corners@),
        r@.len() == 8,
{
    let mut r: Vec<u8> = Vec::new();
    let mut i: usize = 0;
    while i < 8
        invariant
            i <= 8,
            r@.len() == i,
            forall|k: int| 0 <= k < i ==> r@[k] == corners@[k].id,
        decreases 8 - i,
    {
        r.push(corners[i].id);
        i += 1;
    }
    proof {
        assert(ids_of(r@) =~= corner_ids(corners@));
    }
    r
}

/// The number of positions before `i` that hold a piece with a higher
/// number than the piece at `i`.
pub fn count_higher(ids: &Vec<u8>, i: usize) -> (r: usize)
    requires
        i < ids@.len(),
    ensures
        r == higher_count(ids_of(ids@), i as int, i as int),
        r <= i,
{
    let mut higher: usize = 0;
    let mut j: usize = 0;
    while j < i
        invariant
            j <= i < ids@.len(),
            higher == higher_count(ids_of(ids@), i as int, j as int),
            higher <= j,
        decreases i - j,
    {
        if ids[i] < ids[j] {
            higher += 1;
        }
        j += 1;
    }
    higher
}

/// The rank of an arrangement of up to twelve pieces.
pub fn permutation_rank(ids: &Vec<u8>) -> (r: u64)
    requires
        ids@.len() <= 12,
    ensures
        r == perm_rank(ids_of(ids@), ids@.len() as int),
        r < factorial(ids@.len() as nat),
{
    let mut rank: u64 = 0;
    let mut fact: u64 = 1;
    let mut i: usize = 1;
    proof {
        reveal_with_fuel(factorial, 3);
    }
    if ids.len() == 0 {
        return 0;
    }
    while i < ids.len()
        invariant
            1 <= i <= ids@.len() <= 12,
            rank == perm_rank(ids_of(ids@), i as int),
            rank < fact,
            fact == factorial(i as nat),
        decreases ids@.len() - i,
    {
        let higher = count_higher(ids, i);
        proof {
            lemma_factorial_grows(i as nat, 12);
            lemma_factorial_values();
            let f = fact as int;
            let h = higher as int;
            let n = i as int;
            assert(h * f <= n * f) by (nonlinear_arith)
                requires
                    0 <= h <= n,
                    f >= 0,
            ;
            assert(n * f <= 12 * f) by (nonlinear_arith)
                requires
                    0 <= n <= 12,
                    f >= 0,
            ;
            assert((n + 1) * f == n * f + f) by (nonlinear_arith);
            assert(f * h == h * f) by (nonlinear_arith);
            assert(f * (n + 1) == (n + 1) * f) by (nonlinear_arith);
            let r0 = rank as int;
            assert(r0 + f * h < f * (n + 1)) by (nonlinear_arith)
                requires
                    0 <= r0 < f,
                    0 <= h <= n,
            ;
            assert(f * (n + 1) <= 479001600 * 13) by (nonlinear_arith)
                requires
                    0 <= f <= 479001600,
                    0 <= n <= 12,
            ;
        }
        rank = rank + fact * (higher as u64);
        fact = fact * ((i + 1) as u64);
        proof {
            assert(factorial((i + 1) as nat) == (i + 1) * factorial(i as nat));
        }
        i += 1;
    }
    rank
}

/// The parity of an arrangement of up to twelve pieces: whether the number
/// of inversions is odd.
pub fn permutation_parity(ids: &Vec<u8>) -> (r: bool)
    requires
        ids@.len() <= 12,
    ensures
        r == (inversions(ids_of(ids@), ids@.len() as int) % 2 == 1),
{
    let mut odd = false;
    let mut i: usize = 0;
    while i < ids.len()
        invariant
            i <= ids@.len() <= 12,
            odd == (inversions(ids_of(ids@), i as int) % 2 == 1),
        decreases ids@.len() - i,
    {
        let higher = count_higher(ids, i);
        if higher % 2 == 1 {
            odd = !odd;
        }
        i += 1;
    }
    odd
}

/// The rank of the set of marked places among up to twelve.
pub fn choose_index(marks: &Vec<bool>) -> (r: u16)
    requires
        marks@.len() <= 12,
    ensures
        r == choose_rank(marks@, marks@.len() as int),
        marks@.len() == 8 ==> r < 70,
        marks@.len() == 12 ==> r < 495,
{
    let mut rank: u16 = 0;
    let mut found: u8 = 0;
    let mut c1: u16 = 0;
    let mut c2: u16 = 0;
    let mut c3: u16 = 0;
    let mut c4: u16 = 0;
    let mut k: usize = 0;
    proof {
        lemma_binom_values();
    }
    while k < marks.len()
        invariant
            k <= marks@.len() <= 12,
            c1 == binom(k as nat, 1),
            c2 == binom(k as nat, 2),
            c3 == binom(k as nat, 3),
            c4 == binom(k as nat, 4),
            rank == choose_rank(marks@, k as int),
            found <= 4,
            found == (if marks_before(marks@, k as int) < 4 {
                marks_before(marks@, k as int)
            } else {
                4
            }),
            found == 0 ==> rank == 0,
            found >= 1 ==> rank < binom(k as nat, found as nat),
        decreases marks@.len() - k,
    {
        proof {
            lemma_binom_values();
            lemma_binom_grows(k as nat, 12, 1);
            lemma_binom_grows(k as nat, 12, 2);
            lemma_binom_grows(k as nat, 12, 3);
            lemma_binom_grows(k as nat, 12, 4);
            assert(binom(k as nat, 0) == 1);
            assert(binom((k + 1) as nat, 1) == c1 + 1);
            assert(binom((k + 1) as nat, 2) == c2 + c1);
            assert(binom((k + 1) as nat, 3) == c3 + c2);
            assert(binom((k + 1) as nat, 4) == c4 + c3);
        }
        if marks[k] && found < 4 {
            let add = if found == 0 {
                c1
            } else if found == 1 {
                c2
            } else if found == 2 {
                c3
            } else {
                c4
            };
            rank = rank + add;
            found += 1;
        }
        c4 = c4 + c3;
        c3 = c3 + c2;
        c2 = c2 + c1;
        c1 = c1 + 1;
        k += 1;
    }
    proof {
        lemma_binom_values();
    }
    rank
}

#[verifier::when_used_as_spec(spec_pairing_u8)]
pub fn pairing(a: u8, b: u8) -> (r: u8)
    ensures
        r == spec_pairing(a as int, b as int),
        r < 3,
{
    if (a == 0 && b == 2) || (a == 2 && b == 0) || (a == 1 && b == 3) || (a == 3 && b == 1) {
        1
    } else if (a == 0 && b == 3) || (a == 3 && b == 0) || (a == 1 && b == 2) || (a == 2 && b
        == 1) {
        2
    } else {
        0
    }
}

/// `spec_pairing` on small numbers.
pub open spec fn spec_pairing_u8(a: u8, b: u8) -> u8 {
    spec_pairing(a as int, b as int) as u8
}

/// The item `k` of `labels`, or zero.
pub fn item_or_zero(labels: &Vec<u8>, k: usize) -> (r: u8)
    ensures
        r == label_at(ids_of(labels@), k as int),
{
    if k < labels.len() {
        labels[k]
    } else {
        0
    }
}

/// The corners of one orbit, in the order of their positions, each by its
/// place within the orbit.
pub fn labels_of_orbit(corners: &[Corner; 8], first: bool) -> (r: Vec<u8>)
    ensures
        ids_of(r@) == orbit_labels(corners@, first, 8),
{
    let mut r: Vec<u8> = Vec::new();
    let mut i: usize = 0;
    proof {
        assert(ids_of(r@) =~= orbit_labels(corners@, first, 0));
    }
    while i < 8
        invariant
            i <= 8,
            ids_of(r@) == orbit_labels(corners@, first, i as int),
        decreases 8 - i,
    {
        let ghost before = ids_of(r@);
        if in_first_orbit(corners[i].id) == first {
            r.push((corners[i].id / 2) % 4);
            proof {
                assert(ids_of(r@) =~= before.push(((corners@[i as int].id / 2) % 4) as int));
            }
        }
        i += 1;
    }
    r
}

/// A number of `digits.len()` digits lies below the radix to the power of
/// their number.
pub proof fn lemma_digits_range(digits: Seq<nat>, radix: nat)
    requires
        radix >= 1,
        forall|i: int| 0 <= i < digits.len() ==> #[trigger] digits[i] < radix,
    ensures
        digits_value(digits, radix) < power(radix, digits.len()),
    decreases digits.len(),
{
    if digits.len() > 0 {
        let rest = digits.skip(1);
        assert forall|i: int| 0 <= i < rest.len() implies #[trigger] rest[i] < radix by {
            assert(rest[i] == digits[i + 1]);
        }
        lemma_digits_range(rest, radix);
        let high = digits_value(rest, radix) as int;
        let top = power(radix, rest.len()) as int;
        let low = digits[0] as int;
        let r = radix as int;
        assert(low + r * high < r * top) by (nonlinear_arith)
            requires
                0 <= low < r,
                0 <= high < top,
        ;
    }
}

/// The edge orientation coordinates lie below their sizes.
pub proof fn lemma_eo_range(edges: Seq<Edge>, axis: Axis)
    ensures
        eo_value(edges, axis) < 2048,
        eo_outer_value(edges) < 128,
{
    lemma_digits_range(eo_digits(edges, axis, eo_places()), 2);
    lemma_digits_range(eo_digits(edges, Axis::Z, eo_outer_places()), 2);
    assert(power(2, 11) == 2048 && power(2, 7) == 128) by {
        reveal_with_fuel(power, 12);
    }
}

/// The corner orientation coordinate lies below its size.
pub proof fn lemma_co_range(corners: Seq<Corner>)
    ensures
        co_value(corners) < 2187,
{
    lemma_digits_range(co_digits(corners), 3);
    assert(power(3, 7) == 2187) by {
        reveal_with_fuel(power, 8);
    }
}

/// The rank of a set of places among the first `n` is zero where none is
/// marked, and else lies below the number of ways to choose as many of `n`
/// places as are marked, or four where more are.
pub proof fn lemma_choose_bound(marks: Seq<bool>, n: int)
    requires
        0 <= n,
    ensures
        marks_before(marks, n) == 0 ==> choose_rank(marks, n) == 0,
        1 <= marks_before(marks, n) <= 4 ==> choose_rank(marks, n) < binom(
            n as nat,
            marks_before(marks, n),
        ),
        marks_before(marks, n) > 4 ==> choose_rank(marks, n) < binom(n as nat, 4),
    decreases n,
{
    if n > 0 {
        lemma_choose_bound(marks, n - 1);
        let found = marks_before(marks, n - 1);
        assert(binom((n - 1) as nat, 0) == 1);
        lemma_binom_grows((n - 1) as nat, n as nat, 4);
        if found <= 4 {
            lemma_binom_grows((n - 1) as nat, n as nat, found);
        }
    }
}

/// The coordinates of the slices and of the corner orbits lie below their
/// sizes.
pub proof fn lemma_slice_ranges(edges: Seq<Edge>, corners: Seq<Corner>)
    ensures
        ud_slice_value(edges) < 495,
        fb_slice_value(edges) < 70,
        orbit_value(corners) < 70,
{
    let ud = Seq::new(12, |k: int| spec_in_ud_slice(edges[ud_slice_places()[k]].id));
    let fb = Seq::new(8, |k: int| spec_in_fb_slice(edges[fb_slice_places()[k]].id));
    let orbit = Seq::new(8, |k: int| spec_in_first_orbit(corners[orbit_places()[k]].id));
    lemma_binom_values();
    lemma_choose_bound(ud, 12);
    lemma_choose_bound(fb, 8);
    lemma_choose_bound(orbit, 8);
    lemma_marks_at_most(ud, 12);
    lemma_marks_at_most(fb, 8);
    lemma_marks_at_most(orbit, 8);
}

/// No more places are marked among the first `n` than there are.
pub proof fn lemma_marks_at_most(marks: Seq<bool>, n: int)
    requires
        0 <= n,
    ensures
        marks_before(marks, n) <= n,
    decreases n,
{
    if n > 0 {
        lemma_marks_at_most(marks, n - 1);
    }
}

/// The parity, the twist of the orbits and the composite coordinates lie
/// below their sizes.
pub proof fn lemma_composite_ranges(edges: Seq<Edge>, corners: Seq<Corner>)
    ensures
        parity_value(corners) < 2,
        orbit_twist_value(corners) < 3,
        drud_value(edges, corners) < 495 * 2187,
        htrdrud_value(edges, corners) < 70 * 70 * 6,
{
    lemma_slice_ranges(edges, corners);
    lemma_co_range(corners);
}

} // verus!
