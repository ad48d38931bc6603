//! Coordinates: projections of the cube state onto bounded integer ranges.

use vstd::prelude::*;
use vstd::std_specs::convert::{FromSpec, FromSpecImpl};
use crate::cube::{Axis, Corner, CornerCubieCube, CubieCube, Edge, EdgeCubieCube};
use crate::encode::{
    choose_index, co_value, compose, corner_id_list, corner_ids, corner_orientation_index,
    decompose, digits_value, drud_value, edge_id_list, edge_ids, eo_digits, eo_outer_places,
    eo_outer_value, eo_places, eo_value, fb_slice_places, fb_slice_value, in_fb_slice,
    in_first_orbit, in_ud_slice, htrdrud_value, item_or_zero, labels_of_orbit,
    lemma_factorial_values, orbit_places, orbit_twist_value, orbit_value, orientation_index,
    pairing, parity_value, perm_rank, permutation_parity, permutation_rank, power, spec_compose,
    spec_decompose, ud_slice_places, ud_slice_value,
};

verus! {

/// A coordinate kind with `SIZE` values: every coordinate is a number below
/// `SIZE`.
pub trait Coord<const SIZE: usize>: Into<usize> + Copy + Clone + Eq + PartialEq {
    /// The number that the coordinate stands for.
    spec fn value(&self) -> nat;

    /// The number of values of this coordinate kind.
    fn size() -> (r: usize)
        ensures
            r == SIZE,
    {
        SIZE
    }

    fn val(&self) -> (r: usize)
        ensures
            r == self.value(),
            r < SIZE,
    ;
}

/// The size of the coordinate of the first phase after edge orientation:
/// the slice between up and down and the corner orientation.
pub const DRUDEOFB_SIZE: usize = 495 * 2187;

/// The size of the coordinate of the half-turn reduction: the slice
/// between front and back, the corner orbits, their twist and the parity.
pub const HTRDRUD_SIZE: usize = 70 * 70 * 6;

/// The orientation of the edges with respect to the up/down axis.
#[derive(Copy, Clone, Debug, PartialEq, Eq, Hash)]
pub struct EOCoordUD(pub(crate) u16);

impl EOCoordUD {
    /// The coordinate that stands for the number `v`.
    pub closed spec fn of_value(v: nat) -> Self {
        EOCoordUD(v as u16)
    }

    /// The coordinate that stands for a number below the size of the kind
    /// has that number as its value.
    pub proof fn lemma_of_value(v: nat)
        requires
            v < 2048,
        ensures
            Self::of_value(v).value() == v,
    {
    }

    #[verifier::type_invariant]
    spec fn in_range(self) -> bool {
        self.0 < 2048
    }
}

impl Coord<2048> for EOCoordUD {
    closed spec fn value(&self) -> nat {
        self.0 as nat
    }

    fn val(&self) -> (r: usize) {
        proof {
            use_type_invariant(self);
        }
        self.0 as usize
    }
}

impl<'a> From<&'a [Edge; 12]> for EOCoordUD {
    fn from(value: &'a [Edge; 12]) -> (r: Self)
        ensures
            r.value() == eo_value(value@, Axis::Y),
    {
        let places: [usize; 11] = [0, 1, 2, 3, 4, 5, 6, 7, 8, 9, 10];
        proof {
            assert(places@.map_values(|p: usize| p as int) =~= eo_places());
            reveal_with_fuel(power, 12);
        }
        EOCoordUD(orientation_index(value, Axis::Y, places.as_slice()))
    }
}

impl<'a> FromSpecImpl<&'a [Edge; 12]> for EOCoordUD {
    open spec fn obeys_from_spec() -> bool {
        true
    }

    open spec fn from_spec(value: &'a [Edge; 12]) -> Self {
        EOCoordUD::of_value(eo_value(value@, Axis::Y))
    }
}

impl<'a> From<&'a EdgeCubieCube> for EOCoordUD {
    fn from(value: &'a EdgeCubieCube) -> (r: Self)
        ensures
            r.value() == eo_value(value.0@, Axis::Y),
    {
        EOCoordUD::from(&value.0)
    }
}

impl<'a> FromSpecImpl<&'a EdgeCubieCube> for EOCoordUD {
    open spec fn obeys_from_spec() -> bool {
        true
    }

    open spec fn from_spec(value: &'a EdgeCubieCube) -> Self {
        EOCoordUD::of_value(eo_value(value.0@, Axis::Y))
    }
}

impl<'a> From<&'a CubieCube> for EOCoordUD {
    fn from(value: &'a CubieCube) -> (r: Self)
        ensures
            r.value() == eo_value(value.edges.0@, Axis::Y),
    {
        EOCoordUD::from(&value.edges)
    }
}

impl<'a> FromSpecImpl<&'a CubieCube> for EOCoordUD {
    open spec fn obeys_from_spec() -> bool {
        true
    }

    open spec fn from_spec(value: &'a CubieCube) -> Self {
        EOCoordUD::of_value(eo_value(value.edges.0@, Axis::Y))
    }
}

/// The orientation of the edges with respect to the front/back axis.
#[derive(Copy, Clone, Debug, PartialEq, Eq, Hash)]
pub struct EOCoordFB(pub(crate) u16);

impl EOCoordFB {
    /// The coordinate that stands for the number `v`.
    pub closed spec fn of_value(v: nat) -> Self {
        EOCoordFB(v as u16)
    }

    /// The coordinate that stands for a number below the size of the kind
    /// has that number as its value.
    pub proof fn lemma_of_value(v: nat)
        requires
            v < 2048,
        ensures
            Self::of_value(v).value() == v,
    {
    }

    #[verifier::type_invariant]
    spec fn in_range(self) -> bool {
        self.0 < 2048
    }
}

impl Coord<2048> for EOCoordFB {
    closed spec fn value(&self) -> nat {
        self.0 as nat
    }

    fn val(&self) -> (r: usize) {
        proof {
            use_type_invariant(self);
        }
        self.0 as usize
    }
}

impl<'a> From<&'a [Edge; 12]> for EOCoordFB {
    fn from(value: &'a [Edge; 12]) -> (r: Self)
        ensures
            r.value() == eo_value(value@, Axis::Z),
    {
        let places: [usize; 11] = [0, 1, 2, 3, 4, 5, 6, 7, 8, 9, 10];
        proof {
            assert(places@.map_values(|p: usize| p as int) =~= eo_places());
            reveal_with_fuel(power, 12);
        }
        EOCoordFB(orientation_index(value, Axis::Z, places.as_slice()))
    }
}

impl<'a> FromSpecImpl<&'a [Edge; 12]> for EOCoordFB {
    open spec fn obeys_from_spec() -> bool {
        true
    }

    open spec fn from_spec(value: &'a [Edge; 12]) -> Self {
        EOCoordFB::of_value(eo_value(value@, Axis::Z))
    }
}

impl<'a> From<&'a EdgeCubieCube> for EOCoordFB {
    fn from(value: &'a EdgeCubieCube) -> (r: Self)
        ensures
            r.value() == eo_value(value.0@, Axis::Z),
    {
        EOCoordFB::from(&value.0)
    }
}

impl<'a> FromSpecImpl<&'a EdgeCubieCube> for EOCoordFB {
    open spec fn obeys_from_spec() -> bool {
        true
    }

    open spec fn from_spec(value: &'a EdgeCubieCube) -> Self {
        EOCoordFB::of_value(eo_value(value.0@, Axis::Z))
    }
}

impl<'a> From<&'a CubieCube> for EOCoordFB {
    fn from(value: &'a CubieCube) -> (r: Self)
        ensures
            r.value() == eo_value(value.edges.0@, Axis::Z),
    {
        EOCoordFB::from(&value.edges)
    }
}

impl<'a> FromSpecImpl<&'a CubieCube> for EOCoordFB {
    open spec fn obeys_from_spec() -> bool {
        true
    }

    open spec fn from_spec(value: &'a CubieCube) -> Self {
        EOCoordFB::of_value(eo_value(value.edges.0@, Axis::Z))
    }
}

/// The orientation of the edges with respect to the left/right axis.
#[derive(Copy, Clone, Debug, PartialEq, Eq, Hash)]
pub struct EOCoordLR(pub(crate) u16);

impl EOCoordLR {
    /// The coordinate that stands for the number `v`.
    pub closed spec fn of_value(v: nat) -> Self {
        EOCoordLR(v as u16)
    }

    /// The coordinate that stands for a number below the size of the kind
    /// has that number as its value.
    pub proof fn lemma_of_value(v: nat)
        requires
            v < 2048,
        ensures
            Self::of_value(v).value() == v,
    {
    }

    #[verifier::type_invariant]
    spec fn in_range(self) -> bool {
        self.0 < 2048
    }
}

impl Coord<2048> for EOCoordLR {
    closed spec fn value(&self) -> nat {
        self.0 as nat
    }

    fn val(&self) -> (r: usize) {
        proof {
            use_type_invariant(self);
        }
        self.0 as usize
    }
}

impl<'a> From<&'a [Edge; 12]> for EOCoordLR {
    fn from(value: &'a [Edge; 12]) -> (r: Self)
        ensures
            r.value() == eo_value(value@, Axis::X),
    {
        let places: [usize; 11] = [0, 1, 2, 3, 4, 5, 6, 7, 8, 9, 10];
        proof {
            assert(places@.map_values(|p: usize| p as int) =~= eo_places());
            reveal_with_fuel(power, 12);
        }
        EOCoordLR(orientation_index(value, Axis::X, places.as_slice()))
    }
}

impl<'a> FromSpecImpl<&'a [Edge; 12]> for EOCoordLR {
    open spec fn obeys_from_spec() -> bool {
        true
    }

    open spec fn from_spec(value: &'a [Edge; 12]) -> Self {
        EOCoordLR::of_value(eo_value(value@, Axis::X))
    }
}

impl<'a> From<&'a EdgeCubieCube> for EOCoordLR {
    fn from(value: &'a EdgeCubieCube) -> (r: Self)
        ensures
            r.value() == eo_value(value.0@, Axis::X),
    {
        EOCoordLR::from(&value.0)
    }
}

impl<'a> FromSpecImpl<&'a EdgeCubieCube> for EOCoordLR {
    open spec fn obeys_from_spec() -> bool {
        true
    }

    open spec fn from_spec(value: &'a EdgeCubieCube) -> Self {
        EOCoordLR::of_value(eo_value(value.0@, Axis::X))
    }
}

impl<'a> From<&'a CubieCube> for EOCoordLR {
    fn from(value: &'a CubieCube) -> (r: Self)
        ensures
            r.value() == eo_value(value.edges.0@, Axis::X),
    {
        EOCoordLR::from(&value.edges)
    }
}

impl<'a> FromSpecImpl<&'a CubieCube> for EOCoordLR {
    open spec fn obeys_from_spec() -> bool {
        true
    }

    open spec fn from_spec(value: &'a CubieCube) -> Self {
        EOCoordLR::of_value(eo_value(value.edges.0@, Axis::X))
    }
}

/// The orientation of the edges with respect to all three axes.
#[derive(Copy, Clone, Debug, PartialEq, Eq, Hash)]
pub struct EOCoordAll(pub EOCoordUD, pub EOCoordFB, pub EOCoordLR);

impl<'a> From<&'a [Edge; 12]> for EOCoordAll {
    fn from(value: &'a [Edge; 12]) -> (r: Self)
        ensures
            r.0.value() == eo_value(value@, Axis::Y),
            r.1.value() == eo_value(value@, Axis::Z),
            r.2.value() == eo_value(value@, Axis::X),
    {
        let ghost du = eo_digits(value@, Axis::Y, eo_places());
        let ghost df = eo_digits(value@, Axis::Z, eo_places());
        let ghost dl = eo_digits(value@, Axis::X, eo_places());
        let mut ud: u16 = 0;
        let mut fb: u16 = 0;
        let mut lr: u16 = 0;
        let mut i: usize = 11;
        proof {
            assert(du.skip(11) =~= Seq::<nat>::empty());
            assert(df.skip(11) =~= Seq::<nat>::empty());
            assert(dl.skip(11) =~= Seq::<nat>::empty());
            reveal_with_fuel(power, 12);
        }
        while i > 0
            invariant
                i <= 11,
                du == eo_digits(value@, Axis::Y, eo_places()),
                df == eo_digits(value@, Axis::Z, eo_places()),
                dl == eo_digits(value@, Axis::X, eo_places()),
                ud == digits_value(du.skip(i as int), 2),
                fb == digits_value(df.skip(i as int), 2),
                lr == digits_value(dl.skip(i as int), 2),
                ud < power(2, (11 - i) as nat),
                fb < power(2, (11 - i) as nat),
                lr < power(2, (11 - i) as nat),
                power(2, (11 - i) as nat) <= 2048,
            decreases i,
        {
            i -= 1;
            proof {
                assert(du.skip(i as int).skip(1) =~= du.skip(i as int + 1));
                assert(df.skip(i as int).skip(1) =~= df.skip(i as int + 1));
                assert(dl.skip(i as int).skip(1) =~= dl.skip(i as int + 1));
                assert(eo_places()[i as int] == i);
                reveal_with_fuel(power, 12);
            }
            let edge = value[i];
            ud = ud * 2 + (if edge.oriented_ud {
                0
            } else {
                1
            });
            fb = fb * 2 + (if edge.oriented_fb {
                0
            } else {
                1
            });
            lr = lr * 2 + (if edge.oriented_rl {
                0
            } else {
                1
            });
        }
        proof {
            assert(du.skip(0) =~= du);
            assert(df.skip(0) =~= df);
            assert(dl.skip(0) =~= dl);
            reveal_with_fuel(power, 12);
        }
        EOCoordAll(EOCoordUD(ud), EOCoordFB(fb), EOCoordLR(lr))
    }
}

impl<'a> FromSpecImpl<&'a [Edge; 12]> for EOCoordAll {
    open spec fn obeys_from_spec() -> bool {
        true
    }

    open spec fn from_spec(value: &'a [Edge; 12]) -> Self {
        EOCoordAll(
            EOCoordUD::of_value(eo_value(value@, Axis::Y)),
            EOCoordFB::of_value(eo_value(value@, Axis::Z)),
            EOCoordLR::of_value(eo_value(value@, Axis::X)),
        )
    }
}

impl<'a> From<&'a EdgeCubieCube> for EOCoordAll {
    fn from(value: &'a EdgeCubieCube) -> (r: Self)
        ensures
            r.0.value() == eo_value(value.0@, Axis::Y),
            r.1.value() == eo_value(value.0@, Axis::Z),
            r.2.value() == eo_value(value.0@, Axis::X),
    {
        EOCoordAll::from(&value.0)
    }
}

impl<'a> FromSpecImpl<&'a EdgeCubieCube> for EOCoordAll {
    open spec fn obeys_from_spec() -> bool {
        true
    }

    open spec fn from_spec(value: &'a EdgeCubieCube) -> Self {
        EOCoordAll(
            EOCoordUD::of_value(eo_value(value.0@, Axis::Y)),
            EOCoordFB::of_value(eo_value(value.0@, Axis::Z)),
            EOCoordLR::of_value(eo_value(value.0@, Axis::X)),
        )
    }
}

/// The orientation with respect to the front/back axis of the edges
/// outside the slice between up and down.
#[derive(Copy, Clone, Debug, PartialEq, Eq, Hash)]
pub struct EOCoordNoUDSlice(pub(crate) u8);

impl EOCoordNoUDSlice {
    /// The coordinate that stands for the number `v`.
    pub closed spec fn of_value(v: nat) -> Self {
        EOCoordNoUDSlice(v as u8)
    }

    /// The coordinate that stands for a number below the size of the kind
    /// has that number as its value.
    pub proof fn lemma_of_value(v: nat)
        requires
            v < 128,
        ensures
            Self::of_value(v).value() == v,
    {
    }

    #[verifier::type_invariant]
    spec fn in_range(self) -> bool {
        self.0 < 128
    }
}

impl Coord<128> for EOCoordNoUDSlice {
    closed spec fn value(&self) -> nat {
        self.0 as nat
    }

    fn val(&self) -> (r: usize) {
        proof {
            use_type_invariant(self);
        }
        self.0 as usize
    }
}

impl<'a> From<&'a EdgeCubieCube> for EOCoordNoUDSlice {
    fn from(value: &'a EdgeCubieCube) -> (r: Self)
        ensures
            r.value() == eo_outer_value(value.0@),
    {
        let places: [usize; 7] = [0, 1, 2, 3, 8, 9, 10];
        proof {
            assert(places@.map_values(|p: usize| p as int) =~= eo_outer_places());
            reveal_with_fuel(power, 8);
        }
        EOCoordNoUDSlice(orientation_index(&value.0, Axis::Z, places.as_slice()) as u8)
    }
}

impl<'a> FromSpecImpl<&'a EdgeCubieCube> for EOCoordNoUDSlice {
    open spec fn obeys_from_spec() -> bool {
        true
    }

    open spec fn from_spec(value: &'a EdgeCubieCube) -> Self {
        EOCoordNoUDSlice::of_value(eo_outer_value(value.0@))
    }
}

/// The orientation of the corners with respect to the up/down axis.
#[derive(Copy, Clone, Debug, PartialEq, Eq)]
pub struct COUDCoord(pub(crate) u16);

impl COUDCoord {
    /// The coordinate that stands for the number `v`.
    pub closed spec fn of_value(v: nat) -> Self {
        COUDCoord(v as u16)
    }

    /// The coordinate that stands for a number below the size of the kind
    /// has that number as its value.
    pub proof fn lemma_of_value(v: nat)
        requires
            v < 2187,
        ensures
            Self::of_value(v).value() == v,
    {
    }

    #[verifier::type_invariant]
    spec fn in_range(self) -> bool {
        self.0 < 2187
    }
}

impl Coord<2187> for COUDCoord {
    closed spec fn value(&self) -> nat {
        self.0 as nat
    }

    fn val(&self) -> (r: usize) {
        proof {
            use_type_invariant(self);
        }
        self.0 as usize
    }
}

impl<'a> From<&'a [Corner; 8]> for COUDCoord {
    fn from(value: &'a [Corner; 8]) -> (r: Self)
        ensures
            r.value() == co_value(value@),
    {
        COUDCoord(corner_orientation_index(value))
    }
}

impl<'a> FromSpecImpl<&'a [Corner; 8]> for COUDCoord {
    open spec fn obeys_from_spec() -> bool {
        true
    }

    open spec fn from_spec(value: &'a [Corner; 8]) -> Self {
        COUDCoord::of_value(co_value(value@))
    }
}

impl<'a> From<&'a CornerCubieCube> for COUDCoord {
    fn from(value: &'a CornerCubieCube) -> (r: Self)
        ensures
            r.value() == co_value(value.0@),
    {
        COUDCoord::from(&value.0)
    }
}

impl<'a> FromSpecImpl<&'a CornerCubieCube> for COUDCoord {
    open spec fn obeys_from_spec() -> bool {
        true
    }

    open spec fn from_spec(value: &'a CornerCubieCube) -> Self {
        COUDCoord::of_value(co_value(value.0@))
    }
}

/// The permutation of the corners.
#[derive(Copy, Clone, Debug, PartialEq, Eq)]
pub struct CPCoord(pub(crate) u16);

impl CPCoord {
    /// The coordinate that stands for the number `v`.
    pub closed spec fn of_value(v: nat) -> Self {
        CPCoord(v as u16)
    }

    /// The coordinate that stands for a number below the size of the kind
    /// has that number as its value.
    pub proof fn lemma_of_value(v: nat)
        requires
            v < 40320,
        ensures
            Self::of_value(v).value() == v,
    {
    }

    #[verifier::type_invariant]
    spec fn in_range(self) -> bool {
        self.0 < 40320
    }
}

impl Coord<40320> for CPCoord {
    closed spec fn value(&self) -> nat {
        self.0 as nat
    }

    fn val(&self) -> (r: usize) {
        proof {
            use_type_invariant(self);
        }
        self.0 as usize
    }
}

impl<'a> From<&'a [Corner; 8]> for CPCoord {
    fn from(value: &'a [Corner; 8]) -> (r: Self)
        ensures
            r.value() == perm_rank(corner_ids(value@), 8),
    {
        let ids = corner_id_list(value);
        proof {
            lemma_factorial_values();
        }
        CPCoord(permutation_rank(&ids) as u16)
    }
}

impl<'a> FromSpecImpl<&'a [Corner; 8]> for CPCoord {
    open spec fn obeys_from_spec() -> bool {
        true
    }

    open spec fn from_spec(value: &'a [Corner; 8]) -> Self {
        CPCoord::of_value(perm_rank(corner_ids(value@), 8))
    }
}

impl<'a> From<&'a CornerCubieCube> for CPCoord {
    fn from(value: &'a CornerCubieCube) -> (r: Self)
        ensures
            r.value() == perm_rank(corner_ids(value.0@), 8),
    {
        CPCoord::from(&value.0)
    }
}

impl<'a> FromSpecImpl<&'a CornerCubieCube> for CPCoord {
    open spec fn obeys_from_spec() -> bool {
        true
    }

    open spec fn from_spec(value: &'a CornerCubieCube) -> Self {
        CPCoord::of_value(perm_rank(corner_ids(value.0@), 8))
    }
}

/// The permutation of the edges.
#[derive(Copy, Clone, Debug, PartialEq, Eq)]
pub struct EPCoord(pub(crate) u32);

impl EPCoord {
    /// The coordinate that stands for the number `v`.
    pub closed spec fn of_value(v: nat) -> Self {
        EPCoord(v as u32)
    }

    /// The coordinate that stands for a number below the size of the kind
    /// has that number as its value.
    pub proof fn lemma_of_value(v: nat)
        requires
            v < 479001600,
        ensures
            Self::of_value(v).value() == v,
    {
    }

    #[verifier::type_invariant]
    spec fn in_range(self) -> bool {
        self.0 < 479001600
    }
}

impl Coord<479001600> for EPCoord {
    closed spec fn value(&self) -> nat {
        self.0 as nat
    }

    fn val(&self) -> (r: usize) {
        proof {
            use_type_invariant(self);
        }
        self.0 as usize
    }
}

impl<'a> From<&'a [Edge; 12]> for EPCoord {
    fn from(value: &'a [Edge; 12]) -> (r: Self)
        ensures
            r.value() == perm_rank(edge_ids(value@), 12),
    {
        let ids = edge_id_list(value);
        proof {
            lemma_factorial_values();
        }
        EPCoord(permutation_rank(&ids) as u32)
    }
}

impl<'a> FromSpecImpl<&'a [Edge; 12]> for EPCoord {
    open spec fn obeys_from_spec() -> bool {
        true
    }

    open spec fn from_spec(value: &'a [Edge; 12]) -> Self {
        EPCoord::of_value(perm_rank(edge_ids(value@), 12))
    }
}

impl<'a> From<&'a EdgeCubieCube> for EPCoord {
    fn from(value: &'a EdgeCubieCube) -> (r: Self)
        ensures
            r.value() == perm_rank(edge_ids(value.0@), 12),
    {
        EPCoord::from(&value.0)
    }
}

impl<'a> FromSpecImpl<&'a EdgeCubieCube> for EPCoord {
    open spec fn obeys_from_spec() -> bool {
        true
    }

    open spec fn from_spec(value: &'a EdgeCubieCube) -> Self {
        EPCoord::of_value(perm_rank(edge_ids(value.0@), 12))
    }
}

/// Which positions hold the edges of the slice between up and down: zero
/// where they are all in the slice, in whatever order.
#[derive(Copy, Clone, Debug, PartialEq, Eq)]
pub struct UDSliceUnsortedCoord(pub(crate) u16);

impl UDSliceUnsortedCoord {
    /// The coordinate that stands for the number `v`.
    pub closed spec fn of_value(v: nat) -> Self {
        UDSliceUnsortedCoord(v as u16)
    }

    /// The coordinate that stands for a number below the size of the kind
    /// has that number as its value.
    pub proof fn lemma_of_value(v: nat)
        requires
            v < 495,
        ensures
            Self::of_value(v).value() == v,
    {
    }

    #[verifier::type_invariant]
    spec fn in_range(self) -> bool {
        self.0 < 495
    }
}

impl Coord<495> for UDSliceUnsortedCoord {
    closed spec fn value(&self) -> nat {
        self.0 as nat
    }

    fn val(&self) -> (r: usize) {
        proof {
            use_type_invariant(self);
        }
        self.0 as usize
    }
}

impl<'a> From<&'a EdgeCubieCube> for UDSliceUnsortedCoord {
    fn from(value: &'a EdgeCubieCube) -> (r: Self)
        ensures
            r.value() == ud_slice_value(value.0@),
    {
        let places: [usize; 12] = [4, 5, 6, 7, 0, 1, 2, 3, 8, 9, 10, 11];
        let ghost wanted = Seq::new(12, |k: int| in_ud_slice(value.0@[ud_slice_places()[k]].id));
        proof {
            assert(places@.map_values(|p: usize| p as int) =~= ud_slice_places());
        }
        let mut marks: Vec<bool> = Vec::new();
        let mut k: usize = 0;
        while k < 12
            invariant
                k <= 12,
                places@.map_values(|p: usize| p as int) == ud_slice_places(),
                wanted == Seq::new(12, |k: int| in_ud_slice(value.0@[ud_slice_places()[k]].id)),
                marks@ == wanted.take(k as int),
            decreases 12 - k,
        {
            proof {
                assert(places@.map_values(|p: usize| p as int)[k as int] == places@[k as int]);
            }
            marks.push(in_ud_slice(value.0[places[k]].id));
            proof {
                assert(wanted.take(k as int + 1) =~= wanted.take(k as int).push(wanted[k as int]));
                assert(marks@ =~= wanted.take(k as int + 1));
            }
            k += 1;
        }
        proof {
            assert(wanted.take(12) =~= wanted);
        }
        UDSliceUnsortedCoord(choose_index(&marks) as u16)
    }
}

impl<'a> FromSpecImpl<&'a EdgeCubieCube> for UDSliceUnsortedCoord {
    open spec fn obeys_from_spec() -> bool {
        true
    }

    open spec fn from_spec(value: &'a EdgeCubieCube) -> Self {
        UDSliceUnsortedCoord::of_value(ud_slice_value(value.0@))
    }
}

/// Which positions outside the slice between up and down hold the edges of
/// the slice between front and back.
#[derive(Copy, Clone, Debug, PartialEq, Eq)]
pub struct FBSliceUnsortedCoord(pub(crate) u8);

impl FBSliceUnsortedCoord {
    /// The coordinate that stands for the number `v`.
    pub closed spec fn of_value(v: nat) -> Self {
        FBSliceUnsortedCoord(v as u8)
    }

    /// The coordinate that stands for a number below the size of the kind
    /// has that number as its value.
    pub proof fn lemma_of_value(v: nat)
        requires
            v < 70,
        ensures
            Self::of_value(v).value() == v,
    {
    }

    #[verifier::type_invariant]
    spec fn in_range(self) -> bool {
        self.0 < 70
    }
}

impl Coord<70> for FBSliceUnsortedCoord {
    closed spec fn value(&self) -> nat {
        self.0 as nat
    }

    fn val(&self) -> (r: usize) {
        proof {
            use_type_invariant(self);
        }
        self.0 as usize
    }
}

impl<'a> From<&'a EdgeCubieCube> for FBSliceUnsortedCoord {
    fn from(value: &'a EdgeCubieCube) -> (r: Self)
        ensures
            r.value() == fb_slice_value(value.0@),
    {
        let places: [usize; 8] = [1, 3, 9, 11, 0, 2, 8, 10];
        let ghost wanted = Seq::new(8, |k: int| in_fb_slice(value.0@[fb_slice_places()[k]].id));
        proof {
            assert(places@.map_values(|p: usize| p as int) =~= fb_slice_places());
        }
        let mut marks: Vec<bool> = Vec::new();
        let mut k: usize = 0;
        while k < 8
            invariant
                k <= 8,
                places@.map_values(|p: usize| p as int) == fb_slice_places(),
                wanted == Seq::new(8, |k: int| in_fb_slice(value.0@[fb_slice_places()[k]].id)),
                marks@ == wanted.take(k as int),
            decreases 8 - k,
        {
            proof {
                assert(places@.map_values(|p: usize| p as int)[k as int] == places@[k as int]);
            }
            marks.push(in_fb_slice(value.0[places[k]].id));
            proof {
                assert(wanted.take(k as int + 1) =~= wanted.take(k as int).push(wanted[k as int]));
                assert(marks@ =~= wanted.take(k as int + 1));
            }
            k += 1;
        }
        proof {
            assert(wanted.take(8) =~= wanted);
        }
        FBSliceUnsortedCoord(choose_index(&marks) as u8)
    }
}

impl<'a> FromSpecImpl<&'a EdgeCubieCube> for FBSliceUnsortedCoord {
    open spec fn obeys_from_spec() -> bool {
        true
    }

    open spec fn from_spec(value: &'a EdgeCubieCube) -> Self {
        FBSliceUnsortedCoord::of_value(fb_slice_value(value.0@))
    }
}

/// Which positions hold the corners of the first orbit.
#[derive(Copy, Clone, Debug, PartialEq, Eq)]
pub struct CPOrbitUnsortedCoord(pub(crate) u8);

impl CPOrbitUnsortedCoord {
    /// The coordinate that stands for the number `v`.
    pub closed spec fn of_value(v: nat) -> Self {
        CPOrbitUnsortedCoord(v as u8)
    }

    /// The coordinate that stands for a number below the size of the kind
    /// has that number as its value.
    pub proof fn lemma_of_value(v: nat)
        requires
            v < 70,
        ensures
            Self::of_value(v).value() == v,
    {
    }

    #[verifier::type_invariant]
    spec fn in_range(self) -> bool {
        self.0 < 70
    }
}

impl Coord<70> for CPOrbitUnsortedCoord {
    closed spec fn value(&self) -> nat {
        self.0 as nat
    }

    fn val(&self) -> (r: usize) {
        proof {
            use_type_invariant(self);
        }
        self.0 as usize
    }
}

impl<'a> From<&'a CornerCubieCube> for CPOrbitUnsortedCoord {
    fn from(value: &'a CornerCubieCube) -> (r: Self)
        ensures
            r.value() == orbit_value(value.0@),
    {
        let places: [usize; 8] = [0, 2, 4, 6, 1, 3, 5, 7];
        let ghost wanted = Seq::new(8, |k: int| in_first_orbit(value.0@[orbit_places()[k]].id));
        proof {
            assert(places@.map_values(|p: usize| p as int) =~= orbit_places());
        }
        let mut marks: Vec<bool> = Vec::new();
        let mut k: usize = 0;
        while k < 8
            invariant
                k <= 8,
                places@.map_values(|p: usize| p as int) == orbit_places(),
                wanted == Seq::new(8, |k: int| in_first_orbit(value.0@[orbit_places()[k]].id)),
                marks@ == wanted.take(k as int),
            decreases 8 - k,
        {
            proof {
                assert(places@.map_values(|p: usize| p as int)[k as int] == places@[k as int]);
            }
            marks.push(in_first_orbit(value.0[places[k]].id));
            proof {
                assert(wanted.take(k as int + 1) =~= wanted.take(k as int).push(wanted[k as int]));
                assert(marks@ =~= wanted.take(k as int + 1));
            }
            k += 1;
        }
        proof {
            assert(wanted.take(8) =~= wanted);
        }
        CPOrbitUnsortedCoord(choose_index(&marks) as u8)
    }
}

impl<'a> FromSpecImpl<&'a CornerCubieCube> for CPOrbitUnsortedCoord {
    open spec fn obeys_from_spec() -> bool {
        true
    }

    open spec fn from_spec(value: &'a CornerCubieCube) -> Self {
        CPOrbitUnsortedCoord::of_value(orbit_value(value.0@))
    }
}

/// The twist of the corner orbits.
#[derive(Copy, Clone, Debug, PartialEq, Eq)]
pub struct CPOrbitTwistParityCoord(pub(crate) u8);

impl CPOrbitTwistParityCoord {
    /// The coordinate that stands for the number `v`.
    pub closed spec fn of_value(v: nat) -> Self {
        CPOrbitTwistParityCoord(v as u8)
    }

    /// The coordinate that stands for a number below the size of the kind
    /// has that number as its value.
    pub proof fn lemma_of_value(v: nat)
        requires
            v < 3,
        ensures
            Self::of_value(v).value() == v,
    {
    }

    #[verifier::type_invariant]
    spec fn in_range(self) -> bool {
        self.0 < 3
    }
}

impl Coord<3> for CPOrbitTwistParityCoord {
    closed spec fn value(&self) -> nat {
        self.0 as nat
    }

    fn val(&self) -> (r: usize) {
        proof {
            use_type_invariant(self);
        }
        self.0 as usize
    }
}

impl<'a> From<&'a CornerCubieCube> for CPOrbitTwistParityCoord {
    fn from(value: &'a CornerCubieCube) -> (r: Self)
        ensures
            r.value() == orbit_twist_value(value.0@),
    {
        let a = labels_of_orbit(&value.0, true);
        let b = labels_of_orbit(&value.0, false);
        let twist = if pairing(item_or_zero(&b, 0), item_or_zero(&b, 1)) == 0 {
            pairing(item_or_zero(&a, 0), item_or_zero(&a, 1))
        } else if pairing(item_or_zero(&b, 0), item_or_zero(&b, 2)) == 0 {
            pairing(item_or_zero(&a, 0), item_or_zero(&a, 2))
        } else {
            pairing(item_or_zero(&a, 0), item_or_zero(&a, 3))
        };
        CPOrbitTwistParityCoord(twist)
    }
}

impl<'a> FromSpecImpl<&'a CornerCubieCube> for CPOrbitTwistParityCoord {
    open spec fn obeys_from_spec() -> bool {
        true
    }

    open spec fn from_spec(value: &'a CornerCubieCube) -> Self {
        CPOrbitTwistParityCoord::of_value(orbit_twist_value(value.0@))
    }
}

/// The parity of the corner permutation.
#[derive(Copy, Clone, Debug, PartialEq, Eq)]
pub struct ParityCoord(pub(crate) bool);

impl ParityCoord {
    /// The coordinate that stands for the number `v`.
    pub closed spec fn of_value(v: nat) -> Self {
        ParityCoord(v == 1)
    }

    /// The coordinate that stands for a number below the size of the kind
    /// has that number as its value.
    pub proof fn lemma_of_value(v: nat)
        requires
            v < 2,
        ensures
            Self::of_value(v).value() == v,
    {
    }

    #[verifier::type_invariant]
    spec fn in_range(self) -> bool {
        true
    }
}

impl Coord<2> for ParityCoord {
    closed spec fn value(&self) -> nat {
        if self.0 {
            1
        } else {
            0
        }
    }

    fn val(&self) -> (r: usize) {
        proof {
            use_type_invariant(self);
        }
        if self.0 {
            1
        } else {
            0
        }
    }
}

impl<'a> From<&'a CornerCubieCube> for ParityCoord {
    fn from(value: &'a CornerCubieCube) -> (r: Self)
        ensures
            r.value() == parity_value(value.0@),
    {
        let ids = corner_id_list(&value.0);
        ParityCoord(permutation_parity(&ids))
    }
}

impl<'a> FromSpecImpl<&'a CornerCubieCube> for ParityCoord {
    open spec fn obeys_from_spec() -> bool {
        true
    }

    open spec fn from_spec(value: &'a CornerCubieCube) -> Self {
        ParityCoord::of_value(parity_value(value.0@))
    }
}

/// The slice between up and down together with the corner orientation:
/// zero where the cube, its edges oriented with respect to front and back,
/// can be solved without quarter turns of the side faces.
#[derive(Copy, Clone, Debug, PartialEq, Eq, Hash)]
pub struct DRUDEOFBCoord(pub(crate) u32);

/// The coordinate with the one value zero, for what every cube is ready
/// for.
#[derive(Copy, Clone, Debug, PartialEq, Eq, Hash)]
pub struct ZeroCoord;

impl Coord<1> for ZeroCoord {
    open spec fn value(&self) -> nat {
        0
    }

    fn val(&self) -> (r: usize) {
        0
    }
}

impl<'a> From<&'a CubieCube> for ZeroCoord {
    fn from(value: &'a CubieCube) -> (r: Self) {
        ZeroCoord
    }
}

impl<'a> FromSpecImpl<&'a CubieCube> for ZeroCoord {
    open spec fn obeys_from_spec() -> bool {
        true
    }

    open spec fn from_spec(value: &'a CubieCube) -> Self {
        ZeroCoord
    }
}

impl<'a> From<&'a EdgeCubieCube> for ZeroCoord {
    fn from(value: &'a EdgeCubieCube) -> (r: Self) {
        ZeroCoord
    }
}

impl<'a> FromSpecImpl<&'a EdgeCubieCube> for ZeroCoord {
    open spec fn obeys_from_spec() -> bool {
        true
    }

    open spec fn from_spec(value: &'a EdgeCubieCube) -> Self {
        ZeroCoord
    }
}

impl<'a> From<&'a CornerCubieCube> for ZeroCoord {
    fn from(value: &'a CornerCubieCube) -> (r: Self) {
        ZeroCoord
    }
}

impl<'a> FromSpecImpl<&'a CornerCubieCube> for ZeroCoord {
    open spec fn obeys_from_spec() -> bool {
        true
    }

    open spec fn from_spec(value: &'a CornerCubieCube) -> Self {
        ZeroCoord
    }
}

impl DRUDEOFBCoord {
    /// The coordinate that stands for the number `v`.
    pub closed spec fn of_value(v: nat) -> Self {
        DRUDEOFBCoord(v as u32)
    }

    /// The coordinate that stands for a number below the size of the kind
    /// has that number as its value.
    pub proof fn lemma_of_value(v: nat)
        requires
            v < DRUDEOFB_SIZE,
        ensures
            Self::of_value(v).value() == v,
    {
    }

    #[verifier::type_invariant]
    spec fn in_range(self) -> bool {
        self.0 < DRUDEOFB_SIZE
    }
}

impl Coord<DRUDEOFB_SIZE> for DRUDEOFBCoord {
    closed spec fn value(&self) -> nat {
        self.0 as nat
    }

    fn val(&self) -> (r: usize) {
        proof {
            use_type_invariant(self);
        }
        self.0 as usize
    }
}

impl<'a> From<&'a CubieCube> for DRUDEOFBCoord {
    fn from(value: &'a CubieCube) -> (r: Self)
        ensures
            r.value() == drud_value(value.edges.0@, value.corners.0@),
    {
        let ud_slice = UDSliceUnsortedCoord::from(&value.edges).val();
        let co = COUDCoord::from(&value.corners).val();
        let index = compose(ud_slice, co, UDSliceUnsortedCoord::size());
        DRUDEOFBCoord(index as u32)
    }
}

impl<'a> FromSpecImpl<&'a CubieCube> for DRUDEOFBCoord {
    open spec fn obeys_from_spec() -> bool {
        true
    }

    open spec fn from_spec(value: &'a CubieCube) -> Self {
        DRUDEOFBCoord::of_value(drud_value(value.edges.0@, value.corners.0@))
    }
}

/// The slice between front and back, the corner orbits, their twist and
/// the parity: zero where the cube can be solved with half turns alone,
/// given that the coordinate before it is zero.
#[derive(Copy, Clone, Debug, PartialEq, Eq, Hash)]
pub struct HTRDRUDCoord(pub(crate) u32);

impl HTRDRUDCoord {
    /// The coordinate that stands for the number `v`.
    pub closed spec fn of_value(v: nat) -> Self {
        HTRDRUDCoord(v as u32)
    }

    /// The coordinate that stands for a number below the size of the kind
    /// has that number as its value.
    pub proof fn lemma_of_value(v: nat)
        requires
            v < HTRDRUD_SIZE,
        ensures
            Self::of_value(v).value() == v,
    {
    }

    #[verifier::type_invariant]
    spec fn in_range(self) -> bool {
        self.0 < HTRDRUD_SIZE
    }
}

impl Coord<HTRDRUD_SIZE> for HTRDRUDCoord {
    closed spec fn value(&self) -> nat {
        self.0 as nat
    }

    fn val(&self) -> (r: usize) {
        proof {
            use_type_invariant(self);
        }
        self.0 as usize
    }
}

impl<'a> From<&'a CubieCube> for HTRDRUDCoord {
    fn from(value: &'a CubieCube) -> (r: Self)
        ensures
            r.value() == htrdrud_value(value.edges.0@, value.corners.0@),
    {
        let ep_fbslice_coord = FBSliceUnsortedCoord::from(&value.edges).val();
        let cp_orbit_coord = CPOrbitUnsortedCoord::from(&value.corners).val();
        let cp_orbit_twist = CPOrbitTwistParityCoord::from(&value.corners).val();
        let parity = ParityCoord::from(&value.corners).val();
        let orbits = compose(cp_orbit_coord, ep_fbslice_coord, CPOrbitUnsortedCoord::size());
        let twisted = compose(cp_orbit_twist, orbits, CPOrbitTwistParityCoord::size());
        let val = compose(parity, twisted, ParityCoord::size());
        HTRDRUDCoord(val as u32)
    }
}

impl<'a> FromSpecImpl<&'a CubieCube> for HTRDRUDCoord {
    open spec fn obeys_from_spec() -> bool {
        true
    }

    open spec fn from_spec(value: &'a CubieCube) -> Self {
        HTRDRUDCoord::of_value(htrdrud_value(value.edges.0@, value.corners.0@))
    }
}

impl DRUDEOFBCoord {
    /// The two coordinates that this one is composed of: that of the slice
    /// between up and down, and the corner orientation.
    pub fn parts(&self) -> (r: (usize, usize))
        ensures
            (r.0 as nat, r.1 as nat) == spec_decompose(self.value(), 495),
    {
        decompose(self.val(), 495)
    }
}

impl HTRDRUDCoord {
    /// The coordinates that this one is composed of: the parity, the
    /// twist, the corner orbits and the slice between front and back.
    pub fn parts(&self) -> (r: (usize, usize, usize, usize))
        ensures
            r.0 < 2,
            r.1 < 3,
            r.2 < 70,
            self.value() == spec_compose(
                r.0 as nat,
                spec_compose(r.1 as nat, spec_compose(r.2 as nat, r.3 as nat, 70), 3),
                2,
            ),
    {
        let (parity, twisted) = decompose(self.val(), 2);
        let (twist, orbits) = decompose(twisted, 3);
        let (orbit, slice) = decompose(orbits, 70);
        proof {
            vstd::arithmetic::div_mod::lemma_fundamental_div_mod(orbits as int, 70);
            vstd::arithmetic::div_mod::lemma_fundamental_div_mod(twisted as int, 3);
            vstd::arithmetic::div_mod::lemma_fundamental_div_mod(self.value() as int, 2);
        }
        (parity, twist, orbit, slice)
    }
}

impl From<EOCoordUD> for usize {
    fn from(coord: EOCoordUD) -> (r: usize)
        ensures
            r == coord.value(),
    {
        coord.val()
    }
}

impl FromSpecImpl<EOCoordUD> for usize {
    open spec fn obeys_from_spec() -> bool {
        true
    }

    open spec fn from_spec(coord: EOCoordUD) -> usize {
        coord.value() as usize
    }
}

impl From<EOCoordFB> for usize {
    fn from(coord: EOCoordFB) -> (r: usize)
        ensures
            r == coord.value(),
    {
        coord.val()
    }
}

impl FromSpecImpl<EOCoordFB> for usize {
    open spec fn obeys_from_spec() -> bool {
        true
    }

    open spec fn from_spec(coord: EOCoordFB) -> usize {
        coord.value() as usize
    }
}

impl From<EOCoordLR> for usize {
    fn from(coord: EOCoordLR) -> (r: usize)
        ensures
            r == coord.value(),
    {
        coord.val()
    }
}

impl FromSpecImpl<EOCoordLR> for usize {
    open spec fn obeys_from_spec() -> bool {
        true
    }

    open spec fn from_spec(coord: EOCoordLR) -> usize {
        coord.value() as usize
    }
}

impl From<EOCoordNoUDSlice> for usize {
    fn from(coord: EOCoordNoUDSlice) -> (r: usize)
        ensures
            r == coord.value(),
    {
        coord.val()
    }
}

impl FromSpecImpl<EOCoordNoUDSlice> for usize {
    open spec fn obeys_from_spec() -> bool {
        true
    }

    open spec fn from_spec(coord: EOCoordNoUDSlice) -> usize {
        coord.value() as usize
    }
}

impl From<COUDCoord> for usize {
    fn from(coord: COUDCoord) -> (r: usize)
        ensures
            r == coord.value(),
    {
        coord.val()
    }
}

impl FromSpecImpl<COUDCoord> for usize {
    open spec fn obeys_from_spec() -> bool {
        true
    }

    open spec fn from_spec(coord: COUDCoord) -> usize {
        coord.value() as usize
    }
}

impl From<CPCoord> for usize {
    fn from(coord: CPCoord) -> (r: usize)
        ensures
            r == coord.value(),
    {
        coord.val()
    }
}

impl FromSpecImpl<CPCoord> for usize {
    open spec fn obeys_from_spec() -> bool {
        true
    }

    open spec fn from_spec(coord: CPCoord) -> usize {
        coord.value() as usize
    }
}

impl From<EPCoord> for usize {
    fn from(coord: EPCoord) -> (r: usize)
        ensures
            r == coord.value(),
    {
        coord.val()
    }
}

impl FromSpecImpl<EPCoord> for usize {
    open spec fn obeys_from_spec() -> bool {
        true
    }

    open spec fn from_spec(coord: EPCoord) -> usize {
        coord.value() as usize
    }
}

impl From<UDSliceUnsortedCoord> for usize {
    fn from(coord: UDSliceUnsortedCoord) -> (r: usize)
        ensures
            r == coord.value(),
    {
        coord.val()
    }
}

impl FromSpecImpl<UDSliceUnsortedCoord> for usize {
    open spec fn obeys_from_spec() -> bool {
        true
    }

    open spec fn from_spec(coord: UDSliceUnsortedCoord) -> usize {
        coord.value() as usize
    }
}

impl From<FBSliceUnsortedCoord> for usize {
    fn from(coord: FBSliceUnsortedCoord) -> (r: usize)
        ensures
            r == coord.value(),
    {
        coord.val()
    }
}

impl FromSpecImpl<FBSliceUnsortedCoord> for usize {
    open spec fn obeys_from_spec() -> bool {
        true
    }

    open spec fn from_spec(coord: FBSliceUnsortedCoord) -> usize {
        coord.value() as usize
    }
}

impl From<CPOrbitUnsortedCoord> for usize {
    fn from(coord: CPOrbitUnsortedCoord) -> (r: usize)
        ensures
            r == coord.value(),
    {
        coord.val()
    }
}

impl FromSpecImpl<CPOrbitUnsortedCoord> for usize {
    open spec fn obeys_from_spec() -> bool {
        true
    }

    open spec fn from_spec(coord: CPOrbitUnsortedCoord) -> usize {
        coord.value() as usize
    }
}

impl From<CPOrbitTwistParityCoord> for usize {
    fn from(coord: CPOrbitTwistParityCoord) -> (r: usize)
        ensures
            r == coord.value(),
    {
        coord.val()
    }
}

impl FromSpecImpl<CPOrbitTwistParityCoord> for usize {
    open spec fn obeys_from_spec() -> bool {
        true
    }

    open spec fn from_spec(coord: CPOrbitTwistParityCoord) -> usize {
        coord.value() as usize
    }
}

impl From<ParityCoord> for usize {
    fn from(coord: ParityCoord) -> (r: usize)
        ensures
            r == coord.value(),
    {
        coord.val()
    }
}

impl FromSpecImpl<ParityCoord> for usize {
    open spec fn obeys_from_spec() -> bool {
        true
    }

    open spec fn from_spec(coord: ParityCoord) -> usize {
        coord.value() as usize
    }
}

impl From<DRUDEOFBCoord> for usize {
    fn from(coord: DRUDEOFBCoord) -> (r: usize)
        ensures
            r == coord.value(),
    {
        coord.val()
    }
}

impl FromSpecImpl<DRUDEOFBCoord> for usize {
    open spec fn obeys_from_spec() -> bool {
        true
    }

    open spec fn from_spec(coord: DRUDEOFBCoord) -> usize {
        coord.value() as usize
    }
}

impl From<HTRDRUDCoord> for usize {
    fn from(coord: HTRDRUDCoord) -> (r: usize)
        ensures
            r == coord.value(),
    {
        coord.val()
    }
}

impl FromSpecImpl<HTRDRUDCoord> for usize {
    open spec fn obeys_from_spec() -> bool {
        true
    }

    open spec fn from_spec(coord: HTRDRUDCoord) -> usize {
        coord.value() as usize
    }
}

impl From<ZeroCoord> for usize {
    fn from(coord: ZeroCoord) -> (r: usize)
        ensures
            r == coord.value(),
    {
        coord.val()
    }
}

impl FromSpecImpl<ZeroCoord> for usize {
    open spec fn obeys_from_spec() -> bool {
        true
    }

    open spec fn from_spec(coord: ZeroCoord) -> usize {
        coord.value() as usize
    }
}

/// The two ways to compute the edge orientation agree: all three axes in
/// one pass over the edges give the coordinates that each axis gives by
/// itself, and the cube gives what its array of edges gives.
pub proof fn lemma_edge_orientation_agrees(edges: &EdgeCubieCube)
    ensures
        <EOCoordAll as FromSpec<&[Edge; 12]>>::from_spec(&edges.0) == EOCoordAll(
            <EOCoordUD as FromSpec<&[Edge; 12]>>::from_spec(&edges.0),
            <EOCoordFB as FromSpec<&[Edge; 12]>>::from_spec(&edges.0),
            <EOCoordLR as FromSpec<&[Edge; 12]>>::from_spec(&edges.0),
        ),
        <EOCoordAll as FromSpec<&EdgeCubieCube>>::from_spec(edges) == <EOCoordAll as FromSpec<
            &[Edge; 12],
        >>::from_spec(&edges.0),
        <EOCoordUD as FromSpec<&EdgeCubieCube>>::from_spec(edges) == <EOCoordUD as FromSpec<
            &[Edge; 12],
        >>::from_spec(&edges.0),
        <EOCoordFB as FromSpec<&EdgeCubieCube>>::from_spec(edges) == <EOCoordFB as FromSpec<
            &[Edge; 12],
        >>::from_spec(&edges.0),
        <EOCoordLR as FromSpec<&EdgeCubieCube>>::from_spec(edges) == <EOCoordLR as FromSpec<
            &[Edge; 12],
        >>::from_spec(&edges.0),
{
}

} // verus!
