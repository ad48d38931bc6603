use cubelib::coord::{
    COUDCoord, CPCoord, CPOrbitTwistParityCoord, CPOrbitUnsortedCoord, Coord,
    DRUDEOFBCoord, EOCoordAll, EOCoordFB, EOCoordLR, EOCoordNoUDSlice, EOCoordUD, EPCoord,
    FBSliceUnsortedCoord, HTRDRUDCoord, ParityCoord, UDSliceUnsortedCoord, DRUDEOFB_SIZE,
    HTRDRUD_SIZE,
};
use cubelib::cube::{Corner, CubieCube, Edge, Face, Move, Turn, Turnable};
use cubelib::encode::{compose, decompose};

fn parse(scramble: &str) -> Vec<Move> {
    scramble
        .split_whitespace()
        .map(|token| {
            let mut chars = token.chars();
            let face = match chars.next() {
                Some('U') => Face::Up,
                Some('D') => Face::Down,
                Some('F') => Face::Front,
                Some('B') => Face::Back,
                Some('L') => Face::Left,
                Some('R') => Face::Right,
                _ => panic!("unknown face"),
            };
            let turn = match chars.next() {
                None => Turn::Clockwise,
                Some('2') => Turn::Half,
                Some('\'') => Turn::CounterClockwise,
                _ => panic!("unknown turn"),
            };
            Move(face, turn)
        })
        .collect()
}

fn scrambled(scramble: &str) -> CubieCube {
    let mut c = CubieCube::new_solved();
    for m in parse(scramble) {
        c.turn(m);
    }
    c
}

/// All coordinates of a state, in the order: edge orientation with respect
/// to up/down, front/back, left/right; outer edge orientation; corner
/// orientation; corner permutation; edge permutation; the two slices; the
/// orbits; their twist; the parity; the two composite coordinates.
fn all_coords(c: &CubieCube) -> [usize; 14] {
    [
        EOCoordUD::from(c).val(),
        EOCoordFB::from(c).val(),
        EOCoordLR::from(c).val(),
        EOCoordNoUDSlice::from(&c.edges).val(),
        COUDCoord::from(&c.corners).val(),
        CPCoord::from(&c.corners).val(),
        EPCoord::from(&c.edges).val(),
        UDSliceUnsortedCoord::from(&c.edges).val(),
        FBSliceUnsortedCoord::from(&c.edges).val(),
        CPOrbitUnsortedCoord::from(&c.corners).val(),
        CPOrbitTwistParityCoord::from(&c.corners).val(),
        ParityCoord::from(&c.corners).val(),
        DRUDEOFBCoord::from(c).val(),
        HTRDRUDCoord::from(c).val(),
    ]
}

#[test]
fn sizes_of_the_coordinate_kinds() {
    assert_eq!(<EOCoordUD as Coord<2048>>::size(), 2048);
    assert_eq!(<EOCoordFB as Coord<2048>>::size(), 2048);
    assert_eq!(<EOCoordLR as Coord<2048>>::size(), 2048);
    assert_eq!(<EOCoordNoUDSlice as Coord<128>>::size(), 128);
    assert_eq!(<COUDCoord as Coord<2187>>::size(), 2187);
    assert_eq!(<CPCoord as Coord<40320>>::size(), 40320);
    assert_eq!(<EPCoord as Coord<479001600>>::size(), 479001600);
    assert_eq!(<UDSliceUnsortedCoord as Coord<495>>::size(), 495);
    assert_eq!(<FBSliceUnsortedCoord as Coord<70>>::size(), 70);
    assert_eq!(<CPOrbitUnsortedCoord as Coord<70>>::size(), 70);
    assert_eq!(<CPOrbitTwistParityCoord as Coord<3>>::size(), 3);
    assert_eq!(<ParityCoord as Coord<2>>::size(), 2);
    assert_eq!(<DRUDEOFBCoord as Coord<DRUDEOFB_SIZE>>::size(), 495 * 2187);
    assert_eq!(<HTRDRUDCoord as Coord<HTRDRUD_SIZE>>::size(), 70 * 70 * 6);
}

#[test]
fn solved_cube_has_all_coordinates_zero() {
    assert_eq!(all_coords(&CubieCube::new_solved()), [0; 14]);
}

#[test]
fn coordinates_of_single_turns() {
    assert_eq!(
        all_coords(&scrambled("R")),
        [0, 0, 594, 0, 1722, 3630, 1137728, 140, 4, 20, 2, 1, 852530, 1805]
    );
    assert_eq!(
        all_coords(&scrambled("F")),
        [0, 308, 0, 20, 630, 360, 167094, 95, 0, 28, 1, 1, 311945, 171]
    );
    assert_eq!(all_coords(&scrambled("U")), [15, 0, 0, 0, 0, 9, 9, 0, 14, 14, 0, 1, 0, 5965]);
    assert_eq!(
        all_coords(&scrambled("D")),
        [1792, 0, 0, 0, 0, 5880, 43908480, 0, 55, 55, 0, 1, 0, 23431]
    );
}

#[test]
fn coordinates_of_scrambles() {
    assert_eq!(
        all_coords(&scrambled("R U R' U'")),
        [17, 0, 18, 0, 510, 391, 104, 8, 4, 24, 0, 0, 252458, 1824]
    );
    assert_eq!(
        all_coords(&scrambled("F R U2 B' L D")),
        [1792, 809, 1432, 57, 1188, 16108, 419612909, 302, 3, 43, 2, 1, 588362, 1523]
    );
}

#[test]
fn half_turns_leave_the_reduction_coordinates_at_zero() {
    for scramble in ["R2 U2 F2 L2 D2 B2", "U2 R2 F2", "L2 D2 L2 B2 U2 R2 F2 D2"] {
        let c = scrambled(scramble);
        let all = all_coords(&c);
        assert_eq!(all[0], 0);
        assert_eq!(all[1], 0);
        assert_eq!(all[2], 0);
        assert_eq!(all[4], 0);
        assert_eq!(all[7], 0);
        assert_eq!(all[8], 0);
        assert_eq!(all[9], 0);
        assert_eq!(all[10], 0);
        assert_eq!(all[11], 0);
        assert_eq!(all[12], 0);
        assert_eq!(all[13], 0);
    }
    assert_eq!(CPCoord::from(&scrambled("R2 U2 F2 L2 D2 B2").corners).val(), 25181);
    assert_eq!(EPCoord::from(&scrambled("U2 R2 F2").edges).val(), 2513108);
}

#[test]
fn edge_orientation_puts_the_first_edge_lowest() {
    let mut edges = CubieCube::new_solved().edges.0;
    edges[0].oriented_fb = false;
    assert_eq!(EOCoordFB::from(&edges).val(), 1);
    edges[10].oriented_fb = false;
    assert_eq!(EOCoordFB::from(&edges).val(), 1 + 1024);
    edges[11].oriented_fb = false;
    assert_eq!(EOCoordFB::from(&edges).val(), 1 + 1024);
    assert_eq!(EOCoordUD::from(&edges).val(), 0);
    assert_eq!(EOCoordLR::from(&edges).val(), 0);
    let all_bad = [Edge { id: 0, oriented_ud: false, oriented_fb: false, oriented_rl: false }; 12];
    assert_eq!(EOCoordUD::from(&all_bad).val(), 2047);
    let all = EOCoordAll::from(&all_bad);
    assert_eq!((all.0.val(), all.1.val(), all.2.val()), (2047, 2047, 2047));
}

#[test]
fn edge_orientation_agrees_on_both_forms_of_the_state() {
    for scramble in ["", "F", "R U R' U'", "F R U2 B' L D", "B L' D2 F U R'"] {
        let c = scrambled(scramble);
        let from_cube = EOCoordAll::from(&c.edges);
        let from_array = EOCoordAll::from(&c.edges.0);
        assert_eq!(from_cube, from_array);
        assert_eq!(from_cube.0, EOCoordUD::from(&c));
        assert_eq!(from_cube.1, EOCoordFB::from(&c.edges));
        assert_eq!(from_cube.2, EOCoordLR::from(&c.edges.0));
        assert_eq!(COUDCoord::from(&c.corners), COUDCoord::from(&c.corners.0));
        assert_eq!(CPCoord::from(&c.corners), CPCoord::from(&c.corners.0));
        assert_eq!(EPCoord::from(&c.edges), EPCoord::from(&c.edges.0));
    }
}

#[test]
fn corner_orientation_puts_the_first_corner_lowest() {
    let mut corners = CubieCube::new_solved().corners.0;
    corners[0].orientation = 2;
    assert_eq!(COUDCoord::from(&corners).val(), 2);
    corners[6].orientation = 1;
    assert_eq!(COUDCoord::from(&corners).val(), 2 + 729);
    corners[7].orientation = 2;
    assert_eq!(COUDCoord::from(&corners).val(), 2 + 729);
    let twisted = [Corner { id: 0, orientation: 2 }; 8];
    assert_eq!(COUDCoord::from(&twisted).val(), 2186);
}

fn corners_with(ids: [u8; 8]) -> [Corner; 8] {
    let mut corners = [Corner { id: 0, orientation: 0 }; 8];
    for i in 0..8 {
        corners[i].id = ids[i];
    }
    corners
}

#[test]
fn permutation_rank_of_the_identity_is_zero() {
    assert_eq!(CPCoord::from(&corners_with([0, 1, 2, 3, 4, 5, 6, 7])).val(), 0);
    assert_eq!(EPCoord::from(&CubieCube::new_solved().edges.0).val(), 0);
}

#[test]
fn permutation_rank_weighs_position_i_with_i_factorial() {
    assert_eq!(CPCoord::from(&corners_with([1, 0, 2, 3, 4, 5, 6, 7])).val(), 1);
    assert_eq!(CPCoord::from(&corners_with([0, 2, 1, 3, 4, 5, 6, 7])).val(), 2);
    assert_eq!(CPCoord::from(&corners_with([2, 1, 0, 3, 4, 5, 6, 7])).val(), 1 + 2 * 2);
    assert_eq!(CPCoord::from(&corners_with([0, 1, 2, 3, 4, 5, 7, 6])).val(), 5040);
    assert_eq!(CPCoord::from(&corners_with([7, 0, 1, 2, 3, 4, 5, 6])).val(), 1 + 2 + 6 + 24 + 120 + 720 + 5040);
    assert_eq!(CPCoord::from(&corners_with([7, 6, 5, 4, 3, 2, 1, 0])).val(), 40319);
    let mut edges = CubieCube::new_solved().edges.0;
    for i in 0..12 {
        edges[i].id = 11 - i as u8;
    }
    assert_eq!(EPCoord::from(&edges).val(), 479001599);
}

#[test]
fn permutation_rank_is_one_to_one() {
    // every arrangement of the first five pieces has its own rank below 5!
    let mut seen = vec![false; 120];
    let mut ids = [0u8, 1, 2, 3, 4, 5, 6, 7];
    let mut count = 0;
    let mut c = [0usize; 5];
    let mut visit = |ids: &[u8; 8]| {
        let rank = CPCoord::from(&corners_with(*ids)).val();
        assert!(rank < 120);
        assert!(!seen[rank]);
        seen[rank] = true;
    };
    visit(&ids);
    count += 1;
    let mut i = 0;
    while i < 5 {
        if c[i] < i {
            if i % 2 == 0 {
                ids.swap(0, i);
            } else {
                ids.swap(c[i], i);
            }
            visit(&ids);
            count += 1;
            c[i] += 1;
            i = 0;
        } else {
            c[i] = 0;
            i += 1;
        }
    }
    assert_eq!(count, 120);
}

#[test]
fn slice_coordinate_does_not_depend_on_the_order_within_the_slice() {
    let mut c = CubieCube::new_solved();
    let tmp = c.edges.0[4];
    c.edges.0[4] = c.edges.0[7];
    c.edges.0[7] = tmp;
    assert_eq!(UDSliceUnsortedCoord::from(&c.edges).val(), 0);
    let mut d = scrambled("R");
    let before = UDSliceUnsortedCoord::from(&d.edges).val();
    assert_eq!(before, 140);
    // exchange the slice edges at the positions 1 and 9
    let tmp = d.edges.0[1];
    d.edges.0[1] = d.edges.0[9];
    d.edges.0[9] = tmp;
    assert_eq!(UDSliceUnsortedCoord::from(&d.edges).val(), before);
}

#[test]
fn slice_coordinate_reaches_its_largest_value() {
    let mut c = CubieCube::new_solved();
    // the slice edges at the last four places: positions 8 to 11
    for (slice, outer) in [(4usize, 8usize), (5, 9), (6, 10), (7, 11)] {
        let tmp = c.edges.0[slice];
        c.edges.0[slice] = c.edges.0[outer];
        c.edges.0[outer] = tmp;
    }
    assert_eq!(UDSliceUnsortedCoord::from(&c.edges).val(), 494);
    let mut corners = CubieCube::new_solved().corners;
    corners.0 = corners_with([1, 0, 3, 2, 5, 4, 7, 6]);
    assert_eq!(CPOrbitUnsortedCoord::from(&corners).val(), 69);
}

#[test]
fn states_outside_the_puzzle_stay_within_the_sizes() {
    let edges = [Edge { id: 5, oriented_ud: false, oriented_fb: false, oriented_rl: false }; 12];
    let corners = [Corner { id: 200, orientation: 7 }; 8];
    let c = CubieCube {
        edges: cubelib::cube::EdgeCubieCube(edges),
        corners: cubelib::cube::CornerCubieCube(corners),
    };
    let all = all_coords(&c);
    let sizes = [
        2048, 2048, 2048, 128, 2187, 40320, 479001600, 495, 70, 70, 3, 2, 495 * 2187, 70 * 70 * 6,
    ];
    for i in 0..14 {
        assert!(all[i] < sizes[i]);
    }
    assert_eq!(all[4], 1093);
}

#[test]
fn composite_coordinate_is_least_significant_part_first() {
    assert_eq!(compose(3, 5, 495), 3 + 5 * 495);
    assert_eq!(decompose(3 + 5 * 495, 495), (3, 5));
    for a in [0usize, 1, 17, 494] {
        for b in [0usize, 1, 1000, 2186] {
            assert_eq!(decompose(compose(a, b, 495), 495), (a, b));
        }
    }
    let c = scrambled("F R U2 B' L D");
    let composite = DRUDEOFBCoord::from(&c);
    assert_eq!(composite.val(), 302 + 1188 * 495);
    assert_eq!(composite.parts(), (302, 1188));
    let htr = HTRDRUDCoord::from(&c);
    assert_eq!(htr.val(), 1 + 2 * (2 + 3 * (43 + 70 * 3)));
    assert_eq!(htr.parts(), (1, 2, 43, 3));
}
