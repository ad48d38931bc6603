use cubelib::algs::{apply_alg, Algorithm};
use cubelib::cube::{
    Axis, Corner, CubieCube, Edge, Face, Invertible, Move, Transformation, Turn, Turnable,
};
use cubelib::moveset::{follows, move_of_id, MoveSet};

const U: Move = Move(Face::Up, Turn::Clockwise);
const U2: Move = Move(Face::Up, Turn::Half);
const UI: Move = Move(Face::Up, Turn::CounterClockwise);
const D: Move = Move(Face::Down, Turn::Clockwise);
const D2: Move = Move(Face::Down, Turn::Half);
const F: Move = Move(Face::Front, Turn::Clockwise);
const FI: Move = Move(Face::Front, Turn::CounterClockwise);
const BI: Move = Move(Face::Back, Turn::CounterClockwise);
const L: Move = Move(Face::Left, Turn::Clockwise);
const R: Move = Move(Face::Right, Turn::Clockwise);
const R2: Move = Move(Face::Right, Turn::Half);
const RI: Move = Move(Face::Right, Turn::CounterClockwise);

fn scrambled(moves: &[Move]) -> CubieCube {
    let mut c = CubieCube::new_solved();
    for m in moves {
        c.turn(*m);
    }
    c
}

fn edges_of(c: &CubieCube) -> Vec<(u8, bool, bool, bool)> {
    c.edges.0.iter().map(|e| (e.id, e.oriented_ud, e.oriented_fb, e.oriented_rl)).collect()
}

fn corners_of(c: &CubieCube) -> Vec<(u8, u8)> {
    c.corners.0.iter().map(|x| (x.id, x.orientation)).collect()
}

fn same(a: &CubieCube, b: &CubieCube) -> bool {
    a.edges.0 == b.edges.0 && a.corners.0 == b.corners.0
}

fn all_moves() -> Vec<Move> {
    (0..18).map(move_of_id).collect()
}

#[test]
fn solved_cube_has_every_piece_at_home() {
    let c = CubieCube::new_solved();
    for i in 0..12 {
        assert_eq!(
            c.edges.0[i],
            Edge { id: i as u8, oriented_ud: true, oriented_fb: true, oriented_rl: true }
        );
    }
    for i in 0..8 {
        assert_eq!(c.corners.0[i], Corner { id: i as u8, orientation: 0 });
    }
}

#[test]
fn move_numbers_run_from_zero_to_seventeen() {
    for id in 0..18 {
        assert_eq!(move_of_id(id).to_id(), id);
    }
    assert_eq!(U.to_id(), 0);
    assert_eq!(U2.to_id(), 1);
    assert_eq!(UI.to_id(), 2);
    assert_eq!(Move(Face::Right, Turn::CounterClockwise).to_id(), 17);
}

#[test]
fn inverse_of_a_move_undoes_it() {
    assert_eq!(U.invert(), UI);
    assert_eq!(U2.invert(), U2);
    assert_eq!(UI.invert(), U);
    for m in all_moves() {
        let mut c = scrambled(&[F, R, U2, BI, L, D]);
        let before = c;
        c.turn(m);
        c.turn(m.invert());
        assert!(same(&c, &before));
    }
}

#[test]
fn four_quarter_turns_restore_the_cube() {
    for face in [Face::Up, Face::Down, Face::Front, Face::Back, Face::Left, Face::Right] {
        let mut c = CubieCube::new_solved();
        let solved = c;
        for k in 0..4 {
            c.turn(Move(face, Turn::Clockwise));
            assert_eq!(same(&c, &solved), k == 3);
        }
        let mut h = CubieCube::new_solved();
        h.turn(Move(face, Turn::Clockwise));
        h.turn(Move(face, Turn::Clockwise));
        let mut direct = CubieCube::new_solved();
        direct.turn(Move(face, Turn::Half));
        assert!(same(&h, &direct));
        h.turn(Move(face, Turn::Clockwise));
        let mut ccw = CubieCube::new_solved();
        ccw.turn(Move(face, Turn::CounterClockwise));
        assert!(same(&h, &ccw));
    }
}

#[test]
fn right_turn_moves_and_twists_the_right_corners() {
    let c = scrambled(&[R]);
    assert_eq!(
        corners_of(&c),
        vec![(0, 0), (2, 1), (5, 2), (3, 0), (4, 0), (6, 1), (1, 2), (7, 0)]
    );
    let ids: Vec<u8> = c.edges.0.iter().map(|e| e.id).collect();
    assert_eq!(ids, vec![0, 4, 2, 3, 9, 5, 1, 7, 8, 6, 10, 11]);
}

#[test]
fn front_turn_flips_the_front_edges() {
    let c = scrambled(&[F]);
    assert_eq!(
        corners_of(&c),
        vec![(0, 0), (1, 0), (3, 1), (4, 2), (5, 1), (2, 2), (6, 0), (7, 0)]
    );
    let fb: Vec<(u8, bool)> = c.edges.0.iter().map(|e| (e.id, e.oriented_fb)).collect();
    assert_eq!(
        fb,
        vec![
            (0, true),
            (1, true),
            (5, false),
            (3, true),
            (2, false),
            (8, false),
            (6, true),
            (7, true),
            (4, false),
            (9, true),
            (10, true),
            (11, true)
        ]
    );
    assert!(c.edges.0.iter().all(|e| e.oriented_ud && e.oriented_rl));
}

#[test]
fn half_turns_flip_and_twist_nothing() {
    let c = scrambled(&[R2, U2, Move(Face::Front, Turn::Half), D2]);
    assert!(c.edges.0.iter().all(|e| e.oriented_ud && e.oriented_fb && e.oriented_rl));
    assert!(c.corners.0.iter().all(|x| x.orientation == 0));
}

#[test]
fn well_known_sequences_have_their_order() {
    let sexy = [R, U, RI, UI];
    let sune = [R, U, RI, U, R, U2, RI];
    let sledge = [F, R, U, RI, UI, FI];
    for seq in [&sexy[..], &sune[..], &sledge[..]] {
        let solved = CubieCube::new_solved();
        let mut c = solved;
        for round in 0..6 {
            for m in seq {
                c.turn(*m);
            }
            assert_eq!(same(&c, &solved), round == 5);
        }
    }
}

#[test]
fn scramble_gives_the_expected_state() {
    let c = scrambled(&[F, R, U2, BI, L, D]);
    assert_eq!(
        edges_of(&c),
        vec![
            (7, true, false, true),
            (3, true, true, true),
            (0, true, true, true),
            (10, true, false, false),
            (9, true, true, false),
            (2, true, false, true),
            (5, true, true, true),
            (11, true, true, false),
            (8, false, false, false),
            (4, false, false, true),
            (6, false, true, false),
            (1, false, false, false)
        ]
    );
    assert_eq!(
        corners_of(&c),
        vec![(1, 0), (2, 0), (0, 0), (7, 2), (5, 2), (3, 1), (6, 1), (4, 0)]
    );
}

#[test]
fn inverse_state_is_reached_by_the_inverse_sequence() {
    let seq = [F, R, U2, BI, L, D];
    let mut c = scrambled(&seq);
    let start = c;
    c.invert();
    let undo: Vec<Move> = seq.iter().rev().map(|m| m.invert()).collect();
    assert!(same(&c, &scrambled(&undo)));
    assert_eq!(
        corners_of(&c),
        vec![(2, 0), (0, 0), (1, 0), (5, 2), (7, 0), (4, 1), (6, 2), (3, 1)]
    );
    assert_eq!(
        edges_of(&c),
        vec![
            (2, true, true, true),
            (11, false, false, false),
            (5, true, false, true),
            (1, true, true, true),
            (9, false, false, true),
            (6, true, true, true),
            (10, false, true, false),
            (0, true, false, true),
            (8, false, false, false),
            (4, true, true, false),
            (3, true, false, false),
            (7, true, true, false)
        ]
    );
    c.invert();
    assert!(same(&c, &start));
}

#[test]
fn rotation_gives_the_expected_state() {
    let mut c = scrambled(&[F, R, U2, BI, L, D]);
    c.transform(Transformation(Axis::X, Turn::Clockwise));
    assert_eq!(
        corners_of(&c),
        vec![(4, 2), (7, 0), (0, 1), (2, 1), (3, 1), (5, 1), (1, 1), (6, 2)]
    );
    assert_eq!(
        edges_of(&c),
        vec![
            (10, true, true, true),
            (4, true, true, false),
            (2, false, false, false),
            (0, false, true, true),
            (1, false, false, true),
            (6, false, false, false),
            (7, true, true, true),
            (8, false, true, false),
            (9, true, false, false),
            (3, true, true, true),
            (11, false, true, true),
            (5, true, true, false)
        ]
    );
    let mut z = scrambled(&[F, R, U2, BI, L, D]);
    z.transform(Transformation(Axis::Z, Turn::CounterClockwise));
    assert_eq!(
        corners_of(&z),
        vec![(3, 2), (1, 1), (4, 1), (7, 0), (6, 2), (2, 0), (5, 2), (0, 1)]
    );
    let mut y = scrambled(&[F, R, U2, BI, L, D]);
    y.transform(Transformation(Axis::Y, Turn::Half));
    assert_eq!(
        corners_of(&y),
        vec![(2, 0), (5, 2), (3, 0), (0, 0), (4, 1), (6, 0), (7, 2), (1, 1)]
    );
}

#[test]
fn rotation_commutes_with_moves() {
    let seq = [F, R, U2, BI, L, D, RI, U];
    for axis in [Axis::X, Axis::Y, Axis::Z] {
        for turn in [Turn::Clockwise, Turn::Half, Turn::CounterClockwise] {
            let t = Transformation(axis, turn);
            let mut rotated = scrambled(&seq);
            rotated.transform(t);
            let moved: Vec<Move> = seq.iter().map(|m| m.transform(t)).collect();
            assert!(same(&rotated, &scrambled(&moved)));
            rotated.transform(t.invert());
            assert!(same(&rotated, &scrambled(&seq)));
        }
    }
}

#[test]
fn rotation_carries_faces_round_its_axis() {
    let x = Transformation(Axis::X, Turn::Clockwise);
    assert_eq!(F.transform(x), U);
    assert_eq!(U.transform(x), Move(Face::Back, Turn::Clockwise));
    assert_eq!(R.transform(x), R);
    let y2 = Transformation(Axis::Y, Turn::Half);
    assert_eq!(F.transform(y2), Move(Face::Back, Turn::Clockwise));
    assert_eq!(R2.transform(y2), Move(Face::Left, Turn::Half));
    let zi = Transformation(Axis::Z, Turn::CounterClockwise);
    assert_eq!(R.transform(zi), U);
    assert_eq!(x.invert(), Transformation(Axis::X, Turn::CounterClockwise));
}

#[test]
fn algorithm_is_applied_track_by_track() {
    let mut alg = Algorithm::new();
    alg.normal_moves.push(R);
    alg.normal_moves.push(U);
    alg.inverse_moves.push(F);
    alg.inverse_moves.push(D);
    let mut c = scrambled(&[L, U2]);
    apply_alg(&mut c, &alg);
    // the inverse track, inverted and reversed, comes before the scramble
    let expected = scrambled(&[D.invert(), FI, L, U2, R, U]);
    assert!(same(&c, &expected));
    let mut plain = Algorithm::new();
    plain.normal_moves.push(R);
    let mut d = CubieCube::new_solved();
    apply_alg(&mut d, &plain);
    assert!(same(&d, &scrambled(&[R])));
}

#[test]
fn usual_rule_for_successive_moves() {
    assert!(!follows(U, U2));
    assert!(follows(U, D));
    assert!(!follows(D, U));
    assert!(follows(U, R));
    assert!(follows(R, L));
    assert!(!follows(L, R));
    assert!(follows(F, Move(Face::Back, Turn::Half)));
    assert!(!follows(BI, F));
    let ms = MoveSet::new(vec![U, UI], vec![U2]);
    assert!(ms.allows(None, U));
    assert!(!ms.allows(Some(U), U2));
    assert!(ms.allows(Some(U), D));
    assert!(!ms.allows(Some(D), U));
    for a in all_moves() {
        for b in all_moves() {
            assert_eq!(ms.allows(Some(a), b), follows(a, b));
            assert_eq!(ms.transitions[a.to_id()][b.to_id()], follows(a, b));
        }
    }
}

#[test]
fn move_set_knows_its_half_turns() {
    assert!(!MoveSet::new(vec![U, UI, D], vec![U2, D2]).turns_half());
    assert!(MoveSet::new(vec![U, R2], vec![]).turns_half());
    assert!(!MoveSet::new(vec![], vec![R2]).turns_half());
}
