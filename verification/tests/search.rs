use cubelib::algs::{apply_alg, Algorithm};
use cubelib::cancel::CancelToken;
use cubelib::coord::{COUDCoord, Coord, ParityCoord, ZeroCoord};
use cubelib::cube::{
    Axis, CornerCubieCube, Face, Invertible, Move, Transformation, Turn, Turnable,
};
use cubelib::df_search::dfs_iter;
use cubelib::lookup_table::PruningTable;
use cubelib::moveset::{move_of_id, MoveSet};
use cubelib::step::{AnyPostStepCheck, DefaultPruningTableStep, NissType, PostStepCheck, StepVariant};

const U: Move = Move(Face::Up, Turn::Clockwise);
const U2: Move = Move(Face::Up, Turn::Half);
const UI: Move = Move(Face::Up, Turn::CounterClockwise);
const D: Move = Move(Face::Down, Turn::Clockwise);
const D2: Move = Move(Face::Down, Turn::Half);
const DI: Move = Move(Face::Down, Turn::CounterClockwise);
const F: Move = Move(Face::Front, Turn::Clockwise);
const R: Move = Move(Face::Right, Turn::Clockwise);
const L: Move = Move(Face::Left, Turn::Clockwise);

type ParityStep<'a, P> = DefaultPruningTableStep<'a, 2, ParityCoord, 2187, COUDCoord, CornerCubieCube, P>;
type TwistStep<'a> =
    DefaultPruningTableStep<'a, 2187, COUDCoord, 1, ZeroCoord, CornerCubieCube, AnyPostStepCheck>;

fn scrambled(moves: &[Move]) -> CornerCubieCube {
    let mut c = CornerCubieCube::new();
    for m in moves {
        c.turn(*m);
    }
    c
}

/// The table of the parity: no move where it is even, one where it is odd.
fn parity_table() -> PruningTable<2, ParityCoord> {
    let mut table = PruningTable::new();
    table.set(ParityCoord::from(&scrambled(&[])), 0);
    table.set(ParityCoord::from(&scrambled(&[U])), 1);
    table
}

fn up_down_moves() -> MoveSet {
    MoveSet::new(vec![U, UI, D, DI], vec![U2, D2])
}

fn alg(normal: &[Move], inverse: &[Move]) -> (Vec<Move>, Vec<Move>) {
    (normal.to_vec(), inverse.to_vec())
}

fn found(algs: &[Algorithm]) -> Vec<(Vec<Move>, Vec<Move>)> {
    algs.iter().map(|a| (a.normal_moves.clone(), a.inverse_moves.clone())).collect()
}

fn search(
    variant: &dyn StepVariant<CornerCubieCube>,
    cube: CornerCubieCube,
    depth: u8,
    niss: NissType,
    cap: Option<usize>,
) -> Vec<(Vec<Move>, Vec<Move>)> {
    let mut out = Vec::new();
    let interrupted = dfs_iter(variant, cube, depth, niss, None, None, cap, None, &mut out);
    assert!(!interrupted);
    found(&out)
}

#[test]
fn solved_state_is_solved_by_no_move() {
    let table = parity_table();
    let moves = up_down_moves();
    let variant: ParityStep<AnyPostStepCheck> =
        DefaultPruningTableStep::new(&moves, vec![], &table, AnyPostStepCheck, "parity");
    assert_eq!(search(&variant, scrambled(&[]), 0, NissType::Never, None), vec![alg(&[], &[])]);
    assert_eq!(search(&variant, scrambled(&[]), 1, NissType::Never, None), vec![]);
    assert_eq!(search(&variant, scrambled(&[]), 2, NissType::Always, None), vec![]);
}

#[test]
fn search_finds_every_solution_of_the_depth_in_order() {
    let table = parity_table();
    let moves = up_down_moves();
    let variant: ParityStep<AnyPostStepCheck> =
        DefaultPruningTableStep::new(&moves, vec![], &table, AnyPostStepCheck, "parity");
    let cube = scrambled(&[U]);
    assert_eq!(search(&variant, cube, 0, NissType::Never, None), vec![]);
    assert_eq!(
        search(&variant, cube, 1, NissType::Never, None),
        vec![alg(&[U], &[]), alg(&[UI], &[]), alg(&[D], &[]), alg(&[DI], &[])]
    );
    // a quarter turn reaches the goal and is not continued; of the half
    // turns only the one of the leading face may be followed by the other
    // face
    assert_eq!(
        search(&variant, cube, 2, NissType::Never, None),
        vec![alg(&[U2, D], &[]), alg(&[U2, DI], &[])]
    );
    assert_eq!(search(&variant, cube, 3, NissType::Never, None), vec![]);
}

#[test]
fn search_stops_at_the_cap() {
    let table = parity_table();
    let moves = up_down_moves();
    let variant: ParityStep<AnyPostStepCheck> =
        DefaultPruningTableStep::new(&moves, vec![], &table, AnyPostStepCheck, "parity");
    let cube = scrambled(&[U]);
    assert_eq!(
        search(&variant, cube, 1, NissType::Never, Some(3)),
        vec![alg(&[U], &[]), alg(&[UI], &[]), alg(&[D], &[])]
    );
    assert_eq!(search(&variant, cube, 1, NissType::Never, Some(0)), vec![]);
    assert_eq!(search(&variant, cube, 1, NissType::Never, Some(4)).len(), 4);
    assert_eq!(search(&variant, cube, 1, NissType::Never, Some(9)).len(), 4);
    // the cap counts what the list holds already
    let mut out = vec![Algorithm::new(), Algorithm::new()];
    let interrupted =
        dfs_iter(&variant, cube, 1, NissType::Never, None, None, Some(3), None, &mut out);
    assert!(!interrupted);
    assert_eq!(found(&out), vec![alg(&[], &[]), alg(&[], &[]), alg(&[U], &[])]);
}

#[test]
fn search_before_the_first_move_may_choose_the_inverse_track() {
    let table = parity_table();
    let moves = up_down_moves();
    let variant: ParityStep<AnyPostStepCheck> =
        DefaultPruningTableStep::new(&moves, vec![], &table, AnyPostStepCheck, "parity");
    let cube = scrambled(&[U]);
    assert_eq!(
        search(&variant, cube, 1, NissType::Before, None),
        vec![
            alg(&[U], &[]),
            alg(&[UI], &[]),
            alg(&[D], &[]),
            alg(&[DI], &[]),
            alg(&[], &[U]),
            alg(&[], &[UI]),
            alg(&[], &[D]),
            alg(&[], &[DI])
        ]
    );
    assert_eq!(
        search(&variant, cube, 2, NissType::Before, None),
        vec![alg(&[U2, D], &[]), alg(&[U2, DI], &[]), alg(&[], &[U2, D]), alg(&[], &[U2, DI])]
    );
    assert_eq!(search(&variant, scrambled(&[]), 0, NissType::Before, None), vec![alg(&[], &[])]);
}

#[test]
fn search_may_go_over_to_the_inverse_track_at_every_node() {
    let table = parity_table();
    let moves = up_down_moves();
    let variant: ParityStep<AnyPostStepCheck> =
        DefaultPruningTableStep::new(&moves, vec![], &table, AnyPostStepCheck, "parity");
    let cube = scrambled(&[U]);
    assert_eq!(
        search(&variant, cube, 1, NissType::Always, None),
        search(&variant, cube, 1, NissType::Before, None)
    );
    assert_eq!(
        search(&variant, cube, 2, NissType::Always, None),
        vec![
            alg(&[U2, D], &[]),
            alg(&[U2, DI], &[]),
            alg(&[U2], &[U]),
            alg(&[U2], &[UI]),
            alg(&[U2], &[D]),
            alg(&[U2], &[DI]),
            alg(&[D2], &[U]),
            alg(&[D2], &[UI]),
            alg(&[D2], &[D]),
            alg(&[D2], &[DI]),
            alg(&[], &[U2, D]),
            alg(&[], &[U2, DI])
        ]
    );
    assert_eq!(search(&variant, scrambled(&[]), 0, NissType::Always, None), vec![alg(&[], &[])]);
}

#[test]
fn every_solution_has_the_depth_and_reaches_the_goal() {
    let table = parity_table();
    let moves = up_down_moves();
    let variant: ParityStep<AnyPostStepCheck> =
        DefaultPruningTableStep::new(&moves, vec![], &table, AnyPostStepCheck, "parity");
    for scramble in [vec![U], vec![U, D2], vec![D, U2, D], vec![U, D, UI]] {
        let cube = scrambled(&scramble);
        for niss in [NissType::Never, NissType::Before, NissType::Always] {
            for depth in 0..5u8 {
                let mut out = Vec::new();
                dfs_iter(&variant, cube, depth, niss, None, None, None, None, &mut out);
                for a in &out {
                    assert_eq!(a.len(), depth as usize);
                    let mut c = cube;
                    apply_alg(&mut c, a);
                    assert_eq!(ParityCoord::from(&c).val(), 0);
                    if niss == NissType::Never {
                        assert!(a.inverse_moves.is_empty());
                    }
                    if niss == NissType::Before {
                        assert!(a.inverse_moves.is_empty() || a.normal_moves.is_empty());
                    }
                }
                for i in 0..out.len() {
                    for j in 0..i {
                        assert!(
                            out[i].normal_moves != out[j].normal_moves
                                || out[i].inverse_moves != out[j].inverse_moves
                        );
                    }
                }
            }
        }
    }
}

#[test]
fn last_moves_of_earlier_phases_restrict_the_first_move() {
    let table = parity_table();
    let moves = up_down_moves();
    let variant: ParityStep<AnyPostStepCheck> =
        DefaultPruningTableStep::new(&moves, vec![], &table, AnyPostStepCheck, "parity");
    let cube = scrambled(&[U]);
    let mut out = Vec::new();
    dfs_iter(&variant, cube, 1, NissType::Never, Some(U2), None, None, None, &mut out);
    assert_eq!(found(&out), vec![alg(&[D], &[]), alg(&[DI], &[])]);
    let mut out = Vec::new();
    dfs_iter(&variant, cube, 1, NissType::Never, Some(D), None, None, None, &mut out);
    assert_eq!(found(&out), vec![]);
    let mut out = Vec::new();
    dfs_iter(&variant, cube, 1, NissType::Before, Some(D), Some(U), None, None, &mut out);
    assert_eq!(found(&out), vec![alg(&[], &[D]), alg(&[], &[DI])]);
}

#[test]
fn variant_is_not_searched_where_the_cube_is_not_ready() {
    let table = parity_table();
    let moves = up_down_moves();
    let variant: ParityStep<AnyPostStepCheck> =
        DefaultPruningTableStep::new(&moves, vec![], &table, AnyPostStepCheck, "parity");
    // after a turn of the right face the corners are twisted
    let cube = scrambled(&[R]);
    assert!(!variant.is_cube_ready(&cube));
    assert!(variant.is_cube_ready(&scrambled(&[U])));
    for depth in 0..3 {
        assert_eq!(search(&variant, cube, depth, NissType::Always, None), vec![]);
    }
}

#[test]
fn set_token_interrupts_the_search() {
    let table = parity_table();
    let moves = up_down_moves();
    let variant: ParityStep<AnyPostStepCheck> =
        DefaultPruningTableStep::new(&moves, vec![], &table, AnyPostStepCheck, "parity");
    let cube = scrambled(&[U]);
    let token = CancelToken::new();
    assert!(!token.is_cancelled());
    let mut out = Vec::new();
    let interrupted =
        dfs_iter(&variant, cube, 1, NissType::Never, None, None, None, Some(&token), &mut out);
    assert!(!interrupted);
    assert_eq!(out.len(), 4);
    token.cancel();
    assert!(token.is_cancelled());
    let mut out = Vec::new();
    let interrupted =
        dfs_iter(&variant, cube, 1, NissType::Never, None, None, None, Some(&token), &mut out);
    assert!(interrupted);
    assert_eq!(out.len(), 0);
}

#[test]
fn clamp_keeps_the_bound_at_one_while_the_inverse_track_is_open() {
    let mut table: PruningTable<2187, COUDCoord> = PruningTable::new();
    fill_twist_table(&mut table);
    let moves = twist_moves();
    let variant: TwistStep = DefaultPruningTableStep::new(&moves, vec![], &table, AnyPostStepCheck, "co");
    let solved = scrambled(&[]);
    assert_eq!(variant.heuristic(&solved, 5, false), 0);
    assert_eq!(variant.heuristic(&solved, 5, true), 0);
    let one = scrambled(&[R]);
    assert_eq!(variant.heuristic(&one, 5, false), 1);
    assert_eq!(variant.heuristic(&one, 5, true), 1);
    let far = scrambled(&[R, U, F]);
    let raw = variant.heuristic(&far, 5, false);
    assert!(raw >= 2);
    assert_eq!(raw, table.get(COUDCoord::from(&far)).unwrap());
    assert_eq!(variant.heuristic(&far, 5, true), 1);
    assert_eq!(variant.heuristic(&far, 0, true), 1);
}

struct OnlyUpMoves;

impl PostStepCheck<CornerCubieCube> for OnlyUpMoves {
    fn solution_admissible(&self, _cube: &CornerCubieCube, _alg: cubelib::algs::AlgorithmView) -> bool {
        unreachable!()
    }

    fn is_solution_admissible(&self, _cube: &CornerCubieCube, alg: &Algorithm) -> bool {
        alg.normal_moves.iter().chain(alg.inverse_moves.iter()).all(|m| m.0 == Face::Up)
    }
}

#[test]
fn admissibility_check_filters_what_is_found() {
    let table = parity_table();
    let moves = up_down_moves();
    let variant: ParityStep<OnlyUpMoves> =
        DefaultPruningTableStep::new(&moves, vec![], &table, OnlyUpMoves, "parity");
    let cube = scrambled(&[U]);
    assert_eq!(
        search(&variant, cube, 1, NissType::Never, None),
        vec![alg(&[U], &[]), alg(&[UI], &[])]
    );
    assert_eq!(search(&variant, cube, 2, NissType::Never, None), vec![]);
    // the cap counts what is kept, not what is found
    assert_eq!(
        search(&variant, cube, 1, NissType::Before, Some(3)),
        vec![alg(&[U], &[]), alg(&[UI], &[]), alg(&[], &[U])]
    );
}

/// The moves of the corner twist: the quarter turns of the side faces
/// change it, the others do not.
fn twist_moves() -> MoveSet {
    let mut st = Vec::new();
    let mut aux = Vec::new();
    for id in 0..18 {
        let m = move_of_id(id);
        let side = m.0 != Face::Up && m.0 != Face::Down;
        if side && m.1 != Turn::Half {
            st.push(m);
        } else {
            aux.push(m);
        }
    }
    MoveSet::new(st, aux)
}

/// Fills the table of the corner twist breadth first: the entry of a
/// coordinate is the least number of moves that lead to it from the solved
/// cube, which is the least number that lead from it to a cube without
/// twist.
fn fill_twist_table(table: &mut PruningTable<2187, COUDCoord>) {
    let mut layer = vec![CornerCubieCube::new()];
    table.set(COUDCoord::from(&layer[0]), 0);
    let mut depth = 0u8;
    while !layer.is_empty() {
        depth += 1;
        let mut next = Vec::new();
        for cube in &layer {
            for id in 0..18 {
                let mut c = *cube;
                c.turn(move_of_id(id));
                let coord = COUDCoord::from(&c);
                if table.get(coord).is_none() {
                    table.set(coord, depth);
                    next.push(c);
                }
            }
        }
        layer = next;
    }
    assert!(table.is_populated());
}

/// The least number of moves, up to `limit`, that take the twist off the
/// corners, found by trying every sequence.
fn least_moves(cube: CornerCubieCube, limit: u8) -> Option<u8> {
    fn reachable(cube: CornerCubieCube, left: u8) -> bool {
        if COUDCoord::from(&cube).val() == 0 {
            return true;
        }
        if left == 0 {
            return false;
        }
        (0..18).any(|id| {
            let mut c = cube;
            c.turn(move_of_id(id));
            reachable(c, left - 1)
        })
    }
    (0..=limit).find(|d| reachable(cube, *d))
}

#[test]
fn table_never_promises_more_than_the_least_number_of_moves() {
    let mut table: PruningTable<2187, COUDCoord> = PruningTable::new();
    assert!(!table.is_populated());
    fill_twist_table(&mut table);
    let mut states = vec![CornerCubieCube::new()];
    for a in 0..18 {
        for b in [0usize, 5, 7, 10, 13, 16] {
            for c in [2usize, 8, 15] {
                states.push(scrambled(&[move_of_id(a), move_of_id(b), move_of_id(c)]));
            }
        }
        states.push(scrambled(&[move_of_id(a)]));
    }
    for cube in states {
        let bound = table.get(COUDCoord::from(&cube)).unwrap();
        let least = least_moves(cube, 3).unwrap();
        assert!(bound <= least);
        assert_eq!(bound == 0, COUDCoord::from(&cube).val() == 0);
    }
}

/// Every sequence of `depth` moves that the move set admits, that ends in a
/// state-changing move and that reaches the goal with its last move and not
/// before.
fn all_sequences(
    cube: CornerCubieCube,
    moves: &MoveSet,
    depth: u8,
    prev: Option<Move>,
    goal: &dyn Fn(&CornerCubieCube) -> bool,
) -> Vec<Vec<Move>> {
    if depth == 0 {
        return if goal(&cube) { vec![vec![]] } else { vec![] };
    }
    if goal(&cube) {
        return vec![];
    }
    let mut candidates = moves.st_moves.clone();
    if depth > 1 {
        candidates.extend(moves.aux_moves.iter().cloned());
    }
    let mut out = Vec::new();
    for m in candidates {
        if !moves.allows(prev, m) {
            continue;
        }
        let mut c = cube;
        c.turn(m);
        for mut tail in all_sequences(c, moves, depth - 1, Some(m), goal) {
            tail.insert(0, m);
            out.push(tail);
        }
    }
    out
}

#[test]
fn pruning_loses_no_solution() {
    let mut table: PruningTable<2187, COUDCoord> = PruningTable::new();
    fill_twist_table(&mut table);
    let moves = twist_moves();
    let variant: TwistStep = DefaultPruningTableStep::new(&moves, vec![], &table, AnyPostStepCheck, "co");
    assert!(variant.is_half_turn_invariant());
    assert_eq!(variant.name(), "co");
    for scramble in [vec![R], vec![R, U, F], vec![F, L, D2], vec![R, R]] {
        let cube = scrambled(&scramble);
        for depth in 0..4u8 {
            let expected = all_sequences(cube, &moves, depth, None, &|c| COUDCoord::from(c).val() == 0);
            let got = search(&variant, cube, depth, NissType::Never, None);
            let got_normal: Vec<Vec<Move>> = got.iter().map(|(n, _)| n.clone()).collect();
            assert_eq!(got_normal, expected);
        }
    }
    assert_eq!(
        search(&variant, scrambled(&[R]), 1, NissType::Never, None),
        vec![alg(&[R], &[]), alg(&[Move(Face::Right, Turn::CounterClockwise)], &[])]
    );
}

#[test]
fn rotations_before_the_search_are_taken_back_in_the_solutions() {
    let mut table: PruningTable<2187, COUDCoord> = PruningTable::new();
    fill_twist_table(&mut table);
    let moves = twist_moves();
    let turned = vec![Transformation(Axis::X, Turn::Clockwise)];
    let variant: TwistStep =
        DefaultPruningTableStep::new(&moves, turned.clone(), &table, AnyPostStepCheck, "co-fb");
    assert_eq!(variant.pre_step_trans(), &turned);
    // after the rotation the front and back faces lie up and down: their
    // turns leave the twist alone, those of the up and down faces do not
    let cube = scrambled(&[U]);
    let mut rotated = cube;
    rotated.transform(turned[0]);
    assert_eq!(variant.heuristic(&rotated, 3, false), 1);
    assert_eq!(
        search(&variant, cube, 1, NissType::Never, None),
        vec![alg(&[U], &[]), alg(&[UI], &[])]
    );
    assert_eq!(search(&variant, scrambled(&[R]), 1, NissType::Never, None).len(), 2);
    assert_eq!(search(&variant, scrambled(&[F, F]), 1, NissType::Never, None), vec![]);
    assert_eq!(search(&variant, scrambled(&[F]), 0, NissType::Never, None), vec![alg(&[], &[])]);
    for scramble in [vec![U, R], vec![D, L, U], vec![R, U, F]] {
        let cube = scrambled(&scramble);
        let mut total = 0;
        for depth in 0..4u8 {
            for niss in [NissType::Never, NissType::Always] {
                for (normal, inverse) in search(&variant, cube, depth, niss, None) {
                    let a = Algorithm { normal_moves: normal, inverse_moves: inverse };
                    let mut c = cube;
                    apply_alg(&mut c, &a);
                    c.transform(turned[0]);
                    assert_eq!(COUDCoord::from(&c).val(), 0);
                    total += 1;
                }
            }
        }
        assert!(total > 0);
    }
    // the inverse state is searched where the inverse track is chosen
    let mut inverse = scrambled(&[U, R]);
    inverse.invert();
    assert_eq!(ParityCoord::from(&inverse).val(), 0);
}
