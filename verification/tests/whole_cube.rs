use cubelib::algs::apply_alg;
use cubelib::coord::{Coord, EOCoordFB, EOCoordLR, ZeroCoord};
use cubelib::cube::{Axis, CubieCube, Face, Move, Transformation, Turn, Turnable};
use cubelib::lookup_table::PruningTable;
use cubelib::moveset::{move_of_id, MoveSet};
use cubelib::solver::{solve_steps, solve_steps_vec};
use cubelib::step::{
    AnyPostStepCheck, DefaultPruningTableStep, DefaultStepOptions, NissType, Step,
};
use cubelib::stream::SolutionSource;

type EoStep<'a> =
    DefaultPruningTableStep<'a, 2048, EOCoordFB, 1, ZeroCoord, CubieCube, AnyPostStepCheck>;

fn scrambled(ids: &[usize]) -> CubieCube {
    let mut c = CubieCube::new_solved();
    for id in ids {
        c.turn(move_of_id(*id));
    }
    c
}

/// The moves of the edge orientation with respect to front and back: the
/// quarter turns of these two faces change it, the others do not.
fn eo_moves() -> MoveSet {
    let mut st = Vec::new();
    let mut aux = Vec::new();
    for id in 0..18 {
        let m = move_of_id(id);
        if (m.0 == Face::Front || m.0 == Face::Back) && m.1 != Turn::Half {
            st.push(m);
        } else {
            aux.push(m);
        }
    }
    MoveSet::new(st, aux)
}

fn eo_table() -> PruningTable<2048, EOCoordFB> {
    let mut table = PruningTable::new();
    let mut layer = vec![CubieCube::new_solved()];
    table.set(EOCoordFB::from(&layer[0]), 0);
    let mut depth = 0u8;
    while !layer.is_empty() {
        depth += 1;
        let mut next = Vec::new();
        for cube in &layer {
            for id in 0..18 {
                let mut c = *cube;
                c.turn(move_of_id(id));
                let coord = EOCoordFB::from(&c);
                if table.get(coord).is_none() {
                    table.set(coord, depth);
                    next.push(c);
                }
            }
        }
        layer = next;
    }
    assert!(table.is_populated());
    assert!(depth <= 9);
    table
}

/// The number of sequences of `depth` moves that orient the edges with
/// their last move, which is a quarter turn of the front or the back face,
/// and not before, counted by trying every sequence.
fn count_sequences(cube: CubieCube, moves: &MoveSet, depth: u8, prev: Option<Move>) -> usize {
    let solved = EOCoordFB::from(&cube).val() == 0;
    if depth == 0 {
        return if solved { 1 } else { 0 };
    }
    if solved {
        return 0;
    }
    let mut total = 0;
    let all = moves.st_moves.iter().chain(moves.aux_moves.iter().filter(|_| depth > 1));
    for m in all {
        if moves.allows(prev, *m) {
            let mut c = cube;
            c.turn(*m);
            total += count_sequences(c, moves, depth - 1, Some(*m));
        }
    }
    total
}

#[test]
fn edge_orientation_is_solved_on_the_whole_cube() {
    let table = eo_table();
    let moves = eo_moves();
    let variant: EoStep = DefaultPruningTableStep::new(&moves, vec![], &table, AnyPostStepCheck, "eo-fb");
    let steps = vec![(
        Step::new(vec![Box::new(variant)], "eo"),
        DefaultStepOptions::new(0, 3, NissType::Never, None, None),
    )];
    // F, then R, then U: one edge orientation solution is to undo the first
    for scramble in [vec![6usize, 15, 0], vec![6, 0, 9], vec![8, 12, 11, 3], vec![15, 0]] {
        let cube = scrambled(&scramble);
        let mut solutions = solve_steps(cube, &steps, None);
        let mut by_depth = [0usize; 4];
        while let Some(s) = solutions.next() {
            assert_eq!(s.steps.len(), 1);
            assert_eq!(s.steps[0].name, "eo");
            assert_eq!(s.steps[0].variant, "eo-fb");
            let mut c = cube;
            apply_alg(&mut c, &s.merged());
            assert_eq!(EOCoordFB::from(&c).val(), 0);
            by_depth[s.len()] += 1;
        }
        for depth in 0..4u8 {
            assert_eq!(by_depth[depth as usize], count_sequences(cube, &moves, depth, None));
        }
        let least = table.get(EOCoordFB::from(&cube)).unwrap() as usize;
        for depth in 0..least.min(4) {
            assert_eq!(by_depth[depth], 0);
        }
        if least <= 3 {
            assert!(by_depth[least] > 0);
        }
    }
}

#[test]
fn rotated_variant_orients_the_edges_of_another_axis() {
    let table = eo_table();
    let moves = eo_moves();
    let fb: EoStep = DefaultPruningTableStep::new(&moves, vec![], &table, AnyPostStepCheck, "eo-fb");
    // a quarter rotation about the up/down axis carries left and right onto
    // front and back
    let lr: EoStep = DefaultPruningTableStep::new(
        &moves,
        vec![Transformation(Axis::Y, Turn::Clockwise)],
        &table,
        AnyPostStepCheck,
        "eo-lr",
    );
    let steps = vec![(
        Step::new(vec![Box::new(fb), Box::new(lr)], "eo"),
        DefaultStepOptions::new(0, 2, NissType::Before, Some(40), None),
    )];
    let cube = scrambled(&[6, 15, 0]);
    let found = solve_steps_vec(cube, &steps, None);
    assert!(found.len() > 2);
    assert!(found.len() <= 40);
    let mut seen_fb = false;
    let mut seen_lr = false;
    for s in &found {
        let mut c = cube;
        apply_alg(&mut c, &s.merged());
        if s.steps[0].variant == "eo-fb" {
            assert_eq!(EOCoordFB::from(&c).val(), 0);
            seen_fb = true;
        } else {
            assert_eq!(s.steps[0].variant, "eo-lr");
            assert_eq!(EOCoordLR::from(&c).val(), 0);
            seen_lr = true;
        }
    }
    assert!(seen_fb && seen_lr);
    for pair in found.windows(2) {
        assert!(pair[0].len() <= pair[1].len());
    }
}
