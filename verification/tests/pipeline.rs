use cubelib::algs::{apply_alg, Algorithm, Solution};
use cubelib::cancel::CancelToken;
use cubelib::coord::{COUDCoord, CPOrbitUnsortedCoord, Coord, ParityCoord, ZeroCoord};
use cubelib::cube::{CornerCubieCube, Face, Move, Turn, Turnable};
use cubelib::lookup_table::PruningTable;
use cubelib::moveset::{move_of_id, MoveSet};
use cubelib::solver::{shortest, solve_steps, solve_steps_vec};
use cubelib::phase::SolutionIterator;
use cubelib::step::{
    first_step, next_step, AnyPostStepCheck, DefaultPruningTableStep, DefaultStepOptions, NissType,
    Step, StepVariant,
};
use cubelib::stream::{SolutionList, SolutionSource};

const U: Move = Move(Face::Up, Turn::Clockwise);
const U2: Move = Move(Face::Up, Turn::Half);
const UI: Move = Move(Face::Up, Turn::CounterClockwise);
const D: Move = Move(Face::Down, Turn::Clockwise);
const D2: Move = Move(Face::Down, Turn::Half);
const DI: Move = Move(Face::Down, Turn::CounterClockwise);
const F: Move = Move(Face::Front, Turn::Clockwise);
const R: Move = Move(Face::Right, Turn::Clockwise);
const RI: Move = Move(Face::Right, Turn::CounterClockwise);

type ParityStep<'a> =
    DefaultPruningTableStep<'a, 2, ParityCoord, 2187, COUDCoord, CornerCubieCube, AnyPostStepCheck>;
type TwistStep<'a> =
    DefaultPruningTableStep<'a, 2187, COUDCoord, 1, ZeroCoord, CornerCubieCube, AnyPostStepCheck>;
type OrbitStep<'a> = DefaultPruningTableStep<
    'a,
    70,
    CPOrbitUnsortedCoord,
    2187,
    COUDCoord,
    CornerCubieCube,
    AnyPostStepCheck,
>;
type Steps<'a> = Vec<(Step<'a, CornerCubieCube>, DefaultStepOptions)>;

fn scrambled(moves: &[Move]) -> CornerCubieCube {
    let mut c = CornerCubieCube::new();
    for m in moves {
        c.turn(*m);
    }
    c
}

fn parity_table() -> PruningTable<2, ParityCoord> {
    let mut table = PruningTable::new();
    table.set(ParityCoord::from(&scrambled(&[])), 0);
    table.set(ParityCoord::from(&scrambled(&[U])), 1);
    table
}

fn twist_table() -> PruningTable<2187, COUDCoord> {
    let mut table = PruningTable::new();
    let mut layer = vec![CornerCubieCube::new()];
    table.set(COUDCoord::from(&layer[0]), 0);
    let mut depth = 0u8;
    while !layer.is_empty() {
        depth += 1;
        let mut next = Vec::new();
        for cube in &layer {
            for id in 0..18 {
                let mut c = *cube;
                c.turn(move_of_id(id));
                let coord = COUDCoord::from(&c);
                if table.get(coord).is_none() {
                    table.set(coord, depth);
                    next.push(c);
                }
            }
        }
        layer = next;
    }
    table
}

/// The moves that leave the twist alone: the quarter turns of the up and
/// down faces change the orbits, the half turns do not.
fn orbit_moves() -> MoveSet {
    let mut aux = vec![U2, D2];
    for face in [Face::Front, Face::Back, Face::Left, Face::Right] {
        aux.push(Move(face, Turn::Half));
    }
    MoveSet::new(vec![U, UI, D, DI], aux)
}

fn orbit_table(moves: &MoveSet) -> PruningTable<70, CPOrbitUnsortedCoord> {
    let mut table = PruningTable::new();
    let mut layer = vec![CornerCubieCube::new()];
    table.set(CPOrbitUnsortedCoord::from(&layer[0]), 0);
    let mut depth = 0u8;
    while !layer.is_empty() {
        depth += 1;
        let mut next = Vec::new();
        for cube in &layer {
            for m in moves.st_moves.iter().chain(moves.aux_moves.iter()) {
                let mut c = *cube;
                c.turn(*m);
                let coord = CPOrbitUnsortedCoord::from(&c);
                if table.get(coord).is_none() {
                    table.set(coord, depth);
                    next.push(c);
                }
            }
        }
        layer = next;
    }
    assert!(table.is_populated());
    table
}

fn up_down_moves() -> MoveSet {
    MoveSet::new(vec![U, UI, D, DI], vec![U2, D2])
}

fn twist_moves() -> MoveSet {
    let mut st = Vec::new();
    let mut aux = Vec::new();
    for id in 0..18 {
        let m = move_of_id(id);
        let side = m.0 != Face::Up && m.0 != Face::Down;
        if side && m.1 != Turn::Half {
            st.push(m);
        } else {
            aux.push(m);
        }
    }
    MoveSet::new(st, aux)
}

fn options(min: u8, max: u8, limit: Option<usize>, quality: Option<usize>) -> DefaultStepOptions {
    DefaultStepOptions::new(min, max, NissType::Never, limit, quality)
}

fn drain(source: &mut dyn SolutionSource) -> Vec<Solution> {
    let mut out = Vec::new();
    while let Some(s) = source.next() {
        out.push(s);
    }
    out
}

/// The steps of a solution: for each the name of the variant and the two
/// tracks.
fn steps_of(s: &Solution) -> Vec<(String, Vec<Move>, Vec<Move>)> {
    s.steps
        .iter()
        .map(|step| {
            (step.variant.clone(), step.alg.normal_moves.clone(), step.alg.inverse_moves.clone())
        })
        .collect()
}

fn one_step(name: &str, normal: &[Move]) -> Vec<(String, Vec<Move>, Vec<Move>)> {
    vec![(name.to_string(), normal.to_vec(), vec![])]
}

fn single(s: &Solution) -> SolutionIterator<'static> {
    SolutionIterator::from_list(SolutionList::new(vec![s.clone()]))
}

#[test]
fn options_are_kept_as_given() {
    let o = DefaultStepOptions::new(1, 4, NissType::Before, Some(7), Some(9));
    assert_eq!(o.min_moves, 1);
    assert_eq!(o.max_moves, 4);
    assert_eq!(o.niss_type, NissType::Before);
    assert_eq!(o.step_limit, Some(7));
    assert_eq!(o.step_quality, Some(9));
    assert_eq!(o.quality_cap(0), Some(100));
    assert_eq!(o.quality_cap(1), Some(9));
    assert_eq!(options(0, 1, None, None).quality_cap(3), None);
    assert_eq!(options(0, 1, None, None).quality_cap(0), Some(100));
}

#[test]
fn solved_state_yields_the_solution_without_moves_first() {
    let table = parity_table();
    let moves = up_down_moves();
    let variant: ParityStep =
        DefaultPruningTableStep::new(&moves, vec![], &table, AnyPostStepCheck, "parity");
    let steps: Steps = vec![(Step::new(vec![Box::new(variant)], "parity"), options(0, 3, None, None))];
    let mut solutions = solve_steps(scrambled(&[]), &steps, None);
    let first = solutions.next().unwrap();
    assert_eq!(first.len(), 0);
    assert_eq!(steps_of(&first), one_step("parity", &[]));
    // a solved cube is not searched further
    assert!(solutions.next().is_none());
    let eager = solve_steps_vec(scrambled(&[]), &steps, None);
    assert_eq!(eager.len(), 1);
    assert_eq!(eager[0].len(), 0);
}

#[test]
fn phase_yields_its_solutions_by_depth() {
    let table = parity_table();
    let moves = up_down_moves();
    let variant: ParityStep =
        DefaultPruningTableStep::new(&moves, vec![], &table, AnyPostStepCheck, "parity");
    let step = Step::new(vec![Box::new(variant)], "parity");
    let mut phase = first_step(&step, options(0, 3, None, None), scrambled(&[U]), None);
    let all: Vec<_> = drain(&mut phase).iter().map(steps_of).collect();
    assert_eq!(
        all,
        vec![
            one_step("parity", &[U]),
            one_step("parity", &[UI]),
            one_step("parity", &[D]),
            one_step("parity", &[DI]),
            one_step("parity", &[U2, D]),
            one_step("parity", &[U2, DI])
        ]
    );
    assert!(phase.next().is_none());
}

#[test]
fn phase_keeps_to_the_least_and_the_largest_number_of_moves() {
    let table = parity_table();
    let moves = up_down_moves();
    let variant: ParityStep =
        DefaultPruningTableStep::new(&moves, vec![], &table, AnyPostStepCheck, "parity");
    let step = Step::new(vec![Box::new(variant)], "parity");
    let cube = scrambled(&[U]);
    let lengths = |min: u8, max: u8| -> Vec<usize> {
        drain(&mut first_step(&step, options(min, max, None, None), cube, None))
            .iter()
            .map(|s| s.len())
            .collect()
    };
    assert_eq!(lengths(0, 0), vec![]);
    assert_eq!(lengths(0, 1), vec![1, 1, 1, 1]);
    assert_eq!(lengths(2, 2), vec![2, 2]);
    assert_eq!(lengths(2, 255), vec![2, 2]);
    assert_eq!(lengths(1, 3), vec![1, 1, 1, 1, 2, 2]);
    assert_eq!(lengths(3, 2), vec![]);
    assert_eq!(lengths(3, 9), vec![]);
}

#[test]
fn phase_is_cut_at_its_limit_and_each_depth_at_the_quality() {
    let table = parity_table();
    let moves = up_down_moves();
    let variant: ParityStep =
        DefaultPruningTableStep::new(&moves, vec![], &table, AnyPostStepCheck, "parity");
    let step = Step::new(vec![Box::new(variant)], "parity");
    let cube = scrambled(&[U]);
    let run = |limit: Option<usize>, quality: Option<usize>| -> Vec<Vec<Move>> {
        drain(&mut first_step(&step, options(0, 3, limit, quality), cube, None))
            .iter()
            .map(|s| s.steps[0].alg.normal_moves.clone())
            .collect()
    };
    assert_eq!(run(None, None).len(), 6);
    assert_eq!(run(Some(3), None), vec![vec![U], vec![UI], vec![D]]);
    assert_eq!(run(Some(5), None), vec![vec![U], vec![UI], vec![D], vec![DI], vec![U2, D]]);
    assert_eq!(run(Some(6), None).len(), 6);
    assert_eq!(run(Some(60), None).len(), 6);
    assert_eq!(run(Some(0), None), Vec::<Vec<Move>>::new());
    assert_eq!(run(None, Some(1)), vec![vec![U], vec![U2, D]]);
    assert_eq!(run(None, Some(3)), vec![vec![U], vec![UI], vec![D], vec![U2, D], vec![U2, DI]]);
    assert_eq!(run(Some(4), Some(3)), vec![vec![U], vec![UI], vec![D], vec![U2, D]]);
    assert_eq!(run(None, Some(0)), Vec::<Vec<Move>>::new());
}

#[test]
fn variants_come_in_their_order_at_every_depth() {
    let table = parity_table();
    let moves = up_down_moves();
    let only_up = MoveSet::new(vec![U, UI], vec![U2]);
    let first: ParityStep =
        DefaultPruningTableStep::new(&only_up, vec![], &table, AnyPostStepCheck, "up");
    let second: ParityStep =
        DefaultPruningTableStep::new(&moves, vec![], &table, AnyPostStepCheck, "both");
    let step = Step::new(vec![Box::new(first), Box::new(second)], "parity");
    assert_eq!(step.name(), "parity");
    let found = drain(&mut first_step(&step, options(0, 2, None, None), scrambled(&[U]), None));
    assert!(found.iter().all(|s| s.steps.len() == 1 && s.steps[0].name == "parity"));
    let all: Vec<_> = found.iter().map(steps_of).collect();
    assert_eq!(
        all,
        vec![
            one_step("up", &[U]),
            one_step("up", &[UI]),
            one_step("both", &[U]),
            one_step("both", &[UI]),
            one_step("both", &[D]),
            one_step("both", &[DI]),
            one_step("both", &[U2, D]),
            one_step("both", &[U2, DI])
        ]
    );
    let capped: Vec<_> =
        drain(&mut first_step(&step, options(0, 2, None, Some(3)), scrambled(&[U]), None))
            .iter()
            .map(steps_of)
            .collect();
    assert_eq!(
        capped,
        vec![
            one_step("up", &[U]),
            one_step("up", &[UI]),
            one_step("both", &[U]),
            one_step("both", &[U2, D]),
            one_step("both", &[U2, DI])
        ]
    );
}

#[test]
fn depth_zero_is_cut_at_a_hundred() {
    let table = parity_table();
    let moves = up_down_moves();
    let mut variants: Vec<Box<dyn StepVariant<CornerCubieCube> + '_>> = Vec::new();
    for _ in 0..120 {
        let variant: ParityStep =
            DefaultPruningTableStep::new(&moves, vec![], &table, AnyPostStepCheck, "parity");
        variants.push(Box::new(variant));
    }
    let step = Step::new(variants, "parity");
    let all = drain(&mut first_step(&step, options(0, 0, None, Some(1000)), scrambled(&[]), None));
    assert_eq!(all.len(), 100);
    let all = drain(&mut first_step(&step, options(0, 0, None, None), scrambled(&[]), None));
    assert_eq!(all.len(), 100);
    let all = drain(&mut first_step(&step, options(0, 0, Some(7), None), scrambled(&[]), None));
    assert_eq!(all.len(), 7);
    let all = drain(&mut first_step(&step, options(1, 1, None, None), scrambled(&[U]), None));
    assert_eq!(all.len(), 480);
}

#[test]
fn phase_starts_behind_the_moves_of_the_phases_before() {
    let table = parity_table();
    let moves = up_down_moves();
    let variant: ParityStep =
        DefaultPruningTableStep::new(&moves, vec![], &table, AnyPostStepCheck, "parity");
    let step = Step::new(vec![Box::new(variant)], "parity");
    let mut before = Solution::new();
    let mut alg = Algorithm::new();
    alg.normal_moves.push(U2);
    before.add_step("first".to_string(), "first".to_string(), alg);
    // the cube is searched as it is after the half turn, and the up face
    // is not turned again
    let all: Vec<_> = drain(&mut next_step(
        single(&before),
        &step,
        options(0, 2, None, None),
        scrambled(&[U]),
        None,
    ))
    .iter()
    .map(steps_of)
    .collect();
    let first = ("first".to_string(), vec![U2], vec![]);
    assert_eq!(
        all,
        vec![
            vec![first.clone(), ("parity".to_string(), vec![D], vec![])],
            vec![first.clone(), ("parity".to_string(), vec![DI], vec![])]
        ]
    );
}

fn two_phases<'a>(
    twist: &'a PruningTable<2187, COUDCoord>,
    orbit: &'a PruningTable<70, CPOrbitUnsortedCoord>,
    side: &'a MoveSet,
    flat: &'a MoveSet,
    first: DefaultStepOptions,
    second: DefaultStepOptions,
) -> Steps<'a> {
    let co: TwistStep = DefaultPruningTableStep::new(side, vec![], twist, AnyPostStepCheck, "co");
    let orb: OrbitStep = DefaultPruningTableStep::new(flat, vec![], orbit, AnyPostStepCheck, "orbit");
    vec![
        (Step::new(vec![Box::new(co)], "twist"), first),
        (Step::new(vec![Box::new(orb)], "orbits"), second),
    ]
}

fn solves(cube: CornerCubieCube, s: &Solution) -> bool {
    let mut c = cube;
    apply_alg(&mut c, &s.merged());
    COUDCoord::from(&c).val() == 0 && CPOrbitUnsortedCoord::from(&c).val() == 0
}

#[test]
fn streaming_pipeline_chains_the_phases() {
    let twist = twist_table();
    let side = twist_moves();
    let flat = orbit_moves();
    let orbit = orbit_table(&flat);
    let cube = scrambled(&[R, U]);
    let steps = two_phases(
        &twist,
        &orbit,
        &side,
        &flat,
        options(0, 3, Some(6), None),
        options(0, 2, Some(8), None),
    );
    let all = drain(&mut solve_steps(cube, &steps, None));
    assert_eq!(all.iter().map(|s| s.len()).collect::<Vec<_>>(), vec![2, 2, 4, 4, 4, 4, 4, 4]);
    for s in &all {
        assert_eq!(s.steps.len(), 2);
        assert_eq!(s.steps[0].name, "twist");
        assert_eq!(s.steps[0].variant, "co");
        assert_eq!(s.steps[1].name, "orbits");
        assert_eq!(s.steps[1].variant, "orbit");
        assert!(s.steps[0].alg.len() <= 3);
        assert!(s.steps[1].alg.len() <= 2);
        assert!(solves(cube, s));
    }
    // the same by hand: the first six solutions of the first phase, each
    // followed by all that the second phase finds behind it
    let parents = drain(&mut first_step(&steps[0].0, options(0, 3, Some(6), None), cube, None));
    assert_eq!(parents.iter().map(|s| s.len()).collect::<Vec<_>>(), vec![2, 2, 2, 2, 3, 3]);
    let mut expected = Vec::new();
    for parent in &parents {
        for s in drain(&mut next_step(single(parent), &steps[1].0, options(0, 2, None, None), cube, None)) {
            expected.push(steps_of(&s));
        }
    }
    assert_eq!(expected.len(), 12);
    expected.truncate(8);
    assert_eq!(all.iter().map(steps_of).collect::<Vec<_>>(), expected);
}

#[test]
fn streaming_pipeline_without_limits_yields_everything() {
    let twist = twist_table();
    let side = twist_moves();
    let flat = orbit_moves();
    let orbit = orbit_table(&flat);
    let cube = scrambled(&[R, U]);
    let steps = two_phases(
        &twist,
        &orbit,
        &side,
        &flat,
        options(0, 3, None, None),
        options(0, 2, None, None),
    );
    let all = drain(&mut solve_steps(cube, &steps, None));
    assert_eq!(all.len(), 20);
    let parents = drain(&mut first_step(&steps[0].0, options(0, 3, None, None), cube, None));
    let mut expected = 0;
    for parent in &parents {
        expected +=
            drain(&mut next_step(single(parent), &steps[1].0, options(0, 2, None, None), cube, None))
                .len();
    }
    assert!(parents.len() > 1);
    assert_eq!(all.len(), expected);
    assert!(all.iter().all(|s| solves(cube, s)));
    let empty: Steps = Vec::new();
    let none = drain(&mut solve_steps(cube, &empty, None));
    assert_eq!(none.len(), 1);
    assert_eq!(none[0].steps.len(), 0);
}

#[test]
fn eager_pipeline_keeps_the_shortest_in_the_order_of_discovery() {
    let twist = twist_table();
    let side = twist_moves();
    let flat = orbit_moves();
    let orbit = orbit_table(&flat);
    let cube = scrambled(&[R, U]);
    let steps = two_phases(
        &twist,
        &orbit,
        &side,
        &flat,
        options(0, 3, Some(6), None),
        options(0, 2, Some(8), None),
    );
    let result = solve_steps_vec(cube, &steps, None);
    assert_eq!(result.iter().map(|s| s.len()).collect::<Vec<_>>(), vec![2, 2, 3, 3, 4, 4, 4, 4]);
    assert!(result.iter().all(|s| solves(cube, s)));
    // the same by hand, with the stable sort of the standard library
    let mut first = drain(&mut first_step(&steps[0].0, options(0, 3, None, None), cube, None));
    assert_eq!(first.len(), 8);
    first.sort_by_key(|s| s.len());
    first.truncate(6);
    let mut second = Vec::new();
    for parent in &first {
        second.extend(drain(&mut next_step(
            single(parent),
            &steps[1].0,
            options(0, 2, None, None),
            cube,
            None,
        )));
    }
    assert_eq!(
        second.iter().map(|s| s.len()).collect::<Vec<_>>(),
        vec![2, 2, 4, 4, 4, 4, 4, 4, 4, 4, 3, 3]
    );
    second.sort_by_key(|s| s.len());
    second.truncate(8);
    assert_eq!(
        result.iter().map(steps_of).collect::<Vec<_>>(),
        second.iter().map(steps_of).collect::<Vec<_>>()
    );
    // the streaming pipeline takes the first that it meets instead
    let streamed = drain(&mut solve_steps(cube, &steps, None));
    assert_eq!(
        streamed.iter().map(|s| s.len()).collect::<Vec<_>>(),
        vec![2, 2, 4, 4, 4, 4, 4, 4]
    );
    // without a limit on the last phase the two hold the same solutions
    let open = two_phases(
        &twist,
        &orbit,
        &side,
        &flat,
        options(0, 3, None, None),
        options(0, 2, None, None),
    );
    let eager = solve_steps_vec(cube, &open, None);
    assert_eq!(eager.len(), 20);
    for pair in eager.windows(2) {
        assert!(pair[0].len() <= pair[1].len());
    }
}

fn solution_of(name: &str, moves: usize) -> Solution {
    let mut alg = Algorithm::new();
    for _ in 0..moves {
        alg.normal_moves.push(U);
    }
    let mut s = Solution::new();
    s.add_step(name.to_string(), name.to_string(), alg);
    s
}

#[test]
fn shortest_candidates_are_kept_and_ties_keep_their_order() {
    let candidates = vec![
        solution_of("a", 3),
        solution_of("b", 1),
        solution_of("c", 2),
        solution_of("d", 1),
        solution_of("e", 3),
        solution_of("f", 0),
        solution_of("g", 2),
    ];
    let names = |list: Vec<Solution>| -> Vec<String> {
        list.iter().map(|s| s.steps[0].name.clone()).collect()
    };
    assert_eq!(names(shortest(&candidates, None)), vec!["f", "b", "d", "c", "g", "a", "e"]);
    assert_eq!(names(shortest(&candidates, Some(4))), vec!["f", "b", "d", "c"]);
    assert_eq!(names(shortest(&candidates, Some(2))), vec!["f", "b"]);
    assert_eq!(names(shortest(&candidates, Some(0))), Vec::<String>::new());
    assert_eq!(names(shortest(&candidates, Some(7))).len(), 7);
    assert_eq!(names(shortest(&candidates, Some(70))).len(), 7);
    assert_eq!(names(shortest(&Vec::new(), Some(3))), Vec::<String>::new());
    assert_eq!(names(shortest(&vec![solution_of("only", 5)], None)), vec!["only"]);
}

#[test]
fn nothing_is_yielded_once_the_token_is_set() {
    let twist = twist_table();
    let side = twist_moves();
    let flat = orbit_moves();
    let orbit = orbit_table(&flat);
    let cube = scrambled(&[R, U, F]);
    let steps = two_phases(
        &twist,
        &orbit,
        &side,
        &flat,
        options(0, 3, None, None),
        options(0, 2, None, None),
    );
    let token = CancelToken::new();
    let mut solutions = solve_steps(cube, &steps, Some(&token));
    let mut seen = 0;
    for _ in 0..5 {
        assert!(solutions.next().is_some());
        seen += 1;
    }
    token.cancel();
    for _ in 0..10 {
        assert!(solutions.next().is_none());
    }
    assert_eq!(seen, 5);
    // a token that is set from the start lets nothing through
    let mut none = solve_steps(cube, &steps, Some(&token));
    assert!(none.next().is_none());
    assert!(none.next().is_none());
    assert_eq!(solve_steps_vec(cube, &steps, Some(&token)).len(), 0);
    // a token that is never set changes nothing
    let idle = CancelToken::new();
    let with = drain(&mut solve_steps(cube, &steps, Some(&idle)));
    let without = drain(&mut solve_steps(cube, &steps, None));
    assert_eq!(
        with.iter().map(steps_of).collect::<Vec<_>>(),
        without.iter().map(steps_of).collect::<Vec<_>>()
    );
    assert_eq!(
        solve_steps_vec(cube, &steps, Some(&idle)).len(),
        solve_steps_vec(cube, &steps, None).len()
    );
}

#[test]
fn exhausted_sequence_stays_exhausted() {
    let mut list = SolutionIterator::from_list(SolutionList::new(vec![
        solution_of("a", 1),
        solution_of("b", 2),
    ]));
    assert_eq!(list.next().unwrap().steps[0].name, "a");
    assert_eq!(list.next().unwrap().steps[0].name, "b");
    assert!(list.next().is_none());
    assert!(list.next().is_none());
    let mut empty = SolutionList::new(Vec::new());
    assert!(empty.next().is_none());
}

#[test]
fn phase_without_a_table_searches_with_the_coarse_bound() {
    let step: Step<CornerCubieCube> =
        Step::new_basic::<2187, COUDCoord>("plain", twist_moves());
    assert_eq!(step.name(), "unknown");
    assert_eq!(step.step_variants.len(), 1);
    let variant = &step.step_variants[0];
    assert_eq!(variant.name(), "plain");
    assert!(variant.pre_step_trans().is_empty());
    assert!(variant.is_cube_ready(&scrambled(&[R, U, F])));
    assert!(variant.is_solution_admissible(&scrambled(&[R]), &Algorithm::new()));
    assert_eq!(variant.heuristic(&scrambled(&[]), 3, false), 0);
    assert_eq!(variant.heuristic(&scrambled(&[U2, D]), 3, true), 0);
    assert_eq!(variant.heuristic(&scrambled(&[R]), 3, false), 1);
    assert_eq!(variant.heuristic(&scrambled(&[R, U, F]), 3, false), 1);
    assert_eq!(variant.heuristic(&scrambled(&[R, U, F]), 3, true), 1);
    assert_eq!(variant.move_set(&scrambled(&[]), 2).st_moves.len(), 8);
    let cube = scrambled(&[R, U]);
    let twist = twist_table();
    let side = twist_moves();
    let with_table: TwistStep =
        DefaultPruningTableStep::new(&side, vec![], &twist, AnyPostStepCheck, "plain");
    let backed = Step::new(vec![Box::new(with_table)], "twist");
    let plain = drain(&mut first_step(&step, options(0, 3, None, None), cube, None));
    assert!(plain.iter().all(|s| s.steps[0].name == "unknown" && s.steps[0].variant == "plain"));
    let a: Vec<_> = plain.iter().map(steps_of).collect();
    let b: Vec<_> = drain(&mut first_step(&backed, options(0, 3, None, None), cube, None))
        .iter()
        .map(steps_of)
        .collect();
    assert!(!a.is_empty());
    assert_eq!(a, b);
}

#[test]
fn phase_is_half_turn_invariant_where_every_variant_is() {
    let table = parity_table();
    let quarter = up_down_moves();
    let half = MoveSet::new(vec![U, U2], vec![D2]);
    let a: ParityStep =
        DefaultPruningTableStep::new(&quarter, vec![], &table, AnyPostStepCheck, "a");
    let b: ParityStep = DefaultPruningTableStep::new(&half, vec![], &table, AnyPostStepCheck, "b");
    let c: ParityStep =
        DefaultPruningTableStep::new(&quarter, vec![], &table, AnyPostStepCheck, "c");
    assert!(a.is_half_turn_invariant());
    assert!(!b.is_half_turn_invariant());
    assert!(Step::new(vec![Box::new(a)], "one").is_half_turn_invariant());
    assert!(!Step::new(vec![Box::new(c), Box::new(b)], "two").is_half_turn_invariant());
    let none: Step<CornerCubieCube> = Step::new(Vec::new(), "none");
    assert!(none.is_half_turn_invariant());
    assert!(Step::<CornerCubieCube>::new_basic::<2187, COUDCoord>("q", twist_moves())
        .is_half_turn_invariant());
    assert!(!Step::<CornerCubieCube>::new_basic::<2187, COUDCoord>(
        "h",
        MoveSet::new(vec![Move(Face::Right, Turn::Half), RI], vec![])
    )
    .is_half_turn_invariant());
}


