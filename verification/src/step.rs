//! Search phases: the options of a phase, the interface of a phase variant
//! and the phase as an ordered list of variants.

use vstd::prelude::*;
use std::marker::PhantomData;
use vstd::std_specs::convert::FromSpec;
use crate::algs::{Algorithm, AlgorithmView, Solution, SolutionStepView};
use crate::cancel::CancelToken;
use crate::coord::Coord;
use crate::cube::{Invertible, Transformation, Turnable};
use crate::lookup_table::PruningTable;
use crate::moveset::MoveSet;
use crate::phase::{step_output, SolutionIterator, StepIterator};
use crate::stream::{SolutionList, SolutionSource};

verus! {

/// When a search may go over to the inverse track.
#[derive(Copy, Clone, Debug, PartialEq, Eq, Structural)]
pub enum NissType {
    /// All moves are made on the normal track.
    Never,
    /// A phase is solved on one track: the choice is made before its first
    /// move.
    Before,
    /// The search may go over to the inverse track at every node, once.
    Always,
}

/// The options of one phase.
#[derive(Copy, Clone, Debug)]
pub struct DefaultStepOptions {
    pub niss_type: NissType,
    pub min_moves: u8,
    pub max_moves: u8,
    pub step_quality: Option<usize>,
    pub step_limit: Option<usize>,
}

impl DefaultStepOptions {
    /// The options with the given values.
    pub fn new(
        min_moves: u8,
        max_moves: u8,
        niss_type: NissType,
        step_limit: Option<usize>,
        step_quality: Option<usize>,
    ) -> (r: Self)
        ensures
            r == (DefaultStepOptions { niss_type, min_moves, max_moves, step_quality, step_limit }),
    {
        DefaultStepOptions { niss_type, min_moves, max_moves, step_quality, step_limit }
    }

    /// The number of solutions that one starting point may contribute at
    /// `depth`: a hundred at depth zero, else the quality cap, if any.
    pub open spec fn spec_quality_cap(&self, depth: u8) -> Option<usize> {
        if depth == 0 {
            Some(100usize)
        } else {
            self.step_quality
        }
    }

    #[verifier::when_used_as_spec(spec_quality_cap)]
    pub fn quality_cap(&self, depth: u8) -> (r: Option<usize>)
        ensures
            r == self.spec_quality_cap(depth),
    {
        if depth == 0 {
            Some(100)
        } else {
            self.step_quality
        }
    }
}

/// Decides whether a state is one that a phase variant can start from.
pub trait PreStepCheck<CubeParam> {
    spec fn cube_ready(&self, cube: &CubeParam) -> bool;

    fn is_cube_ready(&self, cube: &CubeParam) -> (r: bool)
        ensures
            r == self.cube_ready(cube),
    ;
}

/// Decides whether an algorithm that solves a phase from `cube` is kept.
pub trait PostStepCheck<CubeParam> {
    spec fn solution_admissible(&self, cube: &CubeParam, alg: AlgorithmView) -> bool;

    fn is_solution_admissible(&self, cube: &CubeParam, alg: &Algorithm) -> (r: bool)
        ensures
            r == self.solution_admissible(cube, alg@),
    ;
}

/// The check that keeps every solution.
#[derive(Copy, Clone)]
pub struct AnyPostStepCheck;

impl<CubeParam> PostStepCheck<CubeParam> for AnyPostStepCheck {
    open spec fn solution_admissible(&self, cube: &CubeParam, alg: AlgorithmView) -> bool {
        true
    }

    fn is_solution_admissible(&self, cube: &CubeParam, alg: &Algorithm) -> (r: bool) {
        true
    }
}

/// One way to search a phase: the check of the starting state, the moves,
/// the rotations made before the search, a lower bound on the moves still
/// needed, and the check of what the search finds. Every answer is a
/// function of the arguments alone.
pub trait StepVariant<CubeParam> {
    /// Whether the variant can start from `cube`.
    spec fn cube_ready(&self, cube: &CubeParam) -> bool;

    /// Whether `alg`, found from `cube`, is kept.
    spec fn solution_admissible(&self, cube: &CubeParam, alg: AlgorithmView) -> bool;

    spec fn spec_move_set(&self, cube: &CubeParam, depth_left: u8) -> MoveSet;

    spec fn spec_pre_step_trans(&self) -> Seq<Transformation>;

    spec fn spec_heuristic(&self, cube: &CubeParam, depth_left: u8, can_niss: bool) -> u8;

    spec fn spec_name(&self) -> Seq<char>;

    spec fn half_turn_invariant(&self) -> bool;

    fn is_cube_ready(&self, cube: &CubeParam) -> (r: bool)
        ensures
            r == self.cube_ready(cube),
    ;

    fn is_solution_admissible(&self, cube: &CubeParam, alg: &Algorithm) -> (r: bool)
        ensures
            r == self.solution_admissible(cube, alg@),
    ;

    fn move_set(&self, cube: &CubeParam, depth_left: u8) -> (r: &MoveSet)
        ensures
            *r == self.spec_move_set(cube, depth_left),
    ;

    fn pre_step_trans(&self) -> (r: &Vec<Transformation>)
        ensures
            r@ == self.spec_pre_step_trans(),
    ;

    /// A lower bound on the number of moves that lead from `cube` to the
    /// phase's goal; zero exactly where `cube` has reached it.
    fn heuristic(&self, cube: &CubeParam, depth_left: u8, can_niss: bool) -> (r: u8)
        ensures
            r == self.spec_heuristic(cube, depth_left, can_niss),
    ;

    fn name(&self) -> (r: &str)
        ensures
            r@ == self.spec_name(),
    ;

    /// Whether none of the state-changing moves is a half turn.
    fn is_half_turn_invariant(&self) -> (r: bool)
        ensures
            r == self.half_turn_invariant(),
    ;
}

/// The bound that a table-backed variant reports for the table's bound
/// `raw`: one wherever the search may still go over to the inverse track
/// and `raw` is not zero, so that the branch stays alive; else `raw`.
pub open spec fn spec_niss_clamp(raw: u8, can_niss: bool) -> u8 {
    if can_niss && raw != 0 {
        1
    } else {
        raw
    }
}

#[verifier::when_used_as_spec(spec_niss_clamp)]
pub fn niss_clamp(raw: u8, can_niss: bool) -> (r: u8)
    ensures
        r == spec_niss_clamp(raw, can_niss),
{
    if can_niss && raw != 0 {
        1
    } else {
        raw
    }
}

/// A phase variant that is backed by a pruning table. The cube is ready
/// for it where the coordinate `PC` is zero; its bound is the table's entry
/// for the coordinate `HC`.
pub struct DefaultPruningTableStep<
    'a,
    const HC_SIZE: usize,
    HC: Coord<HC_SIZE>,
    const PC_SIZE: usize,
    PC: Coord<PC_SIZE>,
    CubeParam,
    PSC: PostStepCheck<CubeParam>,
> where HC: for<'x> From<&'x CubeParam>, PC: for<'x> From<&'x CubeParam> {
    move_set: &'a MoveSet,
    pre_trans: Vec<Transformation>,
    table: &'a PruningTable<HC_SIZE, HC>,
    name: &'a str,
    post_step_check: PSC,
    _pc: PhantomData<PC>,
    _cube: PhantomData<CubeParam>,
}

impl<
    'a,
    const HC_SIZE: usize,
    HC: Coord<HC_SIZE>,
    const PC_SIZE: usize,
    PC: Coord<PC_SIZE>,
    CubeParam,
    PSC: PostStepCheck<CubeParam>,
> DefaultPruningTableStep<'a, HC_SIZE, HC, PC_SIZE, PC, CubeParam, PSC> where
    HC: for<'x> From<&'x CubeParam>,
    PC: for<'x> From<&'x CubeParam>,
 {
    #[verifier::type_invariant]
    spec fn usable(self) -> bool {
        &&& self.table.populated()
        &&& <HC as FromSpec<&CubeParam>>::obeys_from_spec()
        &&& <PC as FromSpec<&CubeParam>>::obeys_from_spec()
    }

    /// The variant's table.
    pub closed spec fn table(&self) -> &PruningTable<HC_SIZE, HC> {
        self.table
    }

    /// The table's bound for `cube`: the entry for the coordinate `HC` of
    /// `cube`.
    pub open spec fn table_bound(&self, cube: &CubeParam) -> u8 {
        self.table()@[<HC as FromSpec<&CubeParam>>::from_spec(cube).value() as int].unwrap()
    }

    /// A variant over a table in which no entry is missing.
    pub fn new(
        move_set: &'a MoveSet,
        pre_trans: Vec<Transformation>,
        table: &'a PruningTable<HC_SIZE, HC>,
        post_step_check: PSC,
        name: &'a str,
    ) -> (r: Self)
        requires
            table.populated(),
            <HC as FromSpec<&CubeParam>>::obeys_from_spec(),
            <PC as FromSpec<&CubeParam>>::obeys_from_spec(),
        ensures
            r.table() == table,
            r.spec_name() == name@,
            r.spec_pre_step_trans() == pre_trans@,
            r.half_turn_invariant() == !move_set.spec_turns_half(),
            forall|cube: &CubeParam, depth_left: u8| #[trigger]
                r.spec_move_set(cube, depth_left) == *move_set,
            forall|cube: &CubeParam, alg: AlgorithmView| #[trigger]
                StepVariant::solution_admissible(&r, cube, alg)
                    == post_step_check.solution_admissible(cube, alg),
    {
        DefaultPruningTableStep {
            move_set,
            pre_trans,
            table,
            name,
            post_step_check,
            _cube: PhantomData,
            _pc: PhantomData,
        }
    }

    /// The bound that the variant reports is the table's bound, clamped
    /// where the search may still go over to the inverse track.
    pub proof fn lemma_heuristic(&self, cube: &CubeParam, depth_left: u8, can_niss: bool)
        ensures
            self.spec_heuristic(cube, depth_left, can_niss) == spec_niss_clamp(
                self.table_bound(cube),
                can_niss,
            ),
            StepVariant::cube_ready(self, cube) == (<PC as FromSpec<&CubeParam>>::from_spec(
                cube,
            ).value() == 0),
    {
    }
}

impl<
    'a,
    const HC_SIZE: usize,
    HC: Coord<HC_SIZE>,
    const PC_SIZE: usize,
    PC: Coord<PC_SIZE>,
    CubeParam,
    PSC: PostStepCheck<CubeParam>,
> PreStepCheck<CubeParam> for DefaultPruningTableStep<
    'a,
    HC_SIZE,
    HC,
    PC_SIZE,
    PC,
    CubeParam,
    PSC,
> where HC: for<'x> From<&'x CubeParam>, PC: for<'x> From<&'x CubeParam> {
    closed spec fn cube_ready(&self, cube: &CubeParam) -> bool {
        <PC as FromSpec<&CubeParam>>::from_spec(cube).value() == 0
    }

    fn is_cube_ready(&self, cube: &CubeParam) -> (r: bool) {
        proof {
            use_type_invariant(self);
        }
        PC::from(cube).val() == 0
    }
}

impl<
    'a,
    const HC_SIZE: usize,
    HC: Coord<HC_SIZE>,
    const PC_SIZE: usize,
    PC: Coord<PC_SIZE>,
    CubeParam,
    PSC: PostStepCheck<CubeParam>,
> PostStepCheck<CubeParam> for DefaultPruningTableStep<
    'a,
    HC_SIZE,
    HC,
    PC_SIZE,
    PC,
    CubeParam,
    PSC,
> where HC: for<'x> From<&'x CubeParam>, PC: for<'x> From<&'x CubeParam> {
    closed spec fn solution_admissible(&self, cube: &CubeParam, alg: AlgorithmView) -> bool {
        self.post_step_check.solution_admissible(cube, alg)
    }

    fn is_solution_admissible(&self, cube: &CubeParam, alg: &Algorithm) -> (r: bool) {
        self.post_step_check.is_solution_admissible(cube, alg)
    }
}

impl<
    'a,
    const HC_SIZE: usize,
    HC: Coord<HC_SIZE>,
    const PC_SIZE: usize,
    PC: Coord<PC_SIZE>,
    CubeParam,
    PSC: PostStepCheck<CubeParam>,
> StepVariant<CubeParam> for DefaultPruningTableStep<
    'a,
    HC_SIZE,
    HC,
    PC_SIZE,
    PC,
    CubeParam,
    PSC,
> where HC: for<'x> From<&'x CubeParam>, PC: for<'x> From<&'x CubeParam> {
    closed spec fn cube_ready(&self, cube: &CubeParam) -> bool {
        PreStepCheck::cube_ready(self, cube)
    }

    closed spec fn solution_admissible(&self, cube: &CubeParam, alg: AlgorithmView) -> bool {
        PostStepCheck::solution_admissible(self, cube, alg)
    }

    fn is_cube_ready(&self, cube: &CubeParam) -> (r: bool) {
        PreStepCheck::is_cube_ready(self, cube)
    }

    fn is_solution_admissible(&self, cube: &CubeParam, alg: &Algorithm) -> (r: bool) {
        PostStepCheck::is_solution_admissible(self, cube, alg)
    }

    closed spec fn spec_move_set(&self, cube: &CubeParam, depth_left: u8) -> MoveSet {
        *self.move_set
    }

    closed spec fn spec_pre_step_trans(&self) -> Seq<Transformation> {
        self.pre_trans@
    }

    closed spec fn spec_heuristic(&self, cube: &CubeParam, depth_left: u8, can_niss: bool) -> u8 {
        spec_niss_clamp(self.table_bound(cube), can_niss)
    }

    closed spec fn spec_name(&self) -> Seq<char> {
        self.name@
    }

    closed spec fn half_turn_invariant(&self) -> bool {
        !self.move_set.spec_turns_half()
    }

    fn move_set(&self, cube: &CubeParam, depth_left: u8) -> (r: &MoveSet) {
        self.move_set
    }

    fn pre_step_trans(&self) -> (r: &Vec<Transformation>) {
        &self.pre_trans
    }

    fn heuristic(&self, cube: &CubeParam, depth_left: u8, can_niss: bool) -> (r: u8)
        ensures
            can_niss && self.table_bound(cube) != 0 ==> r == 1,
            !can_niss || self.table_bound(cube) == 0 ==> r == self.table_bound(cube),
    {
        proof {
            use_type_invariant(self);
        }
        let coord = HC::from(cube);
        let _index = coord.val();
        match self.table.get(coord) {
            Some(val) => niss_clamp(val, can_niss),
            None => {
                proof {
                    assert(self.table@[coord.value() as int] is Some);
                }
                0
            },
        }
    }

    fn name(&self) -> (r: &str) {
        self.name
    }

    fn is_half_turn_invariant(&self) -> (r: bool) {
        !self.move_set.turns_half()
    }
}

/// A phase variant without a table: every cube is ready for it, and its
/// bound is zero where the coordinate is zero and one elsewhere.
struct NoHeuristicStep<const C_SIZE: usize, CoordParam: Coord<C_SIZE>, CubeParam> where
    CoordParam: for<'x> From<&'x CubeParam>,
 {
    move_set: MoveSet,
    trans: Vec<Transformation>,
    name: &'static str,
    _c: PhantomData<CoordParam>,
    _cube: PhantomData<CubeParam>,
}

impl<const C_SIZE: usize, CoordParam: Coord<C_SIZE>, CubeParam> NoHeuristicStep<
    C_SIZE,
    CoordParam,
    CubeParam,
> where CoordParam: for<'x> From<&'x CubeParam> {
    #[verifier::type_invariant]
    spec fn usable(self) -> bool {
        <CoordParam as FromSpec<&CubeParam>>::obeys_from_spec()
    }
}

impl<const C_SIZE: usize, CoordParam: Coord<C_SIZE>, CubeParam> PreStepCheck<
    CubeParam,
> for NoHeuristicStep<C_SIZE, CoordParam, CubeParam> where
    CoordParam: for<'x> From<&'x CubeParam>,
 {
    closed spec fn cube_ready(&self, cube: &CubeParam) -> bool {
        true
    }

    fn is_cube_ready(&self, _cube: &CubeParam) -> (r: bool) {
        true
    }
}

impl<const C_SIZE: usize, CoordParam: Coord<C_SIZE>, CubeParam> PostStepCheck<
    CubeParam,
> for NoHeuristicStep<C_SIZE, CoordParam, CubeParam> where
    CoordParam: for<'x> From<&'x CubeParam>,
 {
    closed spec fn solution_admissible(&self, cube: &CubeParam, alg: AlgorithmView) -> bool {
        true
    }

    fn is_solution_admissible(&self, cube: &CubeParam, alg: &Algorithm) -> (r: bool) {
        true
    }
}

/// The coarse bound of a coordinate value: zero for zero, else one.
pub open spec fn coarse_bound(value: nat) -> u8 {
    if value == 0 {
        0
    } else {
        1
    }
}

impl<const C_SIZE: usize, CoordParam: Coord<C_SIZE>, CubeParam> StepVariant<
    CubeParam,
> for NoHeuristicStep<C_SIZE, CoordParam, CubeParam> where
    CoordParam: for<'x> From<&'x CubeParam>,
 {
    closed spec fn cube_ready(&self, cube: &CubeParam) -> bool {
        PreStepCheck::cube_ready(self, cube)
    }

    closed spec fn solution_admissible(&self, cube: &CubeParam, alg: AlgorithmView) -> bool {
        PostStepCheck::solution_admissible(self, cube, alg)
    }

    fn is_cube_ready(&self, cube: &CubeParam) -> (r: bool) {
        PreStepCheck::is_cube_ready(self, cube)
    }

    fn is_solution_admissible(&self, cube: &CubeParam, alg: &Algorithm) -> (r: bool) {
        PostStepCheck::is_solution_admissible(self, cube, alg)
    }

    closed spec fn spec_move_set(&self, cube: &CubeParam, depth_left: u8) -> MoveSet {
        self.move_set
    }

    closed spec fn spec_pre_step_trans(&self) -> Seq<Transformation> {
        self.trans@
    }

    closed spec fn spec_heuristic(&self, cube: &CubeParam, depth_left: u8, can_niss: bool) -> u8 {
        coarse_bound(<CoordParam as FromSpec<&CubeParam>>::from_spec(cube).value())
    }

    closed spec fn spec_name(&self) -> Seq<char> {
        self.name@
    }

    closed spec fn half_turn_invariant(&self) -> bool {
        !self.move_set.spec_turns_half()
    }

    fn move_set(&self, cube: &CubeParam, depth_left: u8) -> (r: &MoveSet) {
        &self.move_set
    }

    fn pre_step_trans(&self) -> (r: &Vec<Transformation>) {
        &self.trans
    }

    fn heuristic(&self, cube: &CubeParam, depth_left: u8, can_niss: bool) -> (r: u8) {
        proof {
            use_type_invariant(self);
        }
        if CoordParam::from(cube).val() == 0 {
            0
        } else {
            1
        }
    }

    fn name(&self) -> (r: &str) {
        self.name
    }

    fn is_half_turn_invariant(&self) -> (r: bool) {
        !self.move_set.turns_half()
    }
}

/// A phase: one or more variants under one name. The order of the variants
/// is the order in which their solutions of equal length come out.
#[verifier::reject_recursive_types(CubeParam)]
pub struct Step<'a, CubeParam> {
    pub step_variants: Vec<Box<dyn StepVariant<CubeParam> + 'a>>,
    pub name: &'static str,
}

impl<'a, CubeParam: 'a> Step<'a, CubeParam> {
    /// The phase `name` with the variants `step_variants`, in that order.
    pub fn new(step_variants: Vec<Box<dyn StepVariant<CubeParam> + 'a>>, name: &'static str) -> (r:
        Self)
        ensures
            r.step_variants == step_variants,
            r.name == name,
    {
        Step { step_variants, name }
    }

    /// A phase of one variant without a table, over the coordinate
    /// `CoordParam` and the moves `moves`. The variant bears `name`; the
    /// phase itself is called "unknown".
    pub fn new_basic<const C_SIZE: usize, CoordParam: Coord<C_SIZE> + 'a>(
        name: &'static str,
        moves: MoveSet,
    ) -> (r: Self) where CoordParam: for<'x> From<&'x CubeParam>
        requires
            <CoordParam as FromSpec<&CubeParam>>::obeys_from_spec(),
        ensures
            r.name@ == "unknown"@,
            r.step_variants@.len() == 1,
            r.step_variants@[0].spec_name() == name@,
            r.step_variants@[0].spec_pre_step_trans() == Seq::<Transformation>::empty(),
            r.step_variants@[0].half_turn_invariant() == !moves.spec_turns_half(),
            forall|cube: &CubeParam| #[trigger] r.step_variants@[0].cube_ready(cube),
            forall|cube: &CubeParam, alg: AlgorithmView| #[trigger]
                r.step_variants@[0].solution_admissible(cube, alg),
            forall|cube: &CubeParam, depth_left: u8| #[trigger]
                r.step_variants@[0].spec_move_set(cube, depth_left) == moves,
            forall|cube: &CubeParam, depth_left: u8, can_niss: bool| #[trigger]
                r.step_variants@[0].spec_heuristic(cube, depth_left, can_niss) == coarse_bound(
                    <CoordParam as FromSpec<&CubeParam>>::from_spec(cube).value(),
                ),
    {
        let variant: NoHeuristicStep<C_SIZE, CoordParam, CubeParam> = NoHeuristicStep {
            move_set: moves,
            trans: Vec::new(),
            name,
            _c: PhantomData,
            _cube: PhantomData,
        };
        let step_variants: Vec<Box<dyn StepVariant<CubeParam> + 'a>> = vec![Box::new(variant)];
        Step { step_variants, name: "unknown" }
    }

    /// The name of the phase.
    pub fn name(&self) -> (r: &'static str)
        ensures
            r == self.name,
    {
        self.name
    }

    /// Whether every variant is half-turn invariant.
    pub open spec fn half_turn_invariant(&self) -> bool {
        forall|i: int|
            0 <= i < self.step_variants@.len() ==> (#[trigger] self.step_variants@[i]).half_turn_invariant()
    }

    /// Whether every variant is half-turn invariant.
    pub fn is_half_turn_invariant(&self) -> (r: bool)
        ensures
            r == self.half_turn_invariant(),
    {
        let mut i: usize = 0;
        while i < self.step_variants.len()
            invariant
                i <= self.step_variants.len(),
                forall|j: int|
                    0 <= j < i ==> (#[trigger] self.step_variants@[j]).half_turn_invariant(),
            decreases self.step_variants.len() - i,
        {
            if !self.step_variants[i].is_half_turn_invariant() {
                return false;
            }
            i += 1;
        }
        true
    }
}

/// The phase `step` behind the partial solutions that `algs` yields, as a
/// lazy sequence: for each of them in turn, and for each depth from
/// `min_moves` to `max_moves`, what the variants find at that depth, cut at
/// the quality cap; the whole cut at `step_limit`.
pub fn next_step<'a, C: Turnable + Invertible + Copy>(
    algs: SolutionIterator<'a>,
    step: &'a Step<'a, C>,
    search_opts: DefaultStepOptions,
    cube: C,
    cancel_token: Option<&'a CancelToken>,
) -> (r: StepIterator<'a, C>)
    requires
        algs.inv(),
    ensures
        r.inv(),
        r.remaining() == step_output(step, search_opts, cube, algs.remaining()),
        r.halted() == algs.halted(),
        r.cancellable() == (cancel_token is Some || algs.cancellable()),
{
    StepIterator::new(algs, step, search_opts, cube, cancel_token)
}

/// The first phase: `next_step` behind the one solution without steps.
pub fn first_step<'a, C: Turnable + Invertible + Copy>(
    step: &'a Step<'a, C>,
    search_opts: DefaultStepOptions,
    cube: C,
    cancel_token: Option<&'a CancelToken>,
) -> (r: StepIterator<'a, C>)
    ensures
        r.inv(),
        r.remaining() == step_output(
            step,
            search_opts,
            cube,
            seq![Seq::<SolutionStepView>::empty()],
        ),
        !r.halted(),
        r.cancellable() == (cancel_token is Some),
{
    let mut start: Vec<Solution> = Vec::new();
    start.push(Solution::new());
    let source = SolutionList::new(start);
    proof {
        assert(source.remaining() =~= seq![Seq::<SolutionStepView>::empty()]);
    }
    next_step(SolutionIterator::from_list(source), step, search_opts, cube, cancel_token)
}

} // verus!


