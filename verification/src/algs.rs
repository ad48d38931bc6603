//! Move sequences with a normal and an inverse track, and solutions made of
//! one such sequence per phase.

use vstd::prelude::*;
use crate::cube::{Invertible, Move, Turnable};

verus! {

/// What an `Algorithm` holds: the moves of its two tracks, in the order in
/// which they are made.
pub struct AlgorithmView {
    pub normal: Seq<Move>,
    pub inverse: Seq<Move>,
}

impl AlgorithmView {
    /// The algorithm without moves.
    pub open spec fn empty() -> AlgorithmView {
        AlgorithmView { normal: Seq::empty(), inverse: Seq::empty() }
    }

    /// The number of moves on both tracks.
    pub open spec fn len(self) -> nat {
        self.normal.len() + self.inverse.len()
    }

    /// This algorithm followed by `other`, track by track.
    pub open spec fn concat(self, other: AlgorithmView) -> AlgorithmView {
        AlgorithmView { normal: self.normal + other.normal, inverse: self.inverse + other.inverse }
    }

    /// The last move of the normal track, if there is one.
    pub open spec fn last_normal(self) -> Option<Move> {
        if self.normal.len() > 0 {
            Some(self.normal.last())
        } else {
            None
        }
    }

    /// The last move of the inverse track, if there is one.
    pub open spec fn last_inverse(self) -> Option<Move> {
        if self.inverse.len() > 0 {
            Some(self.inverse.last())
        } else {
            None
        }
    }
}

/// `n`, or the largest `usize` where `n` does not fit.
pub open spec fn saturated(n: nat) -> usize {
    if n <= usize::MAX {
        n as usize
    } else {
        usize::MAX
    }
}

/// A move sequence split into a normal track and an inverse track: the
/// inverse track is made on the inverse of the puzzle state.
#[derive(Debug)]
pub struct Algorithm {
    pub normal_moves: Vec<Move>,
    pub inverse_moves: Vec<Move>,
}

impl View for Algorithm {
    type V = AlgorithmView;

    open spec fn view(&self) -> AlgorithmView {
        AlgorithmView { normal: self.normal_moves@, inverse: self.inverse_moves@ }
    }
}

/// A copy of `v`.
pub fn copy_moves(v: &Vec<Move>) -> (r: Vec<Move>)
    ensures
        r@ == v@,
{
    let mut r: Vec<Move> = Vec::new();
    let mut i: usize = 0;
    while i < v.len()
        invariant
            i <= v.len(),
            r@ == v@.take(i as int),
        decreases v.len() - i,
    {
        r.push(v[i]);
        i += 1;
    }
    r
}

impl Clone for Algorithm {
    fn clone(&self) -> (r: Self)
        ensures
            r@ == self@,
    {
        Algorithm {
            normal_moves: copy_moves(&self.normal_moves),
            inverse_moves: copy_moves(&self.inverse_moves),
        }
    }
}

impl Algorithm {
    /// The algorithm without moves.
    pub fn new() -> (r: Self)
        ensures
            r@ == AlgorithmView::empty(),
    {
        Algorithm { normal_moves: Vec::new(), inverse_moves: Vec::new() }
    }

    /// The number of moves on both tracks, saturating at the largest `usize`.
    pub fn len(&self) -> (r: usize)
        ensures
            r == saturated(self@.len()),
    {
        self.normal_moves.len().saturating_add(self.inverse_moves.len())
    }

    /// The last move of the normal track.
    pub fn last_normal(&self) -> (r: Option<Move>)
        ensures
            r == self@.last_normal(),
    {
        let n = self.normal_moves.len();
        if n > 0 {
            Some(self.normal_moves[n - 1])
        } else {
            None
        }
    }

    /// The last move of the inverse track.
    pub fn last_inverse(&self) -> (r: Option<Move>)
        ensures
            r == self@.last_inverse(),
    {
        let n = self.inverse_moves.len();
        if n > 0 {
            Some(self.inverse_moves[n - 1])
        } else {
            None
        }
    }

    /// Appends the moves of `other`, track by track.
    pub fn append(&mut self, other: &Algorithm)
        ensures
            final(self)@ == old(self)@.concat(other@),
    {
        let mut i: usize = 0;
        while i < other.normal_moves.len()
            invariant
                i <= other.normal_moves.len(),
                self.normal_moves@ == old(self).normal_moves@ + other.normal_moves@.take(i as int),
                self.inverse_moves@ == old(self).inverse_moves@,
            decreases other.normal_moves.len() - i,
        {
            self.normal_moves.push(other.normal_moves[i]);
            i += 1;
        }
        assert(other.normal_moves@.take(i as int) =~= other.normal_moves@);
        let mut j: usize = 0;
        while j < other.inverse_moves.len()
            invariant
                j <= other.inverse_moves.len(),
                self.normal_moves@ == old(self).normal_moves@ + other.normal_moves@,
                self.inverse_moves@ == old(self).inverse_moves@ + other.inverse_moves@.take(j as int),
            decreases other.inverse_moves.len() - j,
        {
            self.inverse_moves.push(other.inverse_moves[j]);
            j += 1;
        }
        assert(other.inverse_moves@.take(j as int) =~= other.inverse_moves@);
    }
}

/// `cube` after the moves `moves`, made in order.
pub open spec fn turned_all<C: Turnable>(cube: C, moves: Seq<Move>) -> C
    decreases moves.len(),
{
    if moves.len() == 0 {
        cube
    } else {
        turned_all(cube, moves.drop_last()).turned(moves.last())
    }
}

/// `cube` after the algorithm `alg`: the normal track is made on the cube,
/// the inverse track, where it has moves, on the inverse of what that gives,
/// and the result is inverted back.
pub open spec fn applied<C: Turnable + Invertible>(cube: C, alg: AlgorithmView) -> C {
    let normal = turned_all(cube, alg.normal);
    if alg.inverse.len() == 0 {
        normal
    } else {
        turned_all(normal.inverted(), alg.inverse).inverted()
    }
}

/// Makes the moves `moves` on `cube`, in order.
pub fn turn_all<C: Turnable>(cube: &mut C, moves: &Vec<Move>)
    ensures
        *final(cube) == turned_all(*old(cube), moves@),
{
    let mut i: usize = 0;
    while i < moves.len()
        invariant
            i <= moves.len(),
            *cube == turned_all(*old(cube), moves@.take(i as int)),
        decreases moves.len() - i,
    {
        proof {
            assert(moves@.take(i as int + 1).drop_last() =~= moves@.take(i as int));
        }
        cube.turn(moves[i]);
        i += 1;
    }
    proof {
        assert(moves@.take(i as int) =~= moves@);
    }
}

/// Applies the algorithm `alg` to `cube`.
pub fn apply_alg<C: Turnable + Invertible>(cube: &mut C, alg: &Algorithm)
    ensures
        *final(cube) == applied(*old(cube), alg@),
{
    turn_all(cube, &alg.normal_moves);
    if alg.inverse_moves.len() > 0 {
        cube.invert();
        turn_all(cube, &alg.inverse_moves);
        cube.invert();
    }
}

/// What a `SolutionStep` holds.
pub struct SolutionStepView {
    pub name: Seq<char>,
    pub variant: Seq<char>,
    pub alg: AlgorithmView,
}

/// One phase's share of a solution: the name of the phase, the name of the
/// variant of the phase that found it, and the moves.
#[derive(Debug)]
pub struct SolutionStep {
    pub name: String,
    pub variant: String,
    pub alg: Algorithm,
}

impl View for SolutionStep {
    type V = SolutionStepView;

    open spec fn view(&self) -> SolutionStepView {
        SolutionStepView { name: self.name@, variant: self.variant@, alg: self.alg@ }
    }
}

impl Clone for SolutionStep {
    fn clone(&self) -> (r: Self)
        ensures
            r@ == self@,
    {
        SolutionStep {
            name: self.name.clone(),
            variant: self.variant.clone(),
            alg: self.alg.clone(),
        }
    }
}

/// What a `Solution` holds: its steps, in the order of the phases.
pub type SolutionView = Seq<SolutionStepView>;

/// The number of moves of all the steps of `s`.
pub open spec fn solution_len(s: SolutionView) -> nat
    decreases s.len(),
{
    if s.len() == 0 {
        0
    } else {
        solution_len(s.drop_last()) + s.last().alg.len()
    }
}

/// All the steps of `s` as one algorithm, track by track, in the order of
/// the steps.
pub open spec fn solution_merged(s: SolutionView) -> AlgorithmView
    decreases s.len(),
{
    if s.len() == 0 {
        AlgorithmView::empty()
    } else {
        solution_merged(s.drop_last()).concat(s.last().alg)
    }
}

/// A partial or complete solution: one algorithm per phase, each under the
/// name of the phase variant that produced it.
#[derive(Debug)]
pub struct Solution {
    pub steps: Vec<SolutionStep>,
}

impl View for Solution {
    type V = SolutionView;

    open spec fn view(&self) -> SolutionView {
        Seq::new(self.steps@.len(), |i: int| self.steps@[i]@)
    }
}

impl Clone for Solution {
    fn clone(&self) -> (r: Self)
        ensures
            r@ == self@,
    {
        let mut steps: Vec<SolutionStep> = Vec::new();
        let mut i: usize = 0;
        while i < self.steps.len()
            invariant
                i <= self.steps.len(),
                steps@.len() == i,
                forall|j: int| 0 <= j < i ==> (#[trigger] steps@[j])@ == self.steps@[j]@,
            decreases self.steps.len() - i,
        {
            steps.push(self.steps[i].clone());
            i += 1;
        }
        let r = Solution { steps };
        assert(r@ =~= self@);
        r
    }
}

impl Solution {
    /// The solution without steps.
    pub fn new() -> (r: Self)
        ensures
            r@ == Seq::<SolutionStepView>::empty(),
    {
        let r = Solution { steps: Vec::new() };
        assert(r@ =~= Seq::<SolutionStepView>::empty());
        r
    }

    /// The number of moves of all steps, saturating at the largest `usize`.
    pub fn len(&self) -> (r: usize)
        ensures
            r == saturated(solution_len(self@)),
    {
        let mut total: usize = 0;
        let mut i: usize = 0;
        while i < self.steps.len()
            invariant
                i <= self.steps.len(),
                total == saturated(solution_len(self@.take(i as int))),
            decreases self.steps.len() - i,
        {
            assert(self@.take(i as int + 1).drop_last() =~= self@.take(i as int));
            total = total.saturating_add(self.steps[i].alg.len());
            i += 1;
        }
        assert(self@.take(i as int) =~= self@);
        total
    }

    /// Adds the step `alg`, found by the variant `variant` of the phase
    /// `name`, behind the steps so far.
    pub fn add_step(&mut self, name: String, variant: String, alg: Algorithm)
        ensures
            final(self)@ == old(self)@.push(
                SolutionStepView { name: name@, variant: variant@, alg: alg@ },
            ),
    {
        self.steps.push(SolutionStep { name, variant, alg });
        assert(self@ =~= old(self)@.push(
            SolutionStepView { name: name@, variant: variant@, alg: alg@ },
        ));
    }

    /// All the steps as one algorithm.
    pub fn merged(&self) -> (r: Algorithm)
        ensures
            r@ == solution_merged(self@),
    {
        let mut r = Algorithm::new();
        let mut i: usize = 0;
        while i < self.steps.len()
            invariant
                i <= self.steps.len(),
                r@ == solution_merged(self@.take(i as int)),
            decreases self.steps.len() - i,
        {
            assert(self@.take(i as int + 1).drop_last() =~= self@.take(i as int));
            r.append(&self.steps[i].alg);
            i += 1;
        }
        assert(self@.take(i as int) =~= self@);
        r
    }
}

} // verus!
