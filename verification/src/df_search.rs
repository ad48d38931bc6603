//! The depth-bounded search of one phase variant, on the normal track and,
//! where the options allow it, on the inverse track.

use vstd::prelude::*;
use crate::algs::{copy_moves, turned_all, Algorithm, AlgorithmView};
use crate::cancel::CancelToken;
use crate::cube::{lemma_transform_back, Invertible, Move, Puzzle, Transformation, Turnable};
use crate::moveset::MoveSet;
use crate::step::{NissType, StepVariant};
use crate::stream::{grown, is_capped, lemma_grown_extend, lemma_grown_none, lemma_grown_stop};

verus! {

/// The last move on a track: the last one made in this search, or else the
/// one that earlier phases left there.
pub open spec fn track_last(prev: Option<Move>, made: Seq<Move>) -> Option<Move> {
    if made.len() > 0 {
        Some(made.last())
    } else {
        prev
    }
}

/// `cube` after the rotations `trans`, made in order.
pub open spec fn transformed_all<C: Turnable>(cube: C, trans: Seq<Transformation>) -> C
    decreases trans.len(),
{
    if trans.len() == 0 {
        cube
    } else {
        transformed_all(cube, trans.drop_last()).transformed(trans.last())
    }
}

/// The move that does to the cube rotated by `trans` what `m` does to the
/// cube itself.
pub open spec fn adapt_move(m: Move, trans: Seq<Transformation>) -> Move
    decreases trans.len(),
{
    if trans.len() == 0 {
        m
    } else {
        adapt_move(m, trans.drop_last()).spec_transform(trans.last())
    }
}

/// The move that does to the cube itself what `m` does to the cube rotated
/// by `trans`.
pub open spec fn restore_move(m: Move, trans: Seq<Transformation>) -> Move
    decreases trans.len(),
{
    if trans.len() == 0 {
        m
    } else {
        restore_move(m.spec_transform(trans.last().spec_invert()), trans.drop_last())
    }
}

/// A move that is told in terms of the rotated cube and then in terms of
/// the cube itself is the move that it was, and the other way round.
pub proof fn lemma_restore_adapt(m: Move, trans: Seq<Transformation>)
    ensures
        restore_move(adapt_move(m, trans), trans) == m,
        adapt_move(restore_move(m, trans), trans) == m,
    decreases trans.len(),
{
    if trans.len() > 0 {
        let t = trans.last();
        let before = trans.drop_last();
        lemma_transform_back(adapt_move(m, before), t);
        lemma_restore_adapt(m, before);
        lemma_transform_back(m, t);
        lemma_restore_adapt(m.spec_transform(t.spec_invert()), before);
    }
}

/// `restore_move` on every move of a track.
pub open spec fn restore_moves(ms: Seq<Move>, trans: Seq<Transformation>) -> Seq<Move> {
    Seq::new(ms.len(), |i: int| restore_move(ms[i], trans))
}

/// `adapt_move` on the last move of a track, if there is one.
pub open spec fn adapt_last(prev: Option<Move>, trans: Seq<Transformation>) -> Option<Move> {
    match prev {
        Some(m) => Some(adapt_move(m, trans)),
        None => None,
    }
}

/// A node of the search tree. The search looks at the puzzle from the side
/// of one track, the current one: `cube` is the state seen from there,
/// `cur` the moves made on that track so far and `other` those made on the
/// other track before the search went over.
pub struct SearchNode<C> {
    /// The state that the phase started from, before any rotation.
    pub origin: C,
    pub cube: C,
    pub depth_left: u8,
    pub cur: Seq<Move>,
    pub other: Seq<Move>,
    /// The last move that earlier phases made on the current track.
    pub prev_cur: Option<Move>,
    /// The last move that earlier phases made on the other track.
    pub prev_other: Option<Move>,
    /// Whether the current track is the inverse track.
    pub on_inverse: bool,
    /// Whether the search may still go over to the other track.
    pub can_switch: bool,
}

impl<C: Turnable + Invertible> SearchNode<C> {
    /// The node after the move `m` on the current track.
    pub open spec fn child(self, m: Move) -> SearchNode<C> {
        SearchNode {
            cube: self.cube.turned(m),
            depth_left: (self.depth_left - 1) as u8,
            cur: self.cur.push(m),
            ..self
        }
    }

    /// The same node seen from the other track.
    pub open spec fn switched(self) -> SearchNode<C> {
        SearchNode {
            cube: self.cube.inverted(),
            cur: self.other,
            other: self.cur,
            prev_cur: self.prev_other,
            prev_other: self.prev_cur,
            on_inverse: !self.on_inverse,
            can_switch: false,
            ..self
        }
    }

    /// The algorithm that the moves made so far stand for, told in terms of
    /// the cube before the rotations `trans`.
    pub open spec fn found(self, trans: Seq<Transformation>) -> AlgorithmView {
        if self.on_inverse {
            AlgorithmView {
                normal: restore_moves(self.other, trans),
                inverse: restore_moves(self.cur, trans),
            }
        } else {
            AlgorithmView {
                normal: restore_moves(self.cur, trans),
                inverse: restore_moves(self.other, trans),
            }
        }
    }
}

/// One for `true`, zero for `false`.
pub open spec fn int_of(b: bool) -> int {
    if b {
        1
    } else {
        0
    }
}

/// The solutions below a node, in the order in which the search finds them.
///
/// A node with no move left yields the algorithm made so far if the
/// heuristic is zero and the algorithm is admissible. A node with moves left
/// is cut off where the heuristic is zero or exceeds the moves left; else it
/// tries the state-changing moves in order and then, if more than one move
/// is left, the auxiliary moves, each where the move set allows it after the
/// last move of the track. A node that may go over to the other track does
/// so after that, with the same number of moves left.
pub open spec fn node_results<C: Turnable + Invertible, V: StepVariant<C> + ?Sized>(
    v: &V,
    n: SearchNode<C>,
) -> Seq<AlgorithmView>
    decreases n.depth_left, int_of(n.can_switch), v.spec_move_set(&n.cube, n.depth_left).st_moves@.len()
        + v.spec_move_set(&n.cube, n.depth_left).aux_moves@.len() + 1,
{
    let h = v.spec_heuristic(&n.cube, n.depth_left, n.can_switch);
    let ms = v.spec_move_set(&n.cube, n.depth_left);
    let here = if n.depth_left == 0 {
        if h == 0 && v.solution_admissible(&n.origin, n.found(v.spec_pre_step_trans())) {
            seq![n.found(v.spec_pre_step_trans())]
        } else {
            Seq::empty()
        }
    } else if h == 0 || h > n.depth_left {
        Seq::empty()
    } else {
        moves_results(v, n, ms, ms.st_moves@) + (if n.depth_left > 1 {
            moves_results(v, n, ms, ms.aux_moves@)
        } else {
            Seq::empty()
        })
    };
    if n.can_switch && n.depth_left > 0 {
        here + node_results(v, n.switched())
    } else {
        here
    }
}

/// The solutions that begin with one of `moves` at the node `n`, move by
/// move. `ms` is the node's move set.
pub open spec fn moves_results<C: Turnable + Invertible, V: StepVariant<C> + ?Sized>(
    v: &V,
    n: SearchNode<C>,
    ms: MoveSet,
    moves: Seq<Move>,
) -> Seq<AlgorithmView>
    decreases n.depth_left, int_of(n.can_switch), moves.len(),
{
    if moves.len() == 0 || n.depth_left == 0 {
        Seq::empty()
    } else {
        (if ms.spec_allows(track_last(n.prev_cur, n.cur), moves[0]) {
            node_results(v, n.child(moves[0]))
        } else {
            Seq::empty()
        }) + moves_results(v, n, ms, moves.skip(1))
    }
}

/// The root of the search for `depth` moves from `cube`, seen from the
/// normal track, after the variant's rotations.
pub open spec fn root_node<C: Turnable + Invertible, V: StepVariant<C> + ?Sized>(
    v: &V,
    cube: C,
    depth: u8,
    prev_normal: Option<Move>,
    prev_inverse: Option<Move>,
    can_switch: bool,
) -> SearchNode<C> {
    SearchNode {
        origin: cube,
        cube: transformed_all(cube, v.spec_pre_step_trans()),
        depth_left: depth,
        cur: Seq::empty(),
        other: Seq::empty(),
        prev_cur: adapt_last(prev_normal, v.spec_pre_step_trans()),
        prev_other: adapt_last(prev_inverse, v.spec_pre_step_trans()),
        on_inverse: false,
        can_switch,
    }
}

/// All algorithms of exactly `depth` moves that the variant `v` finds from
/// `cube`, in the order of the search: none where the rotated cube is not
/// ready for the variant; else, by the kind of NISS, what the search finds
/// on the normal track, followed for `Before` by what it finds on the
/// inverse track alone.
pub open spec fn variant_results<C: Turnable + Invertible, V: StepVariant<C> + ?Sized>(
    v: &V,
    cube: C,
    depth: u8,
    niss: NissType,
    prev_normal: Option<Move>,
    prev_inverse: Option<Move>,
) -> Seq<AlgorithmView> {
    let plain = root_node(v, cube, depth, prev_normal, prev_inverse, false);
    if !v.cube_ready(&plain.cube) {
        Seq::empty()
    } else {
        match niss {
            NissType::Never => node_results(v, plain),
            NissType::Before => node_results(v, plain) + (if depth > 0 {
                node_results(v, plain.switched())
            } else {
                Seq::empty()
            }),
            NissType::Always => node_results(
                v,
                root_node(v, cube, depth, prev_normal, prev_inverse, true),
            ),
        }
    }
}

/// The number of moves of every algorithm that is found below a node: the
/// moves made so far and those that are left.
pub open spec fn node_total<C>(n: SearchNode<C>) -> nat {
    n.cur.len() + n.other.len() + n.depth_left as nat
}

/// Whether every algorithm of `s` has `n` moves.
pub open spec fn all_of_length(s: Seq<AlgorithmView>, n: nat) -> bool {
    forall|i: int| 0 <= i < s.len() ==> (#[trigger] s[i]).len() == n
}

/// Two lists of algorithms of `n` moves make one.
pub proof fn lemma_all_of_length_concat(a: Seq<AlgorithmView>, b: Seq<AlgorithmView>, n: nat)
    requires
        all_of_length(a, n),
        all_of_length(b, n),
    ensures
        all_of_length(a + b, n),
{
    assert forall|i: int| 0 <= i < (a + b).len() implies (#[trigger] (a + b)[i]).len() == n by {
        if i < a.len() {
            assert((a + b)[i] == a[i]);
        } else {
            assert((a + b)[i] == b[i - a.len()]);
        }
    }
}

/// Every algorithm found below a node has as many moves as were made on
/// the way to the node and were left there.
pub proof fn lemma_node_lengths<C: Turnable + Invertible, V: StepVariant<C> + ?Sized>(
    v: &V,
    n: SearchNode<C>,
)
    ensures
        all_of_length(node_results(v, n), node_total(n)),
    decreases n.depth_left, int_of(n.can_switch), v.spec_move_set(&n.cube, n.depth_left).st_moves@.len()
        + v.spec_move_set(&n.cube, n.depth_left).aux_moves@.len() + 1,
{
    let ms = v.spec_move_set(&n.cube, n.depth_left);
    let h = v.spec_heuristic(&n.cube, n.depth_left, n.can_switch);
    let total = node_total(n);
    let empty = Seq::<AlgorithmView>::empty();
    let here = if n.depth_left == 0 {
        if h == 0 && v.solution_admissible(&n.origin, n.found(v.spec_pre_step_trans())) {
            seq![n.found(v.spec_pre_step_trans())]
        } else {
            empty
        }
    } else if h == 0 || h > n.depth_left {
        empty
    } else {
        moves_results(v, n, ms, ms.st_moves@) + (if n.depth_left > 1 {
            moves_results(v, n, ms, ms.aux_moves@)
        } else {
            empty
        })
    };
    assert(all_of_length(empty, total));
    if n.depth_left > 0 {
        lemma_moves_lengths(v, n, ms, ms.st_moves@);
        lemma_moves_lengths(v, n, ms, ms.aux_moves@);
        lemma_all_of_length_concat(
            moves_results(v, n, ms, ms.st_moves@),
            moves_results(v, n, ms, ms.aux_moves@),
            total,
        );
        lemma_all_of_length_concat(moves_results(v, n, ms, ms.st_moves@), empty, total);
        assert(all_of_length(here, total));
        if n.can_switch {
            lemma_node_lengths(v, n.switched());
            lemma_all_of_length_concat(here, node_results(v, n.switched()), total);
        }
    } else {
        assert(all_of_length(here, total));
    }
}

/// Every algorithm found behind one of `moves` at a node has as many moves
/// as were made on the way to the node and were left there.
pub proof fn lemma_moves_lengths<C: Turnable + Invertible, V: StepVariant<C> + ?Sized>(
    v: &V,
    n: SearchNode<C>,
    ms: MoveSet,
    moves: Seq<Move>,
)
    ensures
        all_of_length(moves_results(v, n, ms, moves), node_total(n)),
    decreases n.depth_left, int_of(n.can_switch), moves.len(),
{
    let empty = Seq::<AlgorithmView>::empty();
    assert(all_of_length(empty, node_total(n)));
    if moves.len() == 0 || n.depth_left == 0 {
    } else {
        lemma_node_lengths(v, n.child(moves[0]));
        lemma_moves_lengths(v, n, ms, moves.skip(1));
        let first = if ms.spec_allows(track_last(n.prev_cur, n.cur), moves[0]) {
            node_results(v, n.child(moves[0]))
        } else {
            empty
        };
        lemma_all_of_length_concat(first, moves_results(v, n, ms, moves.skip(1)), node_total(n));
    }
}

/// Every algorithm that a variant finds at `depth` has exactly `depth`
/// moves.
pub proof fn lemma_variant_lengths<C: Turnable + Invertible, V: StepVariant<C> + ?Sized>(
    v: &V,
    cube: C,
    depth: u8,
    niss: NissType,
    prev_normal: Option<Move>,
    prev_inverse: Option<Move>,
)
    ensures
        all_of_length(
            variant_results(v, cube, depth, niss, prev_normal, prev_inverse),
            depth as nat,
        ),
{
    let plain = root_node(v, cube, depth, prev_normal, prev_inverse, false);
    let empty = Seq::<AlgorithmView>::empty();
    assert(all_of_length(empty, depth as nat));
    lemma_node_lengths(v, plain);
    lemma_node_lengths(v, plain.switched());
    lemma_node_lengths(v, root_node(v, cube, depth, prev_normal, prev_inverse, true));
    lemma_all_of_length_concat(
        node_results(v, plain),
        node_results(v, plain.switched()),
        depth as nat,
    );
    lemma_all_of_length_concat(node_results(v, plain), empty, depth as nat);
}

/// Whether the variant keeps every algorithm of `s` as a solution from
/// `origin`.
pub open spec fn all_admissible<C, V: StepVariant<C> + ?Sized>(
    v: &V,
    origin: C,
    s: Seq<AlgorithmView>,
) -> bool {
    forall|i: int| 0 <= i < s.len() ==> v.solution_admissible(&origin, #[trigger] s[i])
}

/// Two lists of kept algorithms make one.
pub proof fn lemma_all_admissible_concat<C, V: StepVariant<C> + ?Sized>(
    v: &V,
    origin: C,
    a: Seq<AlgorithmView>,
    b: Seq<AlgorithmView>,
)
    requires
        all_admissible(v, origin, a),
        all_admissible(v, origin, b),
    ensures
        all_admissible(v, origin, a + b),
{
    assert forall|i: int| 0 <= i < (a + b).len() implies v.solution_admissible(
        &origin,
        #[trigger] (a + b)[i],
    ) by {
        if i < a.len() {
            assert((a + b)[i] == a[i]);
        } else {
            assert((a + b)[i] == b[i - a.len()]);
        }
    }
}

/// Every algorithm found below a node passes the variant's check.
pub proof fn lemma_node_admissible<C: Turnable + Invertible, V: StepVariant<C> + ?Sized>(
    v: &V,
    n: SearchNode<C>,
)
    ensures
        all_admissible(v, n.origin, node_results(v, n)),
    decreases n.depth_left, int_of(n.can_switch), v.spec_move_set(&n.cube, n.depth_left).st_moves@.len()
        + v.spec_move_set(&n.cube, n.depth_left).aux_moves@.len() + 1,
{
    let ms = v.spec_move_set(&n.cube, n.depth_left);
    let h = v.spec_heuristic(&n.cube, n.depth_left, n.can_switch);
    let empty = Seq::<AlgorithmView>::empty();
    let here = if n.depth_left == 0 {
        if h == 0 && v.solution_admissible(&n.origin, n.found(v.spec_pre_step_trans())) {
            seq![n.found(v.spec_pre_step_trans())]
        } else {
            empty
        }
    } else if h == 0 || h > n.depth_left {
        empty
    } else {
        moves_results(v, n, ms, ms.st_moves@) + (if n.depth_left > 1 {
            moves_results(v, n, ms, ms.aux_moves@)
        } else {
            empty
        })
    };
    assert(all_admissible(v, n.origin, empty));
    if n.depth_left > 0 {
        lemma_moves_admissible(v, n, ms, ms.st_moves@);
        lemma_moves_admissible(v, n, ms, ms.aux_moves@);
        lemma_all_admissible_concat(
            v,
            n.origin,
            moves_results(v, n, ms, ms.st_moves@),
            moves_results(v, n, ms, ms.aux_moves@),
        );
        lemma_all_admissible_concat(v, n.origin, moves_results(v, n, ms, ms.st_moves@), empty);
        assert(all_admissible(v, n.origin, here));
        if n.can_switch {
            lemma_node_admissible(v, n.switched());
            lemma_all_admissible_concat(v, n.origin, here, node_results(v, n.switched()));
        }
    } else {
        assert(all_admissible(v, n.origin, here));
    }
}

/// Every algorithm found behind one of `moves` at a node passes the
/// variant's check.
pub proof fn lemma_moves_admissible<C: Turnable + Invertible, V: StepVariant<C> + ?Sized>(
    v: &V,
    n: SearchNode<C>,
    ms: MoveSet,
    moves: Seq<Move>,
)
    ensures
        all_admissible(v, n.origin, moves_results(v, n, ms, moves)),
    decreases n.depth_left, int_of(n.can_switch), moves.len(),
{
    let empty = Seq::<AlgorithmView>::empty();
    assert(all_admissible(v, n.origin, empty));
    if moves.len() == 0 || n.depth_left == 0 {
    } else {
        lemma_node_admissible(v, n.child(moves[0]));
        lemma_moves_admissible(v, n, ms, moves.skip(1));
        let first = if ms.spec_allows(track_last(n.prev_cur, n.cur), moves[0]) {
            node_results(v, n.child(moves[0]))
        } else {
            empty
        };
        lemma_all_admissible_concat(v, n.origin, first, moves_results(v, n, ms, moves.skip(1)));
    }
}

/// Every algorithm that a variant finds passes the variant's check on the
/// state that the search started from.
pub proof fn lemma_variant_admissible<C: Turnable + Invertible, V: StepVariant<C> + ?Sized>(
    v: &V,
    cube: C,
    depth: u8,
    niss: NissType,
    prev_normal: Option<Move>,
    prev_inverse: Option<Move>,
)
    ensures
        all_admissible(v, cube, variant_results(v, cube, depth, niss, prev_normal, prev_inverse)),
{
    let plain = root_node(v, cube, depth, prev_normal, prev_inverse, false);
    let empty = Seq::<AlgorithmView>::empty();
    assert(all_admissible(v, cube, empty));
    lemma_node_admissible(v, plain);
    lemma_node_admissible(v, plain.switched());
    lemma_node_admissible(v, root_node(v, cube, depth, prev_normal, prev_inverse, true));
    lemma_all_admissible_concat(
        v,
        cube,
        node_results(v, plain),
        node_results(v, plain.switched()),
    );
    lemma_all_admissible_concat(v, cube, node_results(v, plain), empty);
}

/// The state that the search has before it when it has made the moves of
/// `alg` from `cube`: the cube after the normal track, or, where the
/// inverse track has moves, the inverse of that after the inverse track.
pub open spec fn search_state<C: Turnable + Invertible>(cube: C, alg: AlgorithmView) -> C {
    if alg.inverse.len() == 0 {
        turned_all(cube, alg.normal)
    } else {
        turned_all(turned_all(cube, alg.normal).inverted(), alg.inverse)
    }
}

/// `adapt_move` on every move of a track.
pub open spec fn adapt_moves(ms: Seq<Move>, trans: Seq<Transformation>) -> Seq<Move> {
    Seq::new(ms.len(), |i: int| adapt_move(ms[i], trans))
}

/// The algorithm `alg` told in terms of the cube rotated by `trans`.
pub open spec fn adapted(alg: AlgorithmView, trans: Seq<Transformation>) -> AlgorithmView {
    AlgorithmView {
        normal: adapt_moves(alg.normal, trans),
        inverse: adapt_moves(alg.inverse, trans),
    }
}

/// Whether the algorithm `alg`, told in terms of the cube as the variant
/// rotates it, leads from `rotated`, the cube so rotated, to a state in
/// which the variant's bound is zero. `open` says whether the search could
/// still go over to the inverse track where it ends on the normal track.
pub open spec fn reaches_goal<C: Turnable + Invertible, V: StepVariant<C> + ?Sized>(
    v: &V,
    rotated: C,
    alg: AlgorithmView,
    open: bool,
) -> bool {
    v.spec_heuristic(
        &search_state(rotated, adapted(alg, v.spec_pre_step_trans())),
        0,
        open && alg.inverse.len() == 0,
    ) == 0
}

/// Whether every algorithm of `s` leads from `rotated` to a state in which
/// the variant's bound is zero.
pub open spec fn all_reach_goal<C: Turnable + Invertible, V: StepVariant<C> + ?Sized>(
    v: &V,
    rotated: C,
    s: Seq<AlgorithmView>,
    open: bool,
) -> bool {
    forall|i: int| 0 <= i < s.len() ==> reaches_goal(v, rotated, #[trigger] s[i], open)
}

/// Two lists of algorithms that reach the goal make one.
pub proof fn lemma_all_reach_goal_concat<C: Turnable + Invertible, V: StepVariant<C> + ?Sized>(
    v: &V,
    rotated: C,
    a: Seq<AlgorithmView>,
    b: Seq<AlgorithmView>,
    open: bool,
)
    requires
        all_reach_goal(v, rotated, a, open),
        all_reach_goal(v, rotated, b, open),
    ensures
        all_reach_goal(v, rotated, a + b, open),
{
    assert forall|i: int| 0 <= i < (a + b).len() implies reaches_goal(
        v,
        rotated,
        #[trigger] (a + b)[i],
        open,
    ) by {
        if i < a.len() {
            assert((a + b)[i] == a[i]);
        } else {
            assert((a + b)[i] == b[i - a.len()]);
        }
    }
}

/// A track that is told in terms of the cube itself and then again in
/// terms of the rotated cube is the track that it was.
pub proof fn lemma_adapt_restored(ms: Seq<Move>, trans: Seq<Transformation>)
    ensures
        adapt_moves(restore_moves(ms, trans), trans) == ms,
{
    assert forall|i: int| 0 <= i < ms.len() implies adapt_moves(restore_moves(ms, trans), trans)[i]
        == ms[i] by {
        lemma_restore_adapt(ms[i], trans);
    }
    assert(adapt_moves(restore_moves(ms, trans), trans) =~= ms);
}

/// Whether the node `n` is where the search from `rotated` stands after
/// the moves that it has made: on the normal track before it has gone
/// over, on the inverse track after that.
pub open spec fn node_follows<C: Turnable + Invertible>(
    n: SearchNode<C>,
    rotated: C,
    open: bool,
) -> bool {
    if n.on_inverse {
        &&& !n.can_switch
        &&& n.cube == turned_all(turned_all(rotated, n.other).inverted(), n.cur)
        &&& n.depth_left == 0 ==> n.cur.len() > 0
    } else {
        &&& n.can_switch == open
        &&& n.other.len() == 0
        &&& n.cube == turned_all(rotated, n.cur)
    }
}

/// Every algorithm found below a node leads to a state in which the
/// variant's bound is zero.
pub proof fn lemma_node_reaches_goal<C: Turnable + Invertible, V: StepVariant<C> + ?Sized>(
    v: &V,
    n: SearchNode<C>,
    rotated: C,
    open: bool,
)
    requires
        node_follows(n, rotated, open),
    ensures
        all_reach_goal(v, rotated, node_results(v, n), open),
    decreases n.depth_left, int_of(n.can_switch), v.spec_move_set(&n.cube, n.depth_left).st_moves@.len()
        + v.spec_move_set(&n.cube, n.depth_left).aux_moves@.len() + 1,
{
    let ms = v.spec_move_set(&n.cube, n.depth_left);
    let h = v.spec_heuristic(&n.cube, n.depth_left, n.can_switch);
    let trans = v.spec_pre_step_trans();
    let empty = Seq::<AlgorithmView>::empty();
    let here = if n.depth_left == 0 {
        if h == 0 && v.solution_admissible(&n.origin, n.found(trans)) {
            seq![n.found(trans)]
        } else {
            empty
        }
    } else if h == 0 || h > n.depth_left {
        empty
    } else {
        moves_results(v, n, ms, ms.st_moves@) + (if n.depth_left > 1 {
            moves_results(v, n, ms, ms.aux_moves@)
        } else {
            empty
        })
    };
    assert(all_reach_goal(v, rotated, empty, open));
    if n.depth_left > 0 {
        lemma_moves_reach_goal(v, n, ms, ms.st_moves@, rotated, open);
        lemma_moves_reach_goal(v, n, ms, ms.aux_moves@, rotated, open);
        lemma_all_reach_goal_concat(
            v,
            rotated,
            moves_results(v, n, ms, ms.st_moves@),
            moves_results(v, n, ms, ms.aux_moves@),
            open,
        );
        lemma_all_reach_goal_concat(v, rotated, moves_results(v, n, ms, ms.st_moves@), empty, open);
        assert(all_reach_goal(v, rotated, here, open));
        if n.can_switch {
            let other = n.switched();
            assert(other.cur =~= Seq::<Move>::empty());
            assert(turned_all(turned_all(rotated, other.other).inverted(), other.cur)
                == other.cube);
            lemma_node_reaches_goal(v, other, rotated, open);
            lemma_all_reach_goal_concat(v, rotated, here, node_results(v, other), open);
        }
    } else {
        let alg = n.found(trans);
        lemma_adapt_restored(n.cur, trans);
        lemma_adapt_restored(n.other, trans);
        if h == 0 {
            assert(search_state(rotated, adapted(alg, trans)) == n.cube);
            assert(reaches_goal(v, rotated, alg, open));
        }
        assert(all_reach_goal(v, rotated, here, open));
    }
}

/// Every algorithm found behind one of `moves` at a node leads to a state
/// in which the variant's bound is zero.
pub proof fn lemma_moves_reach_goal<C: Turnable + Invertible, V: StepVariant<C> + ?Sized>(
    v: &V,
    n: SearchNode<C>,
    ms: MoveSet,
    moves: Seq<Move>,
    rotated: C,
    open: bool,
)
    requires
        node_follows(n, rotated, open),
    ensures
        all_reach_goal(v, rotated, moves_results(v, n, ms, moves), open),
    decreases n.depth_left, int_of(n.can_switch), moves.len(),
{
    let empty = Seq::<AlgorithmView>::empty();
    assert(all_reach_goal(v, rotated, empty, open));
    if moves.len() == 0 || n.depth_left == 0 {
    } else {
        let child = n.child(moves[0]);
        assert(child.cur.drop_last() =~= n.cur);
        assert(child.cur.last() == moves[0]);
        lemma_node_reaches_goal(v, child, rotated, open);
        lemma_moves_reach_goal(v, n, ms, moves.skip(1), rotated, open);
        let first = if ms.spec_allows(track_last(n.prev_cur, n.cur), moves[0]) {
            node_results(v, child)
        } else {
            empty
        };
        lemma_all_reach_goal_concat(v, rotated, first, moves_results(v, n, ms, moves.skip(1)), open);
    }
}

/// Every algorithm that a variant finds leads to the goal of the phase:
/// told in terms of the cube as the variant rotates it, it leads from the
/// cube so rotated to a state in which the variant's bound is zero, on the
/// track on which the algorithm ends.
pub proof fn lemma_variant_reaches_goal<C: Turnable + Invertible, V: StepVariant<C> + ?Sized>(
    v: &V,
    cube: C,
    depth: u8,
    niss: NissType,
    prev_normal: Option<Move>,
    prev_inverse: Option<Move>,
)
    ensures
        all_reach_goal(
            v,
            transformed_all(cube, v.spec_pre_step_trans()),
            variant_results(v, cube, depth, niss, prev_normal, prev_inverse),
            niss == NissType::Always,
        ),
{
    let open = niss == NissType::Always;
    let rotated = transformed_all(cube, v.spec_pre_step_trans());
    let plain = root_node(v, cube, depth, prev_normal, prev_inverse, false);
    let wide = root_node(v, cube, depth, prev_normal, prev_inverse, true);
    let empty = Seq::<AlgorithmView>::empty();
    let none = Seq::<Move>::empty();
    assert(all_reach_goal(v, rotated, empty, open));
    assert(turned_all(rotated, none) == rotated);
    match niss {
        NissType::Never => {
            lemma_node_reaches_goal(v, plain, rotated, false);
        },
        NissType::Always => {
            lemma_node_reaches_goal(v, wide, rotated, true);
        },
        NissType::Before => {
            lemma_node_reaches_goal(v, plain, rotated, false);
            if depth > 0 {
                let other = plain.switched();
                assert(turned_all(turned_all(rotated, other.other).inverted(), other.cur)
                    == other.cube);
                lemma_node_reaches_goal(v, other, rotated, false);
                lemma_all_reach_goal_concat(
                    v,
                    rotated,
                    node_results(v, plain),
                    node_results(v, other),
                    false,
                );
            } else {
                lemma_all_reach_goal_concat(v, rotated, node_results(v, plain), empty, false);
            }
        },
    }
}

/// Moves leave a sound puzzle sound.
pub proof fn lemma_moves_sound<C: Puzzle>(cube: C, ms: Seq<Move>)
    requires
        cube.sound(),
    ensures
        turned_all(cube, ms).sound(),
    decreases ms.len(),
{
    if ms.len() > 0 {
        lemma_moves_sound(cube, ms.drop_last());
        C::lemma_sound_turned(turned_all(cube, ms.drop_last()), ms.last());
    }
}

/// On a sound puzzle, to make moves and then rotate is to rotate and then
/// make the moves that the rotation carries the moves to.
pub proof fn lemma_moves_rotated<C: Puzzle>(cube: C, ms: Seq<Move>, t: Transformation)
    requires
        cube.sound(),
    ensures
        turned_all(cube, ms).transformed(t) == turned_all(
            cube.transformed(t),
            Seq::new(ms.len(), |i: int| ms[i].spec_transform(t)),
        ),
    decreases ms.len(),
{
    let carried = Seq::new(ms.len(), |i: int| ms[i].spec_transform(t));
    if ms.len() > 0 {
        let before = ms.drop_last();
        lemma_moves_rotated(cube, before, t);
        lemma_moves_sound(cube, before);
        C::lemma_turn_rotate(turned_all(cube, before), ms.last(), t);
        assert(carried.drop_last() =~= Seq::new(before.len(), |i: int| before[i].spec_transform(t)));
    }
}

/// On a sound puzzle, to make moves and then rotate as a variant does is
/// to rotate so and then make the moves told in terms of the rotated
/// puzzle.
pub proof fn lemma_moves_in_frame<C: Puzzle>(cube: C, ms: Seq<Move>, trans: Seq<Transformation>)
    requires
        cube.sound(),
    ensures
        transformed_all(cube, trans).sound(),
        turned_all(cube, ms).sound(),
        transformed_all(turned_all(cube, ms), trans) == turned_all(
            transformed_all(cube, trans),
            adapt_moves(ms, trans),
        ),
    decreases trans.len(),
{
    lemma_moves_sound(cube, ms);
    if trans.len() == 0 {
        assert(adapt_moves(ms, trans) =~= ms);
    } else {
        let before = trans.drop_last();
        let t = trans.last();
        lemma_moves_in_frame(cube, ms, before);
        let rotated = transformed_all(cube, before);
        let told = adapt_moves(ms, before);
        C::lemma_sound_transformed(rotated, t);
        lemma_moves_rotated(rotated, told, t);
        assert(Seq::new(told.len(), |i: int| told[i].spec_transform(t)) =~= adapt_moves(ms, trans));
    }
}

/// On a sound puzzle, to invert and then rotate as a variant does is to
/// rotate so and then invert.
pub proof fn lemma_inverse_in_frame<C: Puzzle>(cube: C, trans: Seq<Transformation>)
    requires
        cube.sound(),
    ensures
        transformed_all(cube, trans).sound(),
        cube.inverted().sound(),
        transformed_all(cube.inverted(), trans) == transformed_all(cube, trans).inverted(),
    decreases trans.len(),
{
    C::lemma_sound_inverted(cube);
    if trans.len() > 0 {
        let before = trans.drop_last();
        lemma_inverse_in_frame(cube, before);
        C::lemma_sound_transformed(transformed_all(cube, before), trans.last());
        C::lemma_invert_rotate(transformed_all(cube, before), trans.last());
    }
}

/// On a sound puzzle, the state that an algorithm leads to, rotated as a
/// variant rotates the puzzle, is the state that the algorithm, told in
/// terms of the rotated puzzle, leads to from the rotated puzzle.
pub proof fn lemma_state_in_frame<C: Puzzle>(
    cube: C,
    alg: AlgorithmView,
    trans: Seq<Transformation>,
)
    requires
        cube.sound(),
    ensures
        search_state(transformed_all(cube, trans), adapted(alg, trans)) == transformed_all(
            search_state(cube, alg),
            trans,
        ),
{
    lemma_moves_in_frame(cube, alg.normal, trans);
    if alg.inverse.len() > 0 {
        let made = turned_all(cube, alg.normal);
        lemma_inverse_in_frame(made, trans);
        lemma_moves_in_frame(made.inverted(), alg.inverse, trans);
    }
}

/// Whether every algorithm of `s` leads from `cube` to a state that, when
/// it is rotated as the variant rotates the cube, has the bound zero.
pub open spec fn all_solve<C: Turnable + Invertible, V: StepVariant<C> + ?Sized>(
    v: &V,
    cube: C,
    s: Seq<AlgorithmView>,
    open: bool,
) -> bool {
    forall|i: int|
        0 <= i < s.len() ==> v.spec_heuristic(
            &transformed_all(search_state(cube, #[trigger] s[i]), v.spec_pre_step_trans()),
            0,
            open && s[i].inverse.len() == 0,
        ) == 0
}

/// On a sound puzzle, every algorithm that a variant finds solves the
/// phase: the state that it leads to from the cube, on the track on which
/// it ends, has the bound zero when it is rotated as the variant rotates
/// the cube.
pub proof fn lemma_variant_solves<C: Puzzle, V: StepVariant<C> + ?Sized>(
    v: &V,
    cube: C,
    depth: u8,
    niss: NissType,
    prev_normal: Option<Move>,
    prev_inverse: Option<Move>,
)
    requires
        cube.sound(),
    ensures
        all_solve(
            v,
            cube,
            variant_results(v, cube, depth, niss, prev_normal, prev_inverse),
            niss == NissType::Always,
        ),
{
    let found = variant_results(v, cube, depth, niss, prev_normal, prev_inverse);
    let trans = v.spec_pre_step_trans();
    lemma_variant_reaches_goal(v, cube, depth, niss, prev_normal, prev_inverse);
    assert forall|i: int| 0 <= i < found.len() implies v.spec_heuristic(
        &transformed_all(search_state(cube, #[trigger] found[i]), trans),
        0,
        niss == NissType::Always && found[i].inverse.len() == 0,
    ) == 0 by {
        lemma_state_in_frame(cube, found[i], trans);
        assert(reaches_goal(v, transformed_all(cube, trans), found[i], niss == NissType::Always));
    }
}

/// What a list of algorithms holds.
pub open spec fn algs_view(s: Seq<Algorithm>) -> Seq<AlgorithmView> {
    Seq::new(s.len(), |i: int| s[i]@)
}

/// How a search that was to append `results` to `before` has left the
/// list: see `grown`.
pub open spec fn search_outcome(
    before: Seq<Algorithm>,
    after: Seq<Algorithm>,
    results: Seq<AlgorithmView>,
    cap: Option<usize>,
    cancellable: bool,
    interrupted: bool,
) -> bool {
    grown(algs_view(before), algs_view(after), results, cap, cancellable, interrupted)
}

/// `restore_move` for a move of the search.
pub fn restored_move(m: Move, trans: &Vec<Transformation>) -> (r: Move)
    ensures
        r == restore_move(m, trans@),
{
    let mut r = m;
    let mut k: usize = trans.len();
    proof {
        assert(trans@.take(trans@.len() as int) =~= trans@);
    }
    while k > 0
        invariant
            k <= trans.len(),
            restore_move(r, trans@.take(k as int)) == restore_move(m, trans@),
        decreases k,
    {
        proof {
            assert(trans@.take(k as int).drop_last() =~= trans@.take(k as int - 1));
            assert(trans@.take(trans@.len() as int) =~= trans@);
        }
        k -= 1;
        r = r.transform(trans[k].invert());
    }
    proof {
        assert(trans@.take(trans@.len() as int) =~= trans@);
    }
    r
}

/// `restore_moves` for a track of the search.
pub fn restored_moves(ms: &Vec<Move>, trans: &Vec<Transformation>) -> (r: Vec<Move>)
    ensures
        r@ == restore_moves(ms@, trans@),
{
    let mut r: Vec<Move> = Vec::new();
    let mut i: usize = 0;
    while i < ms.len()
        invariant
            i <= ms.len(),
            r@.len() == i,
            forall|j: int| 0 <= j < i ==> r@[j] == restore_move(ms@[j], trans@),
        decreases ms.len() - i,
    {
        r.push(restored_move(ms[i], trans));
        i += 1;
    }
    assert(r@ =~= restore_moves(ms@, trans@));
    r
}

/// `adapt_last` for the last move that earlier phases left on a track.
pub fn adapted_last(prev: Option<Move>, trans: &Vec<Transformation>) -> (r: Option<Move>)
    ensures
        r == adapt_last(prev, trans@),
{
    match prev {
        None => None,
        Some(m) => {
            let mut r = m;
            let mut k: usize = 0;
            while k < trans.len()
                invariant
                    k <= trans.len(),
                    r == adapt_move(m, trans@.take(k as int)),
                decreases trans.len() - k,
            {
                proof {
                    assert(trans@.take(k as int + 1).drop_last() =~= trans@.take(k as int));
                }
                r = r.transform(trans[k]);
                k += 1;
            }
            proof {
                assert(trans@.take(trans@.len() as int) =~= trans@);
            }
            Some(r)
        },
    }
}

/// `cube` after the rotations `trans`.
pub fn transform_all<C: Turnable + Copy>(cube: C, trans: &Vec<Transformation>) -> (r: C)
    ensures
        r == transformed_all(cube, trans@),
{
    let mut r = cube;
    let mut k: usize = 0;
    while k < trans.len()
        invariant
            k <= trans.len(),
            r == transformed_all(cube, trans@.take(k as int)),
        decreases trans.len() - k,
    {
        proof {
            assert(trans@.take(k as int + 1).drop_last() =~= trans@.take(k as int));
        }
        r.transform(trans[k]);
        k += 1;
    }
    proof {
        assert(trans@.take(trans@.len() as int) =~= trans@);
    }
    r
}

/// The last move on a track.
pub fn last_of_track(prev: Option<Move>, made: &Vec<Move>) -> (r: Option<Move>)
    ensures
        r == track_last(prev, made@),
{
    let n = made.len();
    if n > 0 {
        Some(made[n - 1])
    } else {
        prev
    }
}

/// Searches below one node and appends what it finds to `out`, until `out`
/// has reached the cap or the token, polled once at every node, is set.
/// Returns whether the token stopped the search.
pub fn search_node<C: Turnable + Invertible + Copy, V: StepVariant<C> + ?Sized>(
    v: &V,
    origin: &C,
    cube: C,
    depth_left: u8,
    cur: &mut Vec<Move>,
    other: &Vec<Move>,
    prev_cur: Option<Move>,
    prev_other: Option<Move>,
    on_inverse: bool,
    can_switch: bool,
    cap: Option<usize>,
    cancel: Option<&CancelToken>,
    out: &mut Vec<Algorithm>,
) -> (interrupted: bool)
    ensures
        final(cur)@ == old(cur)@,
        search_outcome(
            old(out)@,
            final(out)@,
            node_results(
                v,
                SearchNode {
                    origin: *origin,
                    cube,
                    depth_left,
                    cur: old(cur)@,
                    other: other@,
                    prev_cur,
                    prev_other,
                    on_inverse,
                    can_switch,
                },
            ),
            cap,
            cancel is Some,
            interrupted,
        ),
    decreases depth_left, int_of(can_switch), 1int,
{
    let ghost n = SearchNode {
        origin: *origin,
        cube,
        depth_left,
        cur: cur@,
        other: other@,
        prev_cur,
        prev_other,
        on_inverse,
        can_switch,
    };
    let ghost total = node_results(v, n);
    let ghost before = out@;
    if is_capped(out.len(), cap) {
        proof {
            lemma_grown_none(algs_view(before), total, cap, cancel is Some, false);
        }
        return false;
    }
    match cancel {
        Some(token) => {
            if token.is_cancelled() {
                proof {
                    lemma_grown_none(algs_view(before), total, cap, true, true);
                }
                return true;
            }
        },
        None => {},
    }
    let h = v.heuristic(&cube, depth_left, can_switch);
    let ghost mut here: Seq<AlgorithmView> = Seq::empty();
    let mut interrupted = false;
    if depth_left == 0 {
        if h == 0 {
            let trans = v.pre_step_trans();
            let alg = if on_inverse {
                Algorithm {
                    normal_moves: restored_moves(other, trans),
                    inverse_moves: restored_moves(cur, trans),
                }
            } else {
                Algorithm {
                    normal_moves: restored_moves(cur, trans),
                    inverse_moves: restored_moves(other, trans),
                }
            };
            assert(alg@ == n.found(v.spec_pre_step_trans()));
            if v.is_solution_admissible(origin, &alg) {
                out.push(alg);
                proof {
                    here = seq![alg@];
                    assert(here.take(1) =~= here);
                    assert(algs_view(out@) =~= algs_view(before) + here.take(1));
                    assert(algs_view(before).len() == before.len());
                }
            } else {
                proof {
                    lemma_grown_none(algs_view(before), here, cap, cancel is Some, false);
                }
            }
        } else {
            proof {
                lemma_grown_none(algs_view(before), here, cap, cancel is Some, false);
            }
        }
    } else if h == 0 || h > depth_left {
        proof {
            lemma_grown_none(algs_view(before), here, cap, cancel is Some, false);
        }
    } else {
        let ms = v.move_set(&cube, depth_left);
        interrupted = search_moves(
            v,
            origin,
            cube,
            depth_left,
            cur,
            other,
            prev_cur,
            prev_other,
            on_inverse,
            can_switch,
            ms,
            &ms.st_moves,
            cap,
            cancel,
            out,
        );
        let ghost first = moves_results(v, n, *ms, ms.st_moves@);
        let ghost second = if depth_left > 1 {
            moves_results(v, n, *ms, ms.aux_moves@)
        } else {
            Seq::empty()
        };
        proof {
            here = first + second;
        }
        if interrupted || is_capped(out.len(), cap) || depth_left == 1 {
            proof {
                if depth_left == 1 && !interrupted && !is_capped(out.len(), cap) {
                    assert(first + second =~= first);
                } else {
                    lemma_grown_stop(
                        algs_view(before),
                        algs_view(out@),
                        first,
                        second,
                        cap,
                        cancel is Some,
                        interrupted,
                    );
                }
            }
        } else {
            let ghost mid = out@;
            interrupted = search_moves(
                v,
                origin,
                cube,
                depth_left,
                cur,
                other,
                prev_cur,
                prev_other,
                on_inverse,
                can_switch,
                ms,
                &ms.aux_moves,
                cap,
                cancel,
                out,
            );
            proof {
                lemma_grown_extend(
                    algs_view(before),
                    algs_view(mid),
                    algs_view(out@),
                    first,
                    second,
                    cap,
                    cancel is Some,
                    interrupted,
                );
            }
        }
    }
    assert(search_outcome(before, out@, here, cap, cancel is Some, interrupted));
    if can_switch && depth_left > 0 {
        let ghost rest = node_results(v, n.switched());
        assert(total == here + rest);
        if interrupted || is_capped(out.len(), cap) {
            proof {
                lemma_grown_stop(
                    algs_view(before),
                    algs_view(out@),
                    here,
                    rest,
                    cap,
                    cancel is Some,
                    interrupted,
                );
            }
            return interrupted;
        }
        let ghost mid = out@;
        let mut inverse = cube;
        inverse.invert();
        let mut track = copy_moves(other);
        interrupted = search_node(
            v,
            origin,
            inverse,
            depth_left,
            &mut track,
            &*cur,
            prev_other,
            prev_cur,
            !on_inverse,
            false,
            cap,
            cancel,
            out,
        );
        proof {
            lemma_grown_extend(
                algs_view(before),
                algs_view(mid),
                algs_view(out@),
                here,
                rest,
                cap,
                cancel is Some,
                interrupted,
            );
        }
        interrupted
    } else {
        assert(total == here);
        interrupted
    }
}

/// Tries the moves `moves` at one node, in order, and searches below each
/// that the move set `ms` allows. Returns whether the token stopped the
/// search.
pub fn search_moves<C: Turnable + Invertible + Copy, V: StepVariant<C> + ?Sized>(
    v: &V,
    origin: &C,
    cube: C,
    depth_left: u8,
    cur: &mut Vec<Move>,
    other: &Vec<Move>,
    prev_cur: Option<Move>,
    prev_other: Option<Move>,
    on_inverse: bool,
    can_switch: bool,
    ms: &MoveSet,
    moves: &Vec<Move>,
    cap: Option<usize>,
    cancel: Option<&CancelToken>,
    out: &mut Vec<Algorithm>,
) -> (interrupted: bool)
    requires
        depth_left > 0,
    ensures
        final(cur)@ == old(cur)@,
        search_outcome(
            old(out)@,
            final(out)@,
            moves_results(
                v,
                SearchNode {
                    origin: *origin,
                    cube,
                    depth_left,
                    cur: old(cur)@,
                    other: other@,
                    prev_cur,
                    prev_other,
                    on_inverse,
                    can_switch,
                },
                *ms,
                moves@,
            ),
            cap,
            cancel is Some,
            interrupted,
        ),
    decreases depth_left, int_of(can_switch), 0int,
{
    let ghost n = SearchNode {
        origin: *origin,
        cube,
        depth_left,
        cur: cur@,
        other: other@,
        prev_cur,
        prev_other,
        on_inverse,
        can_switch,
    };
    let ghost total = moves_results(v, n, *ms, moves@);
    let ghost before = out@;
    let ghost mut done: Seq<AlgorithmView> = Seq::empty();
    let last = last_of_track(prev_cur, cur);
    let mut i: usize = 0;
    proof {
        lemma_grown_none(algs_view(before), done, cap, cancel is Some, false);
        assert(moves@.skip(0) =~= moves@);
        assert(done + total =~= total);
    }
    while i < moves.len()
        invariant
            i <= moves.len(),
            depth_left > 0,
            cur@ == n.cur,
            n == (SearchNode {
                origin: *origin,
                cube,
                depth_left,
                cur: cur@,
                other: other@,
                prev_cur,
                prev_other,
                on_inverse,
                can_switch,
            }),
            last == track_last(prev_cur, cur@),
            n.cur == old(cur)@,
            before == old(out)@,
            total == moves_results(v, n, *ms, moves@),
            total == done + moves_results(v, n, *ms, moves@.skip(i as int)),
            search_outcome(before, out@, done, cap, cancel is Some, false),
            out@.len() - before.len() == done.len(),
        decreases moves.len() - i,
    {
        let m = moves[i];
        let ghost rest = moves_results(v, n, *ms, moves@.skip(i as int + 1));
        let ghost found: Seq<AlgorithmView> = if ms.spec_allows(last, m) {
            node_results(v, n.child(m))
        } else {
            Seq::empty()
        };
        proof {
            assert(moves@.skip(i as int).skip(1) =~= moves@.skip(i as int + 1));
            assert(moves@.skip(i as int)[0] == m);
            assert(moves_results(v, n, *ms, moves@.skip(i as int)) == found + rest);
            assert(total =~= (done + found) + rest);
        }
        if ms.allows(last, m) {
            let ghost mid = out@;
            let mut next = cube;
            next.turn(m);
            cur.push(m);
            let interrupted = search_node(
                v,
                origin,
                next,
                depth_left - 1,
                cur,
                other,
                prev_cur,
                prev_other,
                on_inverse,
                can_switch,
                cap,
                cancel,
                out,
            );
            cur.pop();
            proof {
                assert(cur@ =~= n.cur);
                lemma_grown_extend(
                    algs_view(before),
                    algs_view(mid),
                    algs_view(out@),
                    done,
                    found,
                    cap,
                    cancel is Some,
                    interrupted,
                );
            }
            if interrupted || is_capped(out.len(), cap) {
                proof {
                    lemma_grown_stop(
                        algs_view(before),
                        algs_view(out@),
                        done + found,
                        rest,
                        cap,
                        cancel is Some,
                        interrupted,
                    );
                }
                return interrupted;
            }
        } else {
            proof {
                assert(done + found =~= done);
            }
        }
        proof {
            done = done + found;
        }
        i += 1;
    }
    proof {
        assert(moves@.skip(i as int).len() == 0);
        assert(total =~= done);
    }
    false
}

/// Appends to `out` the algorithms of exactly `depth` moves that the
/// variant `v` finds from `cube`, until `out` has reached the cap or the
/// token is set. Returns whether the token stopped the search.
pub fn dfs_iter<C: Turnable + Invertible + Copy, V: StepVariant<C> + ?Sized>(
    v: &V,
    cube: C,
    depth: u8,
    niss: NissType,
    prev_normal: Option<Move>,
    prev_inverse: Option<Move>,
    cap: Option<usize>,
    cancel: Option<&CancelToken>,
    out: &mut Vec<Algorithm>,
) -> (interrupted: bool)
    ensures
        search_outcome(
            old(out)@,
            final(out)@,
            variant_results(v, cube, depth, niss, prev_normal, prev_inverse),
            cap,
            cancel is Some,
            interrupted,
        ),
{
    let ghost before = out@;
    let ghost total = variant_results(v, cube, depth, niss, prev_normal, prev_inverse);
    let trans = v.pre_step_trans();
    let start = transform_all(cube, trans);
    if !v.is_cube_ready(&start) {
        proof {
            lemma_grown_none(algs_view(before), total, cap, cancel is Some, false);
        }
        return false;
    }
    let pn = adapted_last(prev_normal, trans);
    let pi = adapted_last(prev_inverse, trans);
    let mut track: Vec<Move> = Vec::new();
    let empty: Vec<Move> = Vec::new();
    let ghost plain = root_node(v, cube, depth, prev_normal, prev_inverse, false);
    match niss {
        NissType::Never => search_node(
            v,
            &cube,
            start,
            depth,
            &mut track,
            &empty,
            pn,
            pi,
            false,
            false,
            cap,
            cancel,
            out,
        ),
        NissType::Always => search_node(
            v,
            &cube,
            start,
            depth,
            &mut track,
            &empty,
            pn,
            pi,
            false,
            true,
            cap,
            cancel,
            out,
        ),
        NissType::Before => {
            let ghost first = node_results(v, plain);
            let ghost second = if depth > 0 {
                node_results(v, plain.switched())
            } else {
                Seq::empty()
            };
            let interrupted = search_node(
                v,
                &cube,
                start,
                depth,
                &mut track,
                &empty,
                pn,
                pi,
                false,
                false,
                cap,
                cancel,
                out,
            );
            if interrupted || is_capped(out.len(), cap) || depth == 0 {
                proof {
                    if depth == 0 && !interrupted && !is_capped(out.len(), cap) {
                        assert(first + second =~= first);
                    } else {
                        lemma_grown_stop(
                            algs_view(before),
                            algs_view(out@),
                            first,
                            second,
                            cap,
                            cancel is Some,
                            interrupted,
                        );
                    }
                }
                interrupted
            } else {
                let ghost mid = out@;
                let mut inverse = start;
                inverse.invert();
                let interrupted = search_node(
                    v,
                    &cube,
                    inverse,
                    depth,
                    &mut track,
                    &empty,
                    pi,
                    pn,
                    true,
                    false,
                    cap,
                    cancel,
                    out,
                );
                proof {
                    lemma_grown_extend(
                        algs_view(before),
                        algs_view(mid),
                        algs_view(out@),
                        first,
                        second,
                        cap,
                        cancel is Some,
                        interrupted,
                    );
                }
                interrupted
            }
        },
    }
}

} // verus!
