//! What holds of the cube at the level of its pieces: a cube whose pieces
//! are all there, each once, stays such a cube under moves, rotations and
//! inversion; a move is undone by its inverse; the inverse of the inverse
//! of a state is the state; and to turn or invert the cube and then rotate
//! it is to rotate it and then turn or invert it.

use vstd::prelude::*;
use crate::cube::{
    Axis, Corner, CornerCubieCube, CubieCube, Edge, EdgeCubieCube, Face, Invertible, Move, Puzzle,
    Transformation, Turn, Turnable,
};
use crate::cubie::{
    corner_array, edge_array, inverted_corners, inverted_edges, spec_axis_quarters, spec_carried, spec_flipped,
    spec_renamed_corner, spec_renamed_edge, spec_corner_on_face, spec_corner_rotated, spec_corner_rotated_by,
    spec_edge_on_face, spec_edge_rotated, spec_edge_rotated_by, transformed_corners,
    transformed_edges, turned_corners, turned_edges,
};
use crate::encode::{corner_ids, edge_ids};
use crate::perm::{is_arrangement, lemma_arrangement_onto};

verus! {

/// Whether every edge is there once.
pub open spec fn valid_edges(e: Seq<Edge>) -> bool {
    e.len() == 12 && is_arrangement(edge_ids(e))
}

/// Whether every corner is there once, with a twist below three.
pub open spec fn valid_corners(c: Seq<Corner>) -> bool {
    &&& c.len() == 8
    &&& is_arrangement(corner_ids(c))
    &&& forall|i: int| 0 <= i < 8 ==> (#[trigger] c[i]).orientation < 3
}

/// A quarter rotation carries the edge positions onto one another, one to
/// one, and those of a face of its axis onto those of that face.
pub proof fn lemma_edge_rotation(axis: Axis, face: Face, p: int, q: int)
    requires
        0 <= p < 12,
        0 <= q < 12,
    ensures
        0 <= spec_edge_rotated(axis, p) < 12,
        0 <= spec_edge_rotated(axis, q) < 12,
        spec_edge_rotated(axis, p) == spec_edge_rotated(axis, q) ==> p == q,
        face.spec_axis() == axis ==> spec_edge_on_face(face, spec_edge_rotated(axis, p))
            == spec_edge_on_face(face, p),
        face.spec_axis() == axis ==> spec_edge_on_face(face, spec_edge_rotated(axis, q))
            == spec_edge_on_face(face, q),
{
}

/// A quarter rotation carries the corner positions onto one another, one
/// to one, and those of a face of its axis onto those of that face.
pub proof fn lemma_corner_rotation(axis: Axis, face: Face, p: int, q: int)
    requires
        0 <= p < 8,
        0 <= q < 8,
    ensures
        0 <= spec_corner_rotated(axis, p) < 8,
        0 <= spec_corner_rotated(axis, q) < 8,
        spec_corner_rotated(axis, p) == spec_corner_rotated(axis, q) ==> p == q,
        face.spec_axis() == axis ==> spec_corner_on_face(face, spec_corner_rotated(axis, p))
            == spec_corner_on_face(face, p),
        face.spec_axis() == axis ==> spec_corner_on_face(face, spec_corner_rotated(axis, q))
            == spec_corner_on_face(face, q),
{
}

/// Rotations by any number of quarters carry the edge positions onto one
/// another, one to one, and those of a face of the axis onto those of that
/// face.
pub proof fn lemma_edge_rotation_by(axis: Axis, face: Face, k: int, p: int, q: int)
    requires
        0 <= p < 12,
        0 <= q < 12,
    ensures
        0 <= spec_edge_rotated_by(axis, k, p) < 12,
        0 <= spec_edge_rotated_by(axis, k, q) < 12,
        spec_edge_rotated_by(axis, k, p) == spec_edge_rotated_by(axis, k, q) ==> p == q,
        face.spec_axis() == axis ==> spec_edge_on_face(face, spec_edge_rotated_by(axis, k, p))
            == spec_edge_on_face(face, p),
        face.spec_axis() == axis ==> spec_edge_on_face(face, spec_edge_rotated_by(axis, k, q))
            == spec_edge_on_face(face, q),
    decreases k,
{
    if k > 0 {
        lemma_edge_rotation_by(axis, face, k - 1, p, q);
        lemma_edge_rotation(
            axis,
            face,
            spec_edge_rotated_by(axis, k - 1, p),
            spec_edge_rotated_by(axis, k - 1, q),
        );
    }
}

/// Rotations by any number of quarters carry the corner positions onto one
/// another, one to one, and those of a face of the axis onto those of that
/// face.
pub proof fn lemma_corner_rotation_by(axis: Axis, face: Face, k: int, p: int, q: int)
    requires
        0 <= p < 8,
        0 <= q < 8,
    ensures
        0 <= spec_corner_rotated_by(axis, k, p) < 8,
        0 <= spec_corner_rotated_by(axis, k, q) < 8,
        spec_corner_rotated_by(axis, k, p) == spec_corner_rotated_by(axis, k, q) ==> p == q,
        face.spec_axis() == axis ==> spec_corner_on_face(
            face,
            spec_corner_rotated_by(axis, k, p),
        ) == spec_corner_on_face(face, p),
        face.spec_axis() == axis ==> spec_corner_on_face(
            face,
            spec_corner_rotated_by(axis, k, q),
        ) == spec_corner_on_face(face, q),
    decreases k,
{
    if k > 0 {
        lemma_corner_rotation_by(axis, face, k - 1, p, q);
        lemma_corner_rotation(
            axis,
            face,
            spec_corner_rotated_by(axis, k - 1, p),
            spec_corner_rotated_by(axis, k - 1, q),
        );
    }
}

/// The position from which the move `m` brings the edge at position `i`.
pub open spec fn edge_source(m: Move, i: int) -> int {
    if spec_edge_on_face(m.0, i) {
        spec_edge_rotated_by(m.0.spec_axis(), 4 - spec_axis_quarters(m), i)
    } else {
        i
    }
}

/// The position from which the move `m` brings the corner at position `i`.
pub open spec fn corner_source(m: Move, i: int) -> int {
    if spec_corner_on_face(m.0, i) {
        spec_corner_rotated_by(m.0.spec_axis(), 4 - spec_axis_quarters(m), i)
    } else {
        i
    }
}

/// A move leaves every edge there once.
pub proof fn lemma_turn_keeps_edges(e: Seq<Edge>, m: Move)
    requires
        valid_edges(e),
    ensures
        valid_edges(turned_edges(e, m)),
{
    let after = turned_edges(e, m);
    let ids = edge_ids(after);
    let k = 4 - spec_axis_quarters(m);
    assert forall|i: int| 0 <= i < 12 implies 0 <= edge_source(m, i) < 12 && #[trigger] ids[i]
        == edge_ids(e)[edge_source(m, i)] by {
        lemma_edge_rotation_by(m.0.spec_axis(), m.0, k, i, i);
    }
    assert forall|i: int, j: int| 0 <= i < j < 12 implies #[trigger] ids[i] != #[trigger] ids[j] by {
        lemma_edge_rotation_by(m.0.spec_axis(), m.0, k, i, j);
        assert(edge_source(m, i) != edge_source(m, j));
        let a = edge_source(m, i);
        let b = edge_source(m, j);
        if a < b {
            assert(edge_ids(e)[a] != edge_ids(e)[b]);
        } else {
            assert(edge_ids(e)[b] != edge_ids(e)[a]);
        }
    }
}

/// A move leaves every corner there once, with a twist below three.
pub proof fn lemma_turn_keeps_corners(c: Seq<Corner>, m: Move)
    requires
        valid_corners(c),
    ensures
        valid_corners(turned_corners(c, m)),
{
    let after = turned_corners(c, m);
    let ids = corner_ids(after);
    let k = 4 - spec_axis_quarters(m);
    assert forall|i: int| 0 <= i < 8 implies 0 <= corner_source(m, i) < 8 && #[trigger] ids[i]
        == corner_ids(c)[corner_source(m, i)] && after[i].orientation < 3 by {
        lemma_corner_rotation_by(m.0.spec_axis(), m.0, k, i, i);
    }
    assert forall|i: int, j: int| 0 <= i < j < 8 implies #[trigger] ids[i] != #[trigger] ids[j] by {
        lemma_corner_rotation_by(m.0.spec_axis(), m.0, k, i, j);
        assert(corner_source(m, i) != corner_source(m, j));
        let a = corner_source(m, i);
        let b = corner_source(m, j);
        if a < b {
            assert(corner_ids(c)[a] != corner_ids(c)[b]);
        } else {
            assert(corner_ids(c)[b] != corner_ids(c)[a]);
        }
    }
}

/// A rotation of the cube leaves every edge there once.
pub proof fn lemma_transform_keeps_edges(e: Seq<Edge>, t: Transformation)
    requires
        valid_edges(e),
    ensures
        valid_edges(transformed_edges(e, t)),
{
    let after = transformed_edges(e, t);
    let ids = edge_ids(after);
    let back = 4 - t.1.spec_quarters();
    let forth = t.1.spec_quarters();
    let before = edge_ids(e);
    assert forall|i: int| 0 <= i < 12 implies 0 <= spec_edge_rotated_by(t.0, back, i) < 12 && 0
        <= #[trigger] ids[i] < 12 && ids[i] == spec_edge_rotated_by(
        t.0,
        forth,
        before[spec_edge_rotated_by(t.0, back, i)],
    ) by {
        lemma_edge_rotation_by(t.0, Face::Up, back, i, i);
        let from = spec_edge_rotated_by(t.0, back, i);
        assert(0 <= before[from] < 12);
        lemma_edge_rotation_by(t.0, Face::Up, forth, before[from], before[from]);
    }
    assert forall|i: int, j: int| 0 <= i < j < 12 implies #[trigger] ids[i] != #[trigger] ids[j] by {
        lemma_edge_rotation_by(t.0, Face::Up, back, i, j);
        let a = spec_edge_rotated_by(t.0, back, i);
        let b = spec_edge_rotated_by(t.0, back, j);
        assert(a != b);
        assert(0 <= before[a] < 12 && 0 <= before[b] < 12);
        if a < b {
            assert(before[a] != before[b]);
        } else {
            assert(before[b] != before[a]);
        }
        lemma_edge_rotation_by(t.0, Face::Up, forth, before[a], before[b]);
    }
}

/// A rotation of the cube leaves every corner there once, with a twist
/// below three.
pub proof fn lemma_transform_keeps_corners(c: Seq<Corner>, t: Transformation)
    requires
        valid_corners(c),
    ensures
        valid_corners(transformed_corners(c, t)),
{
    let after = transformed_corners(c, t);
    let ids = corner_ids(after);
    let back = 4 - t.1.spec_quarters();
    let forth = t.1.spec_quarters();
    let before = corner_ids(c);
    assert forall|i: int| 0 <= i < 8 implies 0 <= spec_corner_rotated_by(t.0, back, i) < 8 && 0
        <= #[trigger] ids[i] < 8 && ids[i] == spec_corner_rotated_by(
        t.0,
        forth,
        before[spec_corner_rotated_by(t.0, back, i)],
    ) && after[i].orientation < 3 by {
        lemma_corner_rotation_by(t.0, Face::Up, back, i, i);
        let from = spec_corner_rotated_by(t.0, back, i);
        assert(0 <= before[from] < 8);
        assert(c[from].orientation < 3);
        lemma_corner_rotation_by(t.0, Face::Up, forth, before[from], before[from]);
    }
    assert forall|i: int| 0 <= i < 8 implies (#[trigger] after[i]).orientation < 3 by {
        assert(ids[i] == after[i].id);
    }
    assert forall|i: int, j: int| 0 <= i < j < 8 implies #[trigger] ids[i] != #[trigger] ids[j] by {
        lemma_corner_rotation_by(t.0, Face::Up, back, i, j);
        let a = spec_corner_rotated_by(t.0, back, i);
        let b = spec_corner_rotated_by(t.0, back, j);
        assert(a != b);
        assert(0 <= before[a] < 8 && 0 <= before[b] < 8);
        if a < b {
            assert(before[a] != before[b]);
        } else {
            assert(before[b] != before[a]);
        }
        lemma_corner_rotation_by(t.0, Face::Up, forth, before[a], before[b]);
    }
}

/// The edge that the inversion puts in the place of the piece at position
/// `j`: piece `j`, oriented as that piece is.
pub open spec fn edge_back(e: Seq<Edge>, j: int) -> Edge {
    Edge { id: j as u8, ..e[j] }
}

/// The corner that the inversion puts in the place of the piece at
/// position `j`: piece `j`, with the opposite twist.
pub open spec fn corner_back(c: Seq<Corner>, j: int) -> Corner {
    Corner { id: j as u8, orientation: ((3 - c[j].orientation % 3) % 3) as u8 }
}

proof fn lemma_inverted_edges_at(e: Seq<Edge>, n: int, j: int)
    requires
        valid_edges(e),
        0 <= j < n <= 12,
    ensures
        inverted_edges(e, n).len() == 12,
        inverted_edges(e, n)[e[j].id as int] == edge_back(e, j),
    decreases n,
{
    assert(edge_ids(e)[n - 1] == e[n - 1].id);
    assert(edge_ids(e)[j] == e[j].id);
    lemma_inverted_edges_len(e, n - 1);
    if j < n - 1 {
        lemma_inverted_edges_at(e, n - 1, j);
        assert(edge_ids(e)[j] != edge_ids(e)[n - 1]);
    }
}

proof fn lemma_inverted_edges_len(e: Seq<Edge>, n: int)
    requires
        e.len() == 12,
    ensures
        inverted_edges(e, n).len() == 12,
    decreases n,
{
    if n > 0 {
        lemma_inverted_edges_len(e, n - 1);
    }
}

proof fn lemma_inverted_corners_len(c: Seq<Corner>, n: int)
    requires
        c.len() == 8,
    ensures
        inverted_corners(c, n).len() == 8,
    decreases n,
{
    if n > 0 {
        lemma_inverted_corners_len(c, n - 1);
    }
}

proof fn lemma_inverted_corners_at(c: Seq<Corner>, n: int, j: int)
    requires
        valid_corners(c),
        0 <= j < n <= 8,
    ensures
        inverted_corners(c, n).len() == 8,
        inverted_corners(c, n)[c[j].id as int] == corner_back(c, j),
    decreases n,
{
    assert(corner_ids(c)[n - 1] == c[n - 1].id);
    assert(corner_ids(c)[j] == c[j].id);
    lemma_inverted_corners_len(c, n - 1);
    if j < n - 1 {
        lemma_inverted_corners_at(c, n - 1, j);
        assert(corner_ids(c)[j] != corner_ids(c)[n - 1]);
    }
}

/// The inversion leaves every edge there once, and the inverse of the
/// inverse is the state itself.
pub proof fn lemma_invert_edges(e: Seq<Edge>)
    requires
        valid_edges(e),
    ensures
        valid_edges(inverted_edges(e, 12)),
        inverted_edges(inverted_edges(e, 12), 12) == e,
{
    let r = inverted_edges(e, 12);
    let ids = edge_ids(r);
    lemma_inverted_edges_len(e, 12);
    assert forall|p: int| 0 <= p < 12 implies 0 <= #[trigger] ids[p] < 12 && e[ids[p]].id == p
        && r[p] == edge_back(e, ids[p]) by {
        let j = lemma_arrangement_onto(edge_ids(e), p);
        assert(edge_ids(e)[j] == e[j].id);
        lemma_inverted_edges_at(e, 12, j);
    }
    assert forall|p: int, q: int| 0 <= p < q < 12 implies #[trigger] ids[p] != #[trigger] ids[q] by {
        assert(e[ids[p]].id == p);
        assert(e[ids[q]].id == q);
    }
    assert(valid_edges(r));
    let back = inverted_edges(r, 12);
    lemma_inverted_edges_len(r, 12);
    assert forall|j: int| 0 <= j < 12 implies #[trigger] back[j] == e[j] by {
        let p = e[j].id as int;
        assert(edge_ids(e)[j] == p);
        lemma_inverted_edges_at(e, 12, j);
        assert(r[p] == edge_back(e, j));
        lemma_inverted_edges_at(r, 12, p);
        assert(back[r[p].id as int] == edge_back(r, p));
    }
    assert(back =~= e);
}

/// The inversion leaves every corner there once, with a twist below three,
/// and the inverse of the inverse is the state itself.
pub proof fn lemma_invert_corners(c: Seq<Corner>)
    requires
        valid_corners(c),
    ensures
        valid_corners(inverted_corners(c, 8)),
        inverted_corners(inverted_corners(c, 8), 8) == c,
{
    let r = inverted_corners(c, 8);
    let ids = corner_ids(r);
    lemma_inverted_corners_len(c, 8);
    assert forall|p: int| 0 <= p < 8 implies 0 <= #[trigger] ids[p] < 8 && c[ids[p]].id == p
        && r[p] == corner_back(c, ids[p]) by {
        let j = lemma_arrangement_onto(corner_ids(c), p);
        assert(corner_ids(c)[j] == c[j].id);
        lemma_inverted_corners_at(c, 8, j);
    }
    assert forall|p: int, q: int| 0 <= p < q < 8 implies #[trigger] ids[p] != #[trigger] ids[q] by {
        assert(c[ids[p]].id == p);
        assert(c[ids[q]].id == q);
    }
    assert forall|p: int| 0 <= p < 8 implies (#[trigger] r[p]).orientation < 3 by {
        assert(r[p] == corner_back(c, ids[p]));
    }
    assert(valid_corners(r));
    let back = inverted_corners(r, 8);
    lemma_inverted_corners_len(r, 8);
    assert forall|j: int| 0 <= j < 8 implies #[trigger] back[j] == c[j] by {
        let p = c[j].id as int;
        assert(corner_ids(c)[j] == p);
        assert(c[j].orientation < 3);
        lemma_inverted_corners_at(c, 8, j);
        assert(r[p] == corner_back(c, j));
        lemma_inverted_corners_at(r, 8, p);
        assert(back[r[p].id as int] == corner_back(r, p));
    }
    assert(back =~= c);
}

proof fn lemma_edge_rotation_sum(axis: Axis, a: int, b: int, p: int)
    requires
        0 <= a,
        0 <= b,
    ensures
        spec_edge_rotated_by(axis, a + b, p) == spec_edge_rotated_by(
            axis,
            a,
            spec_edge_rotated_by(axis, b, p),
        ),
    decreases a,
{
    if a > 0 {
        lemma_edge_rotation_sum(axis, a - 1, b, p);
    }
}

proof fn lemma_corner_rotation_sum(axis: Axis, a: int, b: int, p: int)
    requires
        0 <= a,
        0 <= b,
    ensures
        spec_corner_rotated_by(axis, a + b, p) == spec_corner_rotated_by(
            axis,
            a,
            spec_corner_rotated_by(axis, b, p),
        ),
    decreases a,
{
    if a > 0 {
        lemma_corner_rotation_sum(axis, a - 1, b, p);
    }
}

/// Four quarter rotations bring every position back to itself.
pub proof fn lemma_full_rotation(axis: Axis, p: int)
    ensures
        0 <= p < 12 ==> spec_edge_rotated_by(axis, 4, p) == p,
        0 <= p < 8 ==> spec_corner_rotated_by(axis, 4, p) == p,
{
    reveal_with_fuel(spec_edge_rotated_by, 5);
    reveal_with_fuel(spec_corner_rotated_by, 5);
}

/// A move and then the move that undoes it leave the edges as they were.
pub proof fn lemma_turn_back_edges(e: Seq<Edge>, m: Move)
    requires
        e.len() == 12,
    ensures
        turned_edges(turned_edges(e, m), m.spec_invert()) == e,
{
    let back = m.spec_invert();
    let once = turned_edges(e, m);
    let twice = turned_edges(once, back);
    let axis = m.0.spec_axis();
    let k = 4 - spec_axis_quarters(m);
    let l = 4 - spec_axis_quarters(back);
    assert(k + l == 4);
    assert forall|i: int| 0 <= i < 12 implies #[trigger] twice[i] == e[i] by {
        if spec_edge_on_face(m.0, i) {
            let from = spec_edge_rotated_by(axis, l, i);
            lemma_edge_rotation_by(axis, m.0, l, i, i);
            lemma_edge_rotation_sum(axis, k, l, i);
            lemma_full_rotation(axis, i);
            assert(spec_edge_rotated_by(axis, k, from) == i);
        }
    }
    assert(twice =~= e);
}

/// A move and then the move that undoes it leave the corners as they
/// were.
pub proof fn lemma_turn_back_corners(c: Seq<Corner>, m: Move)
    requires
        c.len() == 8,
        forall|i: int| 0 <= i < 8 ==> (#[trigger] c[i]).orientation < 3,
    ensures
        turned_corners(turned_corners(c, m), m.spec_invert()) == c,
{
    let back = m.spec_invert();
    let once = turned_corners(c, m);
    let twice = turned_corners(once, back);
    let axis = m.0.spec_axis();
    let k = 4 - spec_axis_quarters(m);
    let l = 4 - spec_axis_quarters(back);
    assert(k + l == 4);
    assert forall|i: int| 0 <= i < 8 implies #[trigger] twice[i] == c[i] by {
        if spec_corner_on_face(m.0, i) {
            let from = spec_corner_rotated_by(axis, l, i);
            lemma_corner_rotation_by(axis, m.0, l, i, i);
            lemma_corner_rotation_sum(axis, k, l, i);
            lemma_full_rotation(axis, i);
            assert(spec_corner_rotated_by(axis, k, from) == i);
            assert(c[i].orientation < 3);
        }
    }
    assert(twice =~= c);
}

/// The number of quarter rotations about the face's axis that bring the
/// pieces of the face of the move `m` to where the move takes them from.
pub open spec fn back_quarters(m: Move) -> int {
    4 - spec_axis_quarters(m)
}

/// A quarter rotation of the cube carries the positions of a face onto
/// those of the face that it carries the face to, and a turn of the face
/// onto the same turn of that face: for the edges.
pub proof fn lemma_edge_quarter_carries(axis: Axis, face: Face, turn: Turn, p: int)
    requires
        0 <= p < 12,
    ensures
        spec_edge_on_face(face.spec_rotated(axis), spec_edge_rotated(axis, p)) == spec_edge_on_face(
            face,
            p,
        ),
        spec_edge_on_face(face, p) ==> spec_edge_rotated(
            axis,
            spec_edge_rotated_by(face.spec_axis(), back_quarters(Move(face, turn)), p),
        ) == spec_edge_rotated_by(
            face.spec_rotated(axis).spec_axis(),
            back_quarters(Move(face.spec_rotated(axis), turn)),
            spec_edge_rotated(axis, p),
        ),
{
    reveal_with_fuel(spec_edge_rotated_by, 4);
}

/// Where `face` lies after `k` clockwise quarter rotations about `axis`.
pub open spec fn face_rotated_by(face: Face, axis: Axis, k: int) -> Face
    decreases k,
{
    if k <= 0 {
        face
    } else {
        face_rotated_by(face, axis, k - 1).spec_rotated(axis)
    }
}

/// The move that a rotation carries a move to is the same turn of the face
/// that the rotation carries the face to.
pub proof fn lemma_transform_is_rotation(m: Move, t: Transformation)
    ensures
        m.spec_transform(t) == Move(face_rotated_by(m.0, t.0, t.1.spec_quarters()), m.1),
{
    reveal_with_fuel(face_rotated_by, 4);
}

/// A rotation of the cube by `k` quarters carries the positions of a face
/// onto those of the face that it carries the face to, and a turn of the
/// face onto the same turn of that face: for the edges.
pub proof fn lemma_edge_carries(axis: Axis, face: Face, turn: Turn, k: int, p: int)
    requires
        0 <= p < 12,
        0 <= k,
    ensures
        0 <= spec_edge_rotated_by(axis, k, p) < 12,
        spec_edge_on_face(face_rotated_by(face, axis, k), spec_edge_rotated_by(axis, k, p))
            == spec_edge_on_face(face, p),
        spec_edge_on_face(face, p) ==> spec_edge_rotated_by(
            axis,
            k,
            spec_edge_rotated_by(face.spec_axis(), back_quarters(Move(face, turn)), p),
        ) == spec_edge_rotated_by(
            face_rotated_by(face, axis, k).spec_axis(),
            back_quarters(Move(face_rotated_by(face, axis, k), turn)),
            spec_edge_rotated_by(axis, k, p),
        ),
    decreases k,
{
    lemma_edge_rotation_by(axis, face, k, p, p);
    if k > 0 {
        let before = face_rotated_by(face, axis, k - 1);
        let at = spec_edge_rotated_by(axis, k - 1, p);
        lemma_edge_carries(axis, face, turn, k - 1, p);
        lemma_edge_quarter_carries(axis, before, turn, at);
    }
}

/// To flip an edge and then tell it in terms of the rotated cube is to
/// tell it so and then flip it with respect to the axis that the rotation
/// carries the axis to.
pub proof fn lemma_flip_renamed(e: Edge, face: Face, t: Transformation)
    ensures
        spec_renamed_edge(spec_flipped(e, face.spec_axis()), t) == spec_flipped(
            spec_renamed_edge(e, t),
            face_rotated_by(face, t.0, t.1.spec_quarters()).spec_axis(),
        ),
{
    reveal_with_fuel(face_rotated_by, 4);
}

proof fn lemma_turn_rotate_edge_at(e: Seq<Edge>, m: Move, t: Transformation, i: int)
    requires
        e.len() == 12,
        0 <= i < 12,
    ensures
        transformed_edges(turned_edges(e, m), t)[i] == turned_edges(
            transformed_edges(e, t),
            m.spec_transform(t),
        )[i],
{
    let forth = t.1.spec_quarters();
    let back = 4 - forth;
    let moved = m.spec_transform(t);
    let once = turned_edges(e, m);
    let rotated = transformed_edges(e, t);
    let j = spec_edge_rotated_by(t.0, back, i);
    lemma_transform_is_rotation(m, t);
    lemma_edge_rotation_by(t.0, m.0, back, i, i);
    assert(spec_edge_rotated_by(t.0, forth, j) == i) by {
        lemma_edge_rotation_sum(t.0, forth, back, i);
        lemma_full_rotation(t.0, i);
    }
    lemma_edge_carries(t.0, m.0, m.1, forth, j);
    assert(spec_edge_on_face(moved.0, i) == spec_edge_on_face(m.0, j));
    assert(transformed_edges(once, t)[i] == spec_renamed_edge(once[j], t));
    if spec_edge_on_face(m.0, j) {
        let from = spec_edge_rotated_by(m.0.spec_axis(), back_quarters(m), j);
        let there = spec_edge_rotated_by(moved.0.spec_axis(), back_quarters(moved), i);
        lemma_edge_rotation_by(m.0.spec_axis(), m.0, back_quarters(m), j, j);
        lemma_edge_rotation_by(moved.0.spec_axis(), moved.0, back_quarters(moved), i, i);
        assert(0 <= from < 12 && 0 <= there < 12);
        assert(spec_edge_rotated_by(t.0, forth, from) == there);
        assert(spec_edge_rotated_by(t.0, back, there) == from) by {
            lemma_edge_rotation_sum(t.0, back, forth, from);
            lemma_full_rotation(t.0, from);
        }
        lemma_flip_renamed(e[from], m.0, t);
        assert(rotated[there] == spec_renamed_edge(e[from], t));
        assert(once[j] == (if m.1 == Turn::Half {
            e[from]
        } else {
            spec_flipped(e[from], m.0.spec_axis())
        }));
        assert(turned_edges(rotated, moved)[i] == (if moved.1 == Turn::Half {
            rotated[there]
        } else {
            spec_flipped(rotated[there], moved.0.spec_axis())
        }));
    } else {
        assert(once[j] == e[j]);
        assert(rotated[i] == spec_renamed_edge(e[j], t));
        assert(turned_edges(rotated, moved)[i] == rotated[i]);
    }
}

/// To turn the cube and then rotate it is to rotate it and then make the
/// move that the rotation carries the move to: for the edges.
pub proof fn lemma_turn_rotate_edges(e: Seq<Edge>, m: Move, t: Transformation)
    requires
        e.len() == 12,
    ensures
        transformed_edges(turned_edges(e, m), t) == turned_edges(
            transformed_edges(e, t),
            m.spec_transform(t),
        ),
{
    let left = transformed_edges(turned_edges(e, m), t);
    let right = turned_edges(transformed_edges(e, t), m.spec_transform(t));
    assert forall|i: int| 0 <= i < 12 implies #[trigger] left[i] == right[i] by {
        lemma_turn_rotate_edge_at(e, m, t, i);
    }
    assert(left =~= right);
}

/// A quarter rotation of the cube carries the positions of a face onto
/// those of the face that it carries the face to, and a turn of the face
/// onto the same turn of that face: for the corners.
pub proof fn lemma_corner_quarter_carries(axis: Axis, face: Face, turn: Turn, p: int)
    requires
        0 <= p < 8,
    ensures
        spec_corner_on_face(face.spec_rotated(axis), spec_corner_rotated(axis, p))
            == spec_corner_on_face(face, p),
        spec_corner_on_face(face, p) ==> spec_corner_rotated(
            axis,
            spec_corner_rotated_by(face.spec_axis(), back_quarters(Move(face, turn)), p),
        ) == spec_corner_rotated_by(
            face.spec_rotated(axis).spec_axis(),
            back_quarters(Move(face.spec_rotated(axis), turn)),
            spec_corner_rotated(axis, p),
        ),
{
    reveal_with_fuel(spec_corner_rotated_by, 4);
}

/// A rotation of the cube by `k` quarters carries the positions of a face
/// onto those of the face that it carries the face to, and a turn of the
/// face onto the same turn of that face: for the corners.
pub proof fn lemma_corner_carries(axis: Axis, face: Face, turn: Turn, k: int, p: int)
    requires
        0 <= p < 8,
        0 <= k,
    ensures
        0 <= spec_corner_rotated_by(axis, k, p) < 8,
        spec_corner_on_face(face_rotated_by(face, axis, k), spec_corner_rotated_by(axis, k, p))
            == spec_corner_on_face(face, p),
        spec_corner_on_face(face, p) ==> spec_corner_rotated_by(
            axis,
            k,
            spec_corner_rotated_by(face.spec_axis(), back_quarters(Move(face, turn)), p),
        ) == spec_corner_rotated_by(
            face_rotated_by(face, axis, k).spec_axis(),
            back_quarters(Move(face_rotated_by(face, axis, k), turn)),
            spec_corner_rotated_by(axis, k, p),
        ),
    decreases k,
{
    lemma_corner_rotation_by(axis, face, k, p, p);
    if k > 0 {
        let before = face_rotated_by(face, axis, k - 1);
        let at = spec_corner_rotated_by(axis, k - 1, p);
        lemma_corner_carries(axis, face, turn, k - 1, p);
        lemma_corner_quarter_carries(axis, before, turn, at);
    }
}

/// Every quarter rotation carries the corner positions with an even
/// number onto those with an odd number and the other way round.
pub proof fn lemma_corner_parity(axis: Axis, k: int, p: int)
    requires
        0 <= p < 8,
        0 <= k,
    ensures
        0 <= spec_corner_rotated_by(axis, k, p) < 8,
        spec_corner_rotated_by(axis, k, p) % 2 == (p + k) % 2,
    decreases k,
{
    if k > 0 {
        lemma_corner_parity(axis, k - 1, p);
        let at = spec_corner_rotated_by(axis, k - 1, p);
        assert(0 <= spec_corner_rotated(axis, at) < 8 && spec_corner_rotated(axis, at) % 2 == (at
            + 1) % 2);
    }
}

/// The axis that a quarter rotation about `axis` exchanges `other` with,
/// or `other` itself where that is the axis of the rotation.
pub open spec fn exchanged_axis(axis: Axis, other: Axis) -> Axis {
    match (axis, other) {
        (Axis::X, Axis::Y) => Axis::Z,
        (Axis::X, Axis::Z) => Axis::Y,
        (Axis::Y, Axis::X) => Axis::Z,
        (Axis::Y, Axis::Z) => Axis::X,
        (Axis::Z, Axis::X) => Axis::Y,
        (Axis::Z, Axis::Y) => Axis::X,
        _ => other,
    }
}

/// A rotation by an even number of quarters carries every face to a face
/// of its own axis, one by an odd number to a face of the axis that the
/// rotation exchanges it with.
pub proof fn lemma_rotated_axis(face: Face, axis: Axis, k: int)
    requires
        0 <= k,
    ensures
        face_rotated_by(face, axis, k).spec_axis() == (if k % 2 == 0 {
            face.spec_axis()
        } else {
            exchanged_axis(axis, face.spec_axis())
        }),
    decreases k,
{
    if k > 0 {
        lemma_rotated_axis(face, axis, k - 1);
    }
}

/// To carry a corner along a face and then tell it in terms of the rotated
/// cube is to tell it so and then carry it along the face that the
/// rotation carries the face to.
pub proof fn lemma_carried_renamed(x: Corner, face: Face, t: Transformation, from: int, to: int)
    requires
        0 <= from < 8,
        0 <= to < 8,
    ensures
        spec_renamed_corner(spec_carried(x, face.spec_axis(), from, to), t, to) == spec_carried(
            spec_renamed_corner(x, t, from),
            face_rotated_by(face, t.0, t.1.spec_quarters()).spec_axis(),
            spec_corner_rotated_by(t.0, t.1.spec_quarters(), from),
            spec_corner_rotated_by(t.0, t.1.spec_quarters(), to),
        ),
{
    let k = t.1.spec_quarters();
    lemma_corner_parity(t.0, k, from);
    lemma_corner_parity(t.0, k, to);
    lemma_rotated_axis(face, t.0, k);
}

proof fn lemma_turn_rotate_corner_at(c: Seq<Corner>, m: Move, t: Transformation, i: int)
    requires
        c.len() == 8,
        0 <= i < 8,
    ensures
        transformed_corners(turned_corners(c, m), t)[i] == turned_corners(
            transformed_corners(c, t),
            m.spec_transform(t),
        )[i],
{
    let forth = t.1.spec_quarters();
    let back = 4 - forth;
    let moved = m.spec_transform(t);
    let once = turned_corners(c, m);
    let rotated = transformed_corners(c, t);
    let j = spec_corner_rotated_by(t.0, back, i);
    lemma_transform_is_rotation(m, t);
    lemma_corner_rotation_by(t.0, m.0, back, i, i);
    assert(spec_corner_rotated_by(t.0, forth, j) == i) by {
        lemma_corner_rotation_sum(t.0, forth, back, i);
        lemma_full_rotation(t.0, i);
    }
    lemma_corner_carries(t.0, m.0, m.1, forth, j);
    assert(spec_corner_on_face(moved.0, i) == spec_corner_on_face(m.0, j));
    assert(transformed_corners(once, t)[i] == spec_renamed_corner(once[j], t, j));
    if spec_corner_on_face(m.0, j) {
        let from = spec_corner_rotated_by(m.0.spec_axis(), back_quarters(m), j);
        let there = spec_corner_rotated_by(moved.0.spec_axis(), back_quarters(moved), i);
        lemma_corner_rotation_by(m.0.spec_axis(), m.0, back_quarters(m), j, j);
        lemma_corner_rotation_by(moved.0.spec_axis(), moved.0, back_quarters(moved), i, i);
        assert(0 <= from < 8 && 0 <= there < 8);
        assert(spec_corner_rotated_by(t.0, forth, from) == there);
        assert(spec_corner_rotated_by(t.0, back, there) == from) by {
            lemma_corner_rotation_sum(t.0, back, forth, from);
            lemma_full_rotation(t.0, from);
        }
        lemma_carried_renamed(c[from], m.0, t, from, j);
        assert(rotated[there] == spec_renamed_corner(c[from], t, from));
        assert(once[j] == spec_carried(c[from], m.0.spec_axis(), from, j));
        assert(turned_corners(rotated, moved)[i] == spec_carried(
            rotated[there],
            moved.0.spec_axis(),
            there,
            i,
        ));
    } else {
        assert(once[j] == c[j]);
        assert(rotated[i] == spec_renamed_corner(c[j], t, j));
        assert(turned_corners(rotated, moved)[i] == rotated[i]);
    }
}

/// To turn the cube and then rotate it is to rotate it and then make the
/// move that the rotation carries the move to: for the corners.
pub proof fn lemma_turn_rotate_corners(c: Seq<Corner>, m: Move, t: Transformation)
    requires
        c.len() == 8,
    ensures
        transformed_corners(turned_corners(c, m), t) == turned_corners(
            transformed_corners(c, t),
            m.spec_transform(t),
        ),
{
    let left = transformed_corners(turned_corners(c, m), t);
    let right = turned_corners(transformed_corners(c, t), m.spec_transform(t));
    assert forall|i: int| 0 <= i < 8 implies #[trigger] left[i] == right[i] by {
        lemma_turn_rotate_corner_at(c, m, t, i);
    }
    assert(left =~= right);
}

proof fn lemma_invert_rotate_edge_at(e: Seq<Edge>, t: Transformation, i: int)
    requires
        valid_edges(e),
        0 <= i < 12,
    ensures
        transformed_edges(inverted_edges(e, 12), t)[i] == inverted_edges(
            transformed_edges(e, t),
            12,
        )[i],
{
    let forth = t.1.spec_quarters();
    let back = 4 - forth;
    let inverse = inverted_edges(e, 12);
    let rotated = transformed_edges(e, t);
    let p = spec_edge_rotated_by(t.0, back, i);
    lemma_edge_rotation_by(t.0, Face::Up, back, i, i);
    let j = lemma_arrangement_onto(edge_ids(e), p);
    assert(edge_ids(e)[j] == e[j].id);
    let x = spec_edge_rotated_by(t.0, forth, j);
    lemma_edge_rotation_by(t.0, Face::Up, forth, j, j);
    lemma_inverted_edges_at(e, 12, j);
    assert(transformed_edges(inverse, t)[i] == spec_renamed_edge(edge_back(e, j), t));
    assert(spec_edge_rotated_by(t.0, back, x) == j) by {
        lemma_edge_rotation_sum(t.0, back, forth, j);
        lemma_full_rotation(t.0, j);
    }
    assert(spec_edge_rotated_by(t.0, forth, p) == i) by {
        lemma_edge_rotation_sum(t.0, forth, back, i);
        lemma_full_rotation(t.0, i);
    }
    assert(rotated[x] == spec_renamed_edge(e[j], t));
    assert(rotated[x].id == i);
    lemma_transform_keeps_edges(e, t);
    lemma_inverted_edges_at(rotated, 12, x);
}

/// To invert the cube and then rotate it is to rotate it and then invert
/// it: for the edges.
pub proof fn lemma_invert_rotate_edges(e: Seq<Edge>, t: Transformation)
    requires
        valid_edges(e),
    ensures
        transformed_edges(inverted_edges(e, 12), t) == inverted_edges(transformed_edges(e, t), 12),
{
    let left = transformed_edges(inverted_edges(e, 12), t);
    let right = inverted_edges(transformed_edges(e, t), 12);
    lemma_inverted_edges_len(transformed_edges(e, t), 12);
    assert forall|i: int| 0 <= i < 12 implies #[trigger] left[i] == right[i] by {
        lemma_invert_rotate_edge_at(e, t, i);
    }
    assert(left =~= right);
}

/// To give a corner the opposite twist and then tell it in terms of the
/// rotated cube is to tell it so and then give it the opposite twist.
proof fn lemma_renamed_back(x: Corner, j: int, t: Transformation)
    requires
        x.id < 8,
        x.orientation < 3,
        0 <= j < 8,
    ensures
        spec_renamed_corner(
            Corner { id: j as u8, orientation: ((3 - x.orientation % 3) % 3) as u8 },
            t,
            x.id as int,
        ) == (Corner {
            id: spec_corner_rotated_by(t.0, t.1.spec_quarters(), j) as u8,
            orientation: ((3 - spec_renamed_corner(x, t, j).orientation % 3) % 3) as u8,
        }),
{
}

proof fn lemma_invert_rotate_corner_at(c: Seq<Corner>, t: Transformation, i: int)
    requires
        valid_corners(c),
        0 <= i < 8,
    ensures
        transformed_corners(inverted_corners(c, 8), t)[i] == inverted_corners(
            transformed_corners(c, t),
            8,
        )[i],
{
    let forth = t.1.spec_quarters();
    let back = 4 - forth;
    let inverse = inverted_corners(c, 8);
    let rotated = transformed_corners(c, t);
    let p = spec_corner_rotated_by(t.0, back, i);
    lemma_corner_rotation_by(t.0, Face::Up, back, i, i);
    let j = lemma_arrangement_onto(corner_ids(c), p);
    assert(corner_ids(c)[j] == c[j].id);
    assert(c[j].orientation < 3);
    let x = spec_corner_rotated_by(t.0, forth, j);
    lemma_corner_rotation_by(t.0, Face::Up, forth, j, j);
    lemma_inverted_corners_at(c, 8, j);
    assert(transformed_corners(inverse, t)[i] == spec_renamed_corner(corner_back(c, j), t, p));
    assert(spec_corner_rotated_by(t.0, back, x) == j) by {
        lemma_corner_rotation_sum(t.0, back, forth, j);
        lemma_full_rotation(t.0, j);
    }
    assert(spec_corner_rotated_by(t.0, forth, p) == i) by {
        lemma_corner_rotation_sum(t.0, forth, back, i);
        lemma_full_rotation(t.0, i);
    }
    assert(rotated[x] == spec_renamed_corner(c[j], t, j));
    assert(rotated[x].id == i);
    lemma_transform_keeps_corners(c, t);
    lemma_inverted_corners_at(rotated, 8, x);
    assert(inverted_corners(rotated, 8)[i] == corner_back(rotated, x));
    lemma_renamed_back(c[j], j, t);
    assert(corner_back(c, j) == (Corner {
        id: j as u8,
        orientation: ((3 - c[j].orientation % 3) % 3) as u8,
    }));
    assert(c[j].id == p);
}

/// To invert the cube and then rotate it is to rotate it and then invert
/// it: for the corners.
pub proof fn lemma_invert_rotate_corners(c: Seq<Corner>, t: Transformation)
    requires
        valid_corners(c),
    ensures
        transformed_corners(inverted_corners(c, 8), t) == inverted_corners(
            transformed_corners(c, t),
            8,
        ),
{
    let left = transformed_corners(inverted_corners(c, 8), t);
    let right = inverted_corners(transformed_corners(c, t), 8);
    lemma_inverted_corners_len(transformed_corners(c, t), 8);
    assert forall|i: int| 0 <= i < 8 implies #[trigger] left[i] == right[i] by {
        lemma_invert_rotate_corner_at(c, t, i);
    }
    assert(left =~= right);
}

proof fn lemma_edges_built(s: Seq<Edge>, n: int) -> (a: [Edge; 12])
    requires
        s.len() == 12,
        0 <= n <= 12,
    ensures
        forall|i: int| 0 <= i < n ==> a@[i] == s[i],
    decreases n,
{
    if n == 0 {
        arbitrary()
    } else {
        let before = lemma_edges_built(s, n - 1);
        vstd::array::spec_array_update(before, n - 1, s[n - 1])
    }
}

proof fn lemma_corners_built(s: Seq<Corner>, n: int) -> (a: [Corner; 8])
    requires
        s.len() == 8,
        0 <= n <= 8,
    ensures
        forall|i: int| 0 <= i < n ==> a@[i] == s[i],
    decreases n,
{
    if n == 0 {
        arbitrary()
    } else {
        let before = lemma_corners_built(s, n - 1);
        vstd::array::spec_array_update(before, n - 1, s[n - 1])
    }
}

/// The array that holds twelve edges holds them.
pub proof fn lemma_edge_array(s: Seq<Edge>)
    requires
        s.len() == 12,
    ensures
        edge_array(s)@ == s,
{
    let a = lemma_edges_built(s, 12);
    assert(a@ =~= s);
}

/// The array that holds eight corners holds them.
pub proof fn lemma_corner_array(s: Seq<Corner>)
    requires
        s.len() == 8,
    ensures
        corner_array(s)@ == s,
{
    let a = lemma_corners_built(s, 8);
    assert(a@ =~= s);
}

impl Puzzle for EdgeCubieCube {
    open spec fn sound(&self) -> bool {
        valid_edges(self.0@)
    }

    proof fn lemma_sound_turned(state: Self, m: Move) {
        lemma_turn_keeps_edges(state.0@, m);
        lemma_edge_array(turned_edges(state.0@, m));
    }

    proof fn lemma_sound_transformed(state: Self, t: Transformation) {
        lemma_transform_keeps_edges(state.0@, t);
        lemma_edge_array(transformed_edges(state.0@, t));
    }

    proof fn lemma_sound_inverted(state: Self) {
        lemma_invert_edges(state.0@);
        lemma_edge_array(inverted_edges(state.0@, 12));
    }

    proof fn lemma_turn_rotate(state: Self, m: Move, t: Transformation) {
        lemma_edge_array(turned_edges(state.0@, m));
        lemma_edge_array(transformed_edges(state.0@, t));
        lemma_turn_rotate_edges(state.0@, m, t);
    }

    proof fn lemma_invert_rotate(state: Self, t: Transformation) {
        lemma_invert_edges(state.0@);
        lemma_edge_array(inverted_edges(state.0@, 12));
        lemma_edge_array(transformed_edges(state.0@, t));
        lemma_invert_rotate_edges(state.0@, t);
    }
}

impl Puzzle for CornerCubieCube {
    open spec fn sound(&self) -> bool {
        valid_corners(self.0@)
    }

    proof fn lemma_sound_turned(state: Self, m: Move) {
        lemma_turn_keeps_corners(state.0@, m);
        lemma_corner_array(turned_corners(state.0@, m));
    }

    proof fn lemma_sound_transformed(state: Self, t: Transformation) {
        lemma_transform_keeps_corners(state.0@, t);
        lemma_corner_array(transformed_corners(state.0@, t));
    }

    proof fn lemma_sound_inverted(state: Self) {
        lemma_invert_corners(state.0@);
        lemma_corner_array(inverted_corners(state.0@, 8));
    }

    proof fn lemma_turn_rotate(state: Self, m: Move, t: Transformation) {
        lemma_corner_array(turned_corners(state.0@, m));
        lemma_corner_array(transformed_corners(state.0@, t));
        lemma_turn_rotate_corners(state.0@, m, t);
    }

    proof fn lemma_invert_rotate(state: Self, t: Transformation) {
        lemma_invert_corners(state.0@);
        lemma_corner_array(inverted_corners(state.0@, 8));
        lemma_corner_array(transformed_corners(state.0@, t));
        lemma_invert_rotate_corners(state.0@, t);
    }
}

impl Puzzle for CubieCube {
    open spec fn sound(&self) -> bool {
        self.edges.sound() && self.corners.sound()
    }

    proof fn lemma_sound_turned(state: Self, m: Move) {
        EdgeCubieCube::lemma_sound_turned(state.edges, m);
        CornerCubieCube::lemma_sound_turned(state.corners, m);
    }

    proof fn lemma_sound_transformed(state: Self, t: Transformation) {
        EdgeCubieCube::lemma_sound_transformed(state.edges, t);
        CornerCubieCube::lemma_sound_transformed(state.corners, t);
    }

    proof fn lemma_sound_inverted(state: Self) {
        EdgeCubieCube::lemma_sound_inverted(state.edges);
        CornerCubieCube::lemma_sound_inverted(state.corners);
    }

    proof fn lemma_turn_rotate(state: Self, m: Move, t: Transformation) {
        EdgeCubieCube::lemma_turn_rotate(state.edges, m, t);
        CornerCubieCube::lemma_turn_rotate(state.corners, m, t);
    }

    proof fn lemma_invert_rotate(state: Self, t: Transformation) {
        EdgeCubieCube::lemma_invert_rotate(state.edges, t);
        CornerCubieCube::lemma_invert_rotate(state.corners, t);
    }
}

/// On a sound cube a move is undone by its inverse, and the inverse of the
/// inverse of the cube is the cube.
pub proof fn lemma_cube_back(cube: CubieCube, m: Move)
    requires
        cube.sound(),
    ensures
        cube.turned(m).turned(m.spec_invert()) == cube,
        cube.inverted().inverted() == cube,
{
    let e = cube.edges.0@;
    let c = cube.corners.0@;
    lemma_edge_array(turned_edges(e, m));
    lemma_corner_array(turned_corners(c, m));
    lemma_turn_back_edges(e, m);
    lemma_turn_back_corners(c, m);
    lemma_invert_edges(e);
    lemma_invert_corners(c);
    lemma_edge_array(inverted_edges(e, 12));
    lemma_corner_array(inverted_corners(c, 8));
    lemma_edge_array(e);
    lemma_corner_array(c);
    assert(edge_array(e) =~= cube.edges.0);
    assert(corner_array(c) =~= cube.corners.0);
}

} // verus!
