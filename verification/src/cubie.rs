//! Moves, inversion and rotation of the cubie-level cube.

use vstd::prelude::*;
use crate::cube::{
    Axis, Corner, CornerCubieCube, CubieCube, Edge, EdgeCubieCube, Face, Invertible, Move, Puzzle,
    Transformation, Turn, Turnable,
};
use crate::encode::{corner_ids, edge_ids};

verus! {

/// Where the piece at edge position `p` lies after a clockwise quarter
/// rotation of the whole cube about `axis`.
pub open spec fn spec_edge_rotated(axis: Axis, p: int) -> int {
    match axis {
        Axis::X => seq![10int, 6, 0, 7, 1, 3, 9, 11, 2, 4, 8, 5][p],
        Axis::Y => seq![1int, 2, 3, 0, 5, 7, 4, 6, 11, 8, 9, 10][p],
        Axis::Z => seq![6int, 9, 4, 1, 8, 2, 10, 0, 5, 11, 7, 3][p],
    }
}

pub fn edge_rotated(axis: Axis, p: usize) -> (r: usize)
    requires
        p < 12,
    ensures
        r == spec_edge_rotated(axis, p as int),
        r < 12,
{
    let table: [usize; 12] = match axis {
        Axis::X => [10, 6, 0, 7, 1, 3, 9, 11, 2, 4, 8, 5],
        Axis::Y => [1, 2, 3, 0, 5, 7, 4, 6, 11, 8, 9, 10],
        Axis::Z => [6, 9, 4, 1, 8, 2, 10, 0, 5, 11, 7, 3],
    };
    table[p]
}

/// Where the piece at corner position `p` lies after a clockwise quarter
/// rotation of the whole cube about `axis`.
pub open spec fn spec_corner_rotated(axis: Axis, p: int) -> int {
    match axis {
        Axis::X => seq![7int, 6, 1, 0, 3, 2, 5, 4][p],
        Axis::Y => seq![1int, 2, 3, 0, 7, 4, 5, 6][p],
        Axis::Z => seq![1int, 6, 5, 2, 3, 4, 7, 0][p],
    }
}

pub fn corner_rotated(axis: Axis, p: usize) -> (r: usize)
    requires
        p < 8,
    ensures
        r == spec_corner_rotated(axis, p as int),
        r < 8,
{
    let table: [usize; 8] = match axis {
        Axis::X => [7, 6, 1, 0, 3, 2, 5, 4],
        Axis::Y => [1, 2, 3, 0, 7, 4, 5, 6],
        Axis::Z => [1, 6, 5, 2, 3, 4, 7, 0],
    };
    table[p]
}

/// Where the piece at edge position `p` lies after `k` clockwise quarter
/// rotations about `axis`.
pub open spec fn spec_edge_rotated_by(axis: Axis, k: int, p: int) -> int
    decreases k,
{
    if k <= 0 {
        p
    } else {
        spec_edge_rotated(axis, spec_edge_rotated_by(axis, k - 1, p))
    }
}

pub fn edge_rotated_by(axis: Axis, k: u8, p: usize) -> (r: usize)
    requires
        p < 12,
    ensures
        r == spec_edge_rotated_by(axis, k as int, p as int),
        r < 12,
{
    let mut r = p;
    let mut i: u8 = 0;
    while i < k
        invariant
            i <= k,
            r < 12,
            r == spec_edge_rotated_by(axis, i as int, p as int),
        decreases k - i,
    {
        r = edge_rotated(axis, r);
        i += 1;
    }
    r
}

/// Where the piece at corner position `p` lies after `k` clockwise quarter
/// rotations about `axis`.
pub open spec fn spec_corner_rotated_by(axis: Axis, k: int, p: int) -> int
    decreases k,
{
    if k <= 0 {
        p
    } else {
        spec_corner_rotated(axis, spec_corner_rotated_by(axis, k - 1, p))
    }
}

pub fn corner_rotated_by(axis: Axis, k: u8, p: usize) -> (r: usize)
    requires
        p < 8,
    ensures
        r == spec_corner_rotated_by(axis, k as int, p as int),
        r < 8,
{
    let mut r = p;
    let mut i: u8 = 0;
    while i < k
        invariant
            i <= k,
            r < 8,
            r == spec_corner_rotated_by(axis, i as int, p as int),
        decreases k - i,
    {
        r = corner_rotated(axis, r);
        i += 1;
    }
    r
}

/// Whether the edge position `p` lies on `face`.
pub open spec fn spec_edge_on_face(face: Face, p: int) -> bool {
    match face {
        Face::Up => 0 <= p <= 3,
        Face::Down => 8 <= p <= 11,
        Face::Front => p == 2 || p == 4 || p == 5 || p == 8,
        Face::Back => p == 0 || p == 6 || p == 7 || p == 10,
        Face::Left => p == 3 || p == 5 || p == 7 || p == 11,
        Face::Right => p == 1 || p == 4 || p == 6 || p == 9,
    }
}

pub fn edge_on_face(face: Face, p: usize) -> (r: bool)
    ensures
        r == spec_edge_on_face(face, p as int),
{
    match face {
        Face::Up => p <= 3,
        Face::Down => 8 <= p && p <= 11,
        Face::Front => p == 2 || p == 4 || p == 5 || p == 8,
        Face::Back => p == 0 || p == 6 || p == 7 || p == 10,
        Face::Left => p == 3 || p == 5 || p == 7 || p == 11,
        Face::Right => p == 1 || p == 4 || p == 6 || p == 9,
    }
}

/// Whether the corner position `p` lies on `face`.
pub open spec fn spec_corner_on_face(face: Face, p: int) -> bool {
    match face {
        Face::Up => 0 <= p <= 3,
        Face::Down => 4 <= p <= 7,
        Face::Front => 2 <= p <= 5,
        Face::Back => p == 0 || p == 1 || p == 6 || p == 7,
        Face::Left => p == 0 || p == 3 || p == 4 || p == 7,
        Face::Right => p == 1 || p == 2 || p == 5 || p == 6,
    }
}

pub fn corner_on_face(face: Face, p: usize) -> (r: bool)
    ensures
        r == spec_corner_on_face(face, p as int),
{
    match face {
        Face::Up => p <= 3,
        Face::Down => 4 <= p && p <= 7,
        Face::Front => 2 <= p && p <= 5,
        Face::Back => p == 0 || p == 1 || p == 6 || p == 7,
        Face::Left => p == 0 || p == 3 || p == 4 || p == 7,
        Face::Right => p == 1 || p == 2 || p == 5 || p == 6,
    }
}

/// The number of clockwise quarter rotations about the face's axis that
/// carry the pieces of the face the way the move does.
pub open spec fn spec_axis_quarters(m: Move) -> int {
    if m.0.spec_leads_axis() {
        m.1.spec_quarters()
    } else {
        4 - m.1.spec_quarters()
    }
}

pub fn axis_quarters(m: Move) -> (r: u8)
    ensures
        r == spec_axis_quarters(m),
        1 <= r <= 3,
{
    if m.0.leads_axis() {
        m.1.quarters()
    } else {
        4 - m.1.quarters()
    }
}

/// By how many thirds the corner position `p` sees the face of `axis`
/// turned away from its up or down face: zero for the up/down axis.
pub open spec fn spec_corner_class(axis: Axis, p: int) -> int {
    match axis {
        Axis::Y => 0,
        Axis::Z => if p % 2 == 0 {
            2
        } else {
            1
        },
        Axis::X => if p % 2 == 0 {
            1
        } else {
            2
        },
    }
}

pub fn corner_class(axis: Axis, p: usize) -> (r: u8)
    ensures
        r == spec_corner_class(axis, p as int),
        r <= 2,
{
    match axis {
        Axis::Y => 0,
        Axis::Z => if p % 2 == 0 {
            2
        } else {
            1
        },
        Axis::X => if p % 2 == 0 {
            1
        } else {
            2
        },
    }
}

/// The edge `e` with its orientation with respect to `axis` flipped.
pub open spec fn spec_flipped(e: Edge, axis: Axis) -> Edge {
    match axis {
        Axis::X => Edge { oriented_rl: !e.oriented_rl, ..e },
        Axis::Y => Edge { oriented_ud: !e.oriented_ud, ..e },
        Axis::Z => Edge { oriented_fb: !e.oriented_fb, ..e },
    }
}

pub fn flipped(e: Edge, axis: Axis) -> (r: Edge)
    ensures
        r == spec_flipped(e, axis),
{
    match axis {
        Axis::X => Edge {
            id: e.id,
            oriented_ud: e.oriented_ud,
            oriented_fb: e.oriented_fb,
            oriented_rl: !e.oriented_rl,
        },
        Axis::Y => Edge {
            id: e.id,
            oriented_ud: !e.oriented_ud,
            oriented_fb: e.oriented_fb,
            oriented_rl: e.oriented_rl,
        },
        Axis::Z => Edge {
            id: e.id,
            oriented_ud: e.oriented_ud,
            oriented_fb: !e.oriented_fb,
            oriented_rl: e.oriented_rl,
        },
    }
}

/// The corner `c` as it sits after being carried from position `from` to
/// position `to` with the face of `axis` kept in place: its twist changes
/// by the difference of the two positions' classes.
pub open spec fn spec_carried(c: Corner, axis: Axis, from: int, to: int) -> Corner {
    Corner {
        id: c.id,
        orientation: ((c.orientation % 3 + spec_corner_class(axis, to) + 3 - spec_corner_class(
            axis,
            from,
        )) % 3) as u8,
    }
}

pub fn carried(c: Corner, axis: Axis, from: usize, to: usize) -> (r: Corner)
    ensures
        r == spec_carried(c, axis, from as int, to as int),
{
    Corner {
        id: c.id,
        orientation: (c.orientation % 3 + corner_class(axis, to) + 3 - corner_class(axis, from))
            % 3,
    }
}

/// The edges after the move `m`: the edges of the face go round, and a
/// quarter turn flips their orientation with respect to the face's axis.
pub open spec fn turned_edges(e: Seq<Edge>, m: Move) -> Seq<Edge> {
    Seq::new(
        12,
        |i: int|
            if spec_edge_on_face(m.0, i) {
                let from = spec_edge_rotated_by(m.0.spec_axis(), 4 - spec_axis_quarters(m), i);
                if m.1 == Turn::Half {
                    e[from]
                } else {
                    spec_flipped(e[from], m.0.spec_axis())
                }
            } else {
                e[i]
            },
    )
}

/// The corners after the move `m`: the corners of the face go round and
/// are twisted as the face's axis asks.
pub open spec fn turned_corners(c: Seq<Corner>, m: Move) -> Seq<Corner> {
    Seq::new(
        8,
        |i: int|
            if spec_corner_on_face(m.0, i) {
                let from = spec_corner_rotated_by(m.0.spec_axis(), 4 - spec_axis_quarters(m), i);
                spec_carried(c[from], m.0.spec_axis(), from, i)
            } else {
                c[i]
            },
    )
}

/// The edges with positions and pieces exchanged, up to position `n`: the
/// piece at position `j` goes to the position of its number and becomes
/// piece `j`, with its orientation.
pub open spec fn inverted_edges(e: Seq<Edge>, n: int) -> Seq<Edge>
    decreases n,
{
    if n <= 0 {
        e
    } else {
        let before = inverted_edges(e, n - 1);
        let piece = e[n - 1];
        if piece.id < 12 {
            before.update(piece.id as int, Edge { id: (n - 1) as u8, ..piece })
        } else {
            before
        }
    }
}

/// The corners with positions and pieces exchanged, up to position `n`:
/// the piece at position `j` goes to the position of its number and
/// becomes piece `j`, with the opposite twist.
pub open spec fn inverted_corners(c: Seq<Corner>, n: int) -> Seq<Corner>
    decreases n,
{
    if n <= 0 {
        c
    } else {
        let before = inverted_corners(c, n - 1);
        let piece = c[n - 1];
        if piece.id < 8 {
            before.update(
                piece.id as int,
                Corner { id: (n - 1) as u8, orientation: ((3 - piece.orientation % 3) % 3) as u8 },
            )
        } else {
            before
        }
    }
}

/// The edge `e` told in terms of the cube rotated by `t`: its number is
/// that of the position it belongs to after the rotation, and a rotation by
/// a quarter exchanges the two axes that it does not turn about.
pub open spec fn spec_renamed_edge(e: Edge, t: Transformation) -> Edge {
    let id = if e.id < 12 {
        spec_edge_rotated_by(t.0, t.1.spec_quarters(), e.id as int) as u8
    } else {
        e.id
    };
    if t.1 == Turn::Half {
        Edge { id, ..e }
    } else {
        match t.0 {
            Axis::X => Edge {
                id,
                oriented_ud: e.oriented_fb,
                oriented_fb: e.oriented_ud,
                oriented_rl: e.oriented_rl,
            },
            Axis::Y => Edge {
                id,
                oriented_ud: e.oriented_ud,
                oriented_fb: e.oriented_rl,
                oriented_rl: e.oriented_fb,
            },
            Axis::Z => Edge {
                id,
                oriented_ud: e.oriented_rl,
                oriented_fb: e.oriented_fb,
                oriented_rl: e.oriented_ud,
            },
        }
    }
}

pub fn renamed_edge(e: Edge, t: Transformation) -> (r: Edge)
    ensures
        r == spec_renamed_edge(e, t),
{
    let id = if e.id < 12 {
        edge_rotated_by(t.0, t.1.quarters(), e.id as usize) as u8
    } else {
        e.id
    };
    if t.1 == Turn::Half {
        Edge { id, oriented_ud: e.oriented_ud, oriented_fb: e.oriented_fb, oriented_rl: e.oriented_rl }
    } else {
        match t.0 {
            Axis::X => Edge {
                id,
                oriented_ud: e.oriented_fb,
                oriented_fb: e.oriented_ud,
                oriented_rl: e.oriented_rl,
            },
            Axis::Y => Edge {
                id,
                oriented_ud: e.oriented_ud,
                oriented_fb: e.oriented_rl,
                oriented_rl: e.oriented_fb,
            },
            Axis::Z => Edge {
                id,
                oriented_ud: e.oriented_rl,
                oriented_fb: e.oriented_fb,
                oriented_rl: e.oriented_ud,
            },
        }
    }
}

/// The axis that a quarter rotation about `axis` carries onto the up/down
/// axis.
pub open spec fn spec_carried_axis(axis: Axis) -> Axis {
    match axis {
        Axis::X => Axis::Z,
        Axis::Y => Axis::Y,
        Axis::Z => Axis::X,
    }
}

pub fn carried_axis(axis: Axis) -> (r: Axis)
    ensures
        r == spec_carried_axis(axis),
{
    match axis {
        Axis::X => Axis::Z,
        Axis::Y => Axis::Y,
        Axis::Z => Axis::X,
    }
}

/// The corner `c`, which sits at position `at`, told in terms of the cube
/// rotated by `t`: its number is that of the position it belongs to after
/// the rotation, and after a rotation by a quarter its twist is counted
/// from the axis that the rotation carries onto the up/down axis.
pub open spec fn spec_renamed_corner(c: Corner, t: Transformation, at: int) -> Corner {
    let id = if c.id < 8 {
        spec_corner_rotated_by(t.0, t.1.spec_quarters(), c.id as int) as u8
    } else {
        c.id
    };
    if t.1 == Turn::Half {
        Corner { id, orientation: c.orientation }
    } else {
        Corner {
            id,
            orientation: spec_carried(c, spec_carried_axis(t.0), at, c.id as int).orientation,
        }
    }
}

pub fn renamed_corner(c: Corner, t: Transformation, at: usize) -> (r: Corner)
    ensures
        r == spec_renamed_corner(c, t, at as int),
{
    let id = if c.id < 8 {
        corner_rotated_by(t.0, t.1.quarters(), c.id as usize) as u8
    } else {
        c.id
    };
    if t.1 == Turn::Half {
        Corner { id, orientation: c.orientation }
    } else {
        Corner { id, orientation: carried(c, carried_axis(t.0), at, c.id as usize).orientation }
    }
}

/// The edges of the cube after the rotation `t`.
pub open spec fn transformed_edges(e: Seq<Edge>, t: Transformation) -> Seq<Edge> {
    Seq::new(
        12,
        |i: int| spec_renamed_edge(e[spec_edge_rotated_by(t.0, 4 - t.1.spec_quarters(), i)], t),
    )
}

/// The corners of the cube after the rotation `t`.
pub open spec fn transformed_corners(c: Seq<Corner>, t: Transformation) -> Seq<Corner> {
    Seq::new(
        8,
        |i: int|
            spec_renamed_corner(
                c[spec_corner_rotated_by(t.0, 4 - t.1.spec_quarters(), i)],
                t,
                spec_corner_rotated_by(t.0, 4 - t.1.spec_quarters(), i),
            ),
    )
}

/// The array that holds the edges `s`.
pub open spec fn edge_array(s: Seq<Edge>) -> [Edge; 12] {
    choose|a: [Edge; 12]| a@ == s
}

/// The array that holds the corners `s`.
pub open spec fn corner_array(s: Seq<Corner>) -> [Corner; 8] {
    choose|a: [Corner; 8]| a@ == s
}

impl EdgeCubieCube {
    /// The edges of the solved cube.
    pub fn new() -> (r: EdgeCubieCube)
        ensures
            r.sound(),
            forall|i: int|
                0 <= i < 12 ==> #[trigger] r.0@[i] == (Edge {
                    id: i as u8,
                    oriented_ud: true,
                    oriented_fb: true,
                    oriented_rl: true,
                }),
    {
        let start = Edge { id: 0, oriented_ud: true, oriented_fb: true, oriented_rl: true };
        let mut edges: [Edge; 12] = [start; 12];
        let mut i: usize = 0;
        while i < 12
            invariant
                i <= 12,
                forall|k: int|
                    0 <= k < i ==> #[trigger] edges@[k] == (Edge {
                        id: k as u8,
                        oriented_ud: true,
                        oriented_fb: true,
                        oriented_rl: true,
                    }),
            decreases 12 - i,
        {
            edges[i] = Edge { id: i as u8, oriented_ud: true, oriented_fb: true, oriented_rl: true };
            i += 1;
        }
        proof {
            assert forall|k: int| 0 <= k < 12 implies #[trigger] edge_ids(edges@)[k] == k by {
                assert(edges@[k].id == k);
            }
        }
        EdgeCubieCube(edges)
    }
}

impl Turnable for EdgeCubieCube {
    open spec fn turned(&self, m: Move) -> Self {
        EdgeCubieCube(edge_array(turned_edges(self.0@, m)))
    }

    open spec fn transformed(&self, t: Transformation) -> Self {
        EdgeCubieCube(edge_array(transformed_edges(self.0@, t)))
    }

    fn turn(&mut self, m: Move)
        ensures
            final(self).0@ == turned_edges(old(self).0@, m),
    {
        let before = self.0;
        let mut after = self.0;
        let axis = m.0.axis();
        let back = 4 - axis_quarters(m);
        let half = m.is_half();
        let mut i: usize = 0;
        while i < 12
            invariant
                i <= 12,
                axis == m.0.spec_axis(),
                back == 4 - spec_axis_quarters(m),
                half == (m.1 == Turn::Half),
                forall|k: int| 0 <= k < i ==> after@[k] == turned_edges(before@, m)[k],
            decreases 12 - i,
        {
            if edge_on_face(m.0, i) {
                let from = edge_rotated_by(axis, back, i);
                if half {
                    after[i] = before[from];
                } else {
                    after[i] = flipped(before[from], axis);
                }
            } else {
                after[i] = before[i];
            }
            i += 1;
        }
        proof {
            assert(after@ =~= turned_edges(before@, m));
            assert(edge_array(turned_edges(before@, m))@ == turned_edges(before@, m));
            assert(after =~= edge_array(turned_edges(before@, m)));
        }
        self.0 = after;
    }

    fn transform(&mut self, t: Transformation)
        ensures
            final(self).0@ == transformed_edges(old(self).0@, t),
    {
        let before = self.0;
        let mut after = self.0;
        let back = 4 - t.1.quarters();
        let mut i: usize = 0;
        while i < 12
            invariant
                i <= 12,
                back == 4 - t.1.spec_quarters(),
                forall|k: int| 0 <= k < i ==> after@[k] == transformed_edges(before@, t)[k],
            decreases 12 - i,
        {
            let from = edge_rotated_by(t.0, back, i);
            after[i] = renamed_edge(before[from], t);
            i += 1;
        }
        proof {
            assert(after@ =~= transformed_edges(before@, t));
            assert(edge_array(transformed_edges(before@, t))@ == transformed_edges(before@, t));
            assert(after =~= edge_array(transformed_edges(before@, t)));
        }
        self.0 = after;
    }
}

impl Invertible for EdgeCubieCube {
    open spec fn inverted(&self) -> Self {
        EdgeCubieCube(edge_array(inverted_edges(self.0@, 12)))
    }

    fn invert(&mut self)
        ensures
            final(self).0@ == inverted_edges(old(self).0@, 12),
    {
        let before = self.0;
        let mut after = self.0;
        let mut j: usize = 0;
        while j < 12
            invariant
                j <= 12,
                after@ == inverted_edges(before@, j as int),
            decreases 12 - j,
        {
            let piece = before[j];
            if piece.id < 12 {
                after[piece.id as usize] = Edge {
                    id: j as u8,
                    oriented_ud: piece.oriented_ud,
                    oriented_fb: piece.oriented_fb,
                    oriented_rl: piece.oriented_rl,
                };
            }
            j += 1;
        }
        proof {
            assert(edge_array(inverted_edges(before@, 12))@ == inverted_edges(before@, 12));
            assert(after =~= edge_array(inverted_edges(before@, 12)));
        }
        self.0 = after;
    }
}

impl CornerCubieCube {
    /// The corners of the solved cube.
    pub fn new() -> (r: CornerCubieCube)
        ensures
            r.sound(),
            forall|i: int|
                0 <= i < 8 ==> #[trigger] r.0@[i] == (Corner { id: i as u8, orientation: 0 }),
    {
        let mut corners: [Corner; 8] = [Corner { id: 0, orientation: 0 }; 8];
        let mut i: usize = 0;
        while i < 8
            invariant
                i <= 8,
                forall|k: int|
                    0 <= k < i ==> #[trigger] corners@[k] == (Corner { id: k as u8, orientation: 0 }),
            decreases 8 - i,
        {
            corners[i] = Corner { id: i as u8, orientation: 0 };
            i += 1;
        }
        proof {
            assert forall|k: int| 0 <= k < 8 implies #[trigger] corner_ids(corners@)[k] == k by {
                assert(corners@[k].id == k);
            }
        }
        CornerCubieCube(corners)
    }
}

impl Turnable for CornerCubieCube {
    open spec fn turned(&self, m: Move) -> Self {
        CornerCubieCube(corner_array(turned_corners(self.0@, m)))
    }

    open spec fn transformed(&self, t: Transformation) -> Self {
        CornerCubieCube(corner_array(transformed_corners(self.0@, t)))
    }

    fn turn(&mut self, m: Move)
        ensures
            final(self).0@ == turned_corners(old(self).0@, m),
    {
        let before = self.0;
        let mut after = self.0;
        let axis = m.0.axis();
        let back = 4 - axis_quarters(m);
        let mut i: usize = 0;
        while i < 8
            invariant
                i <= 8,
                axis == m.0.spec_axis(),
                back == 4 - spec_axis_quarters(m),
                forall|k: int| 0 <= k < i ==> after@[k] == turned_corners(before@, m)[k],
            decreases 8 - i,
        {
            if corner_on_face(m.0, i) {
                let from = corner_rotated_by(axis, back, i);
                after[i] = carried(before[from], axis, from, i);
            } else {
                after[i] = before[i];
            }
            i += 1;
        }
        proof {
            assert(after@ =~= turned_corners(before@, m));
            assert(corner_array(turned_corners(before@, m))@ == turned_corners(before@, m));
            assert(after =~= corner_array(turned_corners(before@, m)));
        }
        self.0 = after;
    }

    fn transform(&mut self, t: Transformation)
        ensures
            final(self).0@ == transformed_corners(old(self).0@, t),
    {
        let before = self.0;
        let mut after = self.0;
        let back = 4 - t.1.quarters();
        let mut i: usize = 0;
        while i < 8
            invariant
                i <= 8,
                back == 4 - t.1.spec_quarters(),
                forall|k: int| 0 <= k < i ==> after@[k] == transformed_corners(before@, t)[k],
            decreases 8 - i,
        {
            let from = corner_rotated_by(t.0, back, i);
            after[i] = renamed_corner(before[from], t, from);
            i += 1;
        }
        proof {
            assert(after@ =~= transformed_corners(before@, t));
            assert(corner_array(transformed_corners(before@, t))@ == transformed_corners(
                before@,
                t,
            ));
            assert(after =~= corner_array(transformed_corners(before@, t)));
        }
        self.0 = after;
    }
}

impl Invertible for CornerCubieCube {
    open spec fn inverted(&self) -> Self {
        CornerCubieCube(corner_array(inverted_corners(self.0@, 8)))
    }

    fn invert(&mut self)
        ensures
            final(self).0@ == inverted_corners(old(self).0@, 8),
    {
        let before = self.0;
        let mut after = self.0;
        let mut j: usize = 0;
        while j < 8
            invariant
                j <= 8,
                after@ == inverted_corners(before@, j as int),
            decreases 8 - j,
        {
            let piece = before[j];
            if piece.id < 8 {
                after[piece.id as usize] = Corner {
                    id: j as u8,
                    orientation: (3 - piece.orientation % 3) % 3,
                };
            }
            j += 1;
        }
        proof {
            assert(corner_array(inverted_corners(before@, 8))@ == inverted_corners(before@, 8));
            assert(after =~= corner_array(inverted_corners(before@, 8)));
        }
        self.0 = after;
    }
}

impl CubieCube {
    /// The solved cube.
    pub fn new_solved() -> (r: CubieCube)
        ensures
            r.sound(),
            forall|i: int|
                0 <= i < 12 ==> #[trigger] r.edges.0@[i] == (Edge {
                    id: i as u8,
                    oriented_ud: true,
                    oriented_fb: true,
                    oriented_rl: true,
                }),
            forall|i: int|
                0 <= i < 8 ==> #[trigger] r.corners.0@[i] == (Corner { id: i as u8, orientation: 0 }),
    {
        CubieCube { edges: EdgeCubieCube::new(), corners: CornerCubieCube::new() }
    }
}

impl Turnable for CubieCube {
    open spec fn turned(&self, m: Move) -> Self {
        CubieCube {
            edges: EdgeCubieCube(edge_array(turned_edges(self.edges.0@, m))),
            corners: CornerCubieCube(corner_array(turned_corners(self.corners.0@, m))),
        }
    }

    open spec fn transformed(&self, t: Transformation) -> Self {
        CubieCube {
            edges: EdgeCubieCube(edge_array(transformed_edges(self.edges.0@, t))),
            corners: CornerCubieCube(corner_array(transformed_corners(self.corners.0@, t))),
        }
    }

    fn turn(&mut self, m: Move)
        ensures
            final(self).edges.0@ == turned_edges(old(self).edges.0@, m),
            final(self).corners.0@ == turned_corners(old(self).corners.0@, m),
    {
        self.edges.turn(m);
        self.corners.turn(m);
    }

    fn transform(&mut self, t: Transformation)
        ensures
            final(self).edges.0@ == transformed_edges(old(self).edges.0@, t),
            final(self).corners.0@ == transformed_corners(old(self).corners.0@, t),
    {
        self.edges.transform(t);
        self.corners.transform(t);
    }
}

impl Invertible for CubieCube {
    open spec fn inverted(&self) -> Self {
        CubieCube {
            edges: EdgeCubieCube(edge_array(inverted_edges(self.edges.0@, 12))),
            corners: CornerCubieCube(corner_array(inverted_corners(self.corners.0@, 8))),
        }
    }

    fn invert(&mut self)
        ensures
            final(self).edges.0@ == inverted_edges(old(self).edges.0@, 12),
            final(self).corners.0@ == inverted_corners(old(self).corners.0@, 8),
    {
        self.edges.invert();
        self.corners.invert();
    }
}

} // verus!
