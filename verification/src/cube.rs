//! The puzzle model: faces, turns, moves, whole-cube rotations and a cubie
//! level state with move application, inversion and rotation.

use vstd::prelude::*;

verus! {

/// One of the six faces of the cube.
#[derive(Copy, Clone, Debug, PartialEq, Eq, Structural, Hash)]
pub enum Face {
    Up,
    Down,
    Front,
    Back,
    Left,
    Right,
}

/// The amount by which a face or the whole cube is turned.
#[derive(Copy, Clone, Debug, PartialEq, Eq, Structural, Hash)]
pub enum Turn {
    Clockwise,
    Half,
    CounterClockwise,
}

/// An axis through two opposite faces: `X` through left and right, `Y`
/// through up and down, `Z` through front and back.
#[derive(Copy, Clone, Debug, PartialEq, Eq, Structural, Hash)]
pub enum Axis {
    X,
    Y,
    Z,
}

/// A turn of one face.
#[derive(Copy, Clone, Debug, PartialEq, Eq, Structural, Hash)]
pub struct Move(pub Face, pub Turn);

/// A rotation of the whole cube about an axis. A clockwise rotation about
/// `X` follows a clockwise turn of the right face, about `Y` one of the up
/// face, about `Z` one of the front face.
#[derive(Copy, Clone, Debug, PartialEq, Eq, Structural, Hash)]
pub struct Transformation(pub Axis, pub Turn);

impl Turn {
    /// The number of clockwise quarter turns that make up this turn.
    pub open spec fn spec_quarters(self) -> int {
        match self {
            Turn::Clockwise => 1,
            Turn::Half => 2,
            Turn::CounterClockwise => 3,
        }
    }

    pub fn quarters(self) -> (r: u8)
        ensures
            r == self.spec_quarters(),
            1 <= r <= 3,
    {
        match self {
            Turn::Clockwise => 1,
            Turn::Half => 2,
            Turn::CounterClockwise => 3,
        }
    }

    /// The turn that undoes this one.
    pub open spec fn spec_invert(self) -> Turn {
        match self {
            Turn::Clockwise => Turn::CounterClockwise,
            Turn::Half => Turn::Half,
            Turn::CounterClockwise => Turn::Clockwise,
        }
    }

    #[verifier::when_used_as_spec(spec_invert)]
    pub fn invert(self) -> (r: Turn)
        ensures
            r == self.spec_invert(),
    {
        match self {
            Turn::Clockwise => Turn::CounterClockwise,
            Turn::Half => Turn::Half,
            Turn::CounterClockwise => Turn::Clockwise,
        }
    }
}

impl Face {
    /// The axis that runs through this face.
    pub open spec fn spec_axis(self) -> Axis {
        match self {
            Face::Up | Face::Down => Axis::Y,
            Face::Front | Face::Back => Axis::Z,
            Face::Left | Face::Right => Axis::X,
        }
    }

    #[verifier::when_used_as_spec(spec_axis)]
    pub fn axis(self) -> (r: Axis)
        ensures
            r == self.spec_axis(),
    {
        match self {
            Face::Up | Face::Down => Axis::Y,
            Face::Front | Face::Back => Axis::Z,
            Face::Left | Face::Right => Axis::X,
        }
    }

    /// Whether a clockwise turn of this face moves its pieces the way a
    /// clockwise rotation about its axis does (up, front and right).
    pub open spec fn spec_leads_axis(self) -> bool {
        self == Face::Up || self == Face::Front || self == Face::Right
    }

    #[verifier::when_used_as_spec(spec_leads_axis)]
    pub fn leads_axis(self) -> (r: bool)
        ensures
            r == self.spec_leads_axis(),
    {
        match self {
            Face::Up | Face::Front | Face::Right => true,
            _ => false,
        }
    }

    /// The position of this face in the order up, down, front, back, left,
    /// right.
    pub open spec fn spec_index(self) -> int {
        match self {
            Face::Up => 0,
            Face::Down => 1,
            Face::Front => 2,
            Face::Back => 3,
            Face::Left => 4,
            Face::Right => 5,
        }
    }

    pub fn index(self) -> (r: usize)
        ensures
            r == self.spec_index(),
            r < 6,
    {
        match self {
            Face::Up => 0,
            Face::Down => 1,
            Face::Front => 2,
            Face::Back => 3,
            Face::Left => 4,
            Face::Right => 5,
        }
    }

    /// Where this face lies after one clockwise quarter rotation of the
    /// whole cube about `axis`.
    pub open spec fn spec_rotated(self, axis: Axis) -> Face {
        match axis {
            Axis::X => match self {
                Face::Front => Face::Up,
                Face::Up => Face::Back,
                Face::Back => Face::Down,
                Face::Down => Face::Front,
                f => f,
            },
            Axis::Y => match self {
                Face::Front => Face::Left,
                Face::Left => Face::Back,
                Face::Back => Face::Right,
                Face::Right => Face::Front,
                f => f,
            },
            Axis::Z => match self {
                Face::Up => Face::Right,
                Face::Right => Face::Down,
                Face::Down => Face::Left,
                Face::Left => Face::Up,
                f => f,
            },
        }
    }

    #[verifier::when_used_as_spec(spec_rotated)]
    pub fn rotated(self, axis: Axis) -> (r: Face)
        ensures
            r == self.spec_rotated(axis),
    {
        match axis {
            Axis::X => match self {
                Face::Front => Face::Up,
                Face::Up => Face::Back,
                Face::Back => Face::Down,
                Face::Down => Face::Front,
                f => f,
            },
            Axis::Y => match self {
                Face::Front => Face::Left,
                Face::Left => Face::Back,
                Face::Back => Face::Right,
                Face::Right => Face::Front,
                f => f,
            },
            Axis::Z => match self {
                Face::Up => Face::Right,
                Face::Right => Face::Down,
                Face::Down => Face::Left,
                Face::Left => Face::Up,
                f => f,
            },
        }
    }
}

impl Transformation {
    /// The rotation that undoes this one.
    pub open spec fn spec_invert(self) -> Transformation {
        Transformation(self.0, self.1.spec_invert())
    }

    #[verifier::when_used_as_spec(spec_invert)]
    pub fn invert(self) -> (r: Transformation)
        ensures
            r == self.spec_invert(),
    {
        Transformation(self.0, self.1.invert())
    }
}

impl Move {
    /// The number of this move among the eighteen: three per face, faces in
    /// the order of `Face::index`, turns clockwise, half, counter-clockwise.
    pub open spec fn spec_to_id(self) -> int {
        self.0.spec_index() * 3 + self.1.spec_quarters() - 1
    }

    pub fn to_id(self) -> (r: usize)
        ensures
            r == self.spec_to_id(),
            r < 18,
    {
        self.0.index() * 3 + (self.1.quarters() - 1) as usize
    }

    /// The move that undoes this one.
    pub open spec fn spec_invert(self) -> Move {
        Move(self.0, self.1.spec_invert())
    }

    #[verifier::when_used_as_spec(spec_invert)]
    pub fn invert(self) -> (r: Move)
        ensures
            r == self.spec_invert(),
    {
        Move(self.0, self.1.invert())
    }

    /// Whether this move is a half turn.
    pub open spec fn spec_is_half(self) -> bool {
        self.1 == Turn::Half
    }

    #[verifier::when_used_as_spec(spec_is_half)]
    pub fn is_half(self) -> (r: bool)
        ensures
            r == self.spec_is_half(),
    {
        self.1 == Turn::Half
    }

    /// The move that does to the rotated cube what this move does to the
    /// cube before the rotation `t`.
    pub open spec fn spec_transform(self, t: Transformation) -> Move {
        let f1 = self.0.spec_rotated(t.0);
        let f2 = f1.spec_rotated(t.0);
        let f3 = f2.spec_rotated(t.0);
        match t.1 {
            Turn::Clockwise => Move(f1, self.1),
            Turn::Half => Move(f2, self.1),
            Turn::CounterClockwise => Move(f3, self.1),
        }
    }

    #[verifier::when_used_as_spec(spec_transform)]
    pub fn transform(self, t: Transformation) -> (r: Move)
        ensures
            r == self.spec_transform(t),
    {
        let f1 = self.0.rotated(t.0);
        let f2 = f1.rotated(t.0);
        let f3 = f2.rotated(t.0);
        match t.1 {
            Turn::Clockwise => Move(f1, self.1),
            Turn::Half => Move(f2, self.1),
            Turn::CounterClockwise => Move(f3, self.1),
        }
    }
}

/// A rotation and the one that undoes it leave every move as it is.
pub proof fn lemma_transform_back(m: Move, t: Transformation)
    ensures
        m.spec_transform(t).spec_transform(t.spec_invert()) == m,
        m.spec_transform(t.spec_invert()).spec_transform(t) == m,
        t.spec_invert().spec_invert() == t,
{
}

/// An edge piece as it sits in some edge position: which piece it is and
/// whether it is oriented with respect to each of the three axes.
#[derive(Copy, Clone, Debug, PartialEq, Eq, Structural, Hash)]
pub struct Edge {
    pub id: u8,
    pub oriented_ud: bool,
    pub oriented_fb: bool,
    pub oriented_rl: bool,
}

/// A corner piece as it sits in some corner position: which piece it is and
/// by how many clockwise thirds it is twisted away from the up/down axis.
#[derive(Copy, Clone, Debug, PartialEq, Eq, Structural, Hash)]
pub struct Corner {
    pub id: u8,
    pub orientation: u8,
}

/// The twelve edge positions UB, UR, UF, UL, FR, FL, BR, BL, DF, DR, DB, DL,
/// each with the piece that sits there.
#[derive(Copy, Clone, Debug, PartialEq, Eq, Hash)]
pub struct EdgeCubieCube(pub [Edge; 12]);

/// The eight corner positions UBL, UBR, UFR, UFL, DFL, DFR, DBR, DBL, each
/// with the piece that sits there.
#[derive(Copy, Clone, Debug, PartialEq, Eq, Hash)]
pub struct CornerCubieCube(pub [Corner; 8]);

/// The state of the cube at the level of its pieces.
#[derive(Copy, Clone, Debug, PartialEq, Eq, Hash)]
pub struct CubieCube {
    pub edges: EdgeCubieCube,
    pub corners: CornerCubieCube,
}

/// A puzzle state that face turns and whole-cube rotations act on. Both are
/// functions of the state alone.
pub trait Turnable: Sized {
    /// The state after the move `m`.
    spec fn turned(&self, m: Move) -> Self;

    /// The state after the rotation `t` of the whole puzzle.
    spec fn transformed(&self, t: Transformation) -> Self;

    fn turn(&mut self, m: Move)
        ensures
            *final(self) == old(self).turned(m),
    ;

    fn transform(&mut self, t: Transformation)
        ensures
            *final(self) == old(self).transformed(t),
    ;
}

/// A puzzle state with an inverse: the state that the reversed and inverted
/// scramble leads to.
pub trait Invertible: Sized {
    /// The inverse state.
    spec fn inverted(&self) -> Self;

    fn invert(&mut self)
        ensures
            *final(self) == old(self).inverted(),
    ;
}

/// A puzzle whose moves, rotations and inversion go together as those of a
/// cube do: to turn or to invert the puzzle and then rotate it is to rotate
/// it and then turn or invert it.
pub trait Puzzle: Turnable + Invertible {
    /// Whether the state is one that the puzzle can be in.
    spec fn sound(&self) -> bool;

    proof fn lemma_sound_turned(state: Self, m: Move)
        requires
            state.sound(),
        ensures
            state.turned(m).sound(),
    ;

    proof fn lemma_sound_transformed(state: Self, t: Transformation)
        requires
            state.sound(),
        ensures
            state.transformed(t).sound(),
    ;

    proof fn lemma_sound_inverted(state: Self)
        requires
            state.sound(),
        ensures
            state.inverted().sound(),
    ;

    proof fn lemma_turn_rotate(state: Self, m: Move, t: Transformation)
        requires
            state.sound(),
        ensures
            state.turned(m).transformed(t) == state.transformed(t).turned(m.spec_transform(t)),
    ;

    proof fn lemma_invert_rotate(state: Self, t: Transformation)
        requires
            state.sound(),
        ensures
            state.inverted().transformed(t) == state.transformed(t).inverted(),
    ;
}

} // verus!
