//! The moves that a phase may make, and which move may follow which.

use vstd::prelude::*;
use crate::cube::{Face, Move, Turn};

verus! {

/// The moves of one phase. The state-changing moves can reach the phase's
/// goal with their last turn; the auxiliary moves cannot, so no solution
/// ends in one. `transitions[a][b]` says whether the move with number `b`
/// may directly follow the move with number `a` on the same track.
#[derive(Debug)]
pub struct MoveSet {
    pub st_moves: Vec<Move>,
    pub aux_moves: Vec<Move>,
    pub transitions: [[bool; 18]; 18],
}

/// The usual rule for successive moves: never the same face twice, and of
/// two opposite faces the one that leads its axis comes first.
pub open spec fn spec_follows(prev: Move, next: Move) -> bool {
    prev.0 != next.0 && (prev.0.spec_axis() == next.0.spec_axis() ==> prev.0.spec_leads_axis())
}

#[verifier::when_used_as_spec(spec_follows)]
pub fn follows(prev: Move, next: Move) -> (r: bool)
    ensures
        r == spec_follows(prev, next),
{
    prev.0 != next.0 && (prev.0.axis() != next.0.axis() || prev.0.leads_axis())
}

/// The move with the number `id`.
pub open spec fn spec_move_of_id(id: int) -> Move {
    let face = if id < 3 {
        Face::Up
    } else if id < 6 {
        Face::Down
    } else if id < 9 {
        Face::Front
    } else if id < 12 {
        Face::Back
    } else if id < 15 {
        Face::Left
    } else {
        Face::Right
    };
    let turn = if id % 3 == 0 {
        Turn::Clockwise
    } else if id % 3 == 1 {
        Turn::Half
    } else {
        Turn::CounterClockwise
    };
    Move(face, turn)
}

pub fn move_of_id(id: usize) -> (r: Move)
    requires
        id < 18,
    ensures
        r == spec_move_of_id(id as int),
        r.spec_to_id() == id,
{
    let face = if id < 3 {
        Face::Up
    } else if id < 6 {
        Face::Down
    } else if id < 9 {
        Face::Front
    } else if id < 12 {
        Face::Back
    } else if id < 15 {
        Face::Left
    } else {
        Face::Right
    };
    let turn = if id % 3 == 0 {
        Turn::Clockwise
    } else if id % 3 == 1 {
        Turn::Half
    } else {
        Turn::CounterClockwise
    };
    Move(face, turn)
}

impl MoveSet {
    /// Whether `next` may be made when `prev` was the last move on its
    /// track. After no move every move may be made.
    pub open spec fn spec_allows(&self, prev: Option<Move>, next: Move) -> bool {
        match prev {
            Some(p) => self.transitions[p.spec_to_id()][next.spec_to_id()],
            None => true,
        }
    }

    #[verifier::when_used_as_spec(spec_allows)]
    pub fn allows(&self, prev: Option<Move>, next: Move) -> (r: bool)
        ensures
            r == self.spec_allows(prev, next),
    {
        match prev {
            Some(p) => self.transitions[p.to_id()][next.to_id()],
            None => true,
        }
    }

    /// Whether one of the state-changing moves is a half turn.
    pub open spec fn spec_turns_half(&self) -> bool {
        exists|i: int| 0 <= i < self.st_moves@.len() && (#[trigger] self.st_moves@[i]).spec_is_half()
    }

    #[verifier::when_used_as_spec(spec_turns_half)]
    pub fn turns_half(&self) -> (r: bool)
        ensures
            r == self.spec_turns_half(),
    {
        let mut i: usize = 0;
        while i < self.st_moves.len()
            invariant
                i <= self.st_moves.len(),
                forall|j: int| 0 <= j < i ==> !(#[trigger] self.st_moves@[j]).spec_is_half(),
            decreases self.st_moves.len() - i,
        {
            if self.st_moves[i].is_half() {
                return true;
            }
            i += 1;
        }
        false
    }

    /// A move set with the usual rule for successive moves.
    pub fn new(st_moves: Vec<Move>, aux_moves: Vec<Move>) -> (r: MoveSet)
        ensures
            r.st_moves == st_moves,
            r.aux_moves == aux_moves,
            forall|p: Move, n: Move| #[trigger] r.spec_allows(Some(p), n) == spec_follows(p, n),
    {
        let mut transitions: [[bool; 18]; 18] = [[false; 18]; 18];
        let mut a: usize = 0;
        while a < 18
            invariant
                a <= 18,
                forall|i: int, j: int|
                    0 <= i < a && 0 <= j < 18 ==> #[trigger] transitions[i][j] == spec_follows(
                        spec_move_of_id(i),
                        spec_move_of_id(j),
                    ),
            decreases 18 - a,
        {
            let mut row: [bool; 18] = [false; 18];
            let prev = move_of_id(a);
            let mut b: usize = 0;
            while b < 18
                invariant
                    b <= 18,
                    prev == spec_move_of_id(a as int),
                    forall|j: int|
                        0 <= j < b ==> #[trigger] row[j] == spec_follows(prev, spec_move_of_id(j)),
                decreases 18 - b,
            {
                row[b] = follows(prev, move_of_id(b));
                b += 1;
            }
            transitions[a] = row;
            a += 1;
        }
        let r = MoveSet { st_moves, aux_moves, transitions };
        assert forall|p: Move, n: Move| #[trigger] r.spec_allows(Some(p), n) == spec_follows(p, n) by {
            assert(spec_move_of_id(p.spec_to_id()) == p);
            assert(spec_move_of_id(n.spec_to_id()) == n);
        }
        r
    }
}

} // verus!
