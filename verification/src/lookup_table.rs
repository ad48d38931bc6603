//! Pruning tables: for every value of a coordinate, a lower bound on the
//! number of moves that solve the phase from there.

use vstd::prelude::*;
use std::marker::PhantomData;
use crate::coord::Coord;

verus! {

/// The byte that stands for a missing entry.
pub const EMPTY_ENTRY: u8 = 255;

/// What a stored byte stands for: a bound, or no entry.
pub open spec fn entry_of(byte: u8) -> Option<u8> {
    if byte == EMPTY_ENTRY {
        None
    } else {
        Some(byte)
    }
}

/// A table with one entry for each of the `SIZE` values of the coordinate
/// kind `C`. An entry is a lower bound on the number of moves, zero exactly
/// where the coordinate stands for a solved state of the phase, or it is
/// missing.
pub struct PruningTable<const SIZE: usize, C: Coord<SIZE>> {
    entries: Vec<u8>,
    coord_type: PhantomData<C>,
}

impl<const SIZE: usize, C: Coord<SIZE>> PruningTable<SIZE, C> {
    #[verifier::type_invariant]
    spec fn sized(self) -> bool {
        self.entries@.len() == SIZE
    }

    /// The entries, by coordinate value.
    pub closed spec fn view(&self) -> Seq<Option<u8>> {
        Seq::new(SIZE as nat, |i: int| entry_of(self.entries@[i]))
    }

    /// Whether no entry is missing.
    pub open spec fn populated(&self) -> bool {
        forall|i: int| 0 <= i < SIZE ==> (#[trigger] self@[i]) is Some
    }

    /// A table without entries.
    pub fn new() -> (r: Self)
        ensures
            r@ == Seq::new(SIZE as nat, |i: int| None::<u8>),
    {
        let mut entries: Vec<u8> = Vec::new();
        let mut i: usize = 0;
        while i < SIZE
            invariant
                i <= SIZE,
                entries@.len() == i,
                forall|k: int| 0 <= k < i ==> entries@[k] == EMPTY_ENTRY,
            decreases SIZE - i,
        {
            entries.push(EMPTY_ENTRY);
            i += 1;
        }
        let r = PruningTable { entries, coord_type: PhantomData };
        assert(r@ =~= Seq::new(SIZE as nat, |i: int| None::<u8>));
        r
    }

    /// The entry for `coord`.
    pub fn get(&self, coord: C) -> (r: Option<u8>)
        ensures
            r == self@[coord.value() as int],
    {
        proof {
            use_type_invariant(self);
        }
        let byte = self.entries[coord.val()];
        if byte == EMPTY_ENTRY {
            None
        } else {
            Some(byte)
        }
    }

    /// Stores `bound` as the entry for `coord`. The largest byte stands
    /// for a missing entry.
    pub fn set(&mut self, coord: C, bound: u8)
        ensures
            final(self)@ == old(self)@.update(coord.value() as int, entry_of(bound)),
    {
        proof {
            use_type_invariant(&*self);
        }
        let index = coord.val();
        self.entries[index] = bound;
        assert(self@ =~= old(self)@.update(coord.value() as int, entry_of(bound)));
    }

    /// Whether no entry is missing.
    pub fn is_populated(&self) -> (r: bool)
        ensures
            r == self.populated(),
    {
        proof {
            use_type_invariant(self);
        }
        let mut i: usize = 0;
        while i < self.entries.len()
            invariant
                i <= self.entries@.len(),
                self.entries@.len() == SIZE,
                forall|k: int| 0 <= k < i ==> (#[trigger] self@[k]) is Some,
            decreases self.entries@.len() - i,
        {
            if self.entries[i] == EMPTY_ENTRY {
                assert(self@[i as int] is None);
                return false;
            }
            i += 1;
        }
        true
    }
}

} // verus!
