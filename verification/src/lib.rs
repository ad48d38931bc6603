//! Multi-phase heuristic search for short move sequences on the 3x3x3 cube.
//!
//! A solve runs through phases. Each phase narrows the cube down to a
//! smaller set of states and is searched by iterative deepening: depth by
//! depth, depth first, cut off by a lower bound from a pruning table. A
//! search may work on the inverse of the cube as well as on the cube itself
//! (NISS), so a solution holds a normal and an inverse track.
//!
//! - `cube`, `cubie`, `valid`: moves, rotations and the cube at the level of
//!   its pieces, and what is proved of them: a cube that has every piece
//!   once keeps them, a move is undone by its inverse, the inverse of the
//!   inverse of a state is the state, and to turn or invert the cube and
//!   then rotate it is to rotate it and then turn or invert it.
//! - `algs`: move sequences with two tracks, and solutions made of one
//!   sequence per phase.
//! - `encode`, `perm`, `coord`: the coordinates, which project the cube onto
//!   bounded integer ranges, and what is proved of their encodings.
//! - `lookup_table`, `moveset`, `step`: pruning tables, the moves of a
//!   phase, and the phase as a list of variants.
//! - `df_search`: the search of one variant at one depth, and what is
//!   proved of what it finds: every algorithm has the depth, passes the
//!   variant's check and leads to the goal of the phase.
//! - `stream`, `phase`: lazy sequences of solutions, and the lazy output of
//!   a phase: behind each partial solution in turn its solutions by depth.
//! - `solver`: the streaming pipeline, which takes solutions as they come,
//!   and the eager pipeline, which keeps the shortest of every phase.
//! - `cancel`: the signal that stops a running search.
//!
//! Every function is verified against its contract. What a search or a
//! pipeline yields is given as a sequence by a specification function, and
//! the executable code is proved to yield exactly that sequence, or a first
//! part of it where the cancellation signal is seen.

pub mod cube;
pub mod cubie;
pub mod valid;
pub mod algs;
pub mod moveset;
pub mod encode;
pub mod perm;
pub mod coord;
pub mod lookup_table;
pub mod cancel;
pub mod stream;
pub mod step;
pub mod df_search;
pub mod phase;
pub mod solver;
