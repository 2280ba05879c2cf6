//! A verified engine for solving facelet-permutation puzzles: states and
//! moves form a group action on index arrays, masked projections of the
//! state space are enumerated breadth-first into admissible distance
//! tables, and an iterative-deepening best-first search consumes those
//! tables to find optimal move sequences.  Table files, compression and
//! command-line handling live outside the library; it takes tables and
//! move strings as plain values and hands back plain values.

use vstd::prelude::*;

pub mod cube;
pub mod encode;
pub mod indexer;
pub mod moves;
pub mod transformations;
pub mod perm;
pub mod ranktable;
pub mod search;

verus! {

/// The ways an operation of this library can fail.
///
/// Configuration errors are reported when tables or move sets are built;
/// invalid input is reported for move strings supplied by a caller; a
/// data-integrity error means a facelet vector could not be classified
/// and the operation aborted rather than guessed.
#[derive(Clone, Copy, Debug, PartialEq, Eq, Structural)]
pub enum SolverError {
    Configuration,
    InvalidMove,
    DataIntegrity,
}

/// A self-contained 2-wide puzzle: a solved state bundled with its own
/// move set, for callers who only want to scramble and inspect one small
/// puzzle without managing the move set themselves.
pub struct Cube {
    moves: transformations::MoveSet,
    state: cube::Cube,
}

impl View for Cube {
    type V = Seq<u8>;

    closed spec fn view(&self) -> Seq<u8> {
        self.state@
    }
}

impl Cube {
    /// The bundled move set drives every twist of this value.
    pub closed spec fn move_set(self) -> transformations::MoveSet {
        self.moves
    }

    pub closed spec fn wf(self) -> bool {
        self.moves.wf() && self@.len() == self.moves.facelets()
    }

    /// A solved 2-wide puzzle with its move set; exactly the other
    /// widths are rejected as configuration errors.
    pub fn new(dim: u32) -> (r: Result<Cube, SolverError>)
        ensures
            r is Ok <==> dim == 2,
            match r {
                Ok(c) => c.wf() && c@ == cube::solved_spec(2),
                Err(e) => e == SolverError::Configuration,
            },
    {
        if dim != 2 {
            return Err(SolverError::Configuration);
        }
        let moves = match transformations::cube2() {
            Ok(ms) => ms,
            Err(e) => {
                return Err(e);
            },
        };
        let state = cube::Cube::new(2);
        Ok(Cube { moves, state })
    }

    /// Parses a move string and applies it; an unrecognized token is an
    /// invalid-move error and the state is left untouched.
    pub fn twist(&mut self, moves: &str) -> (r: Result<(), SolverError>)
        requires
            old(self).wf(),
        ensures
            final(self).wf(),
            final(self).move_set() == old(self).move_set(),
            match r {
                Ok(()) => moves::parse_spec(moves@) is Some && final(self)@
                    == transformations::apply_moves_spec(
                    old(self).move_set(),
                    old(self)@,
                    moves::parse_spec(moves@)->0,
                ),
                Err(e) => moves::parse_spec(moves@) is None && e == SolverError::InvalidMove
                    && final(self)@ == old(self)@,
            },
    {
        self.state.twist(&self.moves, moves)
    }

    /// The facelet vector itself.
    pub fn data(&self) -> (r: &Vec<u8>)
        ensures
            r@ == self@,
    {
        self.state.data()
    }
}

} // verus!
