//! Candidate move sequences: the inputs the search mutates and replays.

use vstd::prelude::*;

use crate::board::Direction;

verus! {

/// An ordered, possibly empty list of `(car, direction)` moves, interpreted
/// as a full trial solution attempt from the initial configuration.
#[derive(Debug)]
pub struct PGInput {
    moves: Vec<(usize, Direction)>,
}

impl View for PGInput {
    type V = Seq<(usize, Direction)>;

    closed spec fn view(&self) -> Seq<(usize, Direction)> {
        self.moves@
    }
}

impl Clone for PGInput {
    /// A clone carries exactly the same moves.
    fn clone(&self) -> (r: Self)
        ensures
            r@ == self@,
    {
        let mut moves: Vec<(usize, Direction)> = Vec::new();
        let mut k: usize = 0;
        while k < self.moves.len()
            invariant
                k <= self.moves.len(),
                moves@ == self.moves@.take(k as int),
            decreases self.moves.len() - k,
        {
            moves.push(self.moves[k]);
            proof {
                assert(moves@ =~= self.moves@.take(k + 1 as int));
            }
            k += 1;
        }
        proof {
            assert(moves@ =~= self.moves@);
        }
        PGInput { moves }
    }
}

impl PGInput {
    /// Wraps a move list as a candidate.
    pub fn new(moves: Vec<(usize, Direction)>) -> (r: Self)
        ensures
            r@ == moves@,
    {
        PGInput { moves }
    }

    /// The moves, in application order.
    pub fn moves(&self) -> (r: &Vec<(usize, Direction)>)
        ensures
            r@ == self@,
    {
        &self.moves
    }

    /// How many moves the candidate holds.
    pub fn len(&self) -> (n: usize)
        ensures
            n == self@.len(),
    {
        self.moves.len()
    }

    /// Appends one move at the end.
    pub fn push_move(&mut self, m: (usize, Direction))
        ensures
            final(self)@ == old(self)@.push(m),
    {
        self.moves.push(m);
    }

    /// Inserts one move at position `at`, shifting the tail.
    pub fn insert_move(&mut self, at: usize, m: (usize, Direction))
        requires
            at <= old(self)@.len(),
        ensures
            final(self)@ == old(self)@.insert(at as int, m),
    {
        self.moves.insert(at, m);
    }
}

} // verus!
