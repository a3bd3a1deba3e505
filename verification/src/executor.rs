//! Replaying candidates against the initial configuration, with the
//! snapshot optimization that replays only the new suffix of a derived
//! candidate, and the executor that feeds results to observers.

use vstd::prelude::*;

use crate::board::{
    move_applied, move_error_of, move_legal, Direction, MoveError, State, StateModel,
};
use crate::input::PGInput;
use crate::observers::PGObserverTuple;

verus! {

/// The configuration a move sequence reaches from `s`, or the failure of
/// its first illegal move. A move either fully succeeds or has no effect.
pub open spec fn replay_spec(s: StateModel, moves: Seq<(usize, Direction)>) -> Result<
    StateModel,
    MoveError,
>
    decreases moves.len(),
{
    if moves.len() == 0 {
        Ok(s)
    } else {
        let (car, d) = moves[0];
        if move_legal(s, car as int, d) {
            replay_spec(move_applied(s, car as int, d), moves.drop_first())
        } else {
            Err(move_error_of(s, car as int, d))
        }
    }
}

/// Replaying a concatenation replays the first part, then the second from
/// wherever the first arrived; an early failure is the whole result. This
/// is why replaying only a candidate's new suffix from a cached ancestor
/// configuration produces exactly the full replay's outcome.
pub proof fn lemma_replay_append(
    s: StateModel,
    m1: Seq<(usize, Direction)>,
    m2: Seq<(usize, Direction)>,
)
    ensures
        replay_spec(s, m1 + m2) == (match replay_spec(s, m1) {
            Ok(t) => replay_spec(t, m2),
            Err(e) => Err(e),
        }),
    decreases m1.len(),
{
    if m1.len() == 0 {
        assert(m1 + m2 =~= m2);
    } else {
        let (car, d) = m1[0];
        assert((m1 + m2)[0] == m1[0]);
        assert((m1 + m2).drop_first() =~= m1.drop_first() + m2);
        if move_legal(s, car as int, d) {
            lemma_replay_append(move_applied(s, car as int, d), m1.drop_first(), m2);
        }
    }
}

/// Replay changes car positions only: grid dimensions, the number of cars
/// and every car's shape are invariant across a run.
pub proof fn lemma_replay_shape(s: StateModel, moves: Seq<(usize, Direction)>)
    ensures
        replay_spec(s, moves) matches Ok(t) ==> t.rows == s.rows && t.cols == s.cols
            && t.cars.len() == s.cars.len() && forall|i: int|
            0 <= i < s.cars.len() ==> (#[trigger] t.cars[i]).1 == s.cars[i].1,
    decreases moves.len(),
{
    if moves.len() > 0 {
        let (car, d) = moves[0];
        if move_legal(s, car as int, d) {
            let mid = move_applied(s, car as int, d);
            lemma_replay_shape(mid, moves.drop_first());
            assert forall|i: int| 0 <= i < s.cars.len() implies (#[trigger] mid.cars[i]).1
                == s.cars[i].1 by {}
        }
    }
}

/// Applies `moves[from..]` to a copy of `start`; the common engine behind
/// full and snapshot-accelerated replay.
fn replay_onward(start: &State, moves: &Vec<(usize, Direction)>, from: usize) -> (r: Result<
    State,
    MoveError,
>)
    requires
        start@.wf(),
        from <= moves@.len(),
    ensures
        match r {
            Ok(s) => replay_spec(start@, moves@.skip(from as int)) == Ok::<StateModel, MoveError>(
                s@,
            ) && s@.wf(),
            Err(e) => replay_spec(start@, moves@.skip(from as int)) == Err::<StateModel, MoveError>(
                e,
            ),
        },
{
    let mut cur = start.clone();
    let mut k: usize = from;
    while k < moves.len()
        invariant
            from <= k <= moves@.len(),
            cur@.wf(),
            replay_spec(start@, moves@.skip(from as int)) == replay_spec(
                cur@,
                moves@.skip(k as int),
            ),
        decreases moves@.len() - k,
    {
        let (car, d) = moves[k];
        let ghost pre = cur@;
        let step = cur.apply_move(car, d);
        proof {
            assert(moves@.skip(k as int)[0] == moves@[k as int]);
            assert(moves@.skip(k as int).drop_first() =~= moves@.skip(k + 1 as int));
        }
        match step {
            Ok(_) => {
                proof {
                    assert(move_legal(pre, car as int, d));
                    assert(replay_spec(pre, moves@.skip(k as int)) == replay_spec(
                        move_applied(pre, car as int, d),
                        moves@.skip(k as int).drop_first(),
                    ));
                    assert(replay_spec(pre, moves@.skip(k as int)) == replay_spec(
                        cur@,
                        moves@.skip(k + 1 as int),
                    ));
                }
            },
            Err(e) => {
                return Err(e);
            },
        }
        k += 1;
    }
    proof {
        assert(moves@.skip(moves@.len() as int) =~= Seq::<(usize, Direction)>::empty());
    }
    Ok(cur)
}

/// Fully replays a candidate from the initial configuration.
pub fn replay(initial: &State, input: &PGInput) -> (r: Result<State, MoveError>)
    requires
        initial@.wf(),
    ensures
        match r {
            Ok(s) => replay_spec(initial@, input@) == Ok::<StateModel, MoveError>(s@) && s@.wf(),
            Err(e) => replay_spec(initial@, input@) == Err::<StateModel, MoveError>(e),
        },
{
    let r = replay_onward(initial, input.moves(), 0);
    proof {
        assert(input@.skip(0) =~= input@);
    }
    r
}

/// Snapshot-accelerated replay: applies only the moves beyond `from` to a
/// cached configuration already reached by the candidate's first `from`
/// moves. Observable results are identical to a full replay from scratch.
pub fn replay_from(
    snapshot: &State,
    input: &PGInput,
    from: usize,
    Ghost(init): Ghost<StateModel>,
) -> (r: Result<State, MoveError>)
    requires
        snapshot@.wf(),
        from <= input@.len(),
        replay_spec(init, input@.take(from as int)) == Ok::<StateModel, MoveError>(snapshot@),
    ensures
        match r {
            Ok(s) => replay_spec(init, input@) == Ok::<StateModel, MoveError>(s@) && s@.wf(),
            Err(e) => replay_spec(init, input@) == Err::<StateModel, MoveError>(e),
        },
{
    let r = replay_onward(snapshot, input.moves(), from);
    proof {
        lemma_replay_append(init, input@.take(from as int), input@.skip(from as int));
        assert(input@.take(from as int) + input@.skip(from as int) =~= input@);
    }
    r
}

/// Executor which advances the initial configuration by "running" the move
/// sequence provided, then hands the final board to its observers. A move
/// failure during replay is reported as an error and reaches no observer.
pub struct PGExecutor<OT> {
    /// The initial state which this executor is going to advance.
    pub initial: State,
    /// The observers notified of every successfully reached configuration.
    pub observers: OT,
}

impl<OT: PGObserverTuple> PGExecutor<OT> {
    /// Create a new executor for the provided state with the provided
    /// observers.
    pub fn new(initial: State, observers: OT) -> (r: Self)
        ensures
            r.initial@ == initial@,
            r.observers == observers,
    {
        PGExecutor { initial, observers }
    }

    /// The initial state which this executor is going to advance.
    pub fn initial(&self) -> (r: &State)
        ensures
            r@ == self.initial@,
    {
        &self.initial
    }

    /// Replays the input from the initial configuration. On success every
    /// observer is handed the resulting board; on a move failure the
    /// observers are left untouched and the move's error is returned.
    pub fn run_target(&mut self, input: &PGInput) -> (r: Result<(), MoveError>)
        requires
            old(self).initial@.wf(),
        ensures
            final(self).initial@ == old(self).initial@,
            match r {
                Ok(()) => (replay_spec(old(self).initial@, input@) matches Ok(cfg)
                    && final(self).observers.all_reflect(cfg)),
                Err(e) => replay_spec(old(self).initial@, input@) == Err::<StateModel, MoveError>(e)
                    && final(self).observers == old(self).observers,
            },
    {
        match replay(&self.initial, input) {
            Ok(board) => {
                self.observers.final_board_all(&board);
                Ok(())
            },
            Err(e) => Err(e),
        }
    }
}

} // verus!
