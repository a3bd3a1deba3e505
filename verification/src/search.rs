//! The corpus-driven search loop: a growing pool of distinct-fingerprint
//! candidates, repeatedly mutated and replayed, until some candidate
//! reaches the solved configuration.

use vstd::prelude::*;

use crate::board::{
    dir_matches, Car, ConfigurationError, Direction, MoveError, Orientation, Position, State,
    StateModel,
};
use crate::executor::{lemma_replay_shape, replay, replay_from, replay_spec};
use crate::fingerprint::{fingerprint, fingerprint_of, positions_of};
use crate::input::PGInput;
use crate::mutators::{
    rand_child, tail_child, tail_extension, MutationResult, PGRandMutator, PGTailMutator, Rng,
};
use crate::observers::{
    backward_of, lemma_view_slides, lemma_views_determined, repeat_move, view_ok, views_of,
    views_ok, PGObserver, ViewObserver,
};

verus! {

/// The move-generation strategy a search runs with: a small closed set of
/// tagged variants, selected once per run.
pub enum SearchMutator {
    /// Unconstrained random insertions anywhere in the move list.
    Rand(PGRandMutator),
    /// View-guided appends of provably legal slides.
    Tail(PGTailMutator),
}

/// Whether a fingerprint already stands in the seen-set.
fn seen_contains(v: &Vec<u64>, x: u64) -> (r: bool)
    ensures
        r == v@.contains(x),
{
    let mut k: usize = 0;
    while k < v.len()
        invariant
            k <= v.len(),
            forall|i: int| 0 <= i < k ==> v@[i] != x,
        decreases v.len() - k,
    {
        if v[k] == x {
            return true;
        }
        k += 1;
    }
    proof {
        assert(!v@.contains(x));
    }
    false
}

/// The abstract state of a search: everything one iteration reads or
/// writes, so the loop's behaviour is a function of this value.
#[verifier::ext_equal]
pub ghost struct SearchModel {
    /// The initial configuration explored from.
    pub initial: StateModel,
    /// Whether the view-guided generator runs (else the unconstrained one).
    pub guided: bool,
    /// The generator state of the pseudo-random source.
    pub rng: u64,
    /// The kept candidates, in insertion order.
    pub pool: Seq<Seq<(usize, Direction)>>,
    /// Each kept candidate's replayed configuration (the snapshot arena).
    pub snaps: Seq<StateModel>,
    /// Each kept candidate's fingerprint (the seen-set).
    pub seen: Seq<u64>,
    /// The queue cursor for first-in, first-out parent selection.
    pub cursor: usize,
    /// The solving candidate, once one was found.
    pub solution: Option<Seq<(usize, Direction)>>,
}

/// Each car's orientation, in index order.
pub open spec fn orients_of(s: StateModel) -> Seq<Orientation> {
    s.cars.map_values(|pc: (Position, Car)| pc.1.orientation)
}

/// The child the selected generator derives this iteration from the
/// queue-selected parent, whether it produced one, and the generator
/// state left behind.
pub open spec fn step_child(m: SearchModel) -> (MutationResult, Seq<(usize, Direction)>, u64) {
    let idx = (m.cursor as int) % (m.pool.len() as int);
    if m.guided {
        tail_child(views_of(m.snaps[idx]), m.pool[idx], m.rng)
    } else {
        let (c, r2) = rand_child(
            m.initial.cars.len() as int,
            orients_of(m.initial),
            m.pool[idx],
            m.rng,
        );
        (MutationResult::Mutated, c, r2)
    }
}

/// One iteration of the search loop as a function of the abstract state.
/// In the `Solved` state nothing changes. Otherwise the parent in queue
/// order is selected, the generator derives a child (advancing the
/// cursor, and the generator state where a draw was made), and the child
/// is replayed: a move failure discards it; a solved configuration
/// records it as the solution; a fingerprint never seen before appends
/// the child to the pool, its configuration to the snapshot arena and its
/// fingerprint to the seen-set; a seen fingerprint discards it.
pub open spec fn step_model(m: SearchModel) -> SearchModel {
    if m.solution is Some {
        m
    } else {
        let (mr, child, rng2) = step_child(m);
        let base = SearchModel {
            cursor: vstd::wrapping::usize_specs::wrapping_add(m.cursor, 1),
            rng: rng2,
            ..m
        };
        if mr is Skipped {
            base
        } else {
            match replay_spec(m.initial, child) {
                Err(_) => base,
                Ok(cfg) => if cfg.solved() {
                    SearchModel { solution: Some(child), ..base }
                } else if m.seen.contains(fingerprint_of(positions_of(cfg.cars))) {
                    base
                } else {
                    SearchModel {
                        pool: base.pool.push(child),
                        snaps: base.snaps.push(cfg),
                        seen: base.seen.push(fingerprint_of(positions_of(cfg.cars))),
                        ..base
                    }
                },
            }
        }
    }
}

/// The abstract state after at most `k` iterations: iterating stops as
/// soon as a solution is recorded.
pub open spec fn run_model(m: SearchModel, k: int) -> SearchModel
    decreases k,
{
    if k <= 0 {
        m
    } else {
        let p = run_model(m, k - 1);
        if p.solution is Some {
            p
        } else {
            step_model(p)
        }
    }
}

/// Once some prefix of the iterations reaches the `Solved` state, the
/// remaining iterations change nothing.
pub proof fn lemma_run_model_stable(m: SearchModel, k: int, j: int)
    requires
        0 <= k <= j,
        run_model(m, k).solution is Some,
    ensures
        run_model(m, j) == run_model(m, k),
    decreases j,
{
    if j > k {
        lemma_run_model_stable(m, k, j - 1);
    }
}

/// What "a sufficiently large iteration budget" can mean for a randomized
/// search: once any budget reaches the `Solved` state, every larger
/// budget reaches it with the same solution — enlarging the budget never
/// loses a solution. Whether some budget suffices on a given board and
/// seed is a property of the pseudo-random draws, checked by running.
pub proof fn lemma_larger_budget_keeps_solved(m: SearchModel, k: int, j: int)
    requires
        0 <= k <= j,
        run_model(m, k).solution is Some,
    ensures
        run_model(m, j).solution == run_model(m, k).solution,
{
    lemma_run_model_stable(m, k, j);
}

/// The search loop. It starts `Exploring` from the empty candidate and
/// becomes `Solved` (a found solution, the terminal success) when a
/// replayed child reaches the solved configuration; there is no failing
/// terminal state, only an exhausted iteration budget, which is an
/// inconclusive result owned by the caller.
///
/// The pool is consulted in queue (first-in, first-out) order. Every kept
/// candidate's resulting configuration is cached in an arena slot parallel
/// to the pool and keyed by its fingerprint, so a child that only appends
/// moves replays just its new suffix.
pub struct Search {
    initial: State,
    mutator: SearchMutator,
    rng: Rng,
    pool: Vec<PGInput>,
    snaps: Vec<State>,
    seen: Vec<u64>,
    cursor: usize,
    solution: Option<PGInput>,
}

impl View for Search {
    type V = SearchModel;

    closed spec fn view(&self) -> SearchModel {
        SearchModel {
            initial: self.initial@,
            guided: self.mutator is Tail,
            rng: self.rng.model(),
            pool: self.pool@.map_values(|c: PGInput| c@),
            snaps: self.snaps@.map_values(|b: State| b@),
            seen: self.seen@,
            cursor: self.cursor,
            solution: match self.solution {
                Some(ref c) => Some(c@),
                None => None,
            },
        }
    }
}

impl Search {
    /// The initial configuration the search explores from.
    pub open spec fn initial_model(self) -> StateModel {
        self@.initial
    }

    /// The solving candidate's moves, once one was found.
    pub open spec fn found(self) -> Option<Seq<(usize, Direction)>> {
        self@.solution
    }

    /// Internal consistency: the pool, the snapshot arena and the seen-set
    /// run in parallel; every snapshot is its candidate's replay result;
    /// every seen fingerprint is its snapshot's; fingerprints in the pool
    /// are pairwise distinct; the generator parameters belong to the
    /// initial board; and a recorded solution really solves.
    pub closed spec fn inv(self) -> bool {
        &&& self.initial@.wf()
        &&& self.initial@.cars.len() >= 1
        &&& self.pool@.len() >= 1
        &&& self.pool@.len() == self.snaps@.len()
        &&& self.pool@.len() == self.seen@.len()
        &&& forall|i: int|
            0 <= i < self.pool@.len() ==> replay_spec(self.initial@, (#[trigger] self.pool@[i])@)
                == Ok::<StateModel, MoveError>(self.snaps@[i]@)
        &&& forall|i: int| 0 <= i < self.snaps@.len() ==> (#[trigger] self.snaps@[i])@.wf()
        &&& forall|i: int|
            0 <= i < self.seen@.len() ==> (#[trigger] self.seen@[i]) == fingerprint_of(
                positions_of(self.snaps@[i]@.cars),
            )
        &&& forall|i: int, j: int|
            0 <= i < j < self.seen@.len() ==> #[trigger] self.seen@[i] != #[trigger] self.seen@[j]
        &&& match self.mutator {
            SearchMutator::Rand(ref m) => m.count == self.initial@.cars.len()
                && m.orientations@.len() == m.count && forall|i: int|
                0 <= i < m.count ==> #[trigger] m.orientations@[i]
                    == self.initial@.cars[i].1.orientation,
            SearchMutator::Tail(_) => true,
        }
        &&& match self.solution {
            Some(ref c) => replay_spec(self.initial@, c@) matches Ok(t) && t.solved(),
            None => true,
        }
    }

    /// Sets up a search over the given configuration: the pool seeded with
    /// the empty candidate, its snapshot and the initial fingerprint in
    /// place, the solution already recorded when the board starts solved.
    /// A board without cars is refused. `guided` selects the view-guided
    /// generator over the unconstrained one; `seed` starts the generator.
    pub fn new(initial: &State, guided: bool, seed: u64) -> (r: Result<Search, ConfigurationError>)
        requires
            initial@.wf(),
        ensures
            match r {
                Ok(s) => initial@.cars.len() >= 1 && s.inv() && s@ == (SearchModel {
                    initial: initial@,
                    guided: guided,
                    rng: seed,
                    pool: seq![Seq::<(usize, Direction)>::empty()],
                    snaps: seq![initial@],
                    seen: seq![fingerprint_of(positions_of(initial@.cars))],
                    cursor: 0,
                    solution: if initial@.solved() {
                        Some(Seq::<(usize, Direction)>::empty())
                    } else {
                        None
                    },
                }),
                Err(e) => initial@.cars.len() == 0 && e == ConfigurationError::ZeroCars,
            },
    {
        if initial.cars().len() == 0 {
            return Err(ConfigurationError::ZeroCars);
        }
        let snap = initial.clone();
        let fp = fingerprint(&snap);
        let no_moves: Vec<(usize, Direction)> = Vec::new();
        let empty = PGInput::new(no_moves);
        let solution = if initial.is_solved() {
            Some(empty.clone())
        } else {
            None
        };
        let mutator = if guided {
            SearchMutator::Tail(PGTailMutator::new(initial))
        } else {
            SearchMutator::Rand(PGRandMutator::new(initial))
        };
        let mut pool: Vec<PGInput> = Vec::new();
        let mut snaps: Vec<State> = Vec::new();
        let mut seen: Vec<u64> = Vec::new();
        proof {
            assert(empty@ =~= Seq::<(usize, Direction)>::empty());
            assert(replay_spec(initial@, empty@) == Ok::<StateModel, MoveError>(initial@));
        }
        pool.push(empty);
        snaps.push(snap);
        seen.push(fp);
        let s = Search {
            initial: initial.clone(),
            mutator,
            rng: Rng::new(seed),
            pool,
            snaps,
            seen,
            cursor: 0,
            solution,
        };
        proof {
            assert(s@.pool =~= seq![Seq::<(usize, Direction)>::empty()]);
            assert(s@.snaps =~= seq![initial@]);
            assert(s@.seen =~= seq![fingerprint_of(positions_of(initial@.cars))]);
            assert(s@ =~= SearchModel {
                initial: initial@,
                guided: guided,
                rng: seed,
                pool: seq![Seq::<(usize, Direction)>::empty()],
                snaps: seq![initial@],
                seen: seq![fingerprint_of(positions_of(initial@.cars))],
                cursor: 0,
                solution: if initial@.solved() {
                    Some(Seq::<(usize, Direction)>::empty())
                } else {
                    None
                },
            });
        }
        Ok(s)
    }

    /// Whether a solution has been recorded: the `Solved` terminal state.
    pub fn is_done(&self) -> (r: bool)
        ensures
            r == (self.found() is Some),
    {
        self.solution.is_some()
    }

    /// One iteration of the search loop, doing exactly what [`step_model`]
    /// says: select the next parent in queue order, derive a child
    /// through the run's generator, replay it (only its new suffix when
    /// the parent's moves are a preserved prefix), and keep it only when
    /// it reaches a fingerprint never seen before. Returns whether the
    /// search is in the `Solved` state.
    pub fn step(&mut self) -> (solved: bool)
        requires
            old(self).inv(),
        ensures
            final(self).inv(),
            final(self)@ == step_model(old(self)@),
            final(self).initial_model() == old(self).initial_model(),
            solved == (final(self).found() is Some),
    {
        let ghost m0 = old(self)@;
        if self.solution.is_some() {
            return true;
        }
        let n = self.pool.len();
        let idx = self.cursor % n;
        self.cursor = self.cursor.wrapping_add(1);
        let parent_len = self.pool[idx].len();
        let mut child = self.pool[idx].clone();
        let ghost parent_moves = child@;
        proof {
            assert(idx as int == (m0.cursor as int) % (m0.pool.len() as int));
            assert(parent_moves == m0.pool[idx as int]);
        }
        let replayed: Result<State, MoveError>;
        match &mut self.mutator {
            SearchMutator::Rand(m) => {
                m.mutate(&mut self.rng, &mut child);
                proof {
                    assert(m.orientations@ =~= orients_of(m0.initial));
                    assert(step_child(m0) == (
                        MutationResult::Mutated,
                        child@,
                        self.rng.model(),
                    ));
                }
                replayed = replay(&self.initial, &child);
            },
            SearchMutator::Tail(m) => {
                let mut vo = ViewObserver::default();
                vo.final_board(&self.snaps[idx]);
                proof {
                    lemma_views_determined(self.snaps@[idx as int]@, vo@);
                    assert(vo@ == views_of(m0.snaps[idx as int]));
                }
                let mr = m.mutate(&mut self.rng, vo.views(), &mut child);
                match mr {
                    MutationResult::Skipped => {
                        proof {
                            assert(step_child(m0).0 is Skipped);
                            assert(self@ =~= step_model(m0));
                        }
                        return false;
                    },
                    MutationResult::Mutated => {},
                }
                proof {
                    assert(step_child(m0) == (
                        MutationResult::Mutated,
                        child@,
                        self.rng.model(),
                    ));
                    let (car, d, steps) = choose|car: usize, d: Direction, steps: int|
                        tail_extension(vo@, parent_moves, child@, car, d, steps);
                    assert(child@.len() == parent_moves.len() + steps);
                    assert(child@.take(parent_len as int) =~= parent_moves);
                    // Every view-guided move is guaranteed legal: the view
                    // proves `steps` slides possible, so the suffix replay
                    // cannot fail.
                    let snap = self.snaps@[idx as int]@;
                    assert(views_ok(snap, vo@));
                    let vf = vo@[car - 1];
                    let back = backward_of(snap.cars[car - 1].1.orientation);
                    assert(view_ok(snap, car as int, back, vf.backward));
                    assert(view_ok(snap, car as int, back.spec_opposite(), vf.forward));
                    assert(snap.cars[car - 1] == snap.place(car as int));
                    let v = if d == vf.backward.direction {
                        vf.backward
                    } else {
                        vf.forward
                    };
                    assert(dir_matches(snap.place(car as int).1.orientation, d));
                    assert(view_ok(snap, car as int, d, v));
                    lemma_view_slides(snap, car, d, v, steps);
                    crate::executor::lemma_replay_append(
                        self.initial@,
                        parent_moves,
                        repeat_move(car, d, steps),
                    );
                    assert(parent_moves + repeat_move(car, d, steps) =~= child@);
                    assert(replay_spec(self.initial@, child@) is Ok);
                }
                replayed = replay_from(&self.snaps[idx], &child, parent_len, Ghost(self.initial@));
            },
        }
        let board = match replayed {
            Ok(b) => b,
            Err(_) => {
                proof {
                    assert(self@ =~= step_model(m0));
                }
                return false;
            },
        };
        proof {
            lemma_replay_shape(self.initial@, child@);
        }
        if board.is_solved() {
            self.solution = Some(child);
            proof {
                assert(self@ =~= step_model(m0));
            }
            return true;
        }
        let fp = fingerprint(&board);
        if !seen_contains(&self.seen, fp) {
            self.pool.push(child);
            self.snaps.push(board);
            self.seen.push(fp);
            proof {
                let m = self.pool@.len() - 1;
                assert forall|i: int, j: int| 0 <= i < j < self.seen@.len() implies #[trigger] self
                    .seen@[i] != #[trigger] self.seen@[j] by {
                    if j == m && self.seen@[i] == fp {
                        assert(old(self).seen@[i] == fp);
                        assert(old(self).seen@.contains(fp));
                    }
                }
                assert(self@.pool =~= step_model(m0).pool);
                assert(self@.snaps =~= step_model(m0).snaps);
                assert(self@ =~= step_model(m0));
            }
        } else {
            proof {
                assert(self@ =~= step_model(m0));
            }
        }
        false
    }

    /// Restores a previously produced candidate into the pool and its
    /// fingerprint into the seen-set, for a caller that persists a corpus
    /// across runs. The candidate is replayed and kept under exactly the
    /// rules of a freshly generated child: dropped on a move failure,
    /// recorded as the solution when it solves, appended to the pool, the
    /// snapshot arena and the seen-set when its fingerprint is new, and
    /// dropped when it was already seen. Returns whether it was kept.
    pub fn restore(&mut self, candidate: &PGInput) -> (kept: bool)
        requires
            old(self).inv(),
        ensures
            final(self).inv(),
            ({
                let m0 = old(self)@;
                match replay_spec(m0.initial, candidate@) {
                    Err(_) => !kept && final(self)@ == m0,
                    Ok(cfg) => {
                        let fp = fingerprint_of(positions_of(cfg.cars));
                        if cfg.solved() {
                            kept && final(self)@ == (SearchModel {
                                solution: Some(candidate@),
                                ..m0
                            })
                        } else if m0.seen.contains(fp) {
                            !kept && final(self)@ == m0
                        } else {
                            kept && final(self)@ == (SearchModel {
                                pool: m0.pool.push(candidate@),
                                snaps: m0.snaps.push(cfg),
                                seen: m0.seen.push(fp),
                                ..m0
                            })
                        }
                    },
                }
            }),
    {
        let ghost m0 = old(self)@;
        let board = match replay(&self.initial, candidate) {
            Ok(b) => b,
            Err(_) => {
                return false;
            },
        };
        proof {
            lemma_replay_shape(self.initial@, candidate@);
        }
        if board.is_solved() {
            self.solution = Some(candidate.clone());
            proof {
                assert(self@ =~= SearchModel { solution: Some(candidate@), ..m0 });
            }
            return true;
        }
        let fp = fingerprint(&board);
        if seen_contains(&self.seen, fp) {
            return false;
        }
        self.pool.push(candidate.clone());
        self.snaps.push(board);
        self.seen.push(fp);
        proof {
            let m = self.pool@.len() - 1;
            assert forall|i: int, j: int| 0 <= i < j < self.seen@.len() implies #[trigger] self
                .seen@[i] != #[trigger] self.seen@[j] by {
                if j == m && self.seen@[i] == fp {
                    assert(old(self).seen@[i] == fp);
                    assert(old(self).seen@.contains(fp));
                }
            }
            assert(self@.pool =~= m0.pool.push(candidate@));
            assert(self@.snaps =~= m0.snaps.push(board@));
            assert(self@ =~= SearchModel {
                pool: m0.pool.push(candidate@),
                snaps: m0.snaps.push(board@),
                seen: m0.seen.push(fp),
                ..m0
            });
        }
        true
    }

    /// Drives the loop, stopping early in the `Solved` state: the final
    /// state is exactly what `budget` iterations of [`step_model`]
    /// produce, and the solving candidate is returned if one was found —
    /// its replay from the initial configuration reaches the solved
    /// configuration. Returning nothing means the full budget of
    /// iterations was spent without reaching `Solved`: an inconclusive
    /// outcome, not an error.
    pub fn run(&mut self, budget: usize) -> (r: Option<PGInput>)
        requires
            old(self).inv(),
        ensures
            final(self).inv(),
            final(self)@ == run_model(old(self)@, budget as int),
            final(self).initial_model() == old(self).initial_model(),
            match r {
                Some(c) => final(self).found() == Some(c@) && (replay_spec(
                    final(self).initial_model(),
                    c@,
                ) matches Ok(t)
                    && t.solved()),
                None => final(self).found() is None,
            },
    {
        let ghost m0 = old(self)@;
        let mut it: usize = 0;
        let mut done = self.is_done();
        while it < budget && !done
            invariant
                self.inv(),
                it <= budget,
                self@ == run_model(m0, it as int),
                self@.initial == m0.initial,
                done == (self@.solution is Some),
            decreases budget - it,
        {
            done = self.step();
            it += 1;
        }
        proof {
            if done {
                lemma_run_model_stable(m0, it as int, budget as int);
            }
        }
        match self.solution {
            Some(ref c) => Some(c.clone()),
            None => None,
        }
    }
}

} // verus!
