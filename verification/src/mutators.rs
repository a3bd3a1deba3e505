//! Move generators: the two policies for proposing a child candidate from
//! a parent candidate.

use vstd::prelude::*;

use crate::board::{dir_matches, Direction, Orientation, State};
use crate::input::PGInput;
use crate::observers::{repeat_move, ViewFrom};

verus! {

/// Whether a mutator produced a child candidate.
#[derive(Clone, Copy, PartialEq, Eq, Structural, Debug)]
pub enum MutationResult {
    /// The input was changed.
    Mutated,
    /// No mutation was possible.
    Skipped,
}

/// The successor of a generator state: one linear congruential step.
pub open spec fn rng_next_state(s: u64) -> u64 {
    vstd::wrapping::u64_specs::wrapping_add(
        vstd::wrapping::u64_specs::wrapping_mul(s, 6364136223846793005),
        1442695040888963407,
    )
}

/// The raw draw a generator in state `s` produces next.
pub open spec fn rng_output(s: u64) -> u64 {
    rng_next_state(s) >> 17u64
}

/// The draw below `n` (`n >= 1`) a generator in state `s` produces next.
pub open spec fn spec_below(s: u64, n: int) -> int {
    rng_output(s) as int % n
}

/// The draw of at most `n` a generator in state `s` produces next.
pub open spec fn spec_at_most(s: u64, n: int) -> int {
    rng_output(s) as int % (n + 1)
}

/// A small deterministic pseudo-random number generator (a linear
/// congruential generator). Its draws are a pure function of its state,
/// so everything built on it is reproducible from the seed.
#[derive(Clone, Copy, Debug)]
pub struct Rng {
    state: u64,
}

impl Rng {
    /// The generator's current state.
    pub closed spec fn model(self) -> u64 {
        self.state
    }

    /// A generator starting from the given seed.
    pub fn new(seed: u64) -> (r: Rng)
        ensures
            r.model() == seed,
    {
        Rng { state: seed }
    }

    /// The next raw draw.
    pub fn next_u64(&mut self) -> (r: u64)
        ensures
            final(self).model() == rng_next_state(old(self).model()),
            r == rng_output(old(self).model()),
    {
        self.state = self.state.wrapping_mul(6364136223846793005).wrapping_add(
            1442695040888963407,
        );
        self.state >> 17
    }

    /// A draw strictly below `n`.
    pub fn below(&mut self, n: usize) -> (r: usize)
        requires
            n >= 1,
        ensures
            r < n,
            r == spec_below(old(self).model(), n as int),
            final(self).model() == rng_next_state(old(self).model()),
    {
        let x = self.next_u64();
        let r = (x as u128 % n as u128) as usize;
        proof {
            assert((x as u128 % n as u128) < (n as u128));
            assert(x as u128 % (n as u128) == (x as int) % (n as int));
        }
        r
    }

    /// A draw of at most `n`.
    pub fn at_most(&mut self, n: usize) -> (r: usize)
        ensures
            r <= n,
            r == spec_at_most(old(self).model(), n as int),
            final(self).model() == rng_next_state(old(self).model()),
    {
        let x = self.next_u64();
        let m = n as u128 + 1;
        let r = (x as u128 % m) as usize;
        proof {
            assert((x as u128 % m) < m);
            assert(x as u128 % m == (x as int) % (n as int + 1));
        }
        r
    }
}

/// What the unconstrained generator does: inserts, somewhere in the move
/// list, one move of a known car in a direction legal for its orientation.
pub open spec fn rand_insertion(
    count: int,
    orients: Seq<Orientation>,
    before: Seq<(usize, Direction)>,
    after: Seq<(usize, Direction)>,
    at: int,
    car: usize,
    d: Direction,
) -> bool {
    &&& 0 <= at <= before.len()
    &&& 1 <= car <= count
    &&& dir_matches(orients[car - 1], d)
    &&& after == before.insert(at, (car, d))
}

/// The child the unconstrained generator derives from `moves`, and the
/// generator state it leaves behind: a car, a position and a legal
/// direction are drawn in that order, and the move inserted.
pub open spec fn rand_child(
    count: int,
    orients: Seq<Orientation>,
    moves: Seq<(usize, Direction)>,
    s0: u64,
) -> (Seq<(usize, Direction)>, u64) {
    let car = spec_below(s0, count) + 1;
    let s1 = rng_next_state(s0);
    let at = spec_at_most(s1, moves.len() as int);
    let s2 = rng_next_state(s1);
    let side = spec_below(s2, 2);
    let s3 = rng_next_state(s2);
    let d = match orients[car - 1] {
        Orientation::LeftRight => if side == 0 {
            Direction::Left
        } else {
            Direction::Right
        },
        Orientation::UpDown => if side == 0 {
            Direction::Up
        } else {
            Direction::Down
        },
    };
    (moves.insert(at, (car as usize, d)), s3)
}

/// Randomly mutate the moves -- at any point in the list, with any car and
/// either direction legal for its orientation. Weakness: the inserted move
/// knows nothing of the configuration actually reached there, so many
/// children fail during replay, and an insertion in the middle invalidates
/// every snapshot of the parent's suffix.
pub struct PGRandMutator {
    /// How many cars the initial configuration holds.
    pub count: usize,
    /// Each car's orientation, car `i` at slot `i - 1`.
    pub orientations: Vec<Orientation>,
}

impl PGRandMutator {
    /// Construct a mutator for the given state.
    pub fn new(state: &State) -> (r: Self)
        ensures
            r.count == state@.cars.len(),
            r.orientations@.len() == state@.cars.len(),
            forall|i: int|
                0 <= i < state@.cars.len() ==> #[trigger] r.orientations@[i]
                    == state@.cars[i].1.orientation,
    {
        let cars = state.cars();
        let mut orientations: Vec<Orientation> = Vec::new();
        let mut k: usize = 0;
        while k < cars.len()
            invariant
                k <= cars.len(),
                cars@ == state@.cars,
                orientations@.len() == k,
                forall|i: int|
                    0 <= i < k ==> #[trigger] orientations@[i] == state@.cars[i].1.orientation,
            decreases cars.len() - k,
        {
            orientations.push(cars[k].1.orientation);
            k += 1;
        }
        PGRandMutator { count: cars.len(), orientations }
    }

    /// Inserts one random, orientation-legal move at a random position.
    /// The move may still fail during replay; the board model catches that
    /// and the search reports an execution failure, not a crash.
    pub fn mutate(&mut self, rng: &mut Rng, input: &mut PGInput) -> (r: MutationResult)
        requires
            old(self).count >= 1,
            old(self).orientations@.len() == old(self).count,
        ensures
            *final(self) == *old(self),
            r == MutationResult::Mutated,
            exists|at: int, car: usize, d: Direction|
                #[trigger] rand_insertion(
                    old(self).count as int,
                    old(self).orientations@,
                    old(input)@,
                    final(input)@,
                    at,
                    car,
                    d,
                ),
            ({
                let (child, s2) = rand_child(
                    old(self).count as int,
                    old(self).orientations@,
                    old(input)@,
                    old(rng).model(),
                );
                final(input)@ == child && final(rng).model() == s2
            }),
    {
        let car = rng.below(self.count) + 1;
        let at = rng.at_most(input.len());
        let o = self.orientations[car - 1];
        let side = rng.below(2);
        let d = match o {
            Orientation::LeftRight => if side == 0 {
                Direction::Left
            } else {
                Direction::Right
            },
            Orientation::UpDown => if side == 0 {
                Direction::Up
            } else {
                Direction::Down
            },
        };
        input.insert_move(at, (car, d));
        proof {
            assert(rand_insertion(
                self.count as int,
                self.orientations@,
                old(input)@,
                input@,
                at as int,
                car,
                d,
            ));
        }
        MutationResult::Mutated
    }
}

/// What the view-guided generator does: appends `steps` consecutive moves
/// of one car in one direction that some view reports reachable, with
/// `1 <= steps <= distance`.
pub open spec fn tail_extension(
    views: Seq<ViewFrom>,
    before: Seq<(usize, Direction)>,
    after: Seq<(usize, Direction)>,
    car: usize,
    d: Direction,
    steps: int,
) -> bool {
    &&& 1 <= car <= views.len()
    &&& 1 <= steps
    &&& ((d == views[car - 1].backward.direction && steps <= views[car - 1].backward.distance) || (
    d == views[car - 1].forward.direction && steps <= views[car - 1].forward.distance))
    &&& after == before + repeat_move(car, d, steps)
}

/// The choice list the view-guided generator draws from: for each car in
/// index order, its backward view then its forward view, kept when the
/// distance is positive.
pub open spec fn tail_choices(views: Seq<ViewFrom>) -> Seq<(usize, Direction, u8)>
    decreases views.len(),
{
    if views.len() == 0 {
        Seq::<(usize, Direction, u8)>::empty()
    } else {
        let pre = tail_choices(views.drop_last());
        let vf = views.last();
        let i = views.len() - 1;
        pre + (if vf.backward.distance >= 1 {
            seq![((i + 1) as usize, vf.backward.direction, vf.backward.distance)]
        } else {
            Seq::<(usize, Direction, u8)>::empty()
        }) + (if vf.forward.distance >= 1 {
            seq![((i + 1) as usize, vf.forward.direction, vf.forward.distance)]
        } else {
            Seq::<(usize, Direction, u8)>::empty()
        })
    }
}

/// What the view-guided generator does to the input and the generator:
/// the result reported, the child's moves and the generator state left
/// behind. With no choice at all the input and the generator are
/// untouched; otherwise a choice and a step count are drawn in that order
/// and that many moves appended.
pub open spec fn tail_child(
    views: Seq<ViewFrom>,
    moves: Seq<(usize, Direction)>,
    s0: u64,
) -> (MutationResult, Seq<(usize, Direction)>, u64) {
    let cs = tail_choices(views);
    if cs.len() == 0 {
        (MutationResult::Skipped, moves, s0)
    } else {
        let (car, d, dist) = cs[spec_below(s0, cs.len() as int)];
        let s1 = rng_next_state(s0);
        let steps = spec_below(s1, dist as int) + 1;
        let s2 = rng_next_state(s1);
        (MutationResult::Mutated, moves + repeat_move(car, d, steps), s2)
    }
}

/// Mutator which appends only moves that the obstacle views of the
/// parent's resulting configuration prove legal, for one or more sliding
/// steps. Valid only together with fresh views of that configuration.
pub struct PGTailMutator {}

impl PGTailMutator {
    /// Create a new mutator for the provided state.
    pub fn new(_state: &State) -> (r: Self) {
        PGTailMutator {}
    }

    /// Chooses among all `(car, direction, step-count)` triples that the
    /// views allow and appends that many moves; reports `Skipped` when no
    /// view allows any slide.
    pub fn mutate(&mut self, rng: &mut Rng, views: &Vec<ViewFrom>, input: &mut PGInput) -> (r:
        MutationResult)
        ensures
            match r {
                MutationResult::Skipped => final(input)@ == old(input)@ && (forall|i: int|
                    0 <= i < views@.len() ==> (#[trigger] views@[i]).backward.distance == 0
                        && views@[i].forward.distance == 0),
                MutationResult::Mutated => exists|car: usize, d: Direction, steps: int|
                    #[trigger] tail_extension(views@, old(input)@, final(input)@, car, d, steps),
            },
            ({
                let (mr, child, s2) = tail_child(views@, old(input)@, old(rng).model());
                r == mr && final(input)@ == child && final(rng).model() == s2
            }),
    {
        let mut choices: Vec<(usize, Direction, u8)> = Vec::new();
        let mut k: usize = 0;
        proof {
            assert(views@.take(0) =~= Seq::<ViewFrom>::empty());
            assert(choices@ =~= tail_choices(views@.take(0)));
        }
        while k < views.len()
            invariant
                k <= views@.len(),
                choices@ == tail_choices(views@.take(k as int)),
                choices@.len() == 0 ==> forall|i: int|
                    0 <= i < k ==> (#[trigger] views@[i]).backward.distance == 0
                        && views@[i].forward.distance == 0,
                forall|q: int|
                    0 <= q < choices@.len() ==> {
                        let (car, d, dist) = #[trigger] choices@[q];
                        &&& 1 <= car <= views@.len()
                        &&& dist >= 1
                        &&& ((d == views@[car - 1].backward.direction && dist <= views@[car
                            - 1].backward.distance) || (d == views@[car - 1].forward.direction
                            && dist <= views@[car - 1].forward.distance))
                    },
            decreases views@.len() - k,
        {
            let ghost pre = choices@;
            let vf = views[k];
            if vf.backward.distance > 0 {
                choices.push((k + 1, vf.backward.direction, vf.backward.distance));
            }
            if vf.forward.distance > 0 {
                choices.push((k + 1, vf.forward.direction, vf.forward.distance));
            }
            proof {
                assert(views@.take(k + 1 as int).drop_last() =~= views@.take(k as int));
                assert(views@.take(k + 1 as int).last() == views@[k as int]);
                assert(choices@ =~= tail_choices(views@.take(k + 1 as int)));
            }
            k += 1;
        }
        proof {
            assert(views@.take(views@.len() as int) =~= views@);
        }
        if choices.len() == 0 {
            return MutationResult::Skipped;
        }
        let (car, d, dist) = choices[rng.below(choices.len())];
        let steps = rng.below(dist as usize) + 1;
        let ghost before = input@;
        let mut q: usize = 0;
        while q < steps
            invariant
                q <= steps,
                input@ == before + repeat_move(car, d, q as int),
            decreases steps - q,
        {
            input.push_move((car, d));
            proof {
                assert(input@ =~= before + repeat_move(car, d, q + 1 as int));
            }
            q += 1;
        }
        proof {
            assert(tail_extension(views@, before, input@, car, d, steps as int));
            assert(input@ == tail_child(views@, before, old(rng).model()).1);
        }
        MutationResult::Mutated
    }
}

} // verus!
