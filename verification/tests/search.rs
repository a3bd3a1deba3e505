//! The search loop and the move generators.

use parking_search::executor::replay;
use parking_search::mutators::{MutationResult, PGRandMutator, PGTailMutator, Rng};
use parking_search::observers::{PGObserver, ViewObserver};
use parking_search::search::Search;
use parking_search::{parse_map, ConfigurationError, Direction, PGInput, State};

/// The search solves a one-move puzzle with the unconstrained generator
/// and returns a candidate whose replay really solves the board.
#[test]
fn search_solves_with_rand_generator() {
    let initial = parse_map("oo.").unwrap();
    let mut search = Search::new(&initial, false, 7).unwrap();
    let solution = search.run(100_000).expect("a one-move puzzle must be solved");
    assert!(solution.len() >= 1);
    let reached = replay(&initial, &solution).unwrap();
    assert!(reached.is_solved());
    assert!(search.is_done());
}

/// The same, with the view-guided generator and a two-row map.
#[test]
fn search_solves_with_tail_generator() {
    let initial = parse_map(
        r#"
        oo.
        .22
        "#,
    )
    .unwrap();
    let mut search = Search::new(&initial, true, 11).unwrap();
    let solution = search.run(100_000).expect("a one-move puzzle must be solved");
    assert!(solution.len() >= 1);
    let reached = replay(&initial, &solution).unwrap();
    assert!(reached.is_solved());
}

/// An exhausted budget is an inconclusive result, not an error.
#[test]
fn search_budget_exhausted() {
    // the objective car is fully walled in: no solution can be found
    let initial = parse_map("33oo22\n......").unwrap();
    let mut search = Search::new(&initial, true, 3).unwrap();
    assert!(search.run(50).is_none());
    assert!(!search.is_done());
}

/// A board without cars is a configuration error.
#[test]
fn search_refuses_empty_board() {
    let empty = State::empty(3, 3).unwrap();
    match Search::new(&empty, false, 1) {
        Err(e) => assert_eq!(e, ConfigurationError::ZeroCars),
        Ok(_) => panic!("a car-less board must be refused"),
    }
}

/// The unconstrained mutator always inserts exactly one move.
#[test]
fn rand_mutator_inserts_one_move() {
    let initial = parse_map("33oo22.").unwrap();
    let mut m = PGRandMutator::new(&initial);
    assert_eq!(m.count, 3);
    let mut rng = Rng::new(42);
    let mut input = PGInput::new(vec![]);
    for expected in 1..=20usize {
        let r = m.mutate(&mut rng, &mut input);
        assert_eq!(r, MutationResult::Mutated);
        assert_eq!(input.len(), expected);
    }
    // every inserted move names a known car
    for (car, _) in input.moves().iter() {
        assert!(*car >= 1 && *car <= 3);
    }
}

/// The view-guided mutator appends only moves the views allow, and skips
/// when nothing can slide.
#[test]
fn tail_mutator_follows_views() {
    let open_board = parse_map("oo...").unwrap();
    let mut vo = ViewObserver::default();
    vo.final_board(&open_board);
    let mut m = PGTailMutator::new(&open_board);
    let mut rng = Rng::new(5);
    let mut input = PGInput::new(vec![]);
    let r = m.mutate(&mut rng, vo.views(), &mut input);
    assert_eq!(r, MutationResult::Mutated);
    assert!(input.len() >= 1 && input.len() <= 3);
    // every appended move is the same legal slide, so replay succeeds
    assert!(replay(&open_board, &input).is_ok());

    // a fully blocked board offers no choice at all
    let walled = parse_map("33oo22").unwrap();
    let mut vo2 = ViewObserver::default();
    vo2.final_board(&walled);
    let mut input2 = PGInput::new(vec![]);
    let r2 = m.mutate(&mut rng, vo2.views(), &mut input2);
    assert_eq!(r2, MutationResult::Skipped);
    assert_eq!(input2.len(), 0);
}

/// Draws stay within the asked range.
#[test]
fn rng_draws_in_range() {
    let mut rng = Rng::new(123);
    for _ in 0..200 {
        assert!(rng.below(7) < 7);
        assert!(rng.at_most(3) <= 3);
    }
}

/// The search is a pure function of board, strategy and seed: two runs
/// with the same seed find the same solution.
#[test]
fn search_deterministic_per_seed() {
    let initial = parse_map("oo.\n.22").unwrap();
    let mut one = Search::new(&initial, true, 99).unwrap();
    let mut two = Search::new(&initial, true, 99).unwrap();
    let first = one.run(10_000).unwrap();
    let second = two.run(10_000).unwrap();
    assert_eq!(first.moves().as_slice(), second.moves().as_slice());
}

/// Restored candidates re-enter the pool under the usual rules: novel
/// ones are kept, duplicates and failing ones dropped, solving ones end
/// the search.
#[test]
fn restore_candidates() {
    let initial = parse_map("oo..").unwrap();
    let mut search = Search::new(&initial, true, 2).unwrap();
    let step_right = PGInput::new(vec![(1, Direction::Right)]);
    assert!(search.restore(&step_right));
    // the same configuration again: already seen
    assert!(!search.restore(&step_right));
    // a failing candidate is dropped
    assert!(!search.restore(&PGInput::new(vec![(1, Direction::Left)])));
    // a solving candidate ends the search
    let solving = PGInput::new(vec![(1, Direction::Right), (1, Direction::Right)]);
    assert!(search.restore(&solving));
    assert!(search.is_done());
}

/// An already-solved board is reported solved at once, with the empty
/// candidate as its solution.
#[test]
fn search_on_solved_board() {
    let initial = parse_map(".oo").unwrap();
    assert!(initial.is_solved());
    let mut search = Search::new(&initial, false, 1).unwrap();
    assert!(search.is_done());
    let solution = search.run(10).unwrap();
    assert_eq!(solution.len(), 0);
}
