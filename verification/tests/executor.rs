//! Executor behaviour: replaying candidates and notifying observers.

use parking_search::executor::{replay, PGExecutor};
use parking_search::observers::FinalStateObserver;
use parking_search::{parse_map, Direction, MoveError, PGInput};

#[test]
fn simple_run_check() {
    let initial = parse_map(
        r#"
        oo.
        .22
        "#,
    )
    .unwrap();
    let mut executor = PGExecutor::new(initial, (FinalStateObserver::default(), ()));

    let first = PGInput::new(vec![(1, Direction::Right)]);
    executor.observers.0.pre_exec();
    let kind = executor.run_target(&first);

    assert!(kind.is_ok());
    assert_eq!(
        1,
        executor.observers.0.final_state().unwrap().cars()[0]
            .0
            .column()
    );

    let second = PGInput::new(vec![(1, Direction::Down)]);
    executor.observers.0.pre_exec();
    let kind = executor.run_target(&second);

    assert!(kind.is_err());
    assert!(executor.observers.0.final_state().is_none());
}

/// A full replay applies the moves in order and stops at the first
/// illegal one, leaving the initial configuration untouched.
#[test]
fn replay_stops_at_first_failure() {
    let initial = parse_map("oo...").unwrap();
    let good = PGInput::new(vec![(1, Direction::Right), (1, Direction::Right)]);
    let reached = replay(&initial, &good).unwrap();
    assert_eq!(reached.cars()[0].0.column(), 2);
    // the initial configuration is untouched
    assert_eq!(initial.cars()[0].0.column(), 0);

    let bad = PGInput::new(vec![
        (1, Direction::Right),
        (1, Direction::Up),
        (1, Direction::Right),
    ]);
    assert_eq!(replay(&initial, &bad).unwrap_err(), MoveError::OutOfBounds);
}

/// The empty candidate reaches the initial configuration itself.
#[test]
fn replay_empty_candidate() {
    let initial = parse_map("oo.").unwrap();
    let reached = replay(&initial, &PGInput::new(vec![])).unwrap();
    assert_eq!(reached.cars()[0].0.column(), 0);
    assert_eq!(reached.rows(), initial.rows());
    assert_eq!(reached.cols(), initial.cols());
}

/// Candidates expose their moves unchanged.
#[test]
fn input_holds_moves() {
    let mut input = PGInput::new(vec![(1, Direction::Right)]);
    assert_eq!(input.len(), 1);
    input.push_move((1, Direction::Left));
    input.insert_move(0, (2, Direction::Up));
    assert_eq!(
        input.moves().as_slice(),
        &[(2, Direction::Up), (1, Direction::Right), (1, Direction::Left)]
    );
}
