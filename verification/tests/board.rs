//! Board model scenarios: moves, their failures, and map parsing errors.

use parking_search::{parse_map, ConfigurationError, Direction, MoveError, Orientation};

/// A 1x3 grid with the objective car at columns 0-1: sliding right
/// succeeds, the car then covers columns 1-2, and the board is solved.
#[test]
fn slide_right_solves() {
    let mut board = parse_map("oo.").unwrap();
    assert!(!board.is_solved());
    assert!(board.apply_move(1, Direction::Right).is_ok());
    let cars = board.cars();
    assert_eq!(cars.len(), 1);
    assert_eq!(cars[0].0.row(), 0);
    assert_eq!(cars[0].0.column(), 1);
    assert_eq!(cars[0].1.length(), 2);
    assert_eq!(cars[0].1.orientation(), Orientation::LeftRight);
    assert!(board.is_solved());
}

/// Sliding the LeftRight objective car down is illegal: the move fails
/// with `OutOfBounds` and the board is unchanged.
#[test]
fn slide_across_orientation_fails() {
    let mut board = parse_map("oo.").unwrap();
    let r = board.apply_move(1, Direction::Down);
    assert_eq!(r, Err(MoveError::OutOfBounds));
    let cars = board.cars();
    assert_eq!(cars[0].0.row(), 0);
    assert_eq!(cars[0].0.column(), 0);
    assert!(!board.is_solved());
}

/// Sliding into another car reports a collision naming the blocker.
#[test]
fn slide_into_car_collides() {
    let mut board = parse_map("oo22.").unwrap();
    let r = board.apply_move(1, Direction::Right);
    assert_eq!(r, Err(MoveError::Collision(2)));
    assert_eq!(board.cars()[0].0.column(), 0);
}

/// A legal move followed by its exact opposite restores the original
/// configuration.
#[test]
fn move_then_opposite_restores() {
    let mut board = parse_map("oo..").unwrap();
    let before: Vec<(u8, u8)> = board
        .cars()
        .iter()
        .map(|(p, _)| (p.row(), p.column()))
        .collect();
    assert!(board.apply_move(1, Direction::Right).is_ok());
    assert!(board.apply_move(1, Direction::Right.opposite()).is_ok());
    let after: Vec<(u8, u8)> = board
        .cars()
        .iter()
        .map(|(p, _)| (p.row(), p.column()))
        .collect();
    assert_eq!(before, after);
}

/// An unknown car index is rejected without touching the board.
#[test]
fn unknown_car_rejected() {
    let mut board = parse_map("oo.").unwrap();
    assert_eq!(board.apply_move(7, Direction::Right), Err(MoveError::OutOfBounds));
    assert_eq!(board.apply_move(0, Direction::Right), Err(MoveError::OutOfBounds));
}

/// Sliding off the grid edge is out of bounds.
#[test]
fn slide_off_edge_fails() {
    let mut board = parse_map("oo.").unwrap();
    assert_eq!(board.apply_move(1, Direction::Left), Err(MoveError::OutOfBounds));
}

#[test]
fn empty_map_rejected() {
    assert_eq!(parse_map("").unwrap_err(), ConfigurationError::EmptyBoard);
    assert_eq!(parse_map("  \n  \n").unwrap_err(), ConfigurationError::EmptyBoard);
}

#[test]
fn ragged_map_rejected() {
    assert_eq!(parse_map("oo.\n.2").unwrap_err(), ConfigurationError::RaggedRows);
}

#[test]
fn oversized_map_rejected() {
    let wide = "o".repeat(2) + &".".repeat(300);
    assert_eq!(parse_map(&wide).unwrap_err(), ConfigurationError::TooLarge);
}

#[test]
fn map_without_objective_rejected() {
    assert_eq!(parse_map("22.").unwrap_err(), ConfigurationError::NoObjective);
}

#[test]
fn scattered_label_rejected() {
    assert_eq!(parse_map("o.o").unwrap_err(), ConfigurationError::BadCarShape);
    assert_eq!(parse_map("oo.\n.33\n3..").unwrap_err(), ConfigurationError::BadCarShape);
}

/// Indented multi-line literals parse like their trimmed rows.
#[test]
fn indented_map_parses() {
    let board = parse_map(
        r#"
        oo.
        .22
        "#,
    )
    .unwrap();
    assert_eq!(board.rows(), 2);
    assert_eq!(board.cols(), 3);
    assert_eq!(board.cars().len(), 2);
    assert_eq!(board.get(0, 0), Some(1));
    assert_eq!(board.get(0, 2), None);
    assert_eq!(board.get(1, 1), Some(2));
}
