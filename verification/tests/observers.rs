//! Observer behaviour: obstacle views, final-state stashing and the
//! canonical fingerprint.

use parking_search::fingerprint::fingerprint;
use parking_search::observers::{
    FinalStateObserver, PGObserver, PGObserverTuple, View, ViewObserver,
};
use parking_search::{parse_map, Direction};

#[test]
fn simple_observation() {
    let initial = parse_map("33oo22.").unwrap();
    let mut observers = (ViewObserver::default(), ());

    observers.0.pre_exec();
    observers.final_board_all(&initial);

    assert_eq!(*observers.0.views()[0].backward(), View::new(Direction::Left, Some(3), 0));
    assert_eq!(*observers.0.views()[0].forward(), View::new(Direction::Right, Some(2), 0));

    let initial = parse_map("oo.").unwrap();

    observers.0.pre_exec();
    observers.final_board_all(&initial);

    assert_eq!(*observers.0.views()[0].backward(), View::new(Direction::Left, None, 0));
    assert_eq!(*observers.0.views()[0].forward(), View::new(Direction::Right, None, 1));

    let initial = parse_map(
        r#"
            3
            3
            o
            o
            2
            2
            .
            "#,
    )
    .unwrap();

    observers.0.pre_exec();
    observers.final_board_all(&initial);

    assert_eq!(*observers.0.views()[0].backward(), View::new(Direction::Up, Some(3), 0));
    assert_eq!(*observers.0.views()[0].forward(), View::new(Direction::Down, Some(2), 0));

    let initial = parse_map(
        r#"
            o
            o
            .
            "#,
    )
    .unwrap();

    observers.0.pre_exec();
    observers.final_board_all(&initial);

    assert_eq!(*observers.0.views()[0].backward(), View::new(Direction::Up, None, 0));
    assert_eq!(*observers.0.views()[0].forward(), View::new(Direction::Down, None, 1));
}

#[test]
fn distinguish_states() {
    let initial = parse_map("33oo22.").unwrap();
    let mut observers = (FinalStateObserver::default(), ());

    observers.0.pre_exec();
    observers.final_board_all(&initial);
    let first_hash = observers.0.hash().unwrap();

    // same as above, but 2 is shifted right
    let initial = parse_map("33oo.22").unwrap();

    observers.0.pre_exec();
    observers.final_board_all(&initial);
    let second_hash = observers.0.hash().unwrap();

    assert_ne!(first_hash, second_hash);
}

/// The views of every car are reported, objective car first.
#[test]
fn views_cover_every_car() {
    let initial = parse_map("33oo22.").unwrap();
    let mut vo = ViewObserver::default();
    vo.final_board(&initial);
    assert_eq!(vo.views().len(), 3);
    // car 2 ('2') can slide one cell right, car 3 ('3') not at all
    assert_eq!(*vo.views()[1].forward(), View::new(Direction::Right, None, 1));
    assert_eq!(*vo.views()[1].backward(), View::new(Direction::Left, Some(1), 0));
    assert_eq!(*vo.views()[2].forward(), View::new(Direction::Right, Some(1), 0));
    assert_eq!(*vo.views()[2].backward(), View::new(Direction::Left, None, 0));
}

/// A view's distance counts exactly the legal unit slides: that many
/// succeed and one more fails.
#[test]
fn view_distance_counts_moves() {
    let mut board = parse_map("oo...").unwrap();
    let mut vo = ViewObserver::default();
    vo.final_board(&board);
    let d = vo.views()[0].forward().distance();
    assert_eq!(d, 3);
    for _ in 0..d {
        assert!(board.apply_move(1, Direction::Right).is_ok());
    }
    assert!(board.apply_move(1, Direction::Right).is_err());
}

/// Fingerprints are deterministic and ignore move history: the same car
/// positions, reached along different move sequences, hash alike.
#[test]
fn fingerprint_deterministic() {
    let board = parse_map("oo..").unwrap();
    assert_eq!(fingerprint(&board), fingerprint(&board));

    let mut one = parse_map("oo..").unwrap();
    one.apply_move(1, Direction::Right).unwrap();

    let mut two = parse_map("oo..").unwrap();
    two.apply_move(1, Direction::Right).unwrap();
    two.apply_move(1, Direction::Right).unwrap();
    two.apply_move(1, Direction::Left).unwrap();

    assert_eq!(fingerprint(&one), fingerprint(&two));
    assert_ne!(fingerprint(&board), fingerprint(&one));
}

/// The exact 64-bit FNV-1a folds of known position sequences.
#[test]
fn fingerprint_expected_values() {
    let board = parse_map("oo.").unwrap();
    assert_eq!(fingerprint(&board), 0x8328807b4eb6fed);
    let mut board = parse_map("oo.").unwrap();
    board.apply_move(1, Direction::Right).unwrap();
    assert_eq!(fingerprint(&board), 0x8328707b4eb6e3a);
}

/// Flushing observers is idempotent and leaves later replays untouched.
#[test]
fn flush_idempotent() {
    let initial = parse_map("oo.").unwrap();
    let mut vo = ViewObserver::default();
    vo.final_board(&initial);
    vo.flush();
    assert_eq!(vo.views().len(), 0);
    vo.flush();
    assert_eq!(vo.views().len(), 0);

    let mut fso = FinalStateObserver::default();
    fso.final_board(&initial);
    fso.flush();
    assert!(fso.final_state().is_none());
    assert!(fso.hash().is_none());
    fso.flush();
    assert!(fso.final_state().is_none());

    // a replay after any number of flushes still gives the same result
    let mut board = parse_map("oo.").unwrap();
    assert!(board.apply_move(1, Direction::Right).is_ok());
    assert!(board.is_solved());
}

/// The mutable distance accessor writes through.
#[test]
fn distance_mut_writes() {
    let mut v = View::new(Direction::Right, None, 3);
    *v.distance_mut() = 5;
    assert_eq!(v.distance(), 5);
    assert_eq!(v.direction(), Direction::Right);
    assert_eq!(v.observed(), None);
}
