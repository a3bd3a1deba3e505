//! Observers that collect data from executions: the per-car obstacle views
//! and the final board state with its fingerprint.

use vstd::prelude::*;
// This module's own `View` struct shadows vstd's `View` trait; keep the
// trait in scope under another name so `@` still resolves.
use vstd::view::View as VstdView;

use crate::board::{
    dir_matches, lemma_move_preserves_wf, move_applied, move_legal, place_covers, place_in_bounds,
    shifted_pos, target_cell, Direction, MoveError, Orientation, State, StateModel,
};
use crate::executor::replay_spec;
use crate::fingerprint::{fingerprint, fingerprint_of, positions_of};

verus! {

/// View from a car in a potential direction of travel: how many cells the
/// car may slide that way before colliding, and with what.
#[derive(Debug, Copy, Clone)]
pub struct View {
    /// The direction of this view.
    pub direction: Direction,
    /// The car observed in this view, or `None` when the closest thing is a
    /// wall.
    pub observed: Option<usize>,
    /// How many moves the car can make before colliding with the obstacle.
    pub distance: u8,
}

impl View {
    /// Create a new view in the given direction.
    pub fn new(direction: Direction, observed: Option<usize>, distance: u8) -> (r: View)
        ensures
            r == (View { direction, observed, distance }),
    {
        View { direction, observed, distance }
    }

    /// The direction of this view.
    pub fn direction(&self) -> (r: Direction)
        ensures
            r == self.direction,
    {
        self.direction
    }

    /// The car observed in this view, or `None` if the closest thing is a
    /// wall.
    pub fn observed(&self) -> (r: Option<usize>)
        ensures
            r == self.observed,
    {
        self.observed
    }

    /// The distance from us to the obstacle (in terms of how many moves we
    /// can make before colliding with it).
    pub fn distance(&self) -> (r: u8)
        ensures
            r == self.distance,
    {
        self.distance
    }

    /// The distance, but mutable.
    pub fn distance_mut(&mut self) -> (r: &mut u8)
        ensures
            *r == old(self).distance,
            final(self).distance == *final(r),
            final(self).direction == old(self).direction,
            final(self).observed == old(self).observed,
    {
        &mut self.distance
    }
}

impl PartialEq for View {
    fn eq(&self, other: &View) -> (r: bool)
    {
        self.direction == other.direction && self.distance == other.distance && match (
            self.observed,
            other.observed,
        ) {
            (None, None) => true,
            (Some(a), Some(b)) => a == b,
            _ => false,
        }
    }
}

impl vstd::std_specs::cmp::PartialEqSpecImpl for View {
    open spec fn obeys_eq_spec() -> bool {
        true
    }

    open spec fn eq_spec(&self, other: &View) -> bool {
        self.direction == other.direction && self.distance == other.distance && self.observed
            == other.observed
    }
}

impl Eq for View {

}

/// The view from a car, backward and forward along its orientation.
#[derive(Debug, Copy, Clone)]
pub struct ViewFrom {
    /// The view behind the car: `Left` for a `LeftRight` car, `Up` for an
    /// `UpDown` car.
    pub backward: View,
    /// The view ahead of the car: `Right` for a `LeftRight` car, `Down` for
    /// an `UpDown` car.
    pub forward: View,
}

impl ViewFrom {
    /// The view behind the car.
    pub fn backward(&self) -> (r: &View)
        ensures
            *r == self.backward,
    {
        &self.backward
    }

    /// The view ahead of the car.
    pub fn forward(&self) -> (r: &View)
        ensures
            *r == self.forward,
    {
        &self.forward
    }
}

/// The backward direction of travel for an orientation.
pub open spec fn backward_of(o: Orientation) -> Direction {
    match o {
        Orientation::LeftRight => Direction::Left,
        Orientation::UpDown => Direction::Up,
    }
}

/// The cell `k` steps beyond car `i`'s boundary in direction `d`: beyond
/// its trailing edge for `Up`/`Left`, beyond its leading edge for
/// `Down`/`Right`. The coordinates may be off-grid or negative.
pub open spec fn probe_cell(s: StateModel, i: int, d: Direction, k: int) -> (int, int) {
    let (p, car) = s.place(i);
    match d {
        Direction::Up => (p.row - k, p.col as int),
        Direction::Down => (p.row + car.length - 1 + k, p.col as int),
        Direction::Left => (p.row as int, p.col - k),
        Direction::Right => (p.row as int, p.col + car.length - 1 + k),
    }
}

/// What a correct view of car `i` in direction `d` reports: `distance`
/// empty grid cells beyond the car's boundary, followed by either the grid
/// edge (`observed` empty) or a cell of another car (`observed` that car).
pub open spec fn view_ok(s: StateModel, i: int, d: Direction, v: View) -> bool {
    &&& v.direction == d
    &&& forall|k: int|
        #![trigger probe_cell(s, i, d, k)]
        1 <= k <= v.distance ==> s.cell_free(probe_cell(s, i, d, k).0, probe_cell(s, i, d, k).1)
    &&& match v.observed {
        None => !s.on_grid(
            probe_cell(s, i, d, v.distance + 1).0,
            probe_cell(s, i, d, v.distance + 1).1,
        ),
        Some(j) => s.occupies(
            j as int,
            probe_cell(s, i, d, v.distance + 1).0,
            probe_cell(s, i, d, v.distance + 1).1,
        ) && j != i,
    }
}

/// Walks outward from the car's boundary in the given direction and
/// returns the number of empty cells passed and the first obstacle seen:
/// another car, or the grid edge.
pub fn step_until_seen(s: &State, car: usize, d: Direction) -> (v: View)
    requires
        s@.wf(),
        s@.valid_index(car as int),
        dir_matches(s@.place(car as int).1.orientation, d),
    ensures
        view_ok(s@, car as int, d, v),
{
    let (p, cr) = s.cars()[car - 1];
    let (er, ec): (i32, i32) = match d {
        Direction::Up => (p.row as i32, p.col as i32),
        Direction::Down => (p.row as i32 + cr.length as i32 - 1, p.col as i32),
        Direction::Left => (p.row as i32, p.col as i32),
        Direction::Right => (p.row as i32, p.col as i32 + cr.length as i32 - 1),
    };
    let (dr, dc): (i32, i32) = match d {
        Direction::Up => (-1, 0),
        Direction::Down => (1, 0),
        Direction::Left => (0, -1),
        Direction::Right => (0, 1),
    };
    proof {
        assert(s@.cars[car as int - 1] == (p, cr));
    }
    let mut distance: u8 = 0;
    let mut pr: i32 = er + dr;
    let mut pc: i32 = ec + dc;
    loop
        invariant
            s@.wf(),
            s@.valid_index(car as int),
            dir_matches(s@.place(car as int).1.orientation, d),
            (p, cr) == s@.place(car as int),
            -1 <= dr <= 1,
            -1 <= dc <= 1,
            0 <= er < 255,
            0 <= ec < 255,
            distance <= 255,
            -1 <= pr <= 256,
            -1 <= pc <= 256,
            (pr as int, pc as int) == probe_cell(s@, car as int, d, distance + 1),
            forall|m: int|
                #![trigger probe_cell(s@, car as int, d, m)]
                1 <= m <= distance ==> s@.cell_free(
                    probe_cell(s@, car as int, d, m).0,
                    probe_cell(s@, car as int, d, m).1,
                ),
            (dr, dc) == (match d {
                Direction::Up => (-1i32, 0i32),
                Direction::Down => (1i32, 0i32),
                Direction::Left => (0i32, -1i32),
                Direction::Right => (0i32, 1i32),
            }),
        decreases 300 - distance,
    {
        if pr < 0 || pr >= s.rows() as i32 || pc < 0 || pc >= s.cols() as i32 {
            return View { direction: d, observed: None, distance };
        }
        match s.get(pr as u8, pc as u8) {
            Some(j) => {
                proof {
                    let pcell = probe_cell(s@, car as int, d, distance + 1);
                    assert(!place_covers(p, cr, pcell.0, pcell.1));
                    assert(j != car);
                }
                return View { direction: d, observed: Some(j), distance };
            },
            None => {
                proof {
                    // The probe stays on the grid, so one more step keeps
                    // every coordinate (and the distance) in range.
                    assert(s@.cell_free(pr as int, pc as int));
                    assert(0 <= pr < 256 && 0 <= pc < 256);
                    assert((pr + dr, pc + dc) == probe_cell(s@, car as int, d, distance + 2));
                }
                distance += 1;
                pr += dr;
                pc += dc;
            },
        }
    }
}

/// `n` consecutive one-cell slides of the same car in the same direction.
pub open spec fn repeat_move(car: usize, d: Direction, n: int) -> Seq<(usize, Direction)> {
    Seq::new(n as nat, |q: int| (car, d))
}

/// One guaranteed slide: a view with positive distance makes the next
/// one-cell slide legal, and the slid car sees the same obstacle one cell
/// closer.
pub proof fn lemma_view_step(s: StateModel, car: usize, d: Direction, v: View)
    requires
        s.wf(),
        s.valid_index(car as int),
        dir_matches(s.place(car as int).1.orientation, d),
        view_ok(s, car as int, d, v),
        v.distance >= 1,
    ensures
        move_legal(s, car as int, d),
        move_applied(s, car as int, d).wf(),
        move_applied(s, car as int, d).valid_index(car as int),
        move_applied(s, car as int, d).place(car as int).1 == s.place(car as int).1,
        view_ok(
            move_applied(s, car as int, d),
            car as int,
            d,
            View { direction: d, observed: v.observed, distance: (v.distance - 1) as u8 },
        ),
{
    let i = car as int;
    let (p, cr) = s.place(i);
    assert(s.cars[i - 1] == (p, cr));
    assert(cr.length >= 1);
    let t1 = probe_cell(s, i, d, 1);
    assert(s.cell_free(t1.0, t1.1));
    assert(t1 == target_cell(s, i, d));
    assert(move_legal(s, i, d));
    lemma_move_preserves_wf(s, i, d);
    let t = move_applied(s, i, d);
    let np = shifted_pos(p, d);
    assert(t.cars[i - 1] == (np, cr));
    // Probing from the slid car lands one cell further in the original
    // configuration.
    assert forall|k: int| 1 <= k implies probe_cell(t, i, d, k) == probe_cell(s, i, d, k + 1) by {}
    let w = View { direction: d, observed: v.observed, distance: (v.distance - 1) as u8 };
    // The cells short of the obstacle stay free: no other car moved, and
    // the slid car itself stops short of them.
    assert forall|k: int| 1 <= k <= w.distance implies t.cell_free(
        probe_cell(t, i, d, k).0,
        probe_cell(t, i, d, k).1,
    ) by {
        let cell = probe_cell(s, i, d, k + 1);
        assert(s.cell_free(cell.0, cell.1));
        assert(!place_covers(np, cr, cell.0, cell.1));
        assert forall|j: int| !t.occupies(j, cell.0, cell.1) by {
            if t.occupies(j, cell.0, cell.1) {
                if j == i {
                    assert(place_covers(np, cr, cell.0, cell.1));
                } else {
                    assert(s.occupies(j, cell.0, cell.1));
                }
            }
        }
    }
    // The obstacle itself is unchanged, one probe step closer.
    match v.observed {
        None => {
            assert(probe_cell(t, i, d, w.distance + 1) == probe_cell(s, i, d, v.distance + 1));
        },
        Some(j) => {
            assert(probe_cell(t, i, d, w.distance + 1) == probe_cell(s, i, d, v.distance + 1));
            assert(s.occupies(j as int, probe_cell(s, i, d, v.distance + 1).0, probe_cell(s, i, d, v.distance + 1).1));
            assert(t.cars[j - 1] == s.cars[j - 1]);
        },
    }
}

/// Sliding `n <= distance` cells along a view succeeds, and leaves the car
/// seeing the same obstacle `n` cells closer.
pub proof fn lemma_view_slides(s: StateModel, car: usize, d: Direction, v: View, n: int)
    requires
        s.wf(),
        s.valid_index(car as int),
        dir_matches(s.place(car as int).1.orientation, d),
        view_ok(s, car as int, d, v),
        0 <= n <= v.distance,
    ensures
        replay_spec(s, repeat_move(car, d, n)) matches Ok(t) && t.wf() && t.valid_index(car as int)
            && t.place(car as int).1 == s.place(car as int).1 && view_ok(
            t,
            car as int,
            d,
            View { direction: d, observed: v.observed, distance: (v.distance - n) as u8 },
        ),
    decreases n,
{
    let i = car as int;
    if n == 0 {
        assert(repeat_move(car, d, 0).len() == 0);
        assert(replay_spec(s, repeat_move(car, d, 0)) == Ok::<StateModel, MoveError>(s));
        assert(View { direction: d, observed: v.observed, distance: (v.distance - 0) as u8 } == v);
    } else {
        lemma_view_step(s, car, d, v);
        let t1 = move_applied(s, i, d);
        let w = View { direction: d, observed: v.observed, distance: (v.distance - 1) as u8 };
        lemma_view_slides(t1, car, d, w, n - 1);
        let ms = repeat_move(car, d, n);
        assert(ms[0] == (car, d));
        assert(ms.drop_first() =~= repeat_move(car, d, n - 1));
        assert(replay_spec(s, ms) == replay_spec(t1, repeat_move(car, d, n - 1)));
    }
}

/// What the analyzer's view means for the board model: the distance is
/// zero exactly when the adjacent cell in that direction is off-grid or
/// occupied; `distance` many one-cell slides all succeed; and one slide
/// more than the distance fails.
pub proof fn lemma_view_characterizes_moves(s: StateModel, car: usize, d: Direction, v: View)
    requires
        s.wf(),
        s.valid_index(car as int),
        dir_matches(s.place(car as int).1.orientation, d),
        view_ok(s, car as int, d, v),
    ensures
        (v.distance == 0) <==> !s.cell_free(
            target_cell(s, car as int, d).0,
            target_cell(s, car as int, d).1,
        ),
        forall|k: int|
            0 <= k <= v.distance ==> replay_spec(s, #[trigger] repeat_move(car, d, k)) is Ok,
        !(replay_spec(s, repeat_move(car, d, v.distance + 1)) is Ok),
{
    let i = car as int;
    let (p, cr) = s.place(i);
    assert(s.cars[i - 1] == (p, cr));
    assert(target_cell(s, i, d) == probe_cell(s, i, d, 1));
    if v.distance == 0 {
        match v.observed {
            None => {
                assert(!s.on_grid(probe_cell(s, i, d, 1).0, probe_cell(s, i, d, 1).1));
            },
            Some(j) => {
                assert(s.occupies(j as int, probe_cell(s, i, d, 1).0, probe_cell(s, i, d, 1).1));
            },
        }
    } else {
        assert(s.cell_free(probe_cell(s, i, d, 1).0, probe_cell(s, i, d, 1).1));
    }
    assert forall|k: int| 0 <= k <= v.distance implies replay_spec(
        s,
        #[trigger] repeat_move(car, d, k),
    ) is Ok by {
        lemma_view_slides(s, car, d, v, k);
    }
    // After sliding the whole distance the next slide is illegal.
    lemma_view_slides(s, car, d, v, v.distance as int);
    let t = choose|t: StateModel| replay_spec(s, repeat_move(car, d, v.distance as int)) == Ok::<
        StateModel,
        MoveError,
    >(t);
    let w = View { direction: d, observed: v.observed, distance: 0u8 };
    assert(view_ok(t, i, d, w));
    assert(target_cell(t, i, d) == probe_cell(t, i, d, 1));
    match v.observed {
        None => {
            assert(!t.on_grid(probe_cell(t, i, d, 1).0, probe_cell(t, i, d, 1).1));
            assert(!move_legal(t, i, d));
        },
        Some(j) => {
            assert(t.occupies(j as int, probe_cell(t, i, d, 1).0, probe_cell(t, i, d, 1).1));
            assert(!move_legal(t, i, d));
        },
    }
    crate::executor::lemma_replay_append(
        s,
        repeat_move(car, d, v.distance as int),
        repeat_move(car, d, 1),
    );
    assert(repeat_move(car, d, v.distance as int) + repeat_move(car, d, 1) =~= repeat_move(
        car,
        d,
        v.distance + 1,
    ));
    assert(repeat_move(car, d, 1)[0] == (car, d));
    assert(!(replay_spec(t, repeat_move(car, d, 1)) is Ok));
}

/// On a well-formed board the view of a car in a direction is unique:
/// the distance counts the free cells up to the first obstacle, and the
/// obstacle is one fixed wall or car.
pub proof fn lemma_view_unique(s: StateModel, i: int, d: Direction, v1: View, v2: View)
    requires
        s.wf(),
        s.valid_index(i),
        view_ok(s, i, d, v1),
        view_ok(s, i, d, v2),
    ensures
        v1 == v2,
{
    if v1.distance != v2.distance {
        let (lo, hi) = if v1.distance < v2.distance {
            (v1, v2)
        } else {
            (v2, v1)
        };
        // the cell just past the shorter view is free by the longer one,
        // yet the shorter view reports it as its obstacle
        assert(s.cell_free(
            probe_cell(s, i, d, lo.distance + 1).0,
            probe_cell(s, i, d, lo.distance + 1).1,
        ));
        match lo.observed {
            None => {},
            Some(j) => {
                assert(s.occupies(
                    j as int,
                    probe_cell(s, i, d, lo.distance + 1).0,
                    probe_cell(s, i, d, lo.distance + 1).1,
                ));
            },
        }
    }
    let pc = probe_cell(s, i, d, v1.distance + 1);
    match (v1.observed, v2.observed) {
        (None, None) => {},
        (Some(j1), Some(j2)) => {
            assert(s.occupies(j1 as int, pc.0, pc.1));
            assert(s.occupies(j2 as int, pc.0, pc.1));
        },
        (Some(j1), None) => {
            // a covered cell of a well-formed board is on the grid
            assert(s.occupies(j1 as int, pc.0, pc.1));
            assert(s.cars[j1 - 1].1.length >= 1 && place_in_bounds(
                s.cars[j1 - 1].0,
                s.cars[j1 - 1].1,
                s.rows,
                s.cols,
            ));
            assert(s.on_grid(pc.0, pc.1));
        },
        (None, Some(j2)) => {
            assert(s.occupies(j2 as int, pc.0, pc.1));
            assert(s.cars[j2 - 1].1.length >= 1 && place_in_bounds(
                s.cars[j2 - 1].0,
                s.cars[j2 - 1].1,
                s.rows,
                s.cols,
            ));
            assert(s.on_grid(pc.0, pc.1));
        },
    }
}

/// The one view of car `i` in direction `d` on a well-formed board.
pub open spec fn the_view(s: StateModel, i: int, d: Direction) -> View {
    choose|v: View| view_ok(s, i, d, v)
}

/// The one full set of per-car views of a well-formed board, as
/// [`views_ok`] describes it.
pub open spec fn views_of(s: StateModel) -> Seq<ViewFrom> {
    Seq::new(
        s.cars.len(),
        |i: int|
            ViewFrom {
                backward: the_view(s, i + 1, backward_of(s.cars[i].1.orientation)),
                forward: the_view(s, i + 1, backward_of(s.cars[i].1.orientation).spec_opposite()),
            },
    )
}

/// A set of views that satisfies [`views_ok`] is exactly [`views_of`].
pub proof fn lemma_views_determined(s: StateModel, views: Seq<ViewFrom>)
    requires
        s.wf(),
        views_ok(s, views),
    ensures
        views == views_of(s),
{
    assert forall|i: int| 0 <= i < views.len() implies views[i] == views_of(s)[i] by {
        let back = backward_of(s.cars[i].1.orientation);
        assert(view_ok(s, i + 1, back, views[i].backward));
        assert(view_ok(s, i + 1, back.spec_opposite(), views[i].forward));
        let vb = the_view(s, i + 1, back);
        let vf = the_view(s, i + 1, back.spec_opposite());
        assert(view_ok(s, i + 1, back, vb));
        assert(view_ok(s, i + 1, back.spec_opposite(), vf));
        lemma_view_unique(s, i + 1, back, views[i].backward, vb);
        lemma_view_unique(s, i + 1, back.spec_opposite(), views[i].forward, vf);
    }
    assert(views =~= views_of(s));
}

/// What a full set of per-car views says of a configuration: one
/// `ViewFrom` per car, its backward and forward views both correct.
pub open spec fn views_ok(s: StateModel, views: Seq<ViewFrom>) -> bool {
    &&& views.len() == s.cars.len()
    &&& forall|i: int|
        0 <= i < views.len() ==> view_ok(
            s,
            i + 1,
            backward_of(s.cars[i].1.orientation),
            (#[trigger] views[i]).backward,
        ) && view_ok(s, i + 1, backward_of(s.cars[i].1.orientation).spec_opposite(), views[i].forward)
}

/// An observer compatible with the executor: it is handed the final board
/// of a successful replay.
pub trait PGObserver {
    /// What the observer's state says about a configuration once
    /// [`PGObserver::final_board`] has run.
    spec fn reflects(&self, s: StateModel) -> bool;

    /// Passes the final board state to the observer, after a replay that
    /// completed normally.
    fn final_board(&mut self, board: &State)
        requires
            board@.wf(),
        ensures
            final(self).reflects(board@),
    ;
}

/// A list of observers, encoded as nested pairs ending in `()`, so that
/// observers of differing types can be carried and notified together.
pub trait PGObserverTuple {
    /// Every observer in the list reflects the configuration.
    spec fn all_reflect(&self, s: StateModel) -> bool;

    /// Passes the board to every observer in the list.
    fn final_board_all(&mut self, board: &State)
        requires
            board@.wf(),
        ensures
            final(self).all_reflect(board@),
    ;
}

impl PGObserverTuple for () {
    open spec fn all_reflect(&self, s: StateModel) -> bool {
        true
    }

    fn final_board_all(&mut self, _board: &State) {
    }
}

impl<Head: PGObserver, Tail: PGObserverTuple> PGObserverTuple for (Head, Tail) {
    open spec fn all_reflect(&self, s: StateModel) -> bool {
        self.0.reflects(s) && self.1.all_reflect(s)
    }

    fn final_board_all(&mut self, board: &State) {
        self.0.final_board(board);
        self.1.final_board_all(board);
    }
}

/// Observer that stashes the final state of the board after an execution.
#[derive(Debug)]
pub struct FinalStateObserver {
    final_state: Option<State>,
}

impl vstd::view::View for FinalStateObserver {
    type V = Option<StateModel>;

    closed spec fn view(&self) -> Option<StateModel> {
        match self.final_state {
            Some(ref s) => Some(s@),
            None => None,
        }
    }
}

impl Default for FinalStateObserver {
    /// Starts with no observed state.
    fn default() -> (r: Self)
        ensures
            r@ == None::<StateModel>,
    {
        FinalStateObserver { final_state: None }
    }
}

impl FinalStateObserver {
    /// The final state observed, if one exists (it does not after a failed
    /// replay or a reset).
    pub fn final_state(&self) -> (r: Option<&State>)
        ensures
            match r {
                Some(s) => self@ == Some(s@),
                None => self@ is None,
            },
    {
        match self.final_state {
            Some(ref s) => Some(s),
            None => None,
        }
    }

    /// Forgets the observed state; idempotent, and without effect on any
    /// later replay.
    pub fn flush(&mut self)
        ensures
            final(self)@ == None::<StateModel>,
    {
        self.final_state = None;
    }

    /// Resets the observer before an execution; same effect as a flush.
    pub fn pre_exec(&mut self)
        ensures
            final(self)@ == None::<StateModel>,
    {
        self.final_state = None;
    }

    /// The fingerprint of the observed final state, if one exists.
    pub fn hash(&self) -> (r: Option<u64>)
        ensures
            match self@ {
                Some(m) => r == Some(fingerprint_of(positions_of(m.cars))),
                None => r is None,
            },
    {
        match self.final_state {
            Some(ref s) => Some(fingerprint(s)),
            None => None,
        }
    }
}

impl PGObserver for FinalStateObserver {
    open spec fn reflects(&self, s: StateModel) -> bool {
        self@ == Some(s)
    }

    fn final_board(&mut self, board: &State) {
        self.final_state = Some(board.clone());
    }
}

/// An observer which collects a [`ViewFrom`] for each car.
#[derive(Debug)]
pub struct ViewObserver {
    views: Vec<ViewFrom>,
}

impl vstd::view::View for ViewObserver {
    type V = Seq<ViewFrom>;

    closed spec fn view(&self) -> Seq<ViewFrom> {
        self.views@
    }
}

impl Default for ViewObserver {
    /// Starts with no views.
    fn default() -> (r: Self)
        ensures
            r@ == Seq::<ViewFrom>::empty(),
    {
        let v = ViewObserver { views: Vec::new() };
        proof {
            assert(v@ =~= Seq::<ViewFrom>::empty());
        }
        v
    }
}

impl ViewObserver {
    /// The collected views, car `i` (1-based, the objective car first) at
    /// slot `i - 1`.
    pub fn views(&self) -> (r: &Vec<ViewFrom>)
        ensures
            r@ == self@,
    {
        &self.views
    }

    /// Forgets the collected views; idempotent, and without effect on any
    /// later replay.
    pub fn flush(&mut self)
        ensures
            final(self)@ == Seq::<ViewFrom>::empty(),
    {
        self.views.clear();
        proof {
            assert(self@ =~= Seq::<ViewFrom>::empty());
        }
    }

    /// Resets the observer before an execution; same effect as a flush.
    pub fn pre_exec(&mut self)
        ensures
            final(self)@ == Seq::<ViewFrom>::empty(),
    {
        self.views.clear();
        proof {
            assert(self@ =~= Seq::<ViewFrom>::empty());
        }
    }
}

impl PGObserver for ViewObserver {
    open spec fn reflects(&self, s: StateModel) -> bool {
        views_ok(s, self@)
    }

    fn final_board(&mut self, board: &State) {
        self.views.clear();
        let cars = board.cars();
        let n = cars.len();
        let mut i: usize = 0;
        while i < n
            invariant
                board@.wf(),
                n == board@.cars.len(),
                i <= n,
                self.views@.len() == i,
                forall|q: int|
                    0 <= q < i ==> view_ok(
                        board@,
                        q + 1,
                        backward_of(board@.cars[q].1.orientation),
                        (#[trigger] self.views@[q]).backward,
                    ) && view_ok(
                        board@,
                        q + 1,
                        backward_of(board@.cars[q].1.orientation).spec_opposite(),
                        self.views@[q].forward,
                    ),
            decreases n - i,
        {
            let (_, cr) = board.cars()[i];
            let back_dir = match cr.orientation {
                Orientation::UpDown => Direction::Up,
                Orientation::LeftRight => Direction::Left,
            };
            let fwd_dir = back_dir.opposite();
            let backward = step_until_seen(board, i + 1, back_dir);
            let forward = step_until_seen(board, i + 1, fwd_dir);
            self.views.push(ViewFrom { backward, forward });
            i += 1;
        }
    }
}

} // verus!
