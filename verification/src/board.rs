//! The board model: grid geometry, car placement, move legality and
//! application.

use vstd::prelude::*;

verus! {

/// The axis along which a car lies, fixed for the car's lifetime.
#[derive(Clone, Copy, PartialEq, Eq, Structural, Debug)]
pub enum Orientation {
    LeftRight,
    UpDown,
}

/// A single-cell slide direction. `Left`/`Right` are only legal for
/// `LeftRight` cars, `Up`/`Down` only for `UpDown` cars.
#[derive(Clone, Copy, PartialEq, Eq, Structural, Debug)]
pub enum Direction {
    Up,
    Down,
    Left,
    Right,
}

/// Why a move was rejected. Both kinds are expected, recoverable outcomes:
/// the board is left unchanged either way.
#[derive(Clone, Copy, PartialEq, Eq, Structural, Debug)]
pub enum MoveError {
    /// The direction does not match the car's orientation, the car index is
    /// unknown, or the move would leave the grid.
    OutOfBounds,
    /// The entered cell is occupied; the payload is the blocking car's index.
    Collision(usize),
}

/// A malformed initial configuration. Fatal: the engine refuses to search.
#[derive(Clone, Copy, PartialEq, Eq, Structural, Debug)]
pub enum ConfigurationError {
    /// The grid has no rows or no columns.
    EmptyBoard,
    /// A dimension does not fit the coordinate type.
    TooLarge,
    /// The rows of a textual map do not all have the same width.
    RaggedRows,
    /// A textual map has no objective car.
    NoObjective,
    /// A car's cells are not a straight contiguous segment of length at
    /// least two.
    BadCarShape,
    /// A car would leave the grid.
    OutOfBounds,
    /// Two cars would share a cell.
    Overlap,
    /// A search was asked for on a board without cars.
    ZeroCars,
}

/// The anchor cell of a car: its topmost (for `UpDown`) or leftmost (for
/// `LeftRight`) occupied cell.
#[derive(Clone, Copy, PartialEq, Eq, Structural, Debug)]
pub struct Position {
    pub row: u8,
    pub col: u8,
}

impl Position {
    /// The row of the anchor cell.
    pub fn row(&self) -> (r: u8)
        ensures
            r == self.row,
    {
        self.row
    }

    /// The column of the anchor cell.
    pub fn column(&self) -> (r: u8)
        ensures
            r == self.col,
    {
        self.col
    }
}

/// A car: how many consecutive cells it covers and along which axis.
#[derive(Clone, Copy, PartialEq, Eq, Structural, Debug)]
pub struct Car {
    pub length: u8,
    pub orientation: Orientation,
}

impl Car {
    /// Builds a car; a car of length zero would cover nothing and is refused.
    pub fn new(length: u8, orientation: Orientation) -> (r: Option<Car>)
        ensures
            r == if length >= 1 {
                Some(Car { length, orientation })
            } else {
                None::<Car>
            },
    {
        if length >= 1 {
            Some(Car { length, orientation })
        } else {
            None
        }
    }

    /// The number of cells the car covers.
    pub fn length(&self) -> (r: u8)
        ensures
            r == self.length,
    {
        self.length
    }

    /// The axis along which the car lies.
    pub fn orientation(&self) -> (r: Orientation)
        ensures
            r == self.orientation,
    {
        self.orientation
    }
}

/// Whether a direction of travel is legal for a car of this orientation.
pub open spec fn dir_matches(o: Orientation, d: Direction) -> bool {
    match o {
        Orientation::LeftRight => d == Direction::Left || d == Direction::Right,
        Orientation::UpDown => d == Direction::Up || d == Direction::Down,
    }
}

/// Executable check mirroring [`dir_matches`].
pub fn direction_fits(o: Orientation, d: Direction) -> (r: bool)
    ensures
        r == dir_matches(o, d),
{
    match o {
        Orientation::LeftRight => matches!(d, Direction::Left | Direction::Right),
        Orientation::UpDown => matches!(d, Direction::Up | Direction::Down),
    }
}

impl Direction {
    /// The direction that undoes a slide in this direction.
    pub open spec fn spec_opposite(self) -> Direction {
        match self {
            Direction::Up => Direction::Down,
            Direction::Down => Direction::Up,
            Direction::Left => Direction::Right,
            Direction::Right => Direction::Left,
        }
    }

    /// The direction that undoes a slide in this direction.
    pub fn opposite(self) -> (r: Direction)
        ensures
            r == self.spec_opposite(),
    {
        match self {
            Direction::Up => Direction::Down,
            Direction::Down => Direction::Up,
            Direction::Left => Direction::Right,
            Direction::Right => Direction::Left,
        }
    }
}

/// Whether the cell `(r, c)` belongs to a car of shape `car` anchored at `p`.
pub open spec fn place_covers(p: Position, car: Car, r: int, c: int) -> bool {
    match car.orientation {
        Orientation::LeftRight => r == p.row && p.col <= c < p.col + car.length,
        Orientation::UpDown => c == p.col && p.row <= r < p.row + car.length,
    }
}

/// Whether every cell of a car of shape `car` anchored at `p` lies on a grid
/// of `rows` by `cols` cells.
pub open spec fn place_in_bounds(p: Position, car: Car, rows: int, cols: int) -> bool {
    match car.orientation {
        Orientation::LeftRight => p.row < rows && p.col + car.length <= cols,
        Orientation::UpDown => p.col < cols && p.row + car.length <= rows,
    }
}

/// The mathematical model of a board configuration.
#[verifier::ext_equal]
pub ghost struct StateModel {
    pub rows: int,
    pub cols: int,
    pub cars: Seq<(Position, Car)>,
}

impl StateModel {
    /// Car indices are 1-based; index 1 is the objective car.
    pub open spec fn valid_index(self, i: int) -> bool {
        1 <= i <= self.cars.len()
    }

    /// The placement of car `i` (1-based).
    pub open spec fn place(self, i: int) -> (Position, Car) {
        self.cars[i - 1]
    }

    /// Whether car `i` covers the cell `(r, c)`.
    pub open spec fn occupies(self, i: int, r: int, c: int) -> bool {
        self.valid_index(i) && place_covers(self.place(i).0, self.place(i).1, r, c)
    }

    /// Whether `(r, c)` is a grid cell.
    pub open spec fn on_grid(self, r: int, c: int) -> bool {
        0 <= r < self.rows && 0 <= c < self.cols
    }

    /// Whether `(r, c)` is a grid cell covered by no car.
    pub open spec fn cell_free(self, r: int, c: int) -> bool {
        self.on_grid(r, c) && forall|i: int| !self.occupies(i, r, c)
    }

    /// Well-formedness: a non-degenerate grid, every car of positive length
    /// and within bounds, and no two distinct cars sharing a cell.
    pub open spec fn wf(self) -> bool {
        &&& 1 <= self.rows <= 255
        &&& 1 <= self.cols <= 255
        &&& forall|i: int|
            0 <= i < self.cars.len() ==> (#[trigger] self.cars[i]).1.length >= 1
                && place_in_bounds(self.cars[i].0, self.cars[i].1, self.rows, self.cols)
        &&& forall|i: int, j: int, r: int, c: int|
            #[trigger] self.occupies(i, r, c) && #[trigger] self.occupies(j, r, c) ==> i == j
    }

    /// Whether the objective car's forward-most cell touches its target
    /// edge: the rightmost column for a `LeftRight` car, the bottom row for
    /// an `UpDown` car.
    pub open spec fn solved(self) -> bool {
        let (p, car) = self.cars[0];
        match car.orientation {
            Orientation::LeftRight => p.col + car.length == self.cols,
            Orientation::UpDown => p.row + car.length == self.rows,
        }
    }
}

/// The cell a car would newly enter by a one-cell slide in direction `d`:
/// one beyond its trailing edge for `Up`/`Left`, one beyond its leading edge
/// for `Down`/`Right`. The coordinates may be off-grid or negative.
pub open spec fn target_cell(s: StateModel, i: int, d: Direction) -> (int, int) {
    let (p, car) = s.place(i);
    match d {
        Direction::Up => (p.row - 1, p.col as int),
        Direction::Down => (p.row + car.length, p.col as int),
        Direction::Left => (p.row as int, p.col - 1),
        Direction::Right => (p.row as int, p.col + car.length),
    }
}

/// The anchor after a one-cell slide in direction `d`.
pub open spec fn shifted_pos(p: Position, d: Direction) -> Position {
    match d {
        Direction::Up => Position { row: (p.row - 1) as u8, col: p.col },
        Direction::Down => Position { row: (p.row + 1) as u8, col: p.col },
        Direction::Left => Position { row: p.row, col: (p.col - 1) as u8 },
        Direction::Right => Position { row: p.row, col: (p.col + 1) as u8 },
    }
}

/// Whether sliding car `i` one cell in direction `d` is legal: the index is
/// known, the direction matches the car's orientation, and the entered cell
/// is on the grid and covered by no other car.
pub open spec fn move_legal(s: StateModel, i: int, d: Direction) -> bool {
    &&& s.valid_index(i)
    &&& dir_matches(s.place(i).1.orientation, d)
    &&& s.on_grid(target_cell(s, i, d).0, target_cell(s, i, d).1)
    &&& forall|j: int| j != i ==> !s.occupies(j, target_cell(s, i, d).0, target_cell(s, i, d).1)
}

/// The failure an illegal slide reports. Under well-formedness the blocking
/// car of a `Collision` is unique, so this value is determined.
pub open spec fn move_error_of(s: StateModel, i: int, d: Direction) -> MoveError {
    if !s.valid_index(i) || !dir_matches(s.place(i).1.orientation, d) || !s.on_grid(
        target_cell(s, i, d).0,
        target_cell(s, i, d).1,
    ) {
        MoveError::OutOfBounds
    } else {
        MoveError::Collision(
            (choose|j: int|
                j != i && s.occupies(j, target_cell(s, i, d).0, target_cell(s, i, d).1)) as usize,
        )
    }
}

/// The configuration after a legal one-cell slide of car `i` in direction
/// `d`: only that car's anchor changes.
pub open spec fn move_applied(s: StateModel, i: int, d: Direction) -> StateModel {
    StateModel {
        cars: s.cars.update(i - 1, (shifted_pos(s.place(i).0, d), s.place(i).1)),
        ..s
    }
}

/// A board configuration: grid dimensions plus the placed cars, car `i`
/// (1-based) at slot `i - 1`. Mutation only through [`State::apply_move`].
#[derive(Debug)]
pub struct State {
    rows: u8,
    cols: u8,
    cars: Vec<(Position, Car)>,
}

impl View for State {
    type V = StateModel;

    closed spec fn view(&self) -> StateModel {
        StateModel { rows: self.rows as int, cols: self.cols as int, cars: self.cars@ }
    }
}

impl Clone for State {
    /// A clone is bit-for-bit the same configuration.
    fn clone(&self) -> (r: Self)
        ensures
            r@ == self@,
    {
        let mut cars: Vec<(Position, Car)> = Vec::new();
        let mut k: usize = 0;
        while k < self.cars.len()
            invariant
                k <= self.cars.len(),
                cars@ == self.cars@.take(k as int),
            decreases self.cars.len() - k,
        {
            cars.push(self.cars[k]);
            proof {
                assert(cars@ =~= self.cars@.take(k + 1 as int));
            }
            k += 1;
        }
        proof {
            assert(cars@ =~= self.cars@);
        }
        State { rows: self.rows, cols: self.cols, cars }
    }
}

impl State {
    /// A car-less board of the given dimensions; a degenerate grid is a
    /// configuration error.
    pub fn empty(rows: u8, cols: u8) -> (r: Result<State, ConfigurationError>)
        ensures
            match r {
                Ok(s) => rows >= 1 && cols >= 1 && s@ == (StateModel {
                    rows: rows as int,
                    cols: cols as int,
                    cars: Seq::<(Position, Car)>::empty(),
                }) && s@.wf(),
                Err(e) => (rows == 0 || cols == 0) && e == ConfigurationError::EmptyBoard,
            },
    {
        if rows == 0 || cols == 0 {
            Err(ConfigurationError::EmptyBoard)
        } else {
            let s = State { rows, cols, cars: Vec::new() };
            proof {
                assert(s@.cars =~= Seq::<(Position, Car)>::empty());
            }
            Ok(s)
        }
    }

    /// The number of grid rows.
    pub fn rows(&self) -> (r: u8)
        ensures
            r == self@.rows,
    {
        self.rows
    }

    /// The number of grid columns.
    pub fn cols(&self) -> (r: u8)
        ensures
            r == self@.cols,
    {
        self.cols
    }

    /// All `(position, car)` pairs in index order, the objective car first.
    pub fn cars(&self) -> (r: &Vec<(Position, Car)>)
        ensures
            r@ == self@.cars,
    {
        &self.cars
    }

    /// Occupancy lookup: the 1-based index of the car covering `(r, c)`, or
    /// `None` for an empty or off-grid cell.
    pub fn get(&self, r: u8, c: u8) -> (res: Option<usize>)
        ensures
            match res {
                Some(i) => self@.occupies(i as int, r as int, c as int),
                None => forall|i: int| !self@.occupies(i, r as int, c as int),
            },
    {
        let mut k: usize = 0;
        while k < self.cars.len()
            invariant
                k <= self.cars.len(),
                forall|i: int| 1 <= i <= k ==> !self@.occupies(i, r as int, c as int),
            decreases self.cars.len() - k,
        {
            let (p, car) = self.cars[k];
            if covers(p, car, r, c) {
                return Some(k + 1);
            }
            k += 1;
        }
        None
    }

    /// True iff the objective car touches its target edge.
    pub fn is_solved(&self) -> (r: bool)
        requires
            self@.cars.len() >= 1,
        ensures
            r == self@.solved(),
    {
        let (p, car) = self.cars[0];
        match car.orientation {
            Orientation::LeftRight => p.col as usize + car.length as usize == self.cols as usize,
            Orientation::UpDown => p.row as usize + car.length as usize == self.rows as usize,
        }
    }
}

/// A legal slide stays within the grid and enters a cell of no other car, so
/// it keeps the configuration well-formed.
pub proof fn lemma_move_preserves_wf(s: StateModel, i: int, d: Direction)
    requires
        s.wf(),
        move_legal(s, i, d),
    ensures
        move_applied(s, i, d).wf(),
{
    let t = move_applied(s, i, d);
    let (p0, car0) = s.place(i);
    let np = shifted_pos(p0, d);
    let (tr, tc) = target_cell(s, i, d);
    assert(s.cars[i - 1] == (p0, car0));
    assert(car0.length >= 1);
    assert(place_in_bounds(np, car0, s.rows, s.cols));
    assert forall|k: int| 0 <= k < t.cars.len() implies (#[trigger] t.cars[k]).1.length >= 1
        && place_in_bounds(t.cars[k].0, t.cars[k].1, t.rows, t.cols) by {
        if k != i - 1 {
            assert(t.cars[k] == s.cars[k]);
        }
    }
    assert forall|r: int, c: int| place_covers(np, car0, r, c) implies place_covers(p0, car0, r, c)
        || (r == tr && c == tc) by {}
    assert forall|k: int, l: int, r: int, c: int|
        #[trigger] t.occupies(k, r, c) && #[trigger] t.occupies(l, r, c) implies k == l by {
        if k != l {
            if k != i && l != i {
                assert(s.occupies(k, r, c));
                assert(s.occupies(l, r, c));
            } else {
                let o = if k == i { l } else { k };
                assert(t.occupies(i, r, c) && t.occupies(o, r, c) && o != i);
                assert(s.occupies(o, r, c));
                if place_covers(p0, car0, r, c) {
                    assert(s.occupies(i, r, c));
                } else {
                    assert(r == tr && c == tc);
                }
            }
        }
    }
}

/// Moves are locally invertible: after a legal slide, the exact opposite
/// slide is legal and restores the original configuration.
pub proof fn lemma_move_invertible(s: StateModel, i: int, d: Direction)
    requires
        s.wf(),
        move_legal(s, i, d),
    ensures
        move_legal(move_applied(s, i, d), i, d.spec_opposite()),
        move_applied(move_applied(s, i, d), i, d.spec_opposite()) == s,
{
    lemma_move_preserves_wf(s, i, d);
    let t = move_applied(s, i, d);
    let (p0, car0) = s.place(i);
    assert(s.cars[i - 1] == (p0, car0));
    assert(car0.length >= 1);
    let back = d.spec_opposite();
    let (br, bc) = target_cell(t, i, back);
    // The opposite move re-enters a cell the car itself covered before.
    assert(place_covers(p0, car0, br, bc));
    assert(s.occupies(i, br, bc));
    assert forall|j: int| j != i implies !t.occupies(j, br, bc) by {
        if t.occupies(j, br, bc) && j != i {
            assert(s.occupies(j, br, bc));
            assert(s.occupies(i, br, bc));
        }
    }
    assert(move_legal(t, i, back));
    let u = move_applied(t, i, back);
    assert(shifted_pos(shifted_pos(p0, d), back) == p0);
    assert(u.cars =~= s.cars);
    assert(u =~= s);
}

impl State {
    /// Validates and applies a one-cell slide of car `car` in direction `d`.
    /// On success the car's anchor moves one cell; on any failure the board
    /// is unchanged and the error says why: `OutOfBounds` for an unknown
    /// index, a direction across the car's orientation or a slide off the
    /// grid, `Collision(j)` when car `j` covers the entered cell.
    pub fn apply_move(&mut self, car: usize, d: Direction) -> (r: Result<(), MoveError>)
        requires
            old(self)@.wf(),
        ensures
            final(self)@.wf(),
            r is Ok <==> move_legal(old(self)@, car as int, d),
            r matches Err(e) ==> e == move_error_of(old(self)@, car as int, d),
            match r {
                Ok(()) => final(self)@ == move_applied(old(self)@, car as int, d),
                Err(MoveError::OutOfBounds) => final(self)@ == old(self)@
                    && (!old(self)@.valid_index(car as int)
                        || !dir_matches(old(self)@.place(car as int).1.orientation, d)
                        || !old(self)@.on_grid(
                            target_cell(old(self)@, car as int, d).0,
                            target_cell(old(self)@, car as int, d).1,
                        )),
                Err(MoveError::Collision(j)) => final(self)@ == old(self)@
                    && old(self)@.valid_index(car as int)
                    && dir_matches(old(self)@.place(car as int).1.orientation, d)
                    && old(self)@.on_grid(
                        target_cell(old(self)@, car as int, d).0,
                        target_cell(old(self)@, car as int, d).1,
                    )
                    && j != car
                    && old(self)@.occupies(
                        j as int,
                        target_cell(old(self)@, car as int, d).0,
                        target_cell(old(self)@, car as int, d).1,
                    ),
            },
    {
        if car < 1 || car > self.cars.len() {
            return Err(MoveError::OutOfBounds);
        }
        let (p, cr) = self.cars[car - 1];
        if !direction_fits(cr.orientation, d) {
            return Err(MoveError::OutOfBounds);
        }
        let (tr, tc): (u8, u8) = match d {
            Direction::Up => {
                if p.row == 0 {
                    return Err(MoveError::OutOfBounds);
                }
                (p.row - 1, p.col)
            },
            Direction::Down => {
                let t = p.row as usize + cr.length as usize;
                if t >= self.rows as usize {
                    return Err(MoveError::OutOfBounds);
                }
                (t as u8, p.col)
            },
            Direction::Left => {
                if p.col == 0 {
                    return Err(MoveError::OutOfBounds);
                }
                (p.row, p.col - 1)
            },
            Direction::Right => {
                let t = p.col as usize + cr.length as usize;
                if t >= self.cols as usize {
                    return Err(MoveError::OutOfBounds);
                }
                (p.row, t as u8)
            },
        };
        match self.get(tr, tc) {
            Some(j) => {
                proof {
                    assert(!place_covers(p, cr, tr as int, tc as int));
                    assert(j != car);
                    let cj = choose|q: int|
                        q != car as int && old(self)@.occupies(
                            q,
                            target_cell(old(self)@, car as int, d).0,
                            target_cell(old(self)@, car as int, d).1,
                        );
                    assert(old(self)@.occupies(j as int, tr as int, tc as int));
                    assert(old(self)@.occupies(cj, tr as int, tc as int));
                    assert(cj == j as int);
                }
                Err(MoveError::Collision(j))
            },
            None => {
                let np: Position = match d {
                    Direction::Up => Position { row: p.row - 1, col: p.col },
                    Direction::Down => Position { row: p.row + 1, col: p.col },
                    Direction::Left => Position { row: p.row, col: p.col - 1 },
                    Direction::Right => Position { row: p.row, col: p.col + 1 },
                };
                self.cars[car - 1] = (np, cr);
                proof {
                    assert(move_legal(old(self)@, car as int, d));
                    assert(self@ =~= move_applied(old(self)@, car as int, d));
                    lemma_move_preserves_wf(old(self)@, car as int, d);
                }
                Ok(())
            },
        }
    }

    /// Places one more car, refusing a car of length zero (`BadCarShape`),
    /// one leaving the grid (`OutOfBounds`) or one sharing a cell with a
    /// placed car (`Overlap`); the board is unchanged on failure.
    pub fn add_car(&mut self, p: Position, car: Car) -> (r: Result<(), ConfigurationError>)
        requires
            old(self)@.wf(),
        ensures
            final(self)@.wf(),
            match r {
                Ok(()) => car.length >= 1
                    && place_in_bounds(p, car, old(self)@.rows, old(self)@.cols)
                    && (forall|j: int, rr: int, cc: int|
                        old(self)@.occupies(j, rr, cc) ==> !place_covers(p, car, rr, cc))
                    && final(self)@ == (StateModel { cars: old(self)@.cars.push((p, car)), ..old(self)@ }),
                Err(e) => final(self)@ == old(self)@
                    && if car.length == 0 {
                        e == ConfigurationError::BadCarShape
                    } else if !place_in_bounds(p, car, old(self)@.rows, old(self)@.cols) {
                        e == ConfigurationError::OutOfBounds
                    } else {
                        e == ConfigurationError::Overlap
                            && exists|j: int, rr: int, cc: int|
                                old(self)@.occupies(j, rr, cc) && place_covers(p, car, rr, cc)
                    },
            },
    {
        if car.length == 0 {
            return Err(ConfigurationError::BadCarShape);
        }
        let fits = match car.orientation {
            Orientation::LeftRight => {
                (p.row as usize) < self.rows as usize
                    && p.col as usize + car.length as usize <= self.cols as usize
            },
            Orientation::UpDown => {
                (p.col as usize) < self.cols as usize
                    && p.row as usize + car.length as usize <= self.rows as usize
            },
        };
        if !fits {
            return Err(ConfigurationError::OutOfBounds);
        }
        let ghost olds = self@;
        let mut k: u8 = 0;
        while k < car.length
            invariant
                self@ == olds,
                olds.wf(),
                k <= car.length,
                place_in_bounds(p, car, olds.rows, olds.cols),
                forall|rr: int, cc: int|
                    place_covers(p, car, rr, cc) && cell_offset(p, car, rr, cc) < k
                        ==> olds.cell_free(rr, cc),
            decreases car.length - k,
        {
            let (rr, cc): (u8, u8) = match car.orientation {
                Orientation::LeftRight => (p.row, p.col + k),
                Orientation::UpDown => (p.row + k, p.col),
            };
            match self.get(rr, cc) {
                Some(_) => {
                    proof {
                        assert(place_covers(p, car, rr as int, cc as int));
                    }
                    return Err(ConfigurationError::Overlap);
                },
                None => {},
            }
            k += 1;
        }
        self.cars.push((p, car));
        proof {
            let news = self@;
            assert(news.cars == olds.cars.push((p, car)));
            assert forall|j: int, rr: int, cc: int|
                olds.occupies(j, rr, cc) implies !place_covers(p, car, rr, cc) by {
                if place_covers(p, car, rr, cc) {
                    assert(cell_offset(p, car, rr, cc) < car.length);
                    assert(olds.cell_free(rr, cc));
                }
            }
            assert forall|i: int| 0 <= i < news.cars.len() implies (#[trigger] news.cars[i]).1.length
                >= 1 && place_in_bounds(news.cars[i].0, news.cars[i].1, news.rows, news.cols) by {
                if i < olds.cars.len() {
                    assert(news.cars[i] == olds.cars[i]);
                }
            }
            assert forall|a: int, b: int, rr: int, cc: int|
                #[trigger] news.occupies(a, rr, cc) && #[trigger] news.occupies(b, rr, cc)
                implies a == b by {
                let n = olds.cars.len() as int;
                if a <= n && b <= n {
                    assert(olds.occupies(a, rr, cc));
                    assert(olds.occupies(b, rr, cc));
                } else {
                    let o = if a == n + 1 { b } else { a };
                    assert(place_covers(p, car, rr, cc));
                    if o <= n {
                        assert(olds.occupies(o, rr, cc));
                    }
                }
            }
            assert(news =~= StateModel { cars: olds.cars.push((p, car)), ..olds });
        }
        Ok(())
    }
}

/// How far along its own axis a car's cell `(r, c)` lies from the anchor.
pub open spec fn cell_offset(p: Position, car: Car, r: int, c: int) -> int {
    match car.orientation {
        Orientation::LeftRight => c - p.col,
        Orientation::UpDown => r - p.row,
    }
}

/// Executable check mirroring [`place_covers`].
pub fn covers(p: Position, car: Car, r: u8, c: u8) -> (res: bool)
    ensures
        res == place_covers(p, car, r as int, c as int),
{
    match car.orientation {
        Orientation::LeftRight => {
            r == p.row && p.col <= c && (c as usize) < p.col as usize + car.length as usize
        },
        Orientation::UpDown => {
            c == p.col && p.row <= r && (r as usize) < p.row as usize + car.length as usize
        },
    }
}

} // verus!
