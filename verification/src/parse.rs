//! Parsing textual maps into board configurations.
//!
//! A map is rows of characters: `.` is an empty cell, `o` marks the
//! objective car (index 1), and every other character names one car, whose
//! cells must form a straight contiguous segment of length at least two.
//! Lines are trimmed and blank lines dropped, so indented literals parse
//! naturally. Other cars are indexed in ascending character order.

use vstd::prelude::*;
use vstd::string::StringSliceAdditionalSpecFns;

use crate::board::{
    place_covers, place_in_bounds, Car, ConfigurationError, Orientation, Position, State,
    StateModel,
};

verus! {

/// ASCII whitespace that is trimmed from the ends of a map line.
pub open spec fn is_space(b: u8) -> bool {
    b == 32 || b == 9 || b == 13
}

/// `l` with leading whitespace removed.
pub open spec fn strip_front(l: Seq<u8>) -> Seq<u8>
    decreases l.len(),
{
    if l.len() > 0 && is_space(l[0]) {
        strip_front(l.drop_first())
    } else {
        l
    }
}

/// `l` with trailing whitespace removed.
pub open spec fn strip_back(l: Seq<u8>) -> Seq<u8>
    decreases l.len(),
{
    if l.len() > 0 && is_space(l.last()) {
        strip_back(l.drop_last())
    } else {
        l
    }
}

/// `l` with whitespace removed from both ends.
pub open spec fn trimmed(l: Seq<u8>) -> Seq<u8> {
    strip_back(strip_front(l))
}

/// The text split at every newline byte, none of them kept.
pub open spec fn raw_lines(b: Seq<u8>) -> Seq<Seq<u8>>
    decreases b.len(),
{
    if b.len() == 0 {
        seq![Seq::<u8>::empty()]
    } else if b.last() == 10 {
        raw_lines(b.drop_last()).push(Seq::<u8>::empty())
    } else {
        let r = raw_lines(b.drop_last());
        r.update(r.len() - 1, r.last().push(b.last()))
    }
}

/// Lines trimmed, blank ones dropped.
pub open spec fn tidy(ls: Seq<Seq<u8>>) -> Seq<Seq<u8>>
    decreases ls.len(),
{
    if ls.len() == 0 {
        Seq::<Seq<u8>>::empty()
    } else {
        tidy(ls.drop_last()) + (if trimmed(ls.last()).len() == 0 {
            Seq::<Seq<u8>>::empty()
        } else {
            seq![trimmed(ls.last())]
        })
    }
}

/// The character grid of a textual map: its lines, trimmed, blank ones
/// dropped.
pub open spec fn grid_of(b: Seq<u8>) -> Seq<Seq<u8>> {
    tidy(raw_lines(b))
}

/// A split always yields at least one (possibly blank) line.
proof fn lemma_raw_lines_nonempty(b: Seq<u8>)
    ensures
        raw_lines(b).len() >= 1,
    decreases b.len(),
{
    if b.len() > 0 {
        lemma_raw_lines_nonempty(b.drop_last());
    }
}

/// Every kept grid row holds at least one character.
proof fn lemma_tidy_rows_nonempty(ls: Seq<Seq<u8>>)
    ensures
        forall|q: int| 0 <= q < tidy(ls).len() ==> (#[trigger] tidy(ls)[q]).len() >= 1,
    decreases ls.len(),
{
    if ls.len() > 0 {
        lemma_tidy_rows_nonempty(ls.drop_last());
        let dl = tidy(ls.drop_last());
        assert forall|q: int| 0 <= q < tidy(ls).len() implies (#[trigger] tidy(ls)[q]).len()
            >= 1 by {
            if q < dl.len() {
                assert(tidy(ls)[q] == dl[q]);
            } else {
                assert(tidy(ls)[q] == trimmed(ls.last()));
            }
        }
    }
}

/// The mathematical value of a vector of byte rows.
pub open spec fn lines_model(g: Seq<Vec<u8>>) -> Seq<Seq<u8>> {
    g.map_values(|v: Vec<u8>| v@)
}

/// All rows as wide as the first.
pub open spec fn grid_rect(g: Seq<Seq<u8>>) -> bool {
    forall|r: int| 0 <= r < g.len() ==> (#[trigger] g[r]).len() == g[0].len()
}

/// A usable grid: rectangular, with both dimensions between 1 and 255.
pub open spec fn grid_wf(g: Seq<Seq<u8>>) -> bool {
    &&& 1 <= g.len() <= 255
    &&& grid_rect(g)
    &&& 1 <= g[0].len() <= 255
}

/// Whether the byte `b` appears anywhere in the grid.
pub open spec fn occurs(g: Seq<Seq<u8>>, b: u8) -> bool {
    exists|r: int, c: int| 0 <= r < g.len() && 0 <= c < g[r].len() && g[r][c] == b
}

/// Whether the cells holding `b` are exactly the cells of a car of shape
/// `car` anchored at `p`, a straight in-bounds segment of length at least
/// two.
pub open spec fn car_covers_label(g: Seq<Seq<u8>>, b: u8, p: Position, car: Car) -> bool {
    &&& car.length >= 2
    &&& place_in_bounds(p, car, g.len() as int, g[0].len() as int)
    &&& forall|r: int, c: int|
        0 <= r < g.len() && 0 <= c < g[0].len() ==> ((#[trigger] g[r][c] == b) <==> place_covers(
            p,
            car,
            r,
            c,
        ))
}

/// Whether the cells holding `b` form some valid car.
pub open spec fn label_is_car(g: Seq<Seq<u8>>, b: u8) -> bool {
    exists|p: Position, car: Car| #[trigger] car_covers_label(g, b, p, car)
}

/// The grid character at a car's anchor: the character that names it.
pub open spec fn car_label(s: StateModel, g: Seq<Seq<u8>>, i: int) -> u8 {
    g[s.place(i).0.row as int][s.place(i).0.col as int]
}

/// How a parsed configuration corresponds to its character grid: matching
/// dimensions; every car's cells carry exactly its own naming character; a
/// cell is free exactly when it holds `.`; the objective car is named `o`
/// and stands first; the other cars are pairwise distinctly named and
/// ordered by ascending character; and every car is at least two long.
pub open spec fn state_matches_grid(s: StateModel, g: Seq<Seq<u8>>) -> bool {
    &&& s.rows == g.len()
    &&& s.cols == g[0].len()
    &&& s.cars.len() >= 1
    &&& forall|i: int|
        s.valid_index(i) ==> #[trigger] car_covers_label(g, car_label(s, g, i), s.place(i).0, s.place(i).1)
    &&& forall|r: int, c: int|
        s.on_grid(r, c) ==> ((#[trigger] g[r][c] == 46) <==> s.cell_free(r, c))
    &&& car_label(s, g, 1) == 111
    &&& forall|i: int, j: int|
        2 <= i < j <= s.cars.len() ==> #[trigger] car_label(s, g, i) < #[trigger] car_label(s, g, j)
    &&& forall|i: int| 2 <= i <= s.cars.len() ==> #[trigger] car_label(s, g, i) != 111
}

/// The accepted maps: a usable grid, an objective car, and every occurring
/// character shaping a valid car.
pub open spec fn map_accepted(g: Seq<Seq<u8>>) -> bool {
    &&& 1 <= g.len() <= 255
    &&& grid_rect(g)
    &&& g[0].len() <= 255
    &&& occurs(g, 111)
    &&& forall|b: u8| b != 46 && occurs(g, b) ==> #[trigger] label_is_car(g, b)
}

/// Which error a refused map reports.
pub open spec fn map_failure(g: Seq<Seq<u8>>, e: ConfigurationError) -> bool {
    if g.len() == 0 {
        e == ConfigurationError::EmptyBoard
    } else if !grid_rect(g) {
        e == ConfigurationError::RaggedRows
    } else if g.len() > 255 || g[0].len() > 255 {
        e == ConfigurationError::TooLarge
    } else if !occurs(g, 111) {
        e == ConfigurationError::NoObjective
    } else {
        e == ConfigurationError::BadCarShape && exists|b: u8|
            b != 46 && #[trigger] occurs(g, b) && !label_is_car(g, b)
    }
}

/// Executable check mirroring [`is_space`].
fn is_space_byte(b: u8) -> (r: bool)
    ensures
        r == is_space(b),
{
    b == 32 || b == 9 || b == 13
}

/// A copy of the line with both ends trimmed.
fn trimmed_vec(l: &Vec<u8>) -> (r: Vec<u8>)
    ensures
        r@ == trimmed(l@),
{
    let mut start: usize = 0;
    proof {
        assert(l@.skip(0) =~= l@);
    }
    while start < l.len() && is_space_byte(l[start])
        invariant
            start <= l.len(),
            strip_front(l@) == strip_front(l@.skip(start as int)),
        decreases l.len() - start,
    {
        proof {
            assert(l@.skip(start as int).drop_first() =~= l@.skip(start + 1 as int));
        }
        start += 1;
    }
    proof {
        if start < l@.len() {
            assert(!is_space(l@.skip(start as int)[0]));
        }
        assert(strip_front(l@) == l@.skip(start as int));
    }
    let mut end: usize = l.len();
    while end > start && is_space_byte(l[end - 1])
        invariant
            start <= end <= l.len(),
            strip_back(l@.skip(start as int)) == strip_back(
                l@.subrange(start as int, end as int),
            ),
        decreases end,
    {
        proof {
            assert(l@.subrange(start as int, end as int).drop_last() =~= l@.subrange(
                start as int,
                end - 1 as int,
            ));
            assert(l@.subrange(start as int, end as int).last() == l@[end - 1]);
        }
        end -= 1;
    }
    proof {
        assert(l@.skip(start as int) =~= l@.subrange(start as int, l@.len() as int));
        if end > start {
            assert(!is_space(l@.subrange(start as int, end as int).last()));
        }
        assert(trimmed(l@) == l@.subrange(start as int, end as int));
    }
    let mut r: Vec<u8> = Vec::new();
    let mut k: usize = start;
    while k < end
        invariant
            start <= k <= end <= l.len(),
            r@ == l@.subrange(start as int, k as int),
        decreases end - k,
    {
        r.push(l[k]);
        proof {
            assert(r@ =~= l@.subrange(start as int, k + 1 as int));
        }
        k += 1;
    }
    r
}

/// Splits a map text into its character grid: lines trimmed, blank lines
/// dropped, all rows equally wide, both dimensions between 1 and 255.
pub fn parse_grid(map: &str) -> (r: Result<Vec<Vec<u8>>, ConfigurationError>)
    ensures
        match r {
            Ok(g) => lines_model(g@) == grid_of(map.spec_bytes()) && grid_wf(
                grid_of(map.spec_bytes()),
            ),
            Err(e) => map_failure(grid_of(map.spec_bytes()), e) && (e
                == ConfigurationError::EmptyBoard || e == ConfigurationError::RaggedRows || e
                == ConfigurationError::TooLarge),
        },
{
    let bytes = map.as_bytes();
    let ghost bs = map.spec_bytes();

    let mut lines: Vec<Vec<u8>> = Vec::new();
    let mut cur: Vec<u8> = Vec::new();
    let mut i: usize = 0;
    proof {
        assert(bs.take(0) =~= Seq::<u8>::empty());
        assert(raw_lines(bs.take(0)) == seq![Seq::<u8>::empty()]);
        assert(raw_lines(bs.take(0)).drop_last() =~= Seq::<Seq<u8>>::empty());
        assert(lines_model(lines@) =~= tidy(raw_lines(bs.take(0)).drop_last()));
        assert(cur@ =~= raw_lines(bs.take(0)).last());
    }
    while i < bytes.len()
        invariant
            i <= bytes.len(),
            bytes@ == bs,
            lines_model(lines@) == tidy(raw_lines(bs.take(i as int)).drop_last()),
            cur@ == raw_lines(bs.take(i as int)).last(),
        decreases bytes.len() - i,
    {
        let ghost rawold = raw_lines(bs.take(i as int));
        let x = bytes[i];
        proof {
            lemma_raw_lines_nonempty(bs.take(i as int));
            lemma_raw_lines_nonempty(bs.take(i + 1 as int));
            assert(bs.take(i + 1 as int).drop_last() =~= bs.take(i as int));
            assert(bs.take(i + 1 as int).last() == bs[i as int]);
        }
        if x == 10 {
            proof {
                assert(raw_lines(bs.take(i + 1 as int)) =~= rawold.push(Seq::<u8>::empty()));
                assert(rawold.push(Seq::<u8>::empty()).drop_last() =~= rawold);
                // The line just completed contributes its trimmed text,
                // unless blank.
                assert(rawold.drop_last().push(rawold.last()) =~= rawold);
                assert(tidy(rawold) == tidy(rawold.drop_last()) + (if trimmed(rawold.last()).len()
                    == 0 {
                    Seq::<Seq<u8>>::empty()
                } else {
                    seq![trimmed(rawold.last())]
                }));
            }
            let t = trimmed_vec(&cur);
            if t.len() > 0 {
                lines.push(t);
                proof {
                    assert(lines_model(lines@) =~= tidy(rawold));
                }
            } else {
                proof {
                    assert(lines_model(lines@) =~= tidy(rawold));
                }
            }
            cur = Vec::new();
            proof {
                assert(cur@ =~= raw_lines(bs.take(i + 1 as int)).last());
            }
        } else {
            proof {
                let rawnew = raw_lines(bs.take(i + 1 as int));
                assert(rawnew == rawold.update(rawold.len() - 1, rawold.last().push(bs[i as int])));
                assert(rawnew.drop_last() =~= rawold.drop_last());
                assert(rawnew.last() == rawold.last().push(bs[i as int]));
            }
            cur.push(x);
        }
        i += 1;
    }
    proof {
        assert(bs.take(bs.len() as int) =~= bs);
        let raw = raw_lines(bs);
        lemma_raw_lines_nonempty(bs);
        assert(raw.drop_last().push(raw.last()) =~= raw);
        assert(tidy(raw) == tidy(raw.drop_last()) + (if trimmed(raw.last()).len() == 0 {
            Seq::<Seq<u8>>::empty()
        } else {
            seq![trimmed(raw.last())]
        }));
    }
    let t = trimmed_vec(&cur);
    if t.len() > 0 {
        lines.push(t);
    }
    proof {
        assert(lines_model(lines@) =~= grid_of(bs));
        lemma_tidy_rows_nonempty(raw_lines(bs));
    }
    let rows = lines.len();
    if rows == 0 {
        return Err(ConfigurationError::EmptyBoard);
    }
    let cols = lines[0].len();
    let mut q: usize = 1;
    while q < rows
        invariant
            bs == map.spec_bytes(),
            1 <= q <= rows,
            rows == lines@.len(),
            cols == lines@[0]@.len(),
            lines_model(lines@) == grid_of(bs),
            forall|r: int| 0 <= r < q ==> (#[trigger] lines@[r])@.len() == cols,
        decreases rows - q,
    {
        if lines[q].len() != cols {
            proof {
                assert(grid_of(bs)[q as int].len() != grid_of(bs)[0].len());
                assert(!grid_rect(grid_of(bs)));
            }
            return Err(ConfigurationError::RaggedRows);
        }
        q += 1;
    }
    proof {
        assert(grid_rect(grid_of(bs)));
    }
    if rows > 255 || cols > 255 {
        return Err(ConfigurationError::TooLarge);
    }
    proof {
        assert(grid_of(bs)[0].len() >= 1);
    }
    Ok(lines)
}

/// Whether `b` appears in the grid, by exhaustive scan.
fn occurs_in_grid(grid: &Vec<Vec<u8>>, b: u8) -> (r: bool)
    requires
        grid_wf(lines_model(grid@)),
    ensures
        r == occurs(lines_model(grid@), b),
{
    let ghost g = lines_model(grid@);
    let rows = grid.len();
    let mut rr: usize = 0;
    while rr < rows
        invariant
            g == lines_model(grid@),
            grid_wf(g),
            rows == grid@.len(),
            rr <= rows,
            forall|r: int, c: int| 0 <= r < rr && 0 <= c < g[r].len() ==> g[r][c] != b,
        decreases rows - rr,
    {
        let cols = grid[rr].len();
        let mut cc: usize = 0;
        while cc < cols
            invariant
                g == lines_model(grid@),
                grid_wf(g),
                rows == grid@.len(),
                rr < rows,
                cols == g[rr as int].len(),
                cc <= cols,
                forall|r: int, c: int| 0 <= r < rr && 0 <= c < g[r].len() ==> g[r][c] != b,
                forall|c: int| 0 <= c < cc ==> g[rr as int][c] != b,
            decreases cols - cc,
        {
            if grid[rr][cc] == b {
                proof {
                    assert(g[rr as int][cc as int] == b);
                    assert(occurs(g, b));
                }
                return true;
            }
            cc += 1;
        }
        rr += 1;
    }
    proof {
        assert(!occurs(g, b));
    }
    false
}

/// The row-major first cell holding `b`, with everything before it known
/// free of `b`.
fn first_cell(grid: &Vec<Vec<u8>>, b: u8) -> (res: Option<(u8, u8)>)
    requires
        grid_wf(lines_model(grid@)),
    ensures
        ({
            let g = lines_model(grid@);
            match res {
                Some(rc) => 0 <= rc.0 < g.len() && 0 <= rc.1 < g[0].len() && g[rc.0 as int][rc.1 as int]
                    == b && forall|r: int, c: int|
                    0 <= r < g.len() && 0 <= c < g[0].len() && (r < rc.0 || (r == rc.0 && c
                        < rc.1)) ==> g[r][c] != b,
                None => !occurs(g, b),
            }
        }),
{
    let ghost g = lines_model(grid@);
    let rows = grid.len();
    let mut rr: usize = 0;
    while rr < rows
        invariant
            g == lines_model(grid@),
            grid_wf(g),
            rows == grid@.len(),
            rr <= rows,
            forall|r: int, c: int| 0 <= r < rr && 0 <= c < g[0].len() ==> g[r][c] != b,
        decreases rows - rr,
    {
        let cols = grid[rr].len();
        let mut cc: usize = 0;
        while cc < cols
            invariant
                g == lines_model(grid@),
                grid_wf(g),
                rows == grid@.len(),
                rr < rows,
                cols == g[rr as int].len(),
                cc <= cols,
                forall|r: int, c: int| 0 <= r < rr && 0 <= c < g[0].len() ==> g[r][c] != b,
                forall|c: int| 0 <= c < cc ==> g[rr as int][c] != b,
            decreases cols - cc,
        {
            if grid[rr][cc] == b {
                return Some((rr as u8, cc as u8));
            }
            cc += 1;
        }
        rr += 1;
    }
    proof {
        assert(!occurs(g, b));
    }
    None
}

/// Whether the grid's `b` cells are exactly the given car's cells.
fn grid_matches_segment(grid: &Vec<Vec<u8>>, b: u8, p: Position, car: Car) -> (ok: bool)
    requires
        grid_wf(lines_model(grid@)),
    ensures
        ({
            let g = lines_model(grid@);
            ok == (forall|r: int, c: int|
                0 <= r < g.len() && 0 <= c < g[0].len() ==> ((#[trigger] g[r][c] == b)
                    <==> place_covers(p, car, r, c)))
        }),
{
    let ghost g = lines_model(grid@);
    let rows = grid.len();
    let mut rr: usize = 0;
    while rr < rows
        invariant
            g == lines_model(grid@),
            grid_wf(g),
            rows == grid@.len(),
            rr <= rows,
            forall|r: int, c: int|
                0 <= r < rr && 0 <= c < g[0].len() ==> ((#[trigger] g[r][c] == b) <==> place_covers(
                    p,
                    car,
                    r,
                    c,
                )),
        decreases rows - rr,
    {
        let cols = grid[rr].len();
        let mut cc: usize = 0;
        while cc < cols
            invariant
                g == lines_model(grid@),
                grid_wf(g),
                rows == grid@.len(),
                rr < rows,
                cols == g[rr as int].len(),
                cc <= cols,
                forall|r: int, c: int|
                    0 <= r < rr && 0 <= c < g[0].len() ==> ((#[trigger] g[r][c] == b)
                        <==> place_covers(p, car, r, c)),
                forall|c: int|
                    0 <= c < cc ==> ((#[trigger] g[rr as int][c] == b) <==> place_covers(
                        p,
                        car,
                        rr as int,
                        c,
                    )),
            decreases cols - cc,
        {
            let cell_is = grid[rr][cc] == b;
            let cov = crate::board::covers(p, car, rr as u8, cc as u8);
            if cell_is != cov {
                proof {
                    assert(!((g[rr as int][cc as int] == b) <==> place_covers(
                        p,
                        car,
                        rr as int,
                        cc as int,
                    )));
                }
                return false;
            }
            cc += 1;
        }
        rr += 1;
    }
    true
}

/// Reads one grid cell, the row width given by rectangularity.
fn cell(grid: &Vec<Vec<u8>>, r: usize, c: usize) -> (x: u8)
    requires
        grid_wf(lines_model(grid@)),
        r < grid@.len(),
        c < lines_model(grid@)[0].len(),
    ensures
        x == lines_model(grid@)[r as int][c as int],
{
    proof {
        assert(lines_model(grid@)[r as int] == grid@[r as int]@);
        assert(lines_model(grid@)[r as int].len() == lines_model(grid@)[0].len());
    }
    grid[r][c]
}

/// The row-major first cell of a label is the anchor of any car whose
/// cells are exactly that label's cells.
proof fn lemma_anchor_is_first(g: Seq<Seq<u8>>, b: u8, p: Position, car: Car, r0: int, c0: int)
    requires
        grid_wf(g),
        car_covers_label(g, b, p, car),
        0 <= r0 < g.len(),
        0 <= c0 < g[0].len(),
        g[r0][c0] == b,
        forall|r: int, c: int|
            0 <= r < g.len() && 0 <= c < g[0].len() && (r < r0 || (r == r0 && c < c0)) ==> g[r][c]
                != b,
    ensures
        p.row == r0,
        p.col == c0,
{
    assert(place_covers(p, car, p.row as int, p.col as int));
    assert(g[p.row as int][p.col as int] == b);
    assert(place_covers(p, car, r0, c0));
}

/// Finds the car that a label's cells form: its row-major first cell is
/// the anchor; the direction of its second cell fixes the orientation; the
/// run of label cells fixes the length; and a full-grid scan confirms that
/// no other cell holds the label. Any failure certifies that no car at all
/// has exactly this label's cells.
fn find_label_car(grid: &Vec<Vec<u8>>, b: u8) -> (r: Result<(Position, Car), ConfigurationError>)
    requires
        grid_wf(lines_model(grid@)),
        occurs(lines_model(grid@), b),
    ensures
        ({
            let g = lines_model(grid@);
            match r {
                Ok(pc) => car_covers_label(g, b, pc.0, pc.1),
                Err(e) => e == ConfigurationError::BadCarShape && !label_is_car(g, b),
            }
        }),
{
    let ghost g = lines_model(grid@);
    let rows = grid.len();
    let cols = grid[0].len();
    let (r0, c0) = match first_cell(grid, b) {
        Some(rc) => rc,
        None => {
            // unreachable: the label is required to occur
            proof {
                assert(false);
            }
            return Err(ConfigurationError::BadCarShape);
        },
    };
    let r0u = r0 as usize;
    let c0u = c0 as usize;
    let right_b = c0u + 1 < cols && cell(grid, r0u, c0u + 1) == b;
    let down_b = r0u + 1 < rows && cell(grid, r0u + 1, c0u) == b;
    if right_b {
        let mut len: usize = 2;
        while c0u + len < cols && cell(grid, r0u, c0u + len) == b
            invariant
                g == lines_model(grid@),
                grid_wf(g),
                rows == g.len(),
                cols == g[0].len(),
                r0u < rows,
                c0u < cols,
                2 <= len,
                c0u + len <= cols,
                forall|k: int| #![trigger g[r0u as int][c0u + k]] 0 <= k < len ==> g[r0u as int][c0u + k] == b,
            decreases cols - (c0u + len),
        {
            len += 1;
        }
        let p = Position { row: r0, col: c0 };
        let car = Car { length: len as u8, orientation: Orientation::LeftRight };
        if grid_matches_segment(grid, b, p, car) {
            Ok((p, car))
        } else {
            proof {
                let (wr, wc) = choose|wr: int, wc: int|
                    0 <= wr < g.len() && 0 <= wc < g[0].len() && !((g[wr][wc] == b)
                        <==> place_covers(p, car, wr, wc));
                if place_covers(p, car, wr, wc) {
                    let k = wc - c0u;
                    assert(g[r0u as int][c0u + k] == b);
                    assert(g[wr][wc] == b);
                }
                assert(g[wr][wc] == b && !place_covers(p, car, wr, wc));
                assert forall|p2: Position, car2: Car| !car_covers_label(g, b, p2, car2) by {
                    if car_covers_label(g, b, p2, car2) {
                        lemma_anchor_is_first(g, b, p2, car2, r0 as int, c0 as int);
                        match car2.orientation {
                            Orientation::LeftRight => {
                                assert(place_covers(p2, car2, wr, wc));
                                assert(wr == r0 && wc >= c0u + len);
                                assert(place_covers(p2, car2, r0 as int, c0u + len));
                                assert(g[r0 as int][c0u + len] == b);
                            },
                            Orientation::UpDown => {
                                assert(g[r0 as int][c0u + 1] == b);
                                assert(place_covers(p2, car2, r0 as int, c0u + 1));
                            },
                        }
                    }
                }
                assert(!label_is_car(g, b));
            }
            Err(ConfigurationError::BadCarShape)
        }
    } else if down_b {
        let mut len: usize = 2;
        while r0u + len < rows && cell(grid, r0u + len, c0u) == b
            invariant
                g == lines_model(grid@),
                grid_wf(g),
                rows == g.len(),
                cols == g[0].len(),
                r0u < rows,
                c0u < cols,
                2 <= len,
                r0u + len <= rows,
                forall|k: int| #![trigger g[r0u + k][c0u as int]] 0 <= k < len ==> g[r0u + k][c0u as int] == b,
            decreases rows - (r0u + len),
        {
            len += 1;
        }
        let p = Position { row: r0, col: c0 };
        let car = Car { length: len as u8, orientation: Orientation::UpDown };
        if grid_matches_segment(grid, b, p, car) {
            Ok((p, car))
        } else {
            proof {
                let (wr, wc) = choose|wr: int, wc: int|
                    0 <= wr < g.len() && 0 <= wc < g[0].len() && !((g[wr][wc] == b)
                        <==> place_covers(p, car, wr, wc));
                if place_covers(p, car, wr, wc) {
                    let k = wr - r0u;
                    assert(g[r0u + k][c0u as int] == b);
                    assert(g[wr][wc] == b);
                }
                assert(g[wr][wc] == b && !place_covers(p, car, wr, wc));
                assert forall|p2: Position, car2: Car| !car_covers_label(g, b, p2, car2) by {
                    if car_covers_label(g, b, p2, car2) {
                        lemma_anchor_is_first(g, b, p2, car2, r0 as int, c0 as int);
                        match car2.orientation {
                            Orientation::UpDown => {
                                assert(place_covers(p2, car2, wr, wc));
                                assert(wc == c0 && wr >= r0u + len);
                                assert(place_covers(p2, car2, r0u + len, c0 as int));
                                assert(g[r0u + len][c0 as int] == b);
                            },
                            Orientation::LeftRight => {
                                assert(g[r0u + 1][c0 as int] == b);
                                assert(place_covers(p2, car2, r0u + 1, c0 as int));
                            },
                        }
                    }
                }
                assert(!label_is_car(g, b));
            }
            Err(ConfigurationError::BadCarShape)
        }
    } else {
        proof {
            assert forall|p2: Position, car2: Car| !car_covers_label(g, b, p2, car2) by {
                if car_covers_label(g, b, p2, car2) {
                    lemma_anchor_is_first(g, b, p2, car2, r0 as int, c0 as int);
                    match car2.orientation {
                        Orientation::LeftRight => {
                            assert(place_covers(p2, car2, r0 as int, c0 + 1));
                            assert(c0 + 1 < g[0].len());
                            assert(g[r0 as int][c0 + 1] == b);
                        },
                        Orientation::UpDown => {
                            assert(place_covers(p2, car2, r0 + 1, c0 as int));
                            assert(r0 + 1 < g.len());
                            assert(g[r0 + 1][c0 as int] == b);
                        },
                    }
                }
            }
            assert(!label_is_car(g, b));
        }
        Err(ConfigurationError::BadCarShape)
    }
}

/// Builds the configuration a character grid describes: the objective car
/// `o` first, then every other occurring character's car in ascending
/// character order.
fn cars_from_grid(grid: &Vec<Vec<u8>>) -> (r: Result<State, ConfigurationError>)
    requires
        grid_wf(lines_model(grid@)),
    ensures
        ({
            let g = lines_model(grid@);
            match r {
                Ok(s) => s@.wf() && state_matches_grid(s@, g) && map_accepted(g),
                Err(e) => !map_accepted(g) && (if !occurs(g, 111) {
                    e == ConfigurationError::NoObjective
                } else {
                    e == ConfigurationError::BadCarShape && exists|b: u8|
                        b != 46 && #[trigger] occurs(g, b) && !label_is_car(g, b)
                }),
            }
        }),
{
    let ghost g = lines_model(grid@);
    let rows = grid.len();
    let cols = grid[0].len();
    if !occurs_in_grid(grid, 111) {
        return Err(ConfigurationError::NoObjective);
    }
    let mut state = match State::empty(rows as u8, cols as u8) {
        Ok(s) => s,
        Err(_) => {
            // unreachable: a well-formed grid has both dimensions positive
            proof {
                assert(false);
            }
            return Err(ConfigurationError::NoObjective);
        },
    };
    let (po, caro) = match find_label_car(grid, 111) {
        Ok(x) => x,
        Err(_) => {
            proof {
                assert(occurs(g, 111) && !label_is_car(g, 111));
                assert(exists|b: u8| b != 46 && #[trigger] occurs(g, b) && !label_is_car(g, b));
            }
            return Err(ConfigurationError::BadCarShape);
        },
    };
    match state.add_car(po, caro) {
        Ok(()) => {},
        Err(_) => {
            // unreachable: the car fits the empty board by construction
            proof {
                assert(false);
            }
            return Err(ConfigurationError::Overlap);
        },
    }
    let ghost mut labs: Seq<u8> = seq![111u8];
    let mut bv: usize = 0;
    while bv < 256
        invariant
            g == lines_model(grid@),
            grid_wf(g),
            rows == g.len(),
            cols == g[0].len(),
            bv <= 256,
            occurs(g, 111),
            car_covers_label(g, 111, po, caro),
            state@.wf(),
            state@.rows == rows,
            state@.cols == cols,
            state@.cars.len() == labs.len(),
            labs.len() >= 1,
            labs[0] == 111,
            forall|j: int|
                0 <= j < labs.len() ==> car_covers_label(
                    g,
                    labs[j],
                    (#[trigger] state@.cars[j]).0,
                    state@.cars[j].1,
                ),
            forall|j: int|
                1 <= j < labs.len() ==> (#[trigger] labs[j]) < bv && labs[j] != 111 && labs[j]
                    != 46,
            forall|j: int, k: int| 1 <= j < k < labs.len() ==> labs[j] < labs[k],
            forall|b2: u8|
                b2 != 46 && b2 != 111 && b2 < bv && #[trigger] occurs(g, b2) ==> labs.contains(b2),
        decreases 256 - bv,
    {
        let b = bv as u8;
        if b != 111 && b != 46 && occurs_in_grid(grid, b) {
            let (p2, car2) = match find_label_car(grid, b) {
                Ok(x) => x,
                Err(_) => {
                    proof {
                        assert(occurs(g, b) && !label_is_car(g, b));
                        assert(exists|b3: u8|
                            b3 != 46 && #[trigger] occurs(g, b3) && !label_is_car(g, b3));
                    }
                    return Err(ConfigurationError::BadCarShape);
                },
            };
            proof {
                assert forall|j: int, rr2: int, cc2: int|
                    state@.occupies(j, rr2, cc2) implies !place_covers(p2, car2, rr2, cc2) by {
                    if state@.occupies(j, rr2, cc2) && place_covers(p2, car2, rr2, cc2) {
                        assert(car_covers_label(
                            g,
                            labs[j - 1],
                            state@.cars[j - 1].0,
                            state@.cars[j - 1].1,
                        ));
                        assert(0 <= rr2 < g.len() && 0 <= cc2 < g[0].len());
                        assert(g[rr2][cc2] == labs[j - 1]);
                        assert(g[rr2][cc2] == b);
                    }
                }
            }
            let ghost pre = state@;
            match state.add_car(p2, car2) {
                Ok(()) => {},
                Err(_) => {
                    // unreachable: distinctly labelled cells cannot overlap
                    proof {
                        assert(false);
                    }
                    return Err(ConfigurationError::Overlap);
                },
            }
            proof {
                let labsold = labs;
                labs = labs.push(b);
                assert(state@.cars == pre.cars.push((p2, car2)));
                assert forall|j: int|
                    0 <= j < labs.len() implies car_covers_label(
                    g,
                    labs[j],
                    (#[trigger] state@.cars[j]).0,
                    state@.cars[j].1,
                ) by {
                    if j < labs.len() - 1 {
                        assert(state@.cars[j] == pre.cars[j]);
                        assert(labs[j] == labsold[j]);
                    }
                }
                assert forall|b2: u8|
                    b2 != 46 && b2 != 111 && b2 < bv + 1 && #[trigger] occurs(g, b2) implies labs
                    .contains(b2) by {
                    if b2 < bv {
                        assert(labsold.contains(b2));
                        let w = choose|w: int| 0 <= w < labsold.len() && labsold[w] == b2;
                        assert(labs[w] == b2);
                        assert(labs.contains(b2));
                    } else {
                        assert(b2 == b);
                        assert(labs.last() == b);
                    }
                }
            }
        } else {
            proof {
                assert forall|b2: u8|
                    b2 != 46 && b2 != 111 && b2 < bv + 1 && #[trigger] occurs(g, b2) implies labs
                    .contains(b2) by {
                    if b2 >= bv {
                        assert(b2 == b);
                        assert(!occurs(g, b));
                    }
                }
            }
        }
        bv += 1;
    }
    proof {
        let s = state@;
        // Every car's anchor cell carries its label, so the anchor's grid
        // character names the car.
        assert forall|i: int| s.valid_index(i) implies #[trigger] car_covers_label(
            g,
            car_label(s, g, i),
            s.place(i).0,
            s.place(i).1,
        ) by {
            assert(car_covers_label(g, labs[i - 1], s.cars[i - 1].0, s.cars[i - 1].1));
            let (pp, cc) = s.cars[i - 1];
            assert(place_covers(pp, cc, pp.row as int, pp.col as int));
            assert(g[pp.row as int][pp.col as int] == labs[i - 1]);
            assert(car_label(s, g, i) == labs[i - 1]);
        }
        assert(car_label(s, g, 1) == labs[0]);
        assert forall|i: int, j: int| 2 <= i < j <= s.cars.len() implies #[trigger] car_label(
            s,
            g,
            i,
        ) < #[trigger] car_label(s, g, j) by {
            assert(car_label(s, g, i) == labs[i - 1]);
            assert(car_label(s, g, j) == labs[j - 1]);
        }
        assert forall|i: int| 2 <= i <= s.cars.len() implies #[trigger] car_label(s, g, i)
            != 111 by {
            assert(car_label(s, g, i) == labs[i - 1]);
        }
        // A cell is free exactly when it holds '.'.
        assert forall|r2: int, c2: int| s.on_grid(r2, c2) implies ((#[trigger] g[r2][c2] == 46)
            <==> s.cell_free(r2, c2)) by {
            if g[r2][c2] == 46 {
                assert forall|i: int| !s.occupies(i, r2, c2) by {
                    if s.occupies(i, r2, c2) {
                        assert(car_covers_label(g, labs[i - 1], s.cars[i - 1].0, s.cars[i - 1].1));
                        assert(g[r2][c2] == labs[i - 1]);
                        assert(labs[i - 1] != 46);
                    }
                }
            } else {
                let b2 = g[r2][c2];
                assert(occurs(g, b2));
                if b2 == 111 {
                    assert(place_covers(po, caro, r2, c2));
                    assert(s.occupies(1, r2, c2));
                } else {
                    assert(labs.contains(b2));
                    let w = choose|w: int| 0 <= w < labs.len() && labs[w] == b2;
                    assert(car_covers_label(g, labs[w], s.cars[w].0, s.cars[w].1));
                    assert(place_covers(s.cars[w].0, s.cars[w].1, r2, c2));
                    assert(s.occupies(w + 1, r2, c2));
                }
                assert(!s.cell_free(r2, c2));
            }
        }
        // Every occurring character is some car's label.
        assert forall|b2: u8| b2 != 46 && occurs(g, b2) implies #[trigger] label_is_car(
            g,
            b2,
        ) by {
            if b2 == 111 {
                assert(car_covers_label(g, 111, po, caro));
            } else {
                assert(b2 < 256);
                assert(labs.contains(b2));
                let w = choose|w: int| 0 <= w < labs.len() && labs[w] == b2;
                assert(car_covers_label(g, labs[w], s.cars[w].0, s.cars[w].1));
            }
        }
        assert(state_matches_grid(s, g));
        assert(map_accepted(g));
    }
    Ok(state)
}

/// Parses a textual map into a board configuration. Rules:
/// 1. empty cells are `.`;
/// 2. the objective car is written `o` and gets index 1;
/// 3. every other car has its own character, indexed in ascending order;
/// 4. each car's cells form a straight segment of length at least two.
/// Any text not following this pattern is refused with the configuration
/// error naming the first rule it breaks.
pub fn parse_map(map: &str) -> (r: Result<State, ConfigurationError>)
    ensures
        ({
            let g = grid_of(map.spec_bytes());
            match r {
                Ok(s) => map_accepted(g) && s@.wf() && state_matches_grid(s@, g),
                Err(e) => !map_accepted(g) && map_failure(g, e),
            }
        }),
{
    let grid = match parse_grid(map) {
        Ok(gr) => gr,
        Err(e) => {
            return Err(e);
        },
    };
    match cars_from_grid(&grid) {
        Ok(s) => Ok(s),
        Err(e) => Err(e),
    }
}

} // verus!
