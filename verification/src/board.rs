//! The board: the settled cells, full-row detection and compaction.

use vstd::prelude::*;
use crate::grid::{in_field, HEIGHT, WIDTH};
use crate::segment::{cells_of, covers, distinct, ghost_color, occupied, Cell, Segment};
use crate::tetromino::Tetromino;

verus! {

/// The cells that have landed. No two of them share a position, and all of
/// them lie in the visible field.
pub struct Board {
    cells: Vec<Segment>,
    /// Derived from `cells`, and computed anew whenever they change.
    ghost_layer: Vec<Segment>,
}

/// The board refused cells that would break its invariant: one outside the
/// visible field, or one on a position that is already taken.
#[derive(Debug, Clone, Copy, PartialEq, Eq, Structural)]
pub struct InvariantViolation;

/// The invariant of the settled cells: every one lies in the visible field,
/// and no two share a position.
pub open spec fn settled_ok(cells: Seq<Cell>) -> bool {
    &&& forall|i: int| 0 <= i < cells.len() ==> in_field((#[trigger] cells[i]).x, cells[i].y)
    &&& distinct(cells)
}

/// The test for lying in row `y`.
pub open spec fn in_row(y: int) -> spec_fn(Cell) -> bool {
    |c: Cell| c.y == y
}

/// How many cells lie in row `y`.
pub open spec fn row_count(cells: Seq<Cell>, y: int) -> nat {
    cells.filter(in_row(y)).len()
}

/// Whether row `y` is full: it holds as many cells as the field has columns.
pub open spec fn full_row(cells: Seq<Cell>, y: int) -> bool {
    row_count(cells, y) == WIDTH
}

/// How many of the rows `lo`, ..., `hi - 1` are full.
pub open spec fn full_rows(cells: Seq<Cell>, lo: int, hi: int) -> nat
    decreases hi - lo,
{
    if lo >= hi {
        0
    } else if full_row(cells, lo) {
        1 + full_rows(cells, lo + 1, hi)
    } else {
        full_rows(cells, lo + 1, hi)
    }
}

/// The test for surviving a compaction of `all`: to lie in no full row.
pub open spec fn stays(all: Seq<Cell>) -> spec_fn(Cell) -> bool {
    |c: Cell| !full_row(all, c.y)
}

/// The cell `c` after a compaction of `all`: it has fallen by as many rows
/// as there are full rows below it.
pub open spec fn fallen(all: Seq<Cell>, c: Cell) -> Cell {
    Cell { x: c.x, y: c.y + full_rows(all, c.y + 1, HEIGHT as int), color: c.color }
}

/// The cells of `part` that survive a compaction of `all`, each one fallen
/// into its new row, in their old order.
pub open spec fn survivors(part: Seq<Cell>, all: Seq<Cell>) -> Seq<Cell> {
    part.filter(stays(all)).map_values(|c: Cell| fallen(all, c))
}

/// Whether `cell` is a cell of `part` that survives a compaction of `all`,
/// fallen into its new row.
pub open spec fn fell_from(part: Seq<Cell>, all: Seq<Cell>, cell: Cell) -> bool {
    exists|i: int|
        0 <= i < part.len() && !full_row(all, (#[trigger] part[i]).y) && cell == fallen(
            all,
            part[i],
        )
}

/// The cells after every full row is cleared and the cells above each
/// cleared row have fallen by one row for it.
pub open spec fn compacted(cells: Seq<Cell>) -> Seq<Cell> {
    survivors(cells, cells)
}

/// Whether there is no room for a piece: one of its cells lies in the top
/// row, on a position that a settled cell has taken.
pub open spec fn ceiling_hit(cells: Seq<Cell>, body: Seq<Cell>) -> bool {
    exists|i: int|
        0 <= i < body.len() && (#[trigger] body[i]).y == 0 && occupied(cells, body[i].x, 0)
}

/// The topmost settled row of column `x`: the smallest row of a cell in
/// that column, and `HEIGHT` where the column holds none above the floor.
pub open spec fn top_of(cells: Seq<Cell>, x: int) -> int
    decreases cells.len(),
{
    if cells.len() == 0 {
        HEIGHT as int
    } else {
        let rest = top_of(cells.drop_last(), x);
        let c = cells.last();
        if c.x == x && c.y < rest {
            c.y
        } else {
            rest
        }
    }
}

/// The ghost layer over the first `columns` columns: for each column that
/// holds a settled cell, one ghost cell directly above the topmost one, in
/// the order of the columns.
pub open spec fn skyline(cells: Seq<Cell>, columns: int) -> Seq<Cell>
    decreases columns,
{
    if columns <= 0 {
        Seq::empty()
    } else {
        let rest = skyline(cells, columns - 1);
        let top = top_of(cells, columns - 1);
        if top < HEIGHT {
            rest.push(Cell { x: columns - 1, y: top - 1, color: ghost_color() })
        } else {
            rest
        }
    }
}

/// The topmost row of a column is the row of a cell in that column, and no
/// cell of the column lies above it.
pub proof fn lemma_top_of(cells: Seq<Cell>, x: int)
    ensures
        top_of(cells, x) <= HEIGHT,
        top_of(cells, x) < HEIGHT ==> occupied(cells, x, top_of(cells, x)),
        forall|j: int|
            0 <= j < cells.len() && (#[trigger] cells[j]).x == x ==> top_of(cells, x)
                <= cells[j].y,
    decreases cells.len(),
{
    if cells.len() > 0 {
        let front = cells.drop_last();
        let c = cells.last();
        lemma_top_of(front, x);
        assert forall|j: int| 0 <= j < cells.len() && (#[trigger] cells[j]).x == x implies top_of(
            cells,
            x,
        ) <= cells[j].y by {
            if j < front.len() {
                assert(front[j] == cells[j]);
            }
        }
        if top_of(cells, x) < HEIGHT {
            if c.x == x && c.y < top_of(front, x) {
                assert(cells[cells.len() - 1] == c);
            } else {
                let j = choose|j: int|
                    0 <= j < front.len() && (#[trigger] front[j]).x == x && front[j].y == top_of(
                        front,
                        x,
                    );
                assert(cells[j] == front[j]);
            }
        }
    }
}

/// Every ghost cell lies directly above a settled cell, in a column of the
/// field.
pub proof fn lemma_skyline_rests(cells: Seq<Cell>, columns: int)
    ensures
        forall|k: int|
            0 <= k < skyline(cells, columns).len() ==> occupied(
                cells,
                (#[trigger] skyline(cells, columns)[k]).x,
                skyline(cells, columns)[k].y + 1,
            ) && 0 <= skyline(cells, columns)[k].x < columns,
        skyline(cells, columns).len() <= if columns > 0 {
            columns
        } else {
            0
        },
    decreases columns,
{
    if columns > 0 {
        lemma_skyline_rests(cells, columns - 1);
        lemma_top_of(cells, columns - 1);
        let rest = skyline(cells, columns - 1);
        let now = skyline(cells, columns);
        assert forall|k: int| 0 <= k < now.len() implies occupied(
            cells,
            (#[trigger] now[k]).x,
            now[k].y + 1,
        ) && 0 <= now[k].x < columns by {
            if k < rest.len() {
                assert(now[k] == rest[k]);
            }
        }
    }
}

/// Adding a cell to a sequence adds one to the count of its row, and
/// nothing to any other.
pub proof fn lemma_row_count_push(cells: Seq<Cell>, c: Cell, y: int)
    ensures
        row_count(cells.push(c), y) == row_count(cells, y) + if c.y == y {
            1nat
        } else {
            0nat
        },
{
    reveal(Seq::filter);
    assert(cells.push(c).drop_last() =~= cells);
}

/// Counting full rows over a range is counting over its two halves.
pub proof fn lemma_full_rows_split(cells: Seq<Cell>, lo: int, mid: int, hi: int)
    requires
        lo <= mid <= hi,
    ensures
        full_rows(cells, lo, hi) == full_rows(cells, lo, mid) + full_rows(cells, mid, hi),
    decreases mid - lo,
{
    if lo < mid {
        lemma_full_rows_split(cells, lo + 1, mid, hi);
    }
}

/// A range of rows holds no more full rows than rows.
pub proof fn lemma_full_rows_bound(cells: Seq<Cell>, lo: int, hi: int)
    requires
        lo <= hi,
    ensures
        full_rows(cells, lo, hi) <= hi - lo,
    decreases hi - lo,
{
    if lo < hi {
        lemma_full_rows_bound(cells, lo + 1, hi);
    }
}

/// Compaction keeps the rows in order: of two rows, the upper one that
/// falls stays above the lower one, where the lower one is not cleared.
pub proof fn lemma_fall_keeps_order(all: Seq<Cell>, upper: int, lower: int)
    requires
        upper < lower < HEIGHT,
        !full_row(all, lower),
    ensures
        upper + full_rows(all, upper + 1, HEIGHT as int) < lower + full_rows(
            all,
            lower + 1,
            HEIGHT as int,
        ),
{
    lemma_full_rows_split(all, upper + 1, lower, HEIGHT as int);
    lemma_full_rows_bound(all, upper + 1, lower);
}

/// What one more cell adds to the survivors: nothing if its row is full,
/// else the fallen cell, at the end.
pub proof fn lemma_survivors_push(part: Seq<Cell>, c: Cell, all: Seq<Cell>)
    ensures
        survivors(part.push(c), all) == if full_row(all, c.y) {
            survivors(part, all)
        } else {
            survivors(part, all).push(fallen(all, c))
        },
{
    reveal(Seq::filter);
    assert(part.push(c).drop_last() =~= part);
    if full_row(all, c.y) {
        assert(survivors(part.push(c), all) =~= survivors(part, all));
    } else {
        assert(survivors(part.push(c), all) =~= survivors(part, all).push(fallen(all, c)));
    }
}

/// The survivors of cells that obey the board's invariant obey it too, and
/// each of them is a cell of a row that is not full, fallen.
pub proof fn lemma_survivors_ok(part: Seq<Cell>, all: Seq<Cell>)
    requires
        settled_ok(part),
    ensures
        settled_ok(survivors(part, all)),
        forall|k: int|
            0 <= k < survivors(part, all).len() ==> fell_from(
                part,
                all,
                #[trigger] survivors(part, all)[k],
            ),
    decreases part.len(),
{
    reveal(Seq::filter);
    if part.len() > 0 {
        let front = part.drop_last();
        let c = part.last();
        assert(part =~= front.push(c));
        assert forall|i: int| 0 <= i < front.len() implies front[i] == part[i] by {}
        assert(settled_ok(front)) by {
            assert forall|i: int, j: int| 0 <= i < j < front.len() implies !((
            #[trigger] front[i]).x == (#[trigger] front[j]).x && front[i].y == front[j].y) by {
                assert(front[i] == part[i] && front[j] == part[j]);
            }
            assert forall|i: int| 0 <= i < front.len() implies in_field(
                (#[trigger] front[i]).x,
                front[i].y,
            ) by {
                assert(front[i] == part[i]);
            }
        }
        lemma_survivors_ok(front, all);
        lemma_survivors_push(front, c, all);
        let before = survivors(front, all);
        let after = survivors(part, all);
        assert(in_field(c.x, c.y)) by {
            assert(part[part.len() - 1] == c);
        }
        if full_row(all, c.y) {
            assert(after == before);
            assert forall|k: int| 0 <= k < after.len() implies fell_from(
                part,
                all,
                #[trigger] after[k],
            ) by {
                assert(fell_from(front, all, before[k]));
                let i = choose|i: int|
                    0 <= i < front.len() && !full_row(all, (#[trigger] front[i]).y) && before[k]
                        == fallen(all, front[i]);
                assert(part[i] == front[i]);
            }
        } else {
            let landed = fallen(all, c);
            assert(after == before.push(landed));
            lemma_full_rows_bound(all, c.y + 1, HEIGHT as int);
            assert(in_field(landed.x, landed.y));
            assert forall|k: int| 0 <= k < after.len() implies fell_from(
                part,
                all,
                #[trigger] after[k],
            ) by {
                if k < before.len() {
                    assert(fell_from(front, all, before[k]));
                    let i = choose|i: int|
                        0 <= i < front.len() && !full_row(all, (#[trigger] front[i]).y)
                            && before[k] == fallen(all, front[i]);
                    assert(part[i] == front[i]);
                    assert(after[k] == before[k]);
                } else {
                    assert(part[part.len() - 1] == c);
                }
            }
            assert forall|k: int| 0 <= k < before.len() implies !((#[trigger] before[k]).x
                == landed.x && before[k].y == landed.y) by {
                assert(fell_from(front, all, before[k]));
                let i = choose|i: int|
                    0 <= i < front.len() && !full_row(all, (#[trigger] front[i]).y) && before[k]
                        == fallen(all, front[i]);
                let d = front[i];
                assert(part[i] == d && part[part.len() - 1] == c);
                assert(in_field(d.x, d.y));
                if d.x == c.x {
                    if d.y < c.y {
                        lemma_fall_keeps_order(all, d.y, c.y);
                    } else {
                        lemma_fall_keeps_order(all, c.y, d.y);
                    }
                }
            }
            assert forall|i: int, j: int| 0 <= i < j < after.len() implies !((
            #[trigger] after[i]).x == (#[trigger] after[j]).x && after[i].y == after[j].y) by {
                if j < before.len() {
                    assert(after[i] == before[i] && after[j] == before[j]);
                } else {
                    assert(after[i] == before[i] && after[j] == landed);
                }
            }
            assert forall|k: int| 0 <= k < after.len() implies in_field(
                (#[trigger] after[k]).x,
                after[k].y,
            ) by {
                if k < before.len() {
                    assert(after[k] == before[k]);
                }
            }
        }
    } else {
        assert(survivors(part, all) =~= Seq::<Cell>::empty());
    }
}

/// A row that is not full keeps its cells through the compaction: the row
/// that it falls into holds as many cells afterwards as it held before.
pub proof fn lemma_row_survives(part: Seq<Cell>, all: Seq<Cell>, y: int)
    requires
        forall|i: int| 0 <= i < part.len() ==> 0 <= (#[trigger] part[i]).y < HEIGHT,
        0 <= y < HEIGHT,
        !full_row(all, y),
    ensures
        row_count(survivors(part, all), y + full_rows(all, y + 1, HEIGHT as int)) == row_count(
            part,
            y,
        ),
    decreases part.len(),
{
    reveal(Seq::filter);
    let target = y + full_rows(all, y + 1, HEIGHT as int);
    if part.len() > 0 {
        let front = part.drop_last();
        let c = part.last();
        assert(part =~= front.push(c));
        assert forall|i: int| 0 <= i < front.len() implies 0 <= (#[trigger] front[i]).y
            < HEIGHT by {
            assert(front[i] == part[i]);
        }
        assert(0 <= c.y < HEIGHT) by {
            assert(part[part.len() - 1] == c);
        }
        lemma_row_survives(front, all, y);
        lemma_survivors_push(front, c, all);
        lemma_row_count_push(front, c, y);
        if !full_row(all, c.y) {
            lemma_row_count_push(survivors(front, all), fallen(all, c), target);
            if c.y < y {
                lemma_fall_keeps_order(all, c.y, y);
            } else if y < c.y {
                lemma_fall_keeps_order(all, y, c.y);
            }
        }
    } else {
        assert(survivors(part, all) =~= Seq::<Cell>::empty());
    }
}

/// A row into which no surviving row falls is empty after the compaction.
pub proof fn lemma_row_left_empty(part: Seq<Cell>, all: Seq<Cell>, target: int)
    requires
        forall|i: int| 0 <= i < part.len() ==> 0 <= (#[trigger] part[i]).y < HEIGHT,
        forall|y: int|
            0 <= y < HEIGHT && !(#[trigger] full_row(all, y)) ==> y + full_rows(
                all,
                y + 1,
                HEIGHT as int,
            ) != target,
    ensures
        row_count(survivors(part, all), target) == 0,
    decreases part.len(),
{
    reveal(Seq::filter);
    if part.len() > 0 {
        let front = part.drop_last();
        let c = part.last();
        assert(part =~= front.push(c));
        assert forall|i: int| 0 <= i < front.len() implies 0 <= (#[trigger] front[i]).y
            < HEIGHT by {
            assert(front[i] == part[i]);
        }
        assert(0 <= c.y < HEIGHT) by {
            assert(part[part.len() - 1] == c);
        }
        lemma_row_left_empty(front, all, target);
        lemma_survivors_push(front, c, all);
        if !full_row(all, c.y) {
            lemma_row_count_push(survivors(front, all), fallen(all, c), target);
        }
    } else {
        assert(survivors(part, all) =~= Seq::<Cell>::empty());
    }
}

/// The landing law: a compaction of cells that obey the board's invariant
/// leaves no two cells on one position, none outside the field, and no row
/// full.
pub proof fn lemma_compacted_ok(all: Seq<Cell>)
    requires
        settled_ok(all),
    ensures
        settled_ok(compacted(all)),
        forall|y: int| !full_row(compacted(all), y),
{
    lemma_survivors_ok(all, all);
    assert forall|t: int| !full_row(compacted(all), t) by {
        if exists|y: int|
            0 <= y < HEIGHT && !(#[trigger] full_row(all, y)) && y + full_rows(
                all,
                y + 1,
                HEIGHT as int,
            ) == t {
            let y = choose|y: int|
                0 <= y < HEIGHT && !(#[trigger] full_row(all, y)) && y + full_rows(
                    all,
                    y + 1,
                    HEIGHT as int,
                ) == t;
            lemma_row_survives(all, all, y);
        } else {
            lemma_row_left_empty(all, all, t);
        }
    }
}

impl View for Board {
    type V = Seq<Cell>;

    closed spec fn view(&self) -> Seq<Cell> {
        cells_of(self.cells@)
    }
}

/// The topmost settled row of column `x`.
fn column_top(cells: &Vec<Segment>, x: i16) -> (top: i16)
    ensures
        top == top_of(cells_of(cells@), x as int),
{
    let ghost all = cells_of(cells@);
    let mut top: i16 = HEIGHT;
    let mut i: usize = 0;
    assert(all.take(0) =~= Seq::<Cell>::empty());
    while i < cells.len()
        invariant
            i <= cells.len(),
            all == cells_of(cells@),
            top == top_of(all.take(i as int), x as int),
        decreases cells.len() - i,
    {
        assert(all.take(i + 1).drop_last() =~= all.take(i as int));
        assert(all.take(i + 1).last() == cells@[i as int]@);
        if cells[i].x == x && cells[i].y < top {
            top = cells[i].y;
        }
        i += 1;
    }
    assert(all.take(i as int) =~= all);
    top
}

/// The ghost layer of the given settled cells.
fn surface(cells: &Vec<Segment>) -> (ghosts: Vec<Segment>)
    requires
        settled_ok(cells_of(cells@)),
    ensures
        cells_of(ghosts@) == skyline(cells_of(cells@), WIDTH as int),
{
    let ghost all = cells_of(cells@);
    let mut ghosts: Vec<Segment> = Vec::new();
    let mut x: i16 = 0;
    assert(cells_of(ghosts@) =~= skyline(all, 0));
    while x < WIDTH
        invariant
            0 <= x <= WIDTH,
            all == cells_of(cells@),
            settled_ok(all),
            cells_of(ghosts@) == skyline(all, x as int),
        decreases WIDTH - x,
    {
        let top = column_top(cells, x);
        proof {
            lemma_top_of(all, x as int);
            if top < HEIGHT {
                let j = choose|j: int|
                    0 <= j < all.len() && (#[trigger] all[j]).x == x && all[j].y == top;
                assert(in_field(all[j].x, all[j].y));
            }
        }
        if top < HEIGHT {
            let above = Segment::new((x, top), (0, 0, 0, 0)).add_ghost_layer();
            ghosts.push(above);
            assert(cells_of(ghosts@) =~= skyline(all, x as int).push(above@));
        }
        x += 1;
    }
    ghosts
}

impl Board {
    /// The cells of the ghost layer, one above the topmost settled cell of
    /// each column that holds one.
    pub closed spec fn ghosts(&self) -> Seq<Cell> {
        cells_of(self.ghost_layer@)
    }

    /// The invariant of the board: the settled cells lie in the field, no two
    /// on one position, and the ghost layer is the one of these cells.
    pub open spec fn wf(&self) -> bool {
        &&& settled_ok(self@)
        &&& self.ghosts() == skyline(self@, WIDTH as int)
    }

    /// An empty board.
    pub fn new() -> (board: Self)
        ensures
            board@ == Seq::<Cell>::empty(),
            board.wf(),
    {
        let cells: Vec<Segment> = Vec::new();
        assert(cells_of(cells@) =~= Seq::<Cell>::empty());
        let ghost_layer = surface(&cells);
        Board { cells, ghost_layer }
    }

    /// The ghost layer: for each column that holds a settled cell, the cell
    /// directly above the topmost one.
    pub fn ghost_layer(&self) -> (ghosts: &Vec<Segment>)
        ensures
            cells_of(ghosts@) == self.ghosts(),
            self.wf() ==> cells_of(ghosts@) == skyline(self@, WIDTH as int),
    {
        &self.ghost_layer
    }

    /// The settled segments, in the order in which they settled.
    pub fn cells(&self) -> (cells: &Vec<Segment>)
        ensures
            cells_of(cells@) == self@,
    {
        &self.cells
    }

    /// Membership test against settled cells.
    pub fn is_occupied(&self, pos: (i16, i16)) -> (found: bool)
        ensures
            found == occupied(self@, pos.0 as int, pos.1 as int),
    {
        covers(&self.cells, pos.0, pos.1)
    }

    /// True iff the count of settled cells with that row equals `WIDTH`.
    pub fn has_full_row(&self, y: i16) -> (full: bool)
        ensures
            full == full_row(self@, y as int),
    {
        let ghost all = self@;
        let mut count: usize = 0;
        let mut i: usize = 0;
        assert(all.take(0) =~= Seq::<Cell>::empty());
        proof {
            reveal(Seq::filter);
        }
        while i < self.cells.len()
            invariant
                i <= self.cells.len(),
                all == cells_of(self.cells@),
                count == row_count(all.take(i as int), y as int),
                count <= i,
            decreases self.cells.len() - i,
        {
            proof {
                assert(all.take(i + 1) =~= all.take(i as int).push(all[i as int]));
                lemma_row_count_push(all.take(i as int), all[i as int], y as int);
            }
            if self.cells[i].y == y {
                count += 1;
            }
            i += 1;
        }
        assert(all.take(i as int) =~= all);
        count == WIDTH as usize
    }

    /// Moves the given cells into the settled set, all of them or none. The
    /// cells are refused where the board with them would break its
    /// invariant; the board is then left as it was.
    pub fn settle(&mut self, cells: &Vec<Segment>) -> (done: Result<(), InvariantViolation>)
        requires
            old(self).wf(),
        ensures
            done is Ok <==> settled_ok(old(self)@ + cells_of(cells@)),
            done is Ok ==> final(self)@ == old(self)@ + cells_of(cells@),
            done is Err ==> final(self)@ == old(self)@,
            final(self).wf(),
    {
        let ghost before = self@;
        let ghost fresh = cells_of(cells@);
        let held: usize = self.cells.len();
        let mut i: usize = 0;
        assert(before + fresh.take(0) =~= before);
        while i < cells.len()
            invariant
                i <= cells.len(),
                held == before.len(),
                before == old(self)@,
                settled_ok(before),
                self.cells.len() == held + i,
                self.ghost_layer == old(self).ghost_layer,
                old(self).wf(),
                fresh == cells_of(cells@),
                cells_of(self.cells@) == before + fresh.take(i as int),
                settled_ok(before + fresh.take(i as int)),
            decreases cells.len() - i,
        {
            let seg = cells[i];
            let ghost staged = before + fresh.take(i as int);
            let ghost whole = before + fresh;
            assert(whole[held + i] == seg@);
            let inside = 0 <= seg.x && seg.x < WIDTH && 0 <= seg.y && seg.y < HEIGHT;
            if !inside || covers(&self.cells, seg.x, seg.y) {
                proof {
                    if inside {
                        let j = choose|j: int|
                            0 <= j < staged.len() && (#[trigger] staged[j]).x == seg.x
                                && staged[j].y == seg.y;
                        assert(whole[j] == staged[j]);
                    }
                    assert(!settled_ok(whole));
                }
                let ghost grown = self.cells@;
                self.cells.truncate(held);
                assert(self.cells@ == grown.subrange(0, held as int));
                assert(self@ =~= before) by {
                    assert forall|k: int| 0 <= k < held implies cells_of(self.cells@)[k]
                        == before[k] by {
                        assert(cells_of(grown)[k] == staged[k]);
                    }
                }
                return Err(InvariantViolation);
            }
            self.cells.push(seg);
            proof {
                assert(staged.push(seg@) =~= before + fresh.take(i + 1));
                assert(cells_of(self.cells@) =~= staged.push(seg@));
                let next = staged.push(seg@);
                assert forall|a: int, b: int| 0 <= a < b < next.len() implies !((
                #[trigger] next[a]).x == (#[trigger] next[b]).x && next[a].y == next[b].y) by {
                    if b < staged.len() {
                        assert(next[a] == staged[a] && next[b] == staged[b]);
                    } else {
                        assert(next[a] == staged[a]);
                    }
                }
                assert forall|a: int| 0 <= a < next.len() implies in_field(
                    (#[trigger] next[a]).x,
                    next[a].y,
                ) by {
                    if a < staged.len() {
                        assert(next[a] == staged[a]);
                    }
                }
            }
            i += 1;
        }
        assert(fresh.take(i as int) =~= fresh);
        self.ghost_layer = surface(&self.cells);
        Ok(())
    }

    /// Removes every full row's cells and lets every settled cell above a
    /// cleared row fall by one row for it. Returns the count of rows
    /// cleared. Afterwards no row is full.
    pub fn clear_and_compact(&mut self) -> (rows_cleared: u32)
        requires
            old(self).wf(),
        ensures
            final(self)@ == compacted(old(self)@),
            rows_cleared == full_rows(old(self)@, 0, HEIGHT as int),
            final(self).wf(),
            forall|y: int| !full_row(final(self)@, y),
    {
        let ghost all = self@;
        let rows: usize = HEIGHT as usize;
        let mut full: Vec<bool> = Vec::new();
        let mut r: usize = 0;
        while r < rows
            invariant
                r <= rows,
                rows == HEIGHT,
                all == self@,
                full.len() == r,
                forall|k: int| 0 <= k < r ==> (#[trigger] full@[k]) == full_row(all, k),
            decreases rows - r,
        {
            let is_full = self.has_full_row(r as i16);
            full.push(is_full);
            r += 1;
        }
        // drops[k], once filled in, is the number of full rows below row k
        let mut drops: Vec<i16> = Vec::new();
        let mut k: usize = 0;
        while k < rows
            invariant
                k <= rows,
                drops.len() == k,
            decreases rows - k,
        {
            drops.push(0);
            k += 1;
        }
        let mut below: i16 = 0;
        let mut r: usize = rows;
        while r > 0
            invariant
                r <= rows,
                rows == HEIGHT,
                drops.len() == rows,
                full.len() == rows,
                forall|k: int| 0 <= k < rows ==> (#[trigger] full@[k]) == full_row(all, k),
                below == full_rows(all, r as int, HEIGHT as int),
                0 <= below <= rows - r,
                forall|k: int|
                    r <= k < rows ==> (#[trigger] drops@[k]) == full_rows(
                        all,
                        k + 1,
                        HEIGHT as int,
                    ),
            decreases r,
        {
            r -= 1;
            drops.set(r, below);
            if full[r] {
                below += 1;
            }
        }
        let mut kept: Vec<Segment> = Vec::new();
        let mut i: usize = 0;
        assert(all.take(0) =~= Seq::<Cell>::empty());
        assert(survivors(all.take(0), all) =~= Seq::<Cell>::empty()) by {
            reveal(Seq::filter);
        }
        while i < self.cells.len()
            invariant
                i <= self.cells.len(),
                rows == HEIGHT,
                all == cells_of(self.cells@),
                settled_ok(all),
                drops.len() == rows,
                full.len() == rows,
                forall|k: int| 0 <= k < rows ==> (#[trigger] full@[k]) == full_row(all, k),
                forall|k: int|
                    0 <= k < rows ==> (#[trigger] drops@[k]) == full_rows(
                        all,
                        k + 1,
                        HEIGHT as int,
                    ),
                cells_of(kept@) == survivors(all.take(i as int), all),
            decreases self.cells.len() - i,
        {
            let seg = self.cells[i];
            proof {
                assert(all[i as int] == seg@);
                assert(in_field(all[i as int].x, all[i as int].y));
                assert(all.take(i + 1) =~= all.take(i as int).push(seg@));
                lemma_survivors_push(all.take(i as int), seg@, all);
                lemma_full_rows_bound(all, seg.y + 1, HEIGHT as int);
            }
            let row: usize = seg.y as usize;
            if !full[row] {
                let landed = Segment { x: seg.x, y: seg.y + drops[row], color: seg.color };
                assert(landed@ == fallen(all, seg@));
                kept.push(landed);
                assert(cells_of(kept@) =~= survivors(all.take(i as int), all).push(landed@));
            }
            i += 1;
        }
        assert(all.take(i as int) =~= all);
        proof {
            lemma_compacted_ok(all);
        }
        self.ghost_layer = surface(&kept);
        self.cells = kept;
        below as u32
    }

    /// True iff the piece has a cell in the top row that lies on a settled
    /// cell.
    pub fn hit_ceiling(&self, piece: &Tetromino) -> (hit: bool)
        ensures
            hit == ceiling_hit(self@, piece@.body),
    {
        let ghost body = piece@.body;
        let mut i: usize = 0;
        while i < piece.body.len()
            invariant
                i <= piece.body.len(),
                body == cells_of(piece.body@),
                forall|k: int|
                    0 <= k < i ==> !((#[trigger] body[k]).y == 0 && occupied(self@, body[k].x, 0)),
            decreases piece.body.len() - i,
        {
            let seg = piece.body[i];
            assert(body[i as int] == seg@);
            if seg.y == 0 && covers(&self.cells, seg.x, 0) {
                return true;
            }
            i += 1;
        }
        false
    }
}

} // verus!
