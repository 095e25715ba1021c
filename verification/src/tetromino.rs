//! The active piece: its geometry and its motion against the settled field.

use vstd::prelude::*;
use crate::grid::{HEIGHT, WIDTH};
use crate::random::random_in_range;
use crate::segment::{cells_of, covers, distinct, occupied, representable, Cell, Segment};
use crate::shape::{color_of, generate, layout, positions_of, Shape};

verus! {

/// Represents a motion of a piece.
#[derive(Debug, Clone, Copy, PartialEq, Eq, Structural)]
pub enum Motion {
    Left,
    Right,
    RotateLeft,
    RotateRight,
}

/// The mathematical value of a piece: its shape and its cells, in
/// generation order.
pub struct Piece {
    pub shape: Shape,
    pub body: Seq<Cell>,
}

/// Represents a single piece that has a shape and body made out of segments.
#[derive(Clone, Debug)]
pub struct Tetromino {
    pub shape: Shape,
    pub body: Vec<Segment>,
}

/// The cells of a freshly spawned piece of the given shape.
pub open spec fn spawn_cells(shape: Shape) -> Seq<Cell> {
    layout(shape).map_values(|p: (int, int)| Cell { x: p.0, y: p.1, color: color_of(shape) })
}

/// A freshly spawned piece of the given shape.
pub open spec fn spawned(shape: Shape) -> Piece {
    Piece { shape, body: spawn_cells(shape) }
}

/// Every cell moved by `dx` columns and `dy` rows.
pub open spec fn shifted(body: Seq<Cell>, dx: int, dy: int) -> Seq<Cell> {
    body.map_values(|c: Cell| Cell { x: c.x + dx, y: c.y + dy, color: c.color })
}

/// The centre of rotation of a piece: its second cell in generation order.
/// The O shape has none.
pub open spec fn pivot(p: Piece) -> Option<Cell> {
    if p.shape == Shape::O {
        None
    } else {
        Some(p.body[1])
    }
}

/// A quarter turn of `c` around `pivot`, to the left: the offset `(dx, dy)`
/// from the pivot becomes `(-dy, dx)`.
pub open spec fn turn_left(pivot: Cell, c: Cell) -> Cell {
    Cell { x: pivot.x - (c.y - pivot.y), y: pivot.y + (c.x - pivot.x), color: c.color }
}

/// A quarter turn of `c` around `pivot`, to the right: the offset `(dx, dy)`
/// from the pivot becomes `(dy, -dx)`.
pub open spec fn turn_right(pivot: Cell, c: Cell) -> Cell {
    Cell { x: pivot.x + (c.y - pivot.y), y: pivot.y - (c.x - pivot.x), color: c.color }
}

/// Every cell of `body` turned left around the second cell.
pub open spec fn turned_left(body: Seq<Cell>) -> Seq<Cell> {
    body.map_values(|c: Cell| turn_left(body[1], c))
}

/// Every cell of `body` turned right around the second cell.
pub open spec fn turned_right(body: Seq<Cell>) -> Seq<Cell> {
    body.map_values(|c: Cell| turn_right(body[1], c))
}

/// The smallest column that a cell of `body` lies in; 0 for an empty body.
pub open spec fn leftmost(body: Seq<Cell>) -> int
    decreases body.len(),
{
    if body.len() == 0 {
        0
    } else if body.len() == 1 {
        body[0].x
    } else {
        let rest = leftmost(body.drop_last());
        if body.last().x < rest {
            body.last().x
        } else {
            rest
        }
    }
}

/// The largest column that a cell of `body` lies in; 0 for an empty body.
pub open spec fn rightmost(body: Seq<Cell>) -> int
    decreases body.len(),
{
    if body.len() == 0 {
        0
    } else if body.len() == 1 {
        body[0].x
    } else {
        let rest = rightmost(body.drop_last());
        if body.last().x > rest {
            body.last().x
        } else {
            rest
        }
    }
}

/// The wall kick: by how many columns a body is pushed back into the field.
/// A body that sticks out on the left moves right until its leftmost cell is
/// in column 0; otherwise one that sticks out on the right moves left until
/// its rightmost cell is in the last column.
pub open spec fn kick_offset(body: Seq<Cell>) -> int {
    if leftmost(body) < 0 {
        -leftmost(body)
    } else if rightmost(body) >= WIDTH {
        WIDTH - 1 - rightmost(body)
    } else {
        0
    }
}

/// The body after the wall kick.
pub open spec fn kicked(body: Seq<Cell>) -> Seq<Cell> {
    shifted(body, kick_offset(body), 0)
}

/// Whether every cell lies between the two walls.
pub open spec fn within_walls(body: Seq<Cell>) -> bool {
    forall|i: int| 0 <= i < body.len() ==> 0 <= (#[trigger] body[i]).x < WIDTH
}

/// Whether a turned body is refused: a cell of it lies below the floor or
/// on a settled cell.
pub open spec fn blocked(cand: Seq<Cell>, base: Seq<Cell>) -> bool {
    exists|i: int|
        0 <= i < cand.len() && ((#[trigger] cand[i]).y >= HEIGHT || occupied(
            base,
            cand[i].x,
            cand[i].y,
        ))
}

/// The piece after an attempt to take the place `cand`: unchanged where
/// `cand` is blocked, else `cand` after the wall kick.
pub open spec fn placed(p: Piece, cand: Seq<Cell>, base: Seq<Cell>) -> Piece {
    if blocked(cand, base) {
        p
    } else {
        Piece { shape: p.shape, body: kicked(cand) }
    }
}

/// The piece after an attempt to turn it left.
pub open spec fn rotated_left(p: Piece, base: Seq<Cell>) -> Piece {
    if p.shape == Shape::O {
        p
    } else {
        placed(p, turned_left(p.body), base)
    }
}

/// The piece after an attempt to turn it right.
pub open spec fn rotated_right(p: Piece, base: Seq<Cell>) -> Piece {
    if p.shape == Shape::O {
        p
    } else {
        placed(p, turned_right(p.body), base)
    }
}

/// What the coordinate fields must be able to hold for a turn into `cand`:
/// the piece has its centre of rotation, and the turned cells, and the kicked
/// ones where the turn is accepted, can be stored.
pub open spec fn turn_fits(p: Piece, cand: Seq<Cell>, base: Seq<Cell>) -> bool {
    p.shape != Shape::O ==> {
        &&& p.body.len() >= 2
        &&& representable(cand)
        &&& !blocked(cand, base) ==> representable(kicked(cand))
    }
}

/// Whether every cell of `body` may move by `dx` columns: it stays between
/// the walls and meets no settled cell.
pub open spec fn can_slide(body: Seq<Cell>, base: Seq<Cell>, dx: int) -> bool {
    forall|i: int|
        0 <= i < body.len() ==> 0 <= (#[trigger] body[i]).x + dx < WIDTH && !occupied(
            base,
            body[i].x + dx,
            body[i].y,
        )
}

/// The piece after an attempt to move it by `dx` columns: all cells move, or
/// none does.
pub open spec fn slid(p: Piece, base: Seq<Cell>, dx: int) -> Piece {
    if can_slide(p.body, base, dx) {
        Piece { shape: p.shape, body: shifted(p.body, dx, 0) }
    } else {
        p
    }
}

/// The piece after a motion was attempted.
pub open spec fn moved(p: Piece, dir: Motion, base: Seq<Cell>) -> Piece {
    match dir {
        Motion::Left => slid(p, base, -1),
        Motion::Right => slid(p, base, 1),
        Motion::RotateLeft => rotated_left(p, base),
        Motion::RotateRight => rotated_right(p, base),
    }
}

/// Whether a motion takes effect.
pub open spec fn motion_accepted(p: Piece, dir: Motion, base: Seq<Cell>) -> bool {
    match dir {
        Motion::Left => can_slide(p.body, base, -1),
        Motion::Right => can_slide(p.body, base, 1),
        Motion::RotateLeft => p.shape != Shape::O && !blocked(turned_left(p.body), base),
        Motion::RotateRight => p.shape != Shape::O && !blocked(turned_right(p.body), base),
    }
}

/// What the coordinate fields must be able to hold for a motion.
pub open spec fn motion_fits(p: Piece, dir: Motion, base: Seq<Cell>) -> bool {
    match dir {
        Motion::Left => true,
        Motion::Right => true,
        Motion::RotateLeft => turn_fits(p, turned_left(p.body), base),
        Motion::RotateRight => turn_fits(p, turned_right(p.body), base),
    }
}

/// `leftmost` is the smallest column of a body, and some cell lies in it.
pub proof fn lemma_leftmost(body: Seq<Cell>)
    ensures
        forall|i: int| 0 <= i < body.len() ==> leftmost(body) <= (#[trigger] body[i]).x,
        body.len() > 0 ==> exists|i: int|
            0 <= i < body.len() && (#[trigger] body[i]).x == leftmost(body),
    decreases body.len(),
{
    if body.len() >= 2 {
        let front = body.drop_last();
        lemma_leftmost(front);
        assert forall|i: int| 0 <= i < body.len() implies leftmost(body) <= (
        #[trigger] body[i]).x by {
            if i < body.len() - 1 {
                assert(front[i] == body[i]);
            }
        }
        if body.last().x < leftmost(front) {
            assert(body[body.len() - 1].x == leftmost(body));
        } else {
            let w = choose|i: int|
                0 <= i < front.len() && (#[trigger] front[i]).x == leftmost(front);
            assert(body[w] == front[w]);
        }
    } else if body.len() == 1 {
        assert(body[0].x == leftmost(body));
    }
}

/// `rightmost` is the largest column of a body, and some cell lies in it.
pub proof fn lemma_rightmost(body: Seq<Cell>)
    ensures
        forall|i: int| 0 <= i < body.len() ==> (#[trigger] body[i]).x <= rightmost(body),
        body.len() > 0 ==> exists|i: int|
            0 <= i < body.len() && (#[trigger] body[i]).x == rightmost(body),
    decreases body.len(),
{
    if body.len() >= 2 {
        let front = body.drop_last();
        lemma_rightmost(front);
        assert forall|i: int| 0 <= i < body.len() implies (#[trigger] body[i]).x
            <= rightmost(body) by {
            if i < body.len() - 1 {
                assert(front[i] == body[i]);
            }
        }
        if body.last().x > rightmost(front) {
            assert(body[body.len() - 1].x == rightmost(body));
        } else {
            let w = choose|i: int|
                0 <= i < front.len() && (#[trigger] front[i]).x == rightmost(front);
            assert(body[w] == front[w]);
        }
    } else if body.len() == 1 {
        assert(body[0].x == rightmost(body));
    }
}

/// A body between the walls is not kicked.
pub proof fn lemma_no_kick(body: Seq<Cell>)
    requires
        within_walls(body),
    ensures
        kick_offset(body) == 0,
        kicked(body) == body,
{
    lemma_leftmost(body);
    lemma_rightmost(body);
    assert(kicked(body) =~= body);
}

/// The wall-kick law: a body that is narrower than the field lies between
/// the walls after the kick.
pub proof fn lemma_kick_within_walls(body: Seq<Cell>)
    requires
        rightmost(body) - leftmost(body) < WIDTH,
    ensures
        within_walls(kicked(body)),
{
    lemma_leftmost(body);
    lemma_rightmost(body);
}

/// The invariant of a piece: exactly four cells, on four positions, all in
/// the colour of its shape.
pub open spec fn well_formed(p: Piece) -> bool {
    &&& p.body.len() == 4
    &&& distinct(p.body)
    &&& forall|i: int| 0 <= i < p.body.len() ==> (#[trigger] p.body[i]).color == color_of(p.shape)
}

/// How many rows a piece has fallen since it was spawned. Its second cell
/// leaves its row by falling only: no motion moves it up or down.
pub open spec fn rows_fallen(p: Piece) -> int {
    p.body[1].y - layout(p.shape)[1].1
}

/// Whether the piece would overlap a settled cell or leave the field
/// through the floor if it fell by one more row.
pub open spec fn rests(body: Seq<Cell>, base: Seq<Cell>) -> bool {
    blocked(shifted(body, 0, 1), base)
}

/// A freshly spawned piece of any shape obeys the invariant of a piece.
pub proof fn lemma_spawned_well_formed(shape: Shape)
    ensures
        well_formed(spawned(shape)),
{
    let body = spawned(shape).body;
    assert(body.len() == 4);
    assert(body[0].x == layout(shape)[0].0 && body[0].y == layout(shape)[0].1);
    assert(body[1].x == layout(shape)[1].0 && body[1].y == layout(shape)[1].1);
    assert(body[2].x == layout(shape)[2].0 && body[2].y == layout(shape)[2].1);
    assert(body[3].x == layout(shape)[3].0 && body[3].y == layout(shape)[3].1);
}

/// Moving every cell by the same amount keeps the invariant of a piece.
pub proof fn lemma_shift_keeps_form(p: Piece, dx: int, dy: int)
    requires
        well_formed(p),
    ensures
        well_formed(Piece { shape: p.shape, body: shifted(p.body, dx, dy) }),
{
    let q = shifted(p.body, dx, dy);
    assert forall|i: int, j: int| 0 <= i < j < q.len() implies !((#[trigger] q[i]).x == (
    #[trigger] q[j]).x && q[i].y == q[j].y) by {
        assert(p.body[i].x != p.body[j].x || p.body[i].y != p.body[j].y);
    }
    assert forall|i: int| 0 <= i < q.len() implies (#[trigger] q[i]).color == color_of(
        p.shape,
    ) by {
        assert(p.body[i].color == color_of(p.shape));
    }
}

/// A quarter turn keeps the invariant of a piece.
pub proof fn lemma_turn_keeps_form(p: Piece)
    requires
        well_formed(p),
    ensures
        well_formed(Piece { shape: p.shape, body: turned_left(p.body) }),
        well_formed(Piece { shape: p.shape, body: turned_right(p.body) }),
{
    let l = turned_left(p.body);
    let r = turned_right(p.body);
    assert forall|i: int, j: int| 0 <= i < j < l.len() implies !((#[trigger] l[i]).x == (
    #[trigger] l[j]).x && l[i].y == l[j].y) by {
        assert(p.body[i].x != p.body[j].x || p.body[i].y != p.body[j].y);
    }
    assert forall|i: int, j: int| 0 <= i < j < r.len() implies !((#[trigger] r[i]).x == (
    #[trigger] r[j]).x && r[i].y == r[j].y) by {
        assert(p.body[i].x != p.body[j].x || p.body[i].y != p.body[j].y);
    }
    assert forall|i: int| 0 <= i < l.len() implies (#[trigger] l[i]).color == color_of(
        p.shape,
    ) by {
        assert(p.body[i].color == color_of(p.shape));
    }
    assert forall|i: int| 0 <= i < r.len() implies (#[trigger] r[i]).color == color_of(
        p.shape,
    ) by {
        assert(p.body[i].color == color_of(p.shape));
    }
}

/// Every motion, accepted or refused, keeps the invariant of a piece.
pub proof fn lemma_motion_keeps_form(p: Piece, dir: Motion, base: Seq<Cell>)
    requires
        well_formed(p),
    ensures
        well_formed(moved(p, dir, base)),
{
    lemma_shift_keeps_form(p, -1, 0);
    lemma_shift_keeps_form(p, 1, 0);
    lemma_turn_keeps_form(p);
    lemma_shift_keeps_form(
        Piece { shape: p.shape, body: turned_left(p.body) },
        kick_offset(turned_left(p.body)),
        0,
    );
    lemma_shift_keeps_form(
        Piece { shape: p.shape, body: turned_right(p.body) },
        kick_offset(turned_right(p.body)),
        0,
    );
}

/// Whether a body keeps close to its second cell: no cell is further than
/// two columns or two rows from it.
pub open spec fn compact(body: Seq<Cell>) -> bool {
    &&& body.len() >= 2
    &&& forall|i: int|
        0 <= i < body.len() ==> -2 <= (#[trigger] body[i]).x - body[1].x <= 2 && -2 <= body[i].y
            - body[1].y <= 2
}

/// Whether a piece has room to turn on an empty field: it is compact, and
/// its second cell is two columns from either wall and two rows from the
/// floor.
pub open spec fn turns_freely(p: Piece) -> bool {
    &&& compact(p.body)
    &&& 2 <= p.body[1].x < WIDTH - 2
    &&& p.body[1].y + 2 < HEIGHT
}

/// A quarter turn keeps a compact body compact and its second cell in place.
pub proof fn lemma_turn_keeps_compact(body: Seq<Cell>)
    requires
        compact(body),
    ensures
        compact(turned_left(body)),
        compact(turned_right(body)),
        turned_left(body)[1] == body[1],
        turned_right(body)[1] == body[1],
{
    let l = turned_left(body);
    let r = turned_right(body);
    assert(l[1] == turn_left(body[1], body[1]));
    assert(r[1] == turn_right(body[1], body[1]));
    assert forall|i: int| 0 <= i < l.len() implies -2 <= (#[trigger] l[i]).x - l[1].x <= 2 && -2
        <= l[i].y - l[1].y <= 2 by {
        assert(l[i] == turn_left(body[1], body[i]));
    }
    assert forall|i: int| 0 <= i < r.len() implies -2 <= (#[trigger] r[i]).x - r[1].x <= 2 && -2
        <= r[i].y - r[1].y <= 2 by {
        assert(r[i] == turn_right(body[1], body[i]));
    }
}

/// On an empty field a piece with room to turn does turn, is not kicked, and
/// has room to turn again.
pub proof fn lemma_free_turn(p: Piece)
    requires
        p.shape != Shape::O,
        turns_freely(p),
    ensures
        rotated_left(p, Seq::empty()) == (Piece { shape: p.shape, body: turned_left(p.body) }),
        rotated_right(p, Seq::empty()) == (Piece { shape: p.shape, body: turned_right(p.body) }),
        turns_freely(rotated_left(p, Seq::empty())),
        turns_freely(rotated_right(p, Seq::empty())),
{
    let none = Seq::<Cell>::empty();
    let l = turned_left(p.body);
    let r = turned_right(p.body);
    lemma_turn_keeps_compact(p.body);
    assert forall|i: int| 0 <= i < l.len() implies 0 <= (#[trigger] l[i]).x < WIDTH && l[i].y
        < HEIGHT by {
        assert(-2 <= l[i].x - l[1].x <= 2);
    }
    assert forall|i: int| 0 <= i < r.len() implies 0 <= (#[trigger] r[i]).x < WIDTH && r[i].y
        < HEIGHT by {
        assert(-2 <= r[i].x - r[1].x <= 2);
    }
    assert(!blocked(l, none));
    assert(!blocked(r, none));
    lemma_no_kick(l);
    lemma_no_kick(r);
}

/// Four quarter turns in one direction bring every cell back.
pub proof fn lemma_full_turn(body: Seq<Cell>)
    requires
        body.len() >= 2,
    ensures
        turned_left(turned_left(turned_left(turned_left(body)))) == body,
        turned_right(turned_right(turned_right(turned_right(body)))) == body,
        turned_right(turned_left(body)) == body,
        turned_left(turned_right(body)) == body,
{
    let l1 = turned_left(body);
    let l2 = turned_left(l1);
    let l3 = turned_left(l2);
    let l4 = turned_left(l3);
    assert(l1[1] == body[1] && l2[1] == body[1] && l3[1] == body[1]);
    assert(l4 =~= body);
    let r1 = turned_right(body);
    let r2 = turned_right(r1);
    let r3 = turned_right(r2);
    let r4 = turned_right(r3);
    assert(r1[1] == body[1] && r2[1] == body[1] && r3[1] == body[1]);
    assert(r4 =~= body);
    assert(turned_right(l1) =~= body);
    assert(turned_left(r1) =~= body);
}

/// Every freshly spawned piece is compact and has room to turn.
pub proof fn lemma_spawned_turns_freely(shape: Shape)
    ensures
        spawned(shape).body.len() == 4,
        compact(spawned(shape).body),
        turns_freely(spawned(shape)),
{
    let body = spawned(shape).body;
    assert(body.len() == 4);
    assert(body[0].x == layout(shape)[0].0 && body[0].y == layout(shape)[0].1);
    assert(body[1].x == layout(shape)[1].0 && body[1].y == layout(shape)[1].1);
    assert(body[2].x == layout(shape)[2].0 && body[2].y == layout(shape)[2].1);
    assert(body[3].x == layout(shape)[3].0 && body[3].y == layout(shape)[3].1);
}

/// Rotating a freshly spawned piece four times in one direction on an empty
/// field returns its body to exactly the cells it started with, for every
/// shape.
pub proof fn lemma_four_rotations_restore(shape: Shape)
    ensures
        rotated_left(
            rotated_left(
                rotated_left(rotated_left(spawned(shape), Seq::empty()), Seq::empty()),
                Seq::empty(),
            ),
            Seq::empty(),
        ) == spawned(shape),
        rotated_right(
            rotated_right(
                rotated_right(rotated_right(spawned(shape), Seq::empty()), Seq::empty()),
                Seq::empty(),
            ),
            Seq::empty(),
        ) == spawned(shape),
{
    let none = Seq::<Cell>::empty();
    let start = spawned(shape);
    if shape != Shape::O {
        lemma_spawned_turns_freely(shape);
        let l1 = rotated_left(start, none);
        lemma_free_turn(start);
        let l2 = rotated_left(l1, none);
        lemma_free_turn(l1);
        let l3 = rotated_left(l2, none);
        lemma_free_turn(l2);
        lemma_free_turn(l3);
        let r1 = rotated_right(start, none);
        let r2 = rotated_right(r1, none);
        lemma_free_turn(r1);
        let r3 = rotated_right(r2, none);
        lemma_free_turn(r2);
        lemma_free_turn(r3);
        lemma_full_turn(start.body);
    }
}

/// Rotating the O shape changes nothing, whatever the field holds.
pub proof fn lemma_square_never_turns(p: Piece, base: Seq<Cell>)
    requires
        p.shape == Shape::O,
    ensures
        rotated_left(p, base) == p,
        rotated_right(p, base) == p,
        moved(p, Motion::RotateLeft, base) == p,
        moved(p, Motion::RotateRight, base) == p,
        !motion_accepted(p, Motion::RotateLeft, base),
        !motion_accepted(p, Motion::RotateRight, base),
{
}

/// The invariant of a piece in play: it is a well-formed
/// piece that keeps close to its second cell, lies between the walls and
/// above the floor, and has its second cell no higher than one row above the
/// field.
pub open spec fn in_play(p: Piece) -> bool {
    &&& well_formed(p)
    &&& compact(p.body)
    &&& within_walls(p.body)
    &&& p.body[1].y >= -1
    &&& forall|i: int| 0 <= i < p.body.len() ==> (#[trigger] p.body[i]).y < HEIGHT
}

/// A freshly spawned piece is in play.
pub proof fn lemma_spawned_in_play(shape: Shape)
    ensures
        in_play(spawned(shape)),
{
    lemma_spawned_well_formed(shape);
    lemma_spawned_turns_freely(shape);
    let body = spawned(shape).body;
    assert(body[0].x == layout(shape)[0].0 && body[0].y == layout(shape)[0].1);
    assert(body[1].x == layout(shape)[1].0 && body[1].y == layout(shape)[1].1);
    assert(body[2].x == layout(shape)[2].0 && body[2].y == layout(shape)[2].1);
    assert(body[3].x == layout(shape)[3].0 && body[3].y == layout(shape)[3].1);
}

/// A compact body that is not blocked is, after the wall kick, compact,
/// between the walls and above the floor, and all of it can be stored.
proof fn lemma_kick_in_play(p: Piece, cand: Seq<Cell>, base: Seq<Cell>)
    requires
        in_play(p),
        compact(cand),
        cand.len() == p.body.len(),
        cand[1] == p.body[1],
        well_formed(Piece { shape: p.shape, body: cand }),
    ensures
        representable(cand),
        !blocked(cand, base) ==> representable(kicked(cand)) && in_play(
            Piece { shape: p.shape, body: kicked(cand) },
        ),
{
    lemma_leftmost(cand);
    lemma_rightmost(cand);
    assert(0 <= p.body[1].x < WIDTH);
    assert forall|i: int| 0 <= i < cand.len() implies -2 <= (#[trigger] cand[i]).x < WIDTH + 2
        && -3 <= cand[i].y < HEIGHT + 2 by {
        assert(-2 <= cand[i].x - cand[1].x <= 2);
    }
    if !blocked(cand, base) {
        let k = kick_offset(cand);
        let q = kicked(cand);
        let l = choose|i: int| 0 <= i < cand.len() && (#[trigger] cand[i]).x == leftmost(cand);
        let r = choose|i: int| 0 <= i < cand.len() && (#[trigger] cand[i]).x == rightmost(cand);
        assert(-2 <= cand[l].x - cand[1].x <= 2);
        assert(-2 <= cand[r].x - cand[1].x <= 2);
        lemma_kick_within_walls(cand);
        lemma_shift_keeps_form(Piece { shape: p.shape, body: cand }, k, 0);
        assert forall|i: int| 0 <= i < q.len() implies -2 <= (#[trigger] q[i]).x - q[1].x <= 2
            && -2 <= q[i].y - q[1].y <= 2 && q[i].y < HEIGHT by {
            assert(-2 <= cand[i].x - cand[1].x <= 2);
            assert(!(cand[i].y >= HEIGHT));
        }
    }
}

/// Every motion keeps a piece in play, and the coordinate fields can hold
/// all that it computes.
pub proof fn lemma_motion_in_play(p: Piece, dir: Motion, base: Seq<Cell>)
    requires
        in_play(p),
    ensures
        motion_fits(p, dir, base),
        in_play(moved(p, dir, base)),
        rows_fallen(moved(p, dir, base)) == rows_fallen(p),
{
    lemma_motion_keeps_form(p, dir, base);
    match dir {
        Motion::Left => {
            let q = shifted(p.body, -1, 0);
            assert forall|i: int| 0 <= i < q.len() implies -2 <= (#[trigger] q[i]).x - q[1].x <= 2
                && -2 <= q[i].y - q[1].y <= 2 && q[i].y < HEIGHT by {
                assert(-2 <= p.body[i].x - p.body[1].x <= 2);
            }
        },
        Motion::Right => {
            let q = shifted(p.body, 1, 0);
            assert forall|i: int| 0 <= i < q.len() implies -2 <= (#[trigger] q[i]).x - q[1].x <= 2
                && -2 <= q[i].y - q[1].y <= 2 && q[i].y < HEIGHT by {
                assert(-2 <= p.body[i].x - p.body[1].x <= 2);
            }
        },
        Motion::RotateLeft => {
            lemma_turn_keeps_compact(p.body);
            lemma_turn_keeps_form(p);
            lemma_kick_in_play(p, turned_left(p.body), base);
        },
        Motion::RotateRight => {
            lemma_turn_keeps_compact(p.body);
            lemma_turn_keeps_form(p);
            lemma_kick_in_play(p, turned_right(p.body), base);
        },
    }
}

/// A piece in play that has not landed is still in play when it has fallen
/// by one row.
pub proof fn lemma_fall_in_play(p: Piece, base: Seq<Cell>)
    requires
        in_play(p),
        !rests(p.body, base),
    ensures
        representable(shifted(p.body, 0, 1)),
        in_play(Piece { shape: p.shape, body: shifted(p.body, 0, 1) }),
        rows_fallen(Piece { shape: p.shape, body: shifted(p.body, 0, 1) }) == rows_fallen(p) + 1,
{
    let q = shifted(p.body, 0, 1);
    lemma_shift_keeps_form(p, 0, 1);
    assert forall|i: int| 0 <= i < q.len() implies -2 <= (#[trigger] q[i]).x - q[1].x <= 2 && -2
        <= q[i].y - q[1].y <= 2 && q[i].y < HEIGHT && 0 <= q[i].x < WIDTH by {
        assert(-2 <= p.body[i].x - p.body[1].x <= 2);
        assert(!(q[i].y >= HEIGHT));
    }
}

impl View for Tetromino {
    type V = Piece;

    open spec fn view(&self) -> Piece {
        Piece { shape: self.shape, body: cells_of(self.body@) }
    }
}

/// The segments of `body`, each moved by `dx` columns and `dy` rows.
fn shift_body(body: &Vec<Segment>, dx: i32, dy: i32) -> (moved: Vec<Segment>)
    requires
        representable(shifted(cells_of(body@), dx as int, dy as int)),
    ensures
        cells_of(moved@) == shifted(cells_of(body@), dx as int, dy as int),
{
    let ghost target = shifted(cells_of(body@), dx as int, dy as int);
    let mut moved: Vec<Segment> = Vec::new();
    let mut i: usize = 0;
    while i < body.len()
        invariant
            i <= body.len(),
            moved.len() == i,
            target == shifted(cells_of(body@), dx as int, dy as int),
            representable(target),
            forall|k: int| 0 <= k < i ==> (#[trigger] moved@[k])@ == target[k],
        decreases body.len() - i,
    {
        let seg = body[i];
        assert(target[i as int].x == seg.x + dx && target[i as int].y == seg.y + dy);
        let x: i32 = seg.x as i32 + dx;
        let y: i32 = seg.y as i32 + dy;
        moved.push(Segment { x: x as i16, y: y as i16, color: seg.color });
        i += 1;
    }
    assert(cells_of(moved@) =~= target);
    moved
}

/// The smallest and the largest column of `body`.
fn extent(body: &Vec<Segment>) -> (ends: (i16, i16))
    ensures
        ends.0 == leftmost(cells_of(body@)),
        ends.1 == rightmost(cells_of(body@)),
{
    let ghost cells = cells_of(body@);
    if body.len() == 0 {
        return (0, 0);
    }
    let mut lo: i16 = body[0].x;
    let mut hi: i16 = body[0].x;
    let mut i: usize = 1;
    assert(cells.take(1).len() == 1 && cells.take(1)[0] == cells[0]);
    while i < body.len()
        invariant
            1 <= i <= body.len(),
            cells == cells_of(body@),
            lo == leftmost(cells.take(i as int)),
            hi == rightmost(cells.take(i as int)),
        decreases body.len() - i,
    {
        assert(cells.take(i + 1).drop_last() =~= cells.take(i as int));
        assert(cells.take(i + 1).last() == cells[i as int]);
        if body[i].x < lo {
            lo = body[i].x;
        }
        if body[i].x > hi {
            hi = body[i].x;
        }
        i += 1;
    }
    assert(cells.take(i as int) =~= cells);
    (lo, hi)
}

/// Whether a turned body is refused by the floor or by the settled cells.
fn is_blocked(cand: &Vec<Segment>, base: &Vec<Segment>) -> (refused: bool)
    ensures
        refused == blocked(cells_of(cand@), cells_of(base@)),
{
    let ghost cells = cells_of(cand@);
    let mut i: usize = 0;
    while i < cand.len()
        invariant
            i <= cand.len(),
            cells == cells_of(cand@),
            forall|k: int|
                0 <= k < i ==> !((#[trigger] cells[k]).y >= HEIGHT || occupied(
                    cells_of(base@),
                    cells[k].x,
                    cells[k].y,
                )),
        decreases cand.len() - i,
    {
        if cand[i].y >= HEIGHT || covers(base, cand[i].x, cand[i].y) {
            assert(cells[i as int].y >= HEIGHT || occupied(
                cells_of(base@),
                cells[i as int].x,
                cells[i as int].y,
            ));
            return true;
        }
        i += 1;
    }
    false
}

/// Whether every segment of `body` may move by `dx` columns.
fn may_slide(body: &Vec<Segment>, base: &Vec<Segment>, dx: i16) -> (free: bool)
    requires
        -1 <= dx <= 1,
    ensures
        free == can_slide(cells_of(body@), cells_of(base@), dx as int),
{
    let ghost cells = cells_of(body@);
    let mut i: usize = 0;
    while i < body.len()
        invariant
            i <= body.len(),
            -1 <= dx <= 1,
            cells == cells_of(body@),
            forall|k: int|
                0 <= k < i ==> 0 <= (#[trigger] cells[k]).x + dx < WIDTH && !occupied(
                    cells_of(base@),
                    cells[k].x + dx,
                    cells[k].y,
                ),
        decreases body.len() - i,
    {
        let seg = body[i];
        assert(cells[i as int] == seg@);
        if seg.x < -dx || seg.x >= WIDTH - dx {
            return false;
        }
        if covers(base, seg.x + dx, seg.y) {
            return false;
        }
        i += 1;
    }
    true
}

impl From<Shape> for Tetromino {
    /// Generate body at the starting position from a shape.
    fn from(shape: Shape) -> (piece: Self)
        ensures
            piece@ == spawned(shape),
            piece.wf(),
            in_play(piece@),
    {
        proof {
            lemma_spawned_well_formed(shape);
            lemma_spawned_in_play(shape);
        }
        Self { body: Tetromino::generate_body(&shape), shape }
    }
}

/// A piece holds a vector, and two vectors with the same contents are not
/// known to be one value. So `from` is not held to a value that could be
/// named here: its own contract states the piece it returns by its view.
impl vstd::std_specs::convert::FromSpecImpl<Shape> for Tetromino {
    open spec fn obeys_from_spec() -> bool {
        false
    }

    open spec fn from_spec(shape: Shape) -> Tetromino {
        arbitrary()
    }
}

impl Tetromino {
    /// The invariant of a piece: exactly four segments, on four positions,
    /// all in the colour of its shape.
    pub open spec fn wf(&self) -> bool {
        well_formed(self@)
    }

    /// Create a new piece with a random shape.
    pub fn new() -> (piece: Self)
        ensures
            piece@ == spawned(piece@.shape),
            piece.wf(),
            in_play(piece@),
    {
        let shape: Shape = match Tetromino::generate_shape() {
            Some(shape) => shape,
            None => Shape::I,
        };
        Tetromino::from(shape)
    }

    /// Translate a piece.
    pub fn translate(&mut self, x: i16, y: i16)
        requires
            representable(shifted(old(self)@.body, x as int, y as int)),
        ensures
            final(self)@.shape == old(self)@.shape,
            final(self)@.body == shifted(old(self)@.body, x as int, y as int),
            old(self).wf() ==> final(self).wf(),
    {
        proof {
            if self.wf() {
                lemma_shift_keeps_form(self@, x as int, y as int);
            }
        }
        self.body = shift_body(&self.body, x as i32, y as i32);
    }

    /// Implements the downward motion: every cell falls by one row.
    pub fn update(&mut self)
        requires
            representable(shifted(old(self)@.body, 0, 1)),
        ensures
            final(self)@.shape == old(self)@.shape,
            final(self)@.body == shifted(old(self)@.body, 0, 1),
            old(self).wf() ==> final(self).wf(),
    {
        proof {
            if self.wf() {
                lemma_shift_keeps_form(self@, 0, 1);
            }
        }
        self.body = shift_body(&self.body, 0, 1);
    }

    /// Clone body of a piece.
    pub fn clone_body(&self) -> (body: Vec<Segment>)
        ensures
            body@ == self.body@,
    {
        let mut body: Vec<Segment> = Vec::new();
        let mut i: usize = 0;
        while i < self.body.len()
            invariant
                i <= self.body.len(),
                body@ == self.body@.take(i as int),
            decreases self.body.len() - i,
        {
            body.push(self.body[i]);
            assert(body@ =~= self.body@.take(i + 1));
            i += 1;
        }
        assert(self.body@.take(i as int) =~= self.body@);
        body
    }

    /// Get the central segment around which the piece rotates.
    pub fn get_central_segment(&self) -> (centre: Option<Segment>)
        requires
            self@.shape != Shape::O ==> self.body.len() >= 2,
        ensures
            self@.shape == Shape::O ==> centre is None,
            self@.shape != Shape::O ==> centre == Some(self.body@[1]),
            match centre {
                Some(seg) => pivot(self@) == Some(seg@),
                None => pivot(self@) is None,
            },
    {
        match self.shape {
            Shape::O => None,
            _ => Some(self.body[1]),
        }
    }

    /// Implements kick from a wall if piece's segment is out of the well
    /// after rotation.
    pub fn kickback(&mut self)
        requires
            within_walls(old(self)@.body) || representable(kicked(old(self)@.body)),
        ensures
            final(self)@.shape == old(self)@.shape,
            final(self)@.body == kicked(old(self)@.body),
            rightmost(old(self)@.body) - leftmost(old(self)@.body) < WIDTH ==> within_walls(
                final(self)@.body,
            ),
            old(self).wf() ==> final(self).wf(),
    {
        proof {
            if rightmost(old(self)@.body) - leftmost(old(self)@.body) < WIDTH {
                lemma_kick_within_walls(old(self)@.body);
            }
            if self.wf() {
                lemma_shift_keeps_form(self@, kick_offset(self@.body), 0);
            }
            if within_walls(self@.body) {
                lemma_no_kick(self@.body);
            }
        }
        let (lo, hi) = extent(&self.body);
        if lo < 0 {
            self.body = shift_body(&self.body, -(lo as i32), 0);
        } else if hi >= WIDTH {
            self.body = shift_body(&self.body, WIDTH as i32 - 1 - hi as i32, 0);
        } else {
            assert(shifted(self@.body, 0, 0) =~= self@.body);
        }
    }

    /// Takes the place `cand` unless it is blocked, and kicks back from the
    /// walls where it was taken.
    fn place(&mut self, cand: Vec<Segment>, base: &Vec<Segment>) -> (accepted: bool)
        requires
            !blocked(cells_of(cand@), cells_of(base@)) ==> representable(kicked(cells_of(cand@))),
        ensures
            final(self)@ == placed(old(self)@, cells_of(cand@), cells_of(base@)),
            accepted == !blocked(cells_of(cand@), cells_of(base@)),
    {
        if is_blocked(&cand, base) {
            false
        } else {
            self.body = cand;
            self.kickback();
            true
        }
    }

    /// Turns the piece a quarter to the left around its central segment,
    /// unless the turned piece would reach below the floor or into a settled
    /// cell, and then kicks it back from the walls. Says whether the piece
    /// turned. The O shape never turns.
    pub fn rotate_left(&mut self, base: &Vec<Segment>) -> (accepted: bool)
        requires
            in_play(old(self)@) || turn_fits(
                old(self)@,
                turned_left(old(self)@.body),
                cells_of(base@),
            ),
        ensures
            final(self)@ == rotated_left(old(self)@, cells_of(base@)),
            accepted == motion_accepted(old(self)@, Motion::RotateLeft, cells_of(base@)),
            !accepted ==> final(self)@ == old(self)@,
            old(self)@.shape == Shape::O ==> !accepted,
            accepted && rightmost(turned_left(old(self)@.body)) - leftmost(
                turned_left(old(self)@.body),
            ) < WIDTH ==> within_walls(final(self)@.body),
            old(self).wf() ==> final(self).wf(),
            in_play(old(self)@) ==> in_play(final(self)@),
    {
        proof {
            if self.wf() {
                lemma_motion_keeps_form(self@, Motion::RotateLeft, cells_of(base@));
            }
            if in_play(self@) {
                lemma_motion_in_play(self@, Motion::RotateLeft, cells_of(base@));
            }
        }
        if let Some(centre) = self.get_central_segment() {
            let ghost target = turned_left(self@.body);
            let mut cand: Vec<Segment> = Vec::new();
            let mut i: usize = 0;
            while i < self.body.len()
                invariant
                    i <= self.body.len(),
                    cand.len() == i,
                    self.body@.len() >= 2,
                    centre == self.body@[1],
                    target == turned_left(self@.body),
                    representable(target),
                    forall|k: int| 0 <= k < i ==> (#[trigger] cand@[k])@ == target[k],
                decreases self.body.len() - i,
            {
                let seg = self.body[i];
                assert(self@.body[i as int] == seg@ && self@.body[1] == centre@);
                assert(target[i as int] == turn_left(centre@, seg@));
                assert(target[i as int].x == centre.x - (seg.y - centre.y));
                assert(target[i as int].y == centre.y + (seg.x - centre.x));
                let x: i32 = centre.x as i32 - (seg.y as i32 - centre.y as i32);
                let y: i32 = centre.y as i32 + (seg.x as i32 - centre.x as i32);
                cand.push(Segment { x: x as i16, y: y as i16, color: seg.color });
                i += 1;
            }
            assert(cells_of(cand@) =~= target);
            proof {
                if rightmost(target) - leftmost(target) < WIDTH {
                    lemma_kick_within_walls(target);
                }
            }
            self.place(cand, base)
        } else {
            false
        }
    }

    /// Turns the piece a quarter to the right around its central segment,
    /// unless the turned piece would reach below the floor or into a settled
    /// cell, and then kicks it back from the walls. Says whether the piece
    /// turned. The O shape never turns.
    pub fn rotate_right(&mut self, base: &Vec<Segment>) -> (accepted: bool)
        requires
            in_play(old(self)@) || turn_fits(
                old(self)@,
                turned_right(old(self)@.body),
                cells_of(base@),
            ),
        ensures
            final(self)@ == rotated_right(old(self)@, cells_of(base@)),
            accepted == motion_accepted(old(self)@, Motion::RotateRight, cells_of(base@)),
            !accepted ==> final(self)@ == old(self)@,
            old(self)@.shape == Shape::O ==> !accepted,
            accepted && rightmost(turned_right(old(self)@.body)) - leftmost(
                turned_right(old(self)@.body),
            ) < WIDTH ==> within_walls(final(self)@.body),
            old(self).wf() ==> final(self).wf(),
            in_play(old(self)@) ==> in_play(final(self)@),
    {
        proof {
            if self.wf() {
                lemma_motion_keeps_form(self@, Motion::RotateRight, cells_of(base@));
            }
            if in_play(self@) {
                lemma_motion_in_play(self@, Motion::RotateRight, cells_of(base@));
            }
        }
        if let Some(centre) = self.get_central_segment() {
            let ghost target = turned_right(self@.body);
            let mut cand: Vec<Segment> = Vec::new();
            let mut i: usize = 0;
            while i < self.body.len()
                invariant
                    i <= self.body.len(),
                    cand.len() == i,
                    self.body@.len() >= 2,
                    centre == self.body@[1],
                    target == turned_right(self@.body),
                    representable(target),
                    forall|k: int| 0 <= k < i ==> (#[trigger] cand@[k])@ == target[k],
                decreases self.body.len() - i,
            {
                let seg = self.body[i];
                assert(self@.body[i as int] == seg@ && self@.body[1] == centre@);
                assert(target[i as int] == turn_right(centre@, seg@));
                assert(target[i as int].x == centre.x + (seg.y - centre.y));
                assert(target[i as int].y == centre.y - (seg.x - centre.x));
                let x: i32 = centre.x as i32 + (seg.y as i32 - centre.y as i32);
                let y: i32 = centre.y as i32 - (seg.x as i32 - centre.x as i32);
                cand.push(Segment { x: x as i16, y: y as i16, color: seg.color });
                i += 1;
            }
            assert(cells_of(cand@) =~= target);
            proof {
                if rightmost(target) - leftmost(target) < WIDTH {
                    lemma_kick_within_walls(target);
                }
            }
            self.place(cand, base)
        } else {
            false
        }
    }

    /// Moves every cell by `dx` columns if all of them stay between the
    /// walls and off the settled cells; else the piece stays as it is.
    fn slide(&mut self, base: &Vec<Segment>, dx: i16) -> (accepted: bool)
        requires
            -1 <= dx <= 1,
        ensures
            final(self)@ == slid(old(self)@, cells_of(base@), dx as int),
            accepted == can_slide(old(self)@.body, cells_of(base@), dx as int),
            accepted ==> within_walls(final(self)@.body),
            old(self).wf() ==> final(self).wf(),
            in_play(old(self)@) ==> in_play(final(self)@),
    {
        proof {
            if self.wf() {
                lemma_shift_keeps_form(self@, dx as int, 0);
            }
            if in_play(self@) {
                lemma_motion_in_play(self@, Motion::Left, cells_of(base@));
                lemma_motion_in_play(self@, Motion::Right, cells_of(base@));
            }
        }
        if may_slide(&self.body, base, dx) {
            self.body = shift_body(&self.body, dx as i32, 0);
            true
        } else {
            false
        }
    }

    /// Move by a single step or rotate the piece. Says whether the motion
    /// took effect; a refused motion leaves the piece as it was.
    pub fn move_to(&mut self, dir: Motion, base: &Vec<Segment>) -> (accepted: bool)
        requires
            in_play(old(self)@) || motion_fits(old(self)@, dir, cells_of(base@)),
        ensures
            final(self)@ == moved(old(self)@, dir, cells_of(base@)),
            accepted == motion_accepted(old(self)@, dir, cells_of(base@)),
            !accepted ==> final(self)@ == old(self)@,
            accepted && (dir == Motion::Left || dir == Motion::Right) ==> within_walls(
                final(self)@.body,
            ),
            old(self).wf() ==> final(self).wf(),
            in_play(old(self)@) ==> in_play(final(self)@),
    {
        match dir {
            Motion::Left => self.slide(base, -1),
            Motion::Right => self.slide(base, 1),
            Motion::RotateLeft => self.rotate_left(base),
            Motion::RotateRight => self.rotate_right(base),
        }
    }

    /// Draws the shape of a new piece.
    fn generate_shape() -> (shape: Option<Shape>)
        ensures
            shape is Some,
    {
        let num = random_in_range(0, 7);
        Some(Shape::from(num))
    }

    /// The segments of a freshly spawned piece of the given shape.
    pub fn generate_body(shape: &Shape) -> (body: Vec<Segment>)
        ensures
            cells_of(body@) == spawn_cells(*shape),
    {
        let coords = generate(*shape);
        let color = shape.color();
        let mut body: Vec<Segment> = Vec::new();
        let mut i: usize = 0;
        while i < coords.len()
            invariant
                i <= coords.len(),
                body.len() == i,
                color == color_of(*shape),
                positions_of(coords@) == layout(*shape),
                forall|k: int| 0 <= k < i ==> (#[trigger] body@[k])@ == spawn_cells(*shape)[k],
            decreases coords.len() - i,
        {
            assert(positions_of(coords@)[i as int] == layout(*shape)[i as int]);
            body.push(Segment::new(coords[i], color));
            i += 1;
        }
        assert(positions_of(coords@).len() == layout(*shape).len());
        assert(cells_of(body@) =~= spawn_cells(*shape));
        body
    }
}

} // verus!
