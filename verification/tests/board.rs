use tetris::board::{Board, InvariantViolation};
use tetris::segment::Segment;
use tetris::shape::Shape;
use tetris::tetromino::Tetromino;

fn block(x: i16, y: i16) -> Segment {
    Segment::new((x, y), (7, 7, 7, 255))
}

fn tinted(x: i16, y: i16, tint: u8) -> Segment {
    Segment::new((x, y), (tint, 0, 0, 255))
}

fn row_without(y: i16, gap: i16) -> Vec<Segment> {
    (0..10).filter(|x| *x != gap).map(|x| block(x, y)).collect()
}

fn sorted_positions(cells: &Vec<Segment>) -> Vec<(i16, i16)> {
    let mut out: Vec<(i16, i16)> = cells.iter().map(|seg| (seg.x, seg.y)).collect();
    out.sort();
    out
}

#[test]
fn a_new_board_is_empty() {
    let board = Board::new();
    assert!(board.cells().is_empty());
    assert!(board.ghost_layer().is_empty());
    assert!(!board.is_occupied((0, 0)));
    for y in 0..20 {
        assert!(!board.has_full_row(y));
    }
}

#[test]
fn settled_cells_are_occupied() {
    let mut board = Board::new();
    assert_eq!(board.settle(&vec![block(3, 19), block(4, 19), block(4, 18)]), Ok(()));
    assert!(board.is_occupied((3, 19)));
    assert!(board.is_occupied((4, 19)));
    assert!(board.is_occupied((4, 18)));
    assert!(!board.is_occupied((3, 18)));
    assert!(!board.is_occupied((19, 3)));
    assert_eq!(board.cells(), &vec![block(3, 19), block(4, 19), block(4, 18)]);
    assert_eq!(board.settle(&vec![block(0, 0)]), Ok(()));
    assert_eq!(board.cells().len(), 4);
    assert_eq!(board.cells()[3], block(0, 0));
}

#[test]
fn settling_on_an_occupied_position_is_refused() {
    let mut board = Board::new();
    assert_eq!(board.settle(&vec![block(3, 19)]), Ok(()));
    let before = board.cells().clone();
    assert_eq!(board.settle(&vec![block(2, 19), tinted(3, 19, 1)]), Err(InvariantViolation));
    assert_eq!(board.cells(), &before);
    assert!(!board.is_occupied((2, 19)));
}

#[test]
fn settling_one_position_twice_at_once_is_refused() {
    let mut board = Board::new();
    assert_eq!(board.settle(&vec![block(2, 19), tinted(2, 19, 1)]), Err(InvariantViolation));
    assert!(board.cells().is_empty());
}

#[test]
fn settling_outside_the_field_is_refused() {
    for outside in [block(5, -1), block(5, 20), block(-1, 5), block(10, 5)] {
        let mut board = Board::new();
        assert_eq!(board.settle(&vec![block(1, 1), outside]), Err(InvariantViolation));
        assert!(board.cells().is_empty());
    }
    let mut board = Board::new();
    assert_eq!(board.settle(&vec![block(0, 0), block(9, 19), block(0, 19), block(9, 0)]), Ok(()));
}

#[test]
fn a_row_is_full_with_ten_cells() {
    let mut board = Board::new();
    assert_eq!(board.settle(&row_without(19, 4)), Ok(()));
    assert!(!board.has_full_row(19));
    assert_eq!(board.settle(&vec![block(4, 19), block(4, 18)]), Ok(()));
    assert!(board.has_full_row(19));
    assert!(!board.has_full_row(18));
    assert!(!board.has_full_row(0));
    assert!(!board.has_full_row(-1));
    assert!(!board.has_full_row(20));
}

#[test]
fn clearing_nothing_changes_nothing() {
    let mut board = Board::new();
    assert_eq!(board.clear_and_compact(), 0);
    assert_eq!(board.settle(&row_without(19, 4)), Ok(()));
    let before = board.cells().clone();
    assert_eq!(board.clear_and_compact(), 0);
    assert_eq!(board.cells(), &before);
}

#[test]
fn one_full_row_is_cleared_and_the_cells_above_fall() {
    let mut board = Board::new();
    assert_eq!(board.settle(&row_without(19, 4)), Ok(()));
    let piece = vec![tinted(4, 16, 1), tinted(4, 17, 2), tinted(4, 18, 3), tinted(4, 19, 4)];
    assert_eq!(board.settle(&piece), Ok(()));
    assert_eq!(board.clear_and_compact(), 1);
    assert_eq!(board.cells(), &vec![tinted(4, 17, 1), tinted(4, 18, 2), tinted(4, 19, 3)]);
    assert_eq!(board.clear_and_compact(), 0);
}

#[test]
fn four_full_rows_are_cleared_at_once() {
    let mut board = Board::new();
    for y in 16..20 {
        assert_eq!(board.settle(&row_without(y, 5)), Ok(()));
    }
    assert_eq!(board.settle(&vec![tinted(0, 15, 9), tinted(9, 14, 8)]), Ok(()));
    let piece = Tetromino::from(Shape::I);
    let landed: Vec<Segment> =
        piece.body.iter().map(|seg| Segment::new((seg.x, seg.y + 18), seg.color)).collect();
    assert_eq!(board.settle(&landed), Ok(()));
    assert_eq!(board.clear_and_compact(), 4);
    assert_eq!(board.cells(), &vec![tinted(0, 19, 9), tinted(9, 18, 8)]);
}

#[test]
fn cells_fall_by_the_number_of_cleared_rows_below_them() {
    let mut board = Board::new();
    // rows 19 and 17 are full, rows 18 and 16 are not
    let mut full_19 = row_without(19, 0);
    full_19.push(block(0, 19));
    let mut full_17 = row_without(17, 3);
    full_17.push(block(3, 17));
    assert_eq!(board.settle(&full_19), Ok(()));
    assert_eq!(board.settle(&vec![tinted(2, 18, 1), tinted(7, 18, 2)]), Ok(()));
    assert_eq!(board.settle(&full_17), Ok(()));
    assert_eq!(board.settle(&vec![tinted(2, 16, 3), tinted(5, 3, 4)]), Ok(()));
    assert_eq!(board.clear_and_compact(), 2);
    assert_eq!(
        board.cells(),
        &vec![tinted(2, 19, 1), tinted(7, 19, 2), tinted(2, 18, 3), tinted(5, 5, 4)]
    );
}

#[test]
fn no_row_is_full_and_no_position_is_taken_twice_after_a_compaction() {
    let mut board = Board::new();
    // a full field but for one gap in every second row
    for y in 0..20 {
        let gap = if y % 2 == 0 { 10 } else { y / 2 };
        assert_eq!(board.settle(&row_without(y, gap)), Ok(()));
    }
    assert_eq!(board.clear_and_compact(), 10);
    for y in -1..21 {
        assert!(!board.has_full_row(y));
    }
    let positions = sorted_positions(board.cells());
    assert_eq!(positions.len(), 90);
    for pair in positions.windows(2) {
        assert_ne!(pair[0], pair[1]);
    }
    assert!(positions.iter().all(|(x, y)| 0 <= *x && *x < 10 && 10 <= *y && *y < 20));
}

#[test]
fn the_ghost_layer_lies_above_the_topmost_cell_of_each_column() {
    let mut board = Board::new();
    assert_eq!(
        board.settle(&vec![block(7, 19), block(2, 19), block(2, 18), block(7, 15), block(0, 0)]),
        Ok(())
    );
    assert_eq!(
        board.ghost_layer(),
        &vec![
            Segment::new((0, -1), (1, 1, 0, 255)),
            Segment::new((2, 17), (1, 1, 0, 255)),
            Segment::new((7, 14), (1, 1, 0, 255)),
        ]
    );
}

#[test]
fn the_ghost_layer_follows_a_compaction() {
    let mut board = Board::new();
    assert_eq!(board.settle(&row_without(19, 4)), Ok(()));
    assert_eq!(board.settle(&vec![block(4, 19), block(4, 18), block(4, 17)]), Ok(()));
    assert_eq!(board.ghost_layer().len(), 10);
    assert_eq!(board.clear_and_compact(), 1);
    assert_eq!(board.ghost_layer(), &vec![Segment::new((4, 17), (1, 1, 0, 255))]);
}

#[test]
fn the_ceiling_is_hit_by_a_top_row_cell_on_a_settled_cell() {
    let mut board = Board::new();
    let piece = Tetromino::from(Shape::S);
    // the spawned S has (5, 0) and (4, 0) in the top row, (6, -1) and (5, -1) above
    assert!(!board.hit_ceiling(&piece));
    assert_eq!(board.settle(&vec![block(6, 0), block(5, 1), block(3, 0)]), Ok(()));
    assert!(!board.hit_ceiling(&piece));
    assert_eq!(board.settle(&vec![block(4, 0)]), Ok(()));
    assert!(board.hit_ceiling(&piece));
    let mut lower = Tetromino::from(Shape::S);
    lower.update();
    // one row lower the piece has (6, 0) and (5, 0) in the top row
    assert!(board.hit_ceiling(&lower));
    lower.update();
    assert!(!board.hit_ceiling(&lower));
}
