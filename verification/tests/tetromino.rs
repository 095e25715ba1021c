use tetris::grid::{HEIGHT, WIDTH};
use tetris::segment::Segment;
use tetris::shape::{
    generate, generate_i, generate_j, generate_l, generate_o, generate_s, generate_t, generate_z,
    Shape,
};
use tetris::tetromino::{Motion, Tetromino};

fn positions(piece: &Tetromino) -> Vec<(i16, i16)> {
    piece.body.iter().map(|seg| (seg.x, seg.y)).collect()
}

fn block(x: i16, y: i16) -> Segment {
    Segment::new((x, y), (9, 9, 9, 255))
}

const ALL_SHAPES: [Shape; 7] =
    [Shape::L, Shape::O, Shape::S, Shape::Z, Shape::I, Shape::T, Shape::J];

#[test]
/// Test whether piece is translated appropriately
fn test_translate() {
    let mut piece = Tetromino::new();
    let orig_piece = piece.clone();
    piece.translate(2, -1);
    for (seg_translated, seg_orig) in piece.body.iter().zip(orig_piece.body.iter()) {
        assert_eq!(seg_translated.x, seg_orig.x + 2);
        assert_eq!(seg_translated.y, seg_orig.y - 1);
    }
}

#[test]
fn test_kickback() {
    let base = Vec::new();
    let shape = Shape::I;
    let mut piece = Tetromino::from(shape);
    let body: Vec<Segment> = vec![(0, -1), (0, 0), (0, 1), (0, 2)]
        .into_iter()
        .map(|v| Segment::new(v, (0, 0, 0, 0)))
        .collect();
    piece.body = body;
    piece.rotate_left(&base);
}

#[test]
fn kick_from_the_left_wall_puts_the_leftmost_cell_in_column_zero() {
    let base = Vec::new();
    let mut piece = Tetromino::from(Shape::I);
    piece.body = vec![block(0, -1), block(0, 0), block(0, 1), block(0, 2)];
    assert!(piece.rotate_left(&base));
    assert_eq!(positions(&piece), vec![(3, 0), (2, 0), (1, 0), (0, 0)]);
    assert!(piece.body.iter().all(|seg| seg.color == (9, 9, 9, 255)));
}

#[test]
fn kick_from_the_right_wall_puts_the_rightmost_cell_in_the_last_column() {
    let base = Vec::new();
    let mut piece = Tetromino::from(Shape::I);
    piece.body = vec![block(9, 3), block(9, 4), block(9, 5), block(9, 6)];
    assert!(piece.rotate_right(&base));
    // turned right around (9, 4): columns 8 to 11, then two columns back
    assert_eq!(positions(&piece), vec![(6, 4), (7, 4), (8, 4), (9, 4)]);
    let mut other = Tetromino::from(Shape::I);
    other.body = vec![block(9, 3), block(9, 4), block(9, 5), block(9, 6)];
    assert!(other.rotate_left(&base));
    // turned left around (9, 4): columns 7 to 10, then one column back
    assert_eq!(positions(&other), vec![(9, 4), (8, 4), (7, 4), (6, 4)]);
}

#[test]
fn kickback_alone_moves_only_a_body_that_sticks_out() {
    let mut piece = Tetromino::from(Shape::T);
    let before = positions(&piece);
    piece.kickback();
    assert_eq!(positions(&piece), before);
    piece.body = vec![block(-2, 3), block(-1, 3), block(0, 3), block(-1, 4)];
    piece.kickback();
    assert_eq!(positions(&piece), vec![(0, 3), (1, 3), (2, 3), (1, 4)]);
    piece.body = vec![block(9, 3), block(10, 3), block(11, 3), block(10, 4)];
    piece.kickback();
    assert_eq!(positions(&piece), vec![(7, 3), (8, 3), (9, 3), (8, 4)]);
}

#[test]
fn layouts_are_the_classic_ones() {
    assert_eq!(generate_i(), vec![(5, -2), (5, -1), (5, 0), (5, 1)]);
    assert_eq!(generate_l(), vec![(5, -1), (5, 0), (5, 1), (4, 1)]);
    assert_eq!(generate_j(), vec![(5, -1), (5, 0), (5, 1), (6, 1)]);
    assert_eq!(generate_o(), vec![(5, -1), (4, -1), (5, 0), (4, 0)]);
    assert_eq!(generate_s(), vec![(6, -1), (5, -1), (5, 0), (4, 0)]);
    assert_eq!(generate_t(), vec![(6, -1), (5, -1), (5, 0), (4, -1)]);
    assert_eq!(generate_z(), vec![(4, -1), (5, -1), (5, 0), (6, 0)]);
    assert_eq!(generate(Shape::I), generate_i());
    assert_eq!(generate(Shape::L), generate_l());
    assert_eq!(generate(Shape::J), generate_j());
    assert_eq!(generate(Shape::O), generate_o());
    assert_eq!(generate(Shape::S), generate_s());
    assert_eq!(generate(Shape::T), generate_t());
    assert_eq!(generate(Shape::Z), generate_z());
}

#[test]
fn every_layout_has_four_distinct_cells() {
    for shape in ALL_SHAPES {
        let coords = generate(shape);
        assert_eq!(coords.len(), 4);
        for i in 0..4 {
            for j in (i + 1)..4 {
                assert_ne!(coords[i], coords[j]);
            }
        }
    }
}

#[test]
fn a_spawned_piece_has_the_layout_and_the_colour_of_its_shape() {
    for shape in ALL_SHAPES {
        let piece = Tetromino::from(shape);
        assert_eq!(piece.shape, shape);
        assert_eq!(positions(&piece), generate(shape));
        assert_eq!(Tetromino::generate_body(&shape), piece.body);
        for seg in piece.body.iter() {
            assert_eq!(seg.color, shape.color());
        }
    }
}

#[test]
fn shapes_have_their_colours() {
    assert_eq!(Shape::L.color(), (255, 128, 0, 255));
    assert_eq!(Shape::O.color(), (255, 255, 0, 255));
    assert_eq!(Shape::S.color(), (205, 0, 0, 255));
    assert_eq!(Shape::Z.color(), (0, 205, 0, 255));
    assert_eq!(Shape::I.color(), (0, 255, 255, 255));
    assert_eq!(Shape::T.color(), (51, 0, 104, 255));
    assert_eq!(Shape::J.color(), (0, 0, 153, 255));
    let from_trait: (u8, u8, u8, u8) = (&Shape::T).into();
    assert_eq!(from_trait, (51, 0, 104, 255));
}

#[test]
fn numbers_name_shapes() {
    assert_eq!(Shape::from(0), Shape::L);
    assert_eq!(Shape::from(1), Shape::O);
    assert_eq!(Shape::from(2), Shape::S);
    assert_eq!(Shape::from(3), Shape::Z);
    assert_eq!(Shape::from(4), Shape::I);
    assert_eq!(Shape::from(5), Shape::T);
    assert_eq!(Shape::from(6), Shape::J);
    assert_eq!(Shape::from(7), Shape::J);
    assert_eq!(Shape::from(-1), Shape::J);
    assert_eq!(Shape::default(), Shape::I);
}

#[test]
fn four_rotations_on_an_empty_field_restore_every_spawned_piece() {
    let base = Vec::new();
    for shape in ALL_SHAPES {
        let mut piece = Tetromino::from(shape);
        let start = piece.body.clone();
        for _ in 0..4 {
            let turned = piece.rotate_left(&base);
            assert_eq!(turned, shape != Shape::O);
        }
        assert_eq!(piece.body, start);
        for _ in 0..4 {
            piece.rotate_right(&base);
        }
        assert_eq!(piece.body, start);
    }
}

#[test]
fn one_rotation_is_a_quarter_turn_around_the_second_cell() {
    let base = Vec::new();
    let mut piece = Tetromino::from(Shape::I);
    assert!(piece.rotate_left(&base));
    assert_eq!(positions(&piece), vec![(6, -1), (5, -1), (4, -1), (3, -1)]);
    let mut piece = Tetromino::from(Shape::I);
    assert!(piece.rotate_right(&base));
    assert_eq!(positions(&piece), vec![(4, -1), (5, -1), (6, -1), (7, -1)]);
    let mut piece = Tetromino::from(Shape::L);
    assert!(piece.move_to(Motion::RotateLeft, &base));
    assert_eq!(positions(&piece), vec![(6, 0), (5, 0), (4, 0), (4, -1)]);
    assert!(piece.move_to(Motion::RotateRight, &base));
    assert_eq!(positions(&piece), vec![(5, -1), (5, 0), (5, 1), (4, 1)]);
}

#[test]
fn rotating_the_square_changes_nothing() {
    let empty = Vec::new();
    let crowded: Vec<Segment> = (0..WIDTH).map(|x| block(x, 5)).collect();
    for base in [&empty, &crowded] {
        let mut piece = Tetromino::from(Shape::O);
        let start = piece.body.clone();
        assert!(!piece.rotate_left(base));
        assert_eq!(piece.body, start);
        assert!(!piece.rotate_right(base));
        assert_eq!(piece.body, start);
        assert!(!piece.move_to(Motion::RotateLeft, base));
        assert!(!piece.move_to(Motion::RotateRight, base));
        assert_eq!(piece.body, start);
        assert_eq!(piece.get_central_segment(), None);
    }
}

#[test]
fn the_central_segment_is_the_second_one() {
    for shape in ALL_SHAPES {
        let piece = Tetromino::from(shape);
        if shape == Shape::O {
            assert_eq!(piece.get_central_segment(), None);
        } else {
            assert_eq!(piece.get_central_segment(), Some(piece.body[1]));
        }
    }
}

#[test]
fn a_rotation_into_the_floor_is_refused() {
    let base = Vec::new();
    let mut piece = Tetromino::from(Shape::I);
    // a lying bar in the last row: turned left it would reach rows 18 to 21
    piece.body = vec![block(3, 19), block(4, 19), block(5, 19), block(6, 19)];
    let before = piece.body.clone();
    assert!(!piece.rotate_left(&base));
    assert_eq!(piece.body, before);
    // turned right it reaches rows 17 to 20
    assert!(!piece.rotate_right(&base));
    assert_eq!(piece.body, before);
    // two rows higher the left turn reaches rows 16 to 19 and is accepted
    piece.translate(0, -2);
    assert!(piece.rotate_left(&base));
    assert_eq!(positions(&piece), vec![(4, 16), (4, 17), (4, 18), (4, 19)]);
    assert!(piece.body.iter().all(|seg| seg.y < HEIGHT));
}

#[test]
fn a_rotation_into_a_settled_cell_is_refused() {
    let mut piece = Tetromino::from(Shape::I);
    let before = piece.body.clone();
    // the left turn of the spawned bar needs (3, -1) to (6, -1)
    let base = vec![block(3, -1)];
    assert!(!piece.rotate_left(&base));
    assert_eq!(piece.body, before);
    // the right turn needs (4, -1) to (7, -1)
    assert!(piece.rotate_right(&base));
    assert_eq!(positions(&piece), vec![(4, -1), (5, -1), (6, -1), (7, -1)]);
}

#[test]
fn moves_stop_at_the_walls() {
    let base = Vec::new();
    let mut piece = Tetromino::from(Shape::I);
    for step in 1..=5 {
        assert!(piece.move_to(Motion::Left, &base));
        assert!(piece.body.iter().all(|seg| seg.x == 5 - step));
    }
    let before = piece.body.clone();
    assert!(!piece.move_to(Motion::Left, &base));
    assert_eq!(piece.body, before);
    for step in 1..=9 {
        assert!(piece.move_to(Motion::Right, &base));
        assert!(piece.body.iter().all(|seg| seg.x == step));
    }
    let before = piece.body.clone();
    assert!(!piece.move_to(Motion::Right, &base));
    assert_eq!(piece.body, before);
    assert!(piece.body.iter().all(|seg| 0 <= seg.x && seg.x < WIDTH));
}

#[test]
fn moves_are_all_or_nothing_against_settled_cells() {
    // only the lowest cell of the bar meets a settled cell on its left
    let base = vec![block(4, 1), block(6, -2)];
    let mut piece = Tetromino::from(Shape::I);
    let before = piece.body.clone();
    assert!(!piece.move_to(Motion::Left, &base));
    assert_eq!(piece.body, before);
    // only the highest one meets a settled cell on its right
    assert!(!piece.move_to(Motion::Right, &base));
    assert_eq!(piece.body, before);
    let free = vec![block(4, 2), block(6, -3)];
    assert!(piece.move_to(Motion::Left, &free));
    assert_eq!(positions(&piece), vec![(4, -2), (4, -1), (4, 0), (4, 1)]);
}

#[test]
fn a_piece_above_the_field_can_be_steered() {
    let base = Vec::new();
    let mut piece = Tetromino::from(Shape::I);
    piece.translate(0, -10);
    assert!(piece.move_to(Motion::Left, &base));
    assert_eq!(positions(&piece), vec![(4, -12), (4, -11), (4, -10), (4, -9)]);
    assert!(piece.move_to(Motion::Right, &base));
    assert_eq!(positions(&piece), vec![(5, -12), (5, -11), (5, -10), (5, -9)]);
}

#[test]
fn update_lets_every_cell_fall_by_one_row() {
    let mut piece = Tetromino::from(Shape::Z);
    piece.update();
    assert_eq!(positions(&piece), vec![(4, 0), (5, 0), (5, 1), (6, 1)]);
    piece.update();
    assert_eq!(positions(&piece), vec![(4, 1), (5, 1), (5, 2), (6, 2)]);
    assert_eq!(piece.shape, Shape::Z);
}

#[test]
fn translate_moves_a_preview_next_to_the_field() {
    let mut piece = Tetromino::from(Shape::J);
    piece.translate(8, 8);
    assert_eq!(positions(&piece), vec![(13, 7), (13, 8), (13, 9), (14, 9)]);
}

#[test]
fn clone_body_copies_the_segments() {
    let mut piece = Tetromino::from(Shape::S);
    let copy = piece.clone_body();
    assert_eq!(copy, piece.body);
    piece.update();
    assert_eq!(copy, Tetromino::from(Shape::S).body);
}

#[test]
fn segments_and_their_ghosts() {
    let seg = Segment::new((3, -4), (1, 2, 3, 4));
    assert_eq!(seg.x, 3);
    assert_eq!(seg.y, -4);
    assert_eq!(seg.color, (1, 2, 3, 4));
    let ghost = seg.add_ghost_layer();
    assert_eq!(ghost, Segment { x: 3, y: -5, color: (1, 1, 0, 255) });
}

#[test]
fn new_pieces_are_spawned_pieces_and_their_shapes_vary() {
    let mut seen: Vec<Shape> = Vec::new();
    for _ in 0..400 {
        let piece = Tetromino::new();
        assert_eq!(piece.body, Tetromino::from(piece.shape).body);
        if !seen.contains(&piece.shape) {
            seen.push(piece.shape);
        }
    }
    assert!(seen.len() >= 2);
}
