use fetris::game::{Direction, Matrix};
use fetris::rotation_tetrimino::{rotate_shape, wall_kicks_tests_list};
use fetris::tetrimino::{Tetrimino, TetriminoType};

const REAL_TYPES: [TetriminoType; 7] = [
    TetriminoType::I,
    TetriminoType::J,
    TetriminoType::L,
    TetriminoType::O,
    TetriminoType::S,
    TetriminoType::T,
    TetriminoType::Z,
];

fn empty_matrix() -> Matrix {
    [[None; 10]; 32]
}

fn quarter_turn(shape: Vec<Vec<bool>>) -> Vec<Vec<bool>> {
    rotate_shape(1, shape)
}

#[test]
fn base_shapes_have_four_cells() {
    for ttype in REAL_TYPES.iter() {
        let blocks = ttype.to_blocks();
        let count: usize = blocks.iter().map(|col| col.iter().filter(|c| **c).count()).sum();
        assert_eq!(count, 4);
        for column in blocks.iter() {
            assert_eq!(column.len(), blocks.len());
        }
    }
    assert!(TetriminoType::Empty.to_blocks().is_empty());
}

#[test]
fn base_shape_of_t_and_i() {
    assert_eq!(
        TetriminoType::T.to_blocks(),
        vec![vec![false, true, false], vec![true, true, false], vec![false, true, false]]
    );
    assert_eq!(TetriminoType::I.to_blocks(), vec![vec![false, true, false, false]; 4]);
    assert_eq!(TetriminoType::O.to_blocks(), vec![vec![true, true], vec![true, true]]);
}

#[test]
fn one_quarter_turn_of_the_bar() {
    let turned = quarter_turn(TetriminoType::I.to_blocks());
    assert_eq!(
        turned,
        vec![
            vec![false, false, false, false],
            vec![true, true, true, true],
            vec![false, false, false, false],
            vec![false, false, false, false],
        ]
    );
}

#[test]
fn one_quarter_turn_of_j() {
    let turned = quarter_turn(TetriminoType::J.to_blocks());
    assert_eq!(
        turned,
        vec![vec![false, false, true], vec![true, true, true], vec![false, false, false]]
    );
}

#[test]
fn four_quarter_turns_give_the_shape_back() {
    for ttype in REAL_TYPES.iter() {
        for rotation in 0..4u8 {
            let piece = Tetrimino::from_parts(*ttype, rotation, (3, 10)).unwrap();
            let start = piece.to_blocks();
            let mut shape = start.clone();
            for _ in 0..4 {
                shape = quarter_turn(shape);
            }
            assert_eq!(shape, start);
            assert_eq!(rotate_shape(4, start.clone()), start);
        }
    }
}

#[test]
fn rotate_shape_counts_its_turns() {
    let base = TetriminoType::L.to_blocks();
    assert_eq!(rotate_shape(0, base.clone()), base);
    let once = quarter_turn(base.clone());
    let twice = quarter_turn(once.clone());
    assert_eq!(rotate_shape(2, base.clone()), twice);
    // Five asks for one turn more than four, and four for a whole turn.
    assert_eq!(rotate_shape(5, base.clone()), once);
    assert_eq!(rotate_shape(8, base.clone()), base);
}

#[test]
fn no_turn_leaves_any_shape_as_it_is() {
    assert_eq!(rotate_shape(0, vec![]), Vec::<Vec<bool>>::new());
    assert_eq!(rotate_shape(0, vec![vec![true], vec![]]), vec![vec![true], vec![]]);
}

#[test]
fn a_quarter_turn_of_a_rectangle_exchanges_width_and_height() {
    let shape = vec![vec![true, false, false], vec![false, false, true]];
    assert_eq!(
        rotate_shape(1, shape),
        vec![vec![false, true], vec![false, false], vec![true, false]]
    );
}

#[test]
fn piece_blocks_follow_the_rotation_state() {
    let base = TetriminoType::S.to_blocks();
    for rotation in 0..4u8 {
        let piece = Tetrimino::from_parts(TetriminoType::S, rotation, (0, 5)).unwrap();
        assert_eq!(piece.to_blocks(), rotate_shape(rotation, base.clone()));
    }
}

#[test]
fn new_piece_stands_at_its_spawn_position() {
    assert_eq!(Tetrimino::new(TetriminoType::I).position(), (3, 22));
    assert_eq!(Tetrimino::new(TetriminoType::O).position(), (4, 22));
    for ttype in [
        TetriminoType::J,
        TetriminoType::L,
        TetriminoType::S,
        TetriminoType::T,
        TetriminoType::Z,
    ]
    .iter()
    {
        let piece = Tetrimino::new(*ttype);
        assert_eq!(piece.position(), (3, 22));
        assert_eq!(piece.ttype(), *ttype);
        assert_eq!(piece.rotation(), 0);
    }
}

#[test]
fn every_type_spawns_valid_on_an_empty_grid() {
    let matrix = empty_matrix();
    for ttype in REAL_TYPES.iter() {
        assert!(Tetrimino::new(*ttype).is_valid(&matrix));
    }
}

#[test]
fn from_parts_takes_real_pieces_only() {
    assert!(Tetrimino::from_parts(TetriminoType::Empty, 0, (3, 3)).is_none());
    assert!(Tetrimino::from_parts(TetriminoType::T, 4, (3, 3)).is_none());
    let piece = Tetrimino::from_parts(TetriminoType::T, 3, (-2, 7)).unwrap();
    assert_eq!(piece.ttype(), TetriminoType::T);
    assert_eq!(piece.rotation(), 3);
    assert_eq!(piece.position(), (-2, 7));
}

#[test]
fn apply_direction_moves_one_step() {
    let mut piece = Tetrimino::from_parts(TetriminoType::T, 0, (3, 10)).unwrap();
    piece.apply_direction(Direction::Left);
    assert_eq!(piece.position(), (2, 10));
    piece.apply_direction(Direction::Right);
    piece.apply_direction(Direction::Right);
    assert_eq!(piece.position(), (4, 10));
    piece.apply_direction(Direction::Down);
    assert_eq!(piece.position(), (4, 9));
    piece.apply_direction(Direction::Up);
    piece.apply_direction(Direction::Up);
    assert_eq!(piece.position(), (4, 11));
    piece.apply_direction(Direction::FastDown);
    assert_eq!(piece.position(), (4, 11));
}

#[test]
fn apply_direction_stops_at_the_ends_of_the_range() {
    let mut piece = Tetrimino::from_parts(TetriminoType::T, 0, (-128, 127)).unwrap();
    piece.apply_direction(Direction::Left);
    piece.apply_direction(Direction::Up);
    assert_eq!(piece.position(), (-128, 127));
    let mut piece = Tetrimino::from_parts(TetriminoType::T, 0, (127, -128)).unwrap();
    piece.apply_direction(Direction::Right);
    piece.apply_direction(Direction::Down);
    assert_eq!(piece.position(), (127, -128));
    assert!(!piece.is_valid(&empty_matrix()));
}

#[test]
fn check_position_tells_the_covered_cells() {
    // The T at (3, 10): cells (3, 9), (4, 10), (4, 9), (5, 9).
    let piece = Tetrimino::from_parts(TetriminoType::T, 0, (3, 10)).unwrap();
    let mut covered = Vec::new();
    for y in 0..32i8 {
        for x in 0..10i8 {
            if piece.check_position(x, y) {
                covered.push((x, y));
            }
        }
    }
    assert_eq!(covered, vec![(3, 9), (4, 9), (5, 9), (4, 10)]);
    assert!(!piece.check_position(-128, 127));
    assert!(!piece.check_position(127, -128));
}

#[test]
fn validity_ends_at_the_walls_and_the_floor() {
    let matrix = empty_matrix();
    // The bar lies in row y - 1, columns x to x + 3.
    assert!(Tetrimino::from_parts(TetriminoType::I, 0, (0, 1)).unwrap().is_valid(&matrix));
    assert!(Tetrimino::from_parts(TetriminoType::I, 0, (6, 1)).unwrap().is_valid(&matrix));
    assert!(!Tetrimino::from_parts(TetriminoType::I, 0, (-1, 1)).unwrap().is_valid(&matrix));
    assert!(!Tetrimino::from_parts(TetriminoType::I, 0, (7, 1)).unwrap().is_valid(&matrix));
    assert!(!Tetrimino::from_parts(TetriminoType::I, 0, (3, 0)).unwrap().is_valid(&matrix));
    assert!(Tetrimino::from_parts(TetriminoType::I, 0, (3, 32)).unwrap().is_valid(&matrix));
    assert!(!Tetrimino::from_parts(TetriminoType::I, 0, (3, 33)).unwrap().is_valid(&matrix));
}

#[test]
fn a_piece_over_a_locked_cell_is_not_valid() {
    let mut matrix = empty_matrix();
    matrix[9][4] = Some(TetriminoType::Z);
    let piece = Tetrimino::from_parts(TetriminoType::T, 0, (3, 10)).unwrap();
    assert!(!piece.is_valid(&matrix));
    matrix[9][4] = None;
    matrix[10][3] = Some(TetriminoType::Z);
    assert!(piece.is_valid(&matrix));
}

#[test]
fn can_move_to_tests_the_next_step() {
    let mut matrix = empty_matrix();
    let piece = Tetrimino::from_parts(TetriminoType::O, 0, (0, 1)).unwrap();
    assert!(piece.is_valid(&matrix));
    assert!(!piece.can_move_to(&matrix, Direction::Left));
    assert!(!piece.can_move_to(&matrix, Direction::Down));
    assert!(piece.can_move_to(&matrix, Direction::Right));
    assert!(piece.can_move_to(&matrix, Direction::Up));
    assert!(piece.can_move_to(&matrix, Direction::FastDown));
    matrix[1][2] = Some(TetriminoType::I);
    assert!(!piece.can_move_to(&matrix, Direction::Right));
    assert_eq!(piece.position(), (0, 1));
}

#[test]
fn wall_kick_tables_of_the_bar() {
    assert_eq!(
        wall_kicks_tests_list(TetriminoType::I, 0),
        [(0, 0), (-2, 0), (1, 0), (-2, -1), (1, 2)]
    );
    assert_eq!(
        wall_kicks_tests_list(TetriminoType::I, 1),
        [(0, 0), (-1, 0), (2, 0), (-1, 2), (2, -1)]
    );
    assert_eq!(
        wall_kicks_tests_list(TetriminoType::I, 2),
        [(0, 0), (2, 0), (-1, 0), (2, 1), (-1, -2)]
    );
    assert_eq!(
        wall_kicks_tests_list(TetriminoType::I, 3),
        [(0, 0), (1, 0), (-2, 0), (1, -2), (-2, 1)]
    );
}

#[test]
fn a_whole_turn_keys_the_table_of_the_first_state() {
    assert_eq!(
        wall_kicks_tests_list(TetriminoType::I, 4),
        wall_kicks_tests_list(TetriminoType::I, 0)
    );
    assert_eq!(
        wall_kicks_tests_list(TetriminoType::T, 4),
        wall_kicks_tests_list(TetriminoType::T, 0)
    );
}

#[test]
fn wall_kick_tables_of_the_other_types() {
    for ttype in [
        TetriminoType::J,
        TetriminoType::L,
        TetriminoType::O,
        TetriminoType::S,
        TetriminoType::T,
        TetriminoType::Z,
    ]
    .iter()
    {
        assert_eq!(
            wall_kicks_tests_list(*ttype, 0),
            [(0, 0), (-1, 0), (-1, 1), (0, -2), (-1, -2)]
        );
        assert_eq!(wall_kicks_tests_list(*ttype, 1), [(0, 0), (1, 0), (1, -1), (0, 2), (1, 2)]);
        assert_eq!(wall_kicks_tests_list(*ttype, 2), [(0, 0), (1, 0), (1, 1), (0, -2), (1, -2)]);
        assert_eq!(
            wall_kicks_tests_list(*ttype, 3),
            [(0, 0), (-1, 0), (-1, -1), (0, 2), (-1, 2)]
        );
    }
}

#[test]
fn rotation_in_the_open_takes_the_first_candidate() {
    let matrix = empty_matrix();
    let mut piece = Tetrimino::from_parts(TetriminoType::I, 0, (3, 10)).unwrap();
    assert!(piece.rotate(&matrix, true));
    assert_eq!(piece.rotation(), 1);
    assert_eq!(piece.position(), (3, 10));
    let mut piece = Tetrimino::from_parts(TetriminoType::I, 0, (3, 10)).unwrap();
    assert!(piece.rotate(&matrix, false));
    assert_eq!(piece.rotation(), 3);
    assert_eq!(piece.position(), (3, 10));
}

// The bar at (6, 10) in state 0 lies against the right wall in row 9. In
// state 1 it stands in column x + 1, rows y - 3 to y. The candidates of
// the turn to state 1 stand, in order, at x = 6, 8, 5, 8 (one row lower)
// and 5 (two rows higher).
#[test]
fn wall_kick_takes_the_first_candidate_that_is_valid() {
    let mut matrix = empty_matrix();
    matrix[8][7] = Some(TetriminoType::Z);
    let mut piece = Tetrimino::from_parts(TetriminoType::I, 0, (6, 10)).unwrap();
    assert!(piece.is_valid(&matrix));
    assert!(piece.rotate(&matrix, true));
    assert_eq!(piece.rotation(), 1);
    assert_eq!(piece.position(), (8, 10));
    assert!(piece.is_valid(&matrix));
}

#[test]
fn wall_kick_goes_on_to_the_third_candidate() {
    let mut matrix = empty_matrix();
    matrix[8][7] = Some(TetriminoType::Z);
    matrix[8][9] = Some(TetriminoType::Z);
    let mut piece = Tetrimino::from_parts(TetriminoType::I, 0, (6, 10)).unwrap();
    assert!(piece.rotate(&matrix, true));
    assert_eq!(piece.rotation(), 1);
    assert_eq!(piece.position(), (5, 10));
}

#[test]
fn wall_kick_goes_on_to_the_fourth_and_fifth_candidate() {
    let mut matrix = empty_matrix();
    matrix[10][7] = Some(TetriminoType::Z);
    matrix[10][9] = Some(TetriminoType::Z);
    matrix[8][6] = Some(TetriminoType::Z);
    let mut piece = Tetrimino::from_parts(TetriminoType::I, 0, (6, 10)).unwrap();
    assert!(piece.rotate(&matrix, true));
    assert_eq!(piece.rotation(), 1);
    assert_eq!(piece.position(), (8, 9));

    matrix[6][9] = Some(TetriminoType::Z);
    let mut piece = Tetrimino::from_parts(TetriminoType::I, 0, (6, 10)).unwrap();
    assert!(piece.rotate(&matrix, true));
    assert_eq!(piece.rotation(), 1);
    assert_eq!(piece.position(), (5, 12));
}

#[test]
fn rotation_that_no_candidate_allows_changes_nothing() {
    let mut matrix = empty_matrix();
    matrix[10][7] = Some(TetriminoType::Z);
    matrix[10][9] = Some(TetriminoType::Z);
    matrix[8][6] = Some(TetriminoType::Z);
    matrix[6][9] = Some(TetriminoType::Z);
    matrix[12][6] = Some(TetriminoType::Z);
    let mut piece = Tetrimino::from_parts(TetriminoType::I, 0, (6, 10)).unwrap();
    let before = piece;
    assert!(!piece.rotate(&matrix, true));
    assert_eq!(piece, before);
    assert_eq!(piece.rotation(), 0);
    assert_eq!(piece.position(), (6, 10));
}

#[test]
fn forward_turn_adds_the_kick_of_the_state_it_leads_to() {
    // The T at (3, 10) turns to state 3 with the table of state 3. With
    // the first candidate blocked the second stands one column left.
    let mut matrix = empty_matrix();
    let mut probe = Tetrimino::from_parts(TetriminoType::T, 3, (3, 10)).unwrap();
    assert!(probe.is_valid(&matrix));
    // Block a cell that the turned piece covers at (3, 10) and not at (2, 10).
    let mut blocked = None;
    for y in 0..32i8 {
        for x in 0..10i8 {
            let there = probe.check_position(x, y);
            probe.apply_direction(Direction::Left);
            let shifted = probe.check_position(x, y);
            probe.apply_direction(Direction::Right);
            if there && !shifted && blocked.is_none() {
                blocked = Some((x, y));
            }
        }
    }
    let (bx, by) = blocked.unwrap();
    matrix[by as usize][bx as usize] = Some(TetriminoType::Z);
    let mut piece = Tetrimino::from_parts(TetriminoType::T, 0, (3, 10)).unwrap();
    if piece.is_valid(&matrix) {
        assert!(piece.rotate(&matrix, false));
        assert_eq!(piece.rotation(), 3);
        assert_eq!(piece.position(), (2, 10));
    }
}
