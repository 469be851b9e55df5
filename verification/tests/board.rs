use fetris::actions::{
    apply_action, drop_current_tetrimino, input_to_action, ApplyActionError,
};
use fetris::game::{Direction, GameAction, Input, Matrix, PlayerGame};
use fetris::tetrimino::{Tetrimino, TetriminoType};
use fetris::tetrimino_bag::TetriminoBag;

fn empty_matrix() -> Matrix {
    [[None; 10]; 32]
}

fn full_row() -> [Option<TetriminoType>; 10] {
    [Some(TetriminoType::I); 10]
}

fn board_with(matrix: Matrix, current: Option<Tetrimino>) -> PlayerGame {
    PlayerGame::from_parts(
        String::from("ann"),
        matrix,
        current,
        TetriminoType::Empty,
        vec![TetriminoType::S, TetriminoType::Z, TetriminoType::T],
        TetriminoBag::new(),
    )
    .unwrap()
}

fn piece(ttype: TetriminoType, rotation: u8, x: i8, y: i8) -> Tetrimino {
    Tetrimino::from_parts(ttype, rotation, (x, y)).unwrap()
}

fn occupied(row: &[Option<TetriminoType>; 10]) -> usize {
    row.iter().filter(|c| c.is_some()).count()
}

#[test]
fn a_new_board_is_empty_with_six_types_queued() {
    let board = PlayerGame::new(String::from("ann"));
    assert_eq!(board.name(), "ann");
    assert_eq!(*board.matrix(), empty_matrix());
    assert!(board.current_tetrimino().is_none());
    assert_eq!(board.stocked_tetrimino(), TetriminoType::Empty);
    let pending = board.pending_tetriminos();
    assert_eq!(pending.len(), 6);
    for (i, t) in pending.iter().enumerate() {
        assert_ne!(*t, TetriminoType::Empty);
        for u in pending[..i].iter() {
            assert_ne!(t, u);
        }
    }
    let left = board.bag().contents();
    assert_eq!(left.len(), 1);
    assert!(!pending.contains(&left[0]));
    assert_ne!(left[0], TetriminoType::Empty);
}

#[test]
fn a_board_needs_a_queue() {
    let board = PlayerGame::from_parts(
        String::from("ann"),
        empty_matrix(),
        None,
        TetriminoType::Empty,
        vec![],
        TetriminoBag::new(),
    );
    assert!(board.is_none());
}

#[test]
fn from_parts_keeps_the_parts() {
    let mut matrix = empty_matrix();
    matrix[0][0] = Some(TetriminoType::J);
    let current = piece(TetriminoType::L, 2, 4, 9);
    let board = PlayerGame::from_parts(
        String::from("bob"),
        matrix,
        Some(current),
        TetriminoType::O,
        vec![TetriminoType::S, TetriminoType::Empty],
        TetriminoBag::from_vec(vec![TetriminoType::T, TetriminoType::I]).unwrap(),
    )
    .unwrap();
    assert_eq!(board.name(), "bob");
    assert_eq!(*board.matrix(), matrix);
    assert_eq!(board.current_tetrimino(), Some(current));
    assert_eq!(board.stocked_tetrimino(), TetriminoType::O);
    assert_eq!(board.pending_tetriminos(), vec![TetriminoType::S, TetriminoType::Empty]);
    assert_eq!(board.bag().contents(), vec![TetriminoType::T, TetriminoType::I]);
    assert_eq!(board.clone(), board);
}

#[test]
fn change_current_tetrimino_spawns_or_clears() {
    let mut board = board_with(empty_matrix(), None);
    board.change_current_tetrimino(TetriminoType::T);
    assert_eq!(board.current_tetrimino(), Some(Tetrimino::new(TetriminoType::T)));
    board.change_current_tetrimino(TetriminoType::Empty);
    assert_eq!(board.current_tetrimino(), None);
}

#[test]
fn current_tetrimino_mut_changes_the_piece_in_place() {
    let mut board = board_with(empty_matrix(), Some(piece(TetriminoType::T, 0, 3, 10)));
    *board.current_tetrimino_mut() = Some(piece(TetriminoType::J, 1, 5, 6));
    assert_eq!(board.current_tetrimino(), Some(piece(TetriminoType::J, 1, 5, 6)));
    assert_eq!(board.pending_tetriminos().len(), 3);
}

#[test]
fn the_last_queued_type_comes_next() {
    let mut board = board_with(empty_matrix(), None);
    board.change_tetrimino_add_pending(TetriminoType::I);
    assert_eq!(board.current_tetrimino(), Some(Tetrimino::new(TetriminoType::T)));
    assert_eq!(
        board.pending_tetriminos(),
        vec![TetriminoType::I, TetriminoType::S, TetriminoType::Z]
    );
    board.change_tetrimino_add_pending(TetriminoType::Empty);
    assert_eq!(board.current_tetrimino(), Some(Tetrimino::new(TetriminoType::Z)));
    assert_eq!(
        board.pending_tetriminos(),
        vec![TetriminoType::Empty, TetriminoType::I, TetriminoType::S]
    );
}

#[test]
fn a_queued_empty_type_gives_no_piece() {
    let mut board = PlayerGame::from_parts(
        String::from("ann"),
        empty_matrix(),
        Some(piece(TetriminoType::T, 0, 3, 10)),
        TetriminoType::Empty,
        vec![TetriminoType::Empty],
        TetriminoBag::new(),
    )
    .unwrap();
    assert_eq!(apply_action(&mut board, GameAction::NewTetrimino(TetriminoType::L)), Ok(()));
    assert_eq!(board.current_tetrimino(), None);
    assert_eq!(board.pending_tetriminos(), vec![TetriminoType::L]);
}

#[test]
fn new_tetrimino_at_draws_the_item_asked_for() {
    let mut board = board_with(empty_matrix(), None);
    // A fresh bag holds I J L O S T Z; the last item fills the gap.
    let added = board.new_tetrimino_at(2);
    assert_eq!(added, TetriminoType::L);
    assert_eq!(
        board.bag().contents(),
        vec![
            TetriminoType::I,
            TetriminoType::J,
            TetriminoType::Z,
            TetriminoType::O,
            TetriminoType::S,
            TetriminoType::T,
        ]
    );
    assert_eq!(
        board.pending_tetriminos(),
        vec![TetriminoType::L, TetriminoType::S, TetriminoType::Z]
    );
    assert_eq!(board.current_tetrimino(), Some(Tetrimino::new(TetriminoType::T)));
}

#[test]
fn new_tetrimino_draws_from_the_bag() {
    let mut board = board_with(empty_matrix(), None);
    let before = board.bag().contents();
    let added = board.new_tetrimino();
    assert!(before.contains(&added));
    let after = board.bag().contents();
    assert_eq!(after.len(), 6);
    assert!(!after.contains(&added));
    assert_eq!(board.pending_tetriminos()[0], added);
    assert_eq!(board.current_tetrimino(), Some(Tetrimino::new(TetriminoType::T)));
}

#[test]
fn hold_with_an_empty_slot_leaves_no_piece() {
    let mut board = board_with(empty_matrix(), Some(piece(TetriminoType::J, 2, 5, 8)));
    board.stock_current_tetrimino();
    assert_eq!(board.stocked_tetrimino(), TetriminoType::J);
    assert_eq!(board.current_tetrimino(), None);
    // Without an active piece nothing changes.
    board.stock_current_tetrimino();
    assert_eq!(board.stocked_tetrimino(), TetriminoType::J);
    assert_eq!(board.current_tetrimino(), None);
}

#[test]
fn hold_swaps_with_the_slot() {
    let mut board = PlayerGame::from_parts(
        String::from("ann"),
        empty_matrix(),
        Some(piece(TetriminoType::J, 2, 5, 8)),
        TetriminoType::O,
        vec![TetriminoType::S],
        TetriminoBag::new(),
    )
    .unwrap();
    board.stock_current_tetrimino();
    assert_eq!(board.stocked_tetrimino(), TetriminoType::J);
    assert_eq!(board.current_tetrimino(), Some(Tetrimino::new(TetriminoType::O)));
}

#[test]
fn is_line_complete_wants_every_cell() {
    let mut matrix = empty_matrix();
    matrix[4] = full_row();
    matrix[5] = full_row();
    matrix[5][9] = None;
    let board = board_with(matrix, None);
    assert!(board.is_line_complete(4));
    assert!(!board.is_line_complete(5));
    assert!(!board.is_line_complete(0));
    assert!(!board.is_line_complete(31));
}

// Rows 3 and 5 are full; rows 0 to 7 but these hold one cell each.
fn two_full_rows() -> Matrix {
    let mut matrix = empty_matrix();
    for y in 0..8 {
        matrix[y][y] = Some(TetriminoType::J);
    }
    matrix[3] = full_row();
    matrix[5] = full_row();
    matrix
}

#[test]
fn clearing_removes_the_full_rows_and_no_others() {
    let before = two_full_rows();
    let mut board = board_with(before, None);
    let lines = board.remove_complete_lines();
    assert_eq!(lines, vec![3u8, 5u8]);
    let after = *board.matrix();
    assert_eq!(after[0], before[0]);
    assert_eq!(after[1], before[1]);
    assert_eq!(after[2], before[2]);
    assert_eq!(after[3], before[4]);
    assert_eq!(after[4], before[6]);
    assert_eq!(after[5], before[7]);
    for y in 6..32 {
        assert_eq!(after[y], [None; 10]);
    }
    for y in 6..30 {
        assert_eq!(after[y], before[y + 2]);
    }
}

#[test]
fn locking_without_a_piece_still_clears() {
    let mut board = board_with(two_full_rows(), None);
    let lines = board.place_current_tetrimino();
    assert_eq!(lines.len(), 2);
    assert_eq!(occupied(&board.matrix()[3]), 1);
    assert_eq!(board.matrix()[3][4], Some(TetriminoType::J));
}

#[test]
fn clearing_a_grid_without_full_rows_changes_nothing() {
    let mut matrix = empty_matrix();
    matrix[0] = full_row();
    matrix[0][3] = None;
    matrix[31][0] = Some(TetriminoType::T);
    let mut board = board_with(matrix, None);
    assert!(board.remove_complete_lines().is_empty());
    assert_eq!(*board.matrix(), matrix);
}

#[test]
fn clearing_a_full_grid_leaves_it_empty() {
    let mut board = board_with([full_row(); 32], None);
    let lines = board.remove_complete_lines();
    assert_eq!(lines, (0u8..32).collect::<Vec<u8>>());
    assert_eq!(*board.matrix(), empty_matrix());
}

#[test]
fn locking_stamps_the_piece_and_clears_what_it_filled() {
    // Rows 0 and 1 lack columns 4 and 5; the O piece at (4, 1) fills them.
    let mut matrix = empty_matrix();
    matrix[0] = full_row();
    matrix[1] = full_row();
    matrix[0][4] = None;
    matrix[0][5] = None;
    matrix[1][4] = None;
    matrix[1][5] = None;
    matrix[2][0] = Some(TetriminoType::Z);
    let mut board = board_with(matrix, Some(piece(TetriminoType::O, 0, 4, 1)));
    let lines = board.place_current_tetrimino();
    assert_eq!(lines, vec![0u8, 1u8]);
    assert_eq!(board.current_tetrimino(), None);
    let mut expected = empty_matrix();
    expected[0][0] = Some(TetriminoType::Z);
    assert_eq!(*board.matrix(), expected);
}

#[test]
fn locking_marks_the_cells_with_the_type() {
    let mut board = board_with(empty_matrix(), Some(piece(TetriminoType::T, 0, 3, 10)));
    assert!(board.place_current_tetrimino().is_empty());
    let mut expected = empty_matrix();
    expected[9][3] = Some(TetriminoType::T);
    expected[9][4] = Some(TetriminoType::T);
    expected[9][5] = Some(TetriminoType::T);
    expected[10][4] = Some(TetriminoType::T);
    assert_eq!(*board.matrix(), expected);
}

#[test]
fn locking_leaves_out_the_cells_outside_the_grid() {
    // The upright bar at (0, 33) covers column 1, rows 30 to 33.
    let mut board = board_with(empty_matrix(), Some(piece(TetriminoType::I, 1, 0, 33)));
    assert!(board.place_current_tetrimino().is_empty());
    let mut expected = empty_matrix();
    expected[30][1] = Some(TetriminoType::I);
    expected[31][1] = Some(TetriminoType::I);
    assert_eq!(*board.matrix(), expected);
}

#[test]
fn garbage_comes_in_from_below() {
    let mut matrix = empty_matrix();
    matrix[0][2] = Some(TetriminoType::S);
    matrix[30][7] = Some(TetriminoType::S);
    matrix[31][8] = Some(TetriminoType::S);
    let start = piece(TetriminoType::T, 0, 3, 10);
    let mut board = board_with(matrix, Some(start));
    assert!(start.is_valid(board.matrix()));
    board.add_garbage(4);
    let after = *board.matrix();
    assert_eq!(occupied(&after[0]), 9);
    assert_eq!(after[0][4], None);
    for x in 0..10 {
        if x != 4 {
            assert_eq!(after[0][x], Some(TetriminoType::Empty));
        }
    }
    for y in 1..32 {
        assert_eq!(after[y], matrix[y - 1]);
    }
    let moved = board.current_tetrimino().unwrap();
    assert_eq!(moved.position(), (3, 11));
    assert_eq!(moved.rotation(), 0);
    assert!(moved.is_valid(board.matrix()));
}

#[test]
fn garbage_pushes_a_piece_at_the_top_out_of_the_grid() {
    // The upright bar at (0, 31) covers rows 28 to 31.
    let start = piece(TetriminoType::I, 1, 0, 31);
    let mut board = board_with(empty_matrix(), Some(start));
    assert!(start.is_valid(board.matrix()));
    board.add_garbage(0);
    let moved = board.current_tetrimino().unwrap();
    assert_eq!(moved.position(), (0, 32));
    assert!(!moved.is_valid(board.matrix()));
}

#[test]
fn garbage_with_its_hole_outside_the_grid_is_solid() {
    let mut board = board_with(empty_matrix(), None);
    board.add_garbage(10);
    assert_eq!(occupied(&board.matrix()[0]), 10);
    assert_eq!(occupied(&board.matrix()[1]), 0);
}

#[test]
fn garbage_action_adds_as_many_rows_as_it_says() {
    let mut board = board_with(empty_matrix(), Some(piece(TetriminoType::T, 0, 3, 10)));
    assert_eq!(apply_action(&mut board, GameAction::GetGarbage(3, 7)), Ok(()));
    for y in 0..3 {
        assert_eq!(occupied(&board.matrix()[y]), 9);
        assert_eq!(board.matrix()[y][7], None);
    }
    assert_eq!(occupied(&board.matrix()[3]), 0);
    assert_eq!(board.current_tetrimino().unwrap().position(), (3, 13));
    assert_eq!(apply_action(&mut board, GameAction::GetGarbage(0, 99)), Ok(()));
    assert_eq!(occupied(&board.matrix()[3]), 0);
}

#[test]
fn moves_are_applied_or_rejected() {
    let mut board = board_with(empty_matrix(), Some(piece(TetriminoType::O, 0, 0, 5)));
    assert_eq!(
        apply_action(&mut board, GameAction::MoveCurrentTetrimino(Direction::Left)),
        Err(ApplyActionError::InvalidActionResetTimer)
    );
    assert_eq!(board.current_tetrimino().unwrap().position(), (0, 5));
    assert_eq!(
        apply_action(&mut board, GameAction::MoveCurrentTetrimino(Direction::Right)),
        Ok(())
    );
    assert_eq!(board.current_tetrimino().unwrap().position(), (1, 5));
    assert_eq!(
        apply_action(&mut board, GameAction::MoveCurrentTetrimino(Direction::Down)),
        Ok(())
    );
    assert_eq!(board.current_tetrimino().unwrap().position(), (1, 4));
    assert_eq!(apply_action(&mut board, GameAction::MoveCurrentTetrimino(Direction::Up)), Ok(()));
    assert_eq!(board.current_tetrimino().unwrap().position(), (1, 5));
}

#[test]
fn actions_without_a_piece_are_rejected() {
    let mut board = board_with(two_full_rows(), None);
    let before = board.clone();
    for action in [
        GameAction::MoveCurrentTetrimino(Direction::Left),
        GameAction::MoveCurrentTetrimino(Direction::Down),
        GameAction::MoveCurrentTetrimino(Direction::FastDown),
        GameAction::Rotate(false),
        GameAction::Rotate(true),
        GameAction::StockTetrimino,
    ]
    .iter()
    {
        assert_eq!(
            apply_action(&mut board, *action),
            Err(ApplyActionError::InvalidActionNoResetTimer)
        );
        assert_eq!(board, before);
    }
    assert_eq!(
        apply_action(&mut board, GameAction::Fall),
        Err(ApplyActionError::InvalidActionResetTimer)
    );
    assert_eq!(board, before);
}

#[test]
fn rotate_action_turns_or_is_rejected() {
    let mut board = board_with(empty_matrix(), Some(piece(TetriminoType::I, 0, 6, 10)));
    assert_eq!(apply_action(&mut board, GameAction::Rotate(true)), Ok(()));
    assert_eq!(board.current_tetrimino(), Some(piece(TetriminoType::I, 1, 6, 10)));

    let mut matrix = empty_matrix();
    matrix[10][7] = Some(TetriminoType::Z);
    matrix[10][9] = Some(TetriminoType::Z);
    matrix[8][6] = Some(TetriminoType::Z);
    matrix[6][9] = Some(TetriminoType::Z);
    matrix[12][6] = Some(TetriminoType::Z);
    let mut board = board_with(matrix, Some(piece(TetriminoType::I, 0, 6, 10)));
    assert_eq!(
        apply_action(&mut board, GameAction::Rotate(true)),
        Err(ApplyActionError::InvalidActionResetTimer)
    );
    assert_eq!(board.current_tetrimino(), Some(piece(TetriminoType::I, 0, 6, 10)));
}

#[test]
fn hold_action_swaps_the_piece() {
    let mut board = board_with(empty_matrix(), Some(piece(TetriminoType::Z, 1, 2, 9)));
    assert_eq!(apply_action(&mut board, GameAction::StockTetrimino), Ok(()));
    assert_eq!(board.stocked_tetrimino(), TetriminoType::Z);
    assert_eq!(board.current_tetrimino(), None);
}

#[test]
fn lock_action_locks_in_mid_air() {
    let mut board = board_with(empty_matrix(), Some(piece(TetriminoType::O, 0, 4, 15)));
    assert_eq!(apply_action(&mut board, GameAction::PlaceCurrentTetrimino), Ok(()));
    assert_eq!(board.current_tetrimino(), None);
    assert_eq!(board.matrix()[15][4], Some(TetriminoType::O));
    assert_eq!(board.matrix()[14][5], Some(TetriminoType::O));
    assert_eq!(apply_action(&mut board, GameAction::PlaceCurrentTetrimino), Ok(()));
}

#[test]
fn fall_moves_down_or_locks() {
    let mut board = board_with(empty_matrix(), Some(piece(TetriminoType::O, 0, 4, 2)));
    assert_eq!(apply_action(&mut board, GameAction::Fall), Ok(()));
    assert_eq!(board.current_tetrimino().unwrap().position(), (4, 1));
    assert_eq!(*board.matrix(), empty_matrix());
    assert_eq!(apply_action(&mut board, GameAction::Fall), Ok(()));
    assert_eq!(board.current_tetrimino(), None);
    assert_eq!(board.matrix()[0][4], Some(TetriminoType::O));
    assert_eq!(board.matrix()[1][5], Some(TetriminoType::O));
}

#[test]
fn new_piece_action_takes_the_type_it_is_given() {
    let mut board = board_with(empty_matrix(), None);
    assert_eq!(apply_action(&mut board, GameAction::NewTetrimino(TetriminoType::O)), Ok(()));
    assert_eq!(board.current_tetrimino(), Some(Tetrimino::new(TetriminoType::T)));
    assert_eq!(board.pending_tetriminos()[0], TetriminoType::O);
    assert_eq!(board.bag().contents().len(), 7);
}

fn stack() -> Matrix {
    let mut matrix = empty_matrix();
    matrix[0] = full_row();
    matrix[0][4] = None;
    matrix[1][3] = Some(TetriminoType::L);
    matrix[2][3] = Some(TetriminoType::L);
    matrix[1][6] = Some(TetriminoType::L);
    matrix
}

#[test]
fn hard_drop_rests_on_the_stack() {
    let mut board = board_with(stack(), Some(Tetrimino::new(TetriminoType::T)));
    drop_current_tetrimino(&mut board);
    // The T covers (3, y - 1), (4, y - 1), (5, y - 1), (4, y): it rests
    // on the cell at (3, 2).
    assert_eq!(board.current_tetrimino().unwrap().position(), (3, 4));
    assert_eq!(*board.matrix(), stack());
}

#[test]
fn hard_drop_is_falling_until_the_lock() {
    for ttype in [
        TetriminoType::I,
        TetriminoType::J,
        TetriminoType::L,
        TetriminoType::O,
        TetriminoType::S,
        TetriminoType::T,
        TetriminoType::Z,
    ]
    .iter()
    {
        let mut dropped = board_with(stack(), Some(Tetrimino::new(*ttype)));
        assert_eq!(
            apply_action(&mut dropped, GameAction::MoveCurrentTetrimino(Direction::FastDown)),
            Ok(())
        );
        assert_eq!(dropped.current_tetrimino(), None);

        let mut fallen = board_with(stack(), Some(Tetrimino::new(*ttype)));
        let mut ticks = 0;
        while fallen.current_tetrimino().is_some() {
            assert_eq!(apply_action(&mut fallen, GameAction::Fall), Ok(()));
            ticks += 1;
            assert!(ticks < 40);
        }
        assert_eq!(fallen, dropped);

        let mut stepped = board_with(stack(), Some(Tetrimino::new(*ttype)));
        while apply_action(&mut stepped, GameAction::MoveCurrentTetrimino(Direction::Down))
            .is_ok()
        {}
        assert_eq!(apply_action(&mut stepped, GameAction::PlaceCurrentTetrimino), Ok(()));
        assert_eq!(stepped.matrix(), dropped.matrix());
        assert_eq!(stepped, dropped);
    }
}

#[test]
fn hard_drop_clears_the_row_it_fills() {
    // The upright bar at (3, 22) stands in column 4 and falls into the gap.
    let mut board = board_with(stack(), Some(piece(TetriminoType::I, 1, 3, 22)));
    assert_eq!(
        apply_action(&mut board, GameAction::MoveCurrentTetrimino(Direction::FastDown)),
        Ok(())
    );
    let mut expected = empty_matrix();
    expected[0][3] = Some(TetriminoType::L);
    expected[1][3] = Some(TetriminoType::L);
    expected[0][6] = Some(TetriminoType::L);
    expected[0][4] = Some(TetriminoType::I);
    expected[1][4] = Some(TetriminoType::I);
    expected[2][4] = Some(TetriminoType::I);
    assert_eq!(*board.matrix(), expected);
}

#[test]
fn inputs_ask_for_their_actions() {
    assert_eq!(
        input_to_action(Input::Left),
        GameAction::MoveCurrentTetrimino(Direction::Left)
    );
    assert_eq!(
        input_to_action(Input::Right),
        GameAction::MoveCurrentTetrimino(Direction::Right)
    );
    assert_eq!(
        input_to_action(Input::FastMove),
        GameAction::MoveCurrentTetrimino(Direction::FastDown)
    );
    assert_eq!(
        input_to_action(Input::Acceleration),
        GameAction::MoveCurrentTetrimino(Direction::Down)
    );
    assert_eq!(input_to_action(Input::Rotate), GameAction::Rotate(false));
    assert_eq!(input_to_action(Input::RotateRevert), GameAction::Rotate(true));
    assert_eq!(input_to_action(Input::StockTetrimino), GameAction::StockTetrimino);
}

#[test]
fn a_bag_gives_each_type_once_in_seven_draws() {
    let mut bag = TetriminoBag::new();
    for _ in 0..3 {
        let mut drawn = Vec::new();
        for left in (1..=7usize).rev() {
            assert_eq!(bag.len(), left);
            let t = bag.choose_a_tetrimino();
            assert_ne!(t, TetriminoType::Empty);
            assert!(!drawn.contains(&t));
            drawn.push(t);
        }
        assert_eq!(drawn.len(), 7);
        assert_eq!(bag.len(), 7);
    }
}

#[test]
fn draw_at_fills_the_gap_with_the_last_item() {
    let mut bag = TetriminoBag::new();
    assert_eq!(bag.draw_at(0), TetriminoType::I);
    assert_eq!(
        bag.contents(),
        vec![
            TetriminoType::Z,
            TetriminoType::J,
            TetriminoType::L,
            TetriminoType::O,
            TetriminoType::S,
            TetriminoType::T,
        ]
    );
    assert_eq!(bag.draw_at(5), TetriminoType::T);
    assert_eq!(bag.contents().len(), 5);
}

#[test]
fn the_last_draw_fills_the_bag_afresh() {
    let mut bag = TetriminoBag::from_vec(vec![TetriminoType::S]).unwrap();
    assert_eq!(bag.draw_at(0), TetriminoType::S);
    assert_eq!(bag.contents(), TetriminoBag::new().contents());
    assert_eq!(bag.clone(), TetriminoBag::new());
}

#[test]
fn a_bag_holds_real_types_once_each() {
    assert!(TetriminoBag::from_vec(vec![]).is_none());
    assert!(TetriminoBag::from_vec(vec![TetriminoType::I, TetriminoType::I]).is_none());
    assert!(TetriminoBag::from_vec(vec![TetriminoType::I, TetriminoType::Empty]).is_none());
    assert!(TetriminoBag::from_vec(vec![
        TetriminoType::I,
        TetriminoType::J,
        TetriminoType::L,
        TetriminoType::O,
        TetriminoType::S,
        TetriminoType::T,
        TetriminoType::Z,
        TetriminoType::I,
    ])
    .is_none());
    assert!(TetriminoBag::from_vec(vec![TetriminoType::Z, TetriminoType::I]).is_some());
}
