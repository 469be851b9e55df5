use fetris::game::{Direction, GameAction, Input, Matrix, PlayerGame, PlayerMinimalInfos};
use fetris::players::Player;
use fetris::pools::{
    garbage_amount, is_immobile, LockReport, Outgoing, PlayerInfos, Pool, PoolState, Recipient,
    Seat, StepOutcome,
};
use fetris::tetrimino::{Tetrimino, TetriminoType};
use fetris::tetrimino_bag::TetriminoBag;
use fetris::ServerRequest;

fn empty_matrix() -> Matrix {
    [[None; 10]; 32]
}

fn board(name: &str, matrix: Matrix, current: Option<Tetrimino>) -> PlayerGame {
    PlayerGame::from_parts(
        String::from(name),
        matrix,
        current,
        TetriminoType::Empty,
        vec![TetriminoType::S, TetriminoType::Z, TetriminoType::T],
        TetriminoBag::new(),
    )
    .unwrap()
}

fn seat(id: u64, received: u32, dead: bool) -> Seat {
    Seat {
        id,
        infos: PlayerInfos {
            player: board("p", empty_matrix(), None),
            last_call: 0,
            garbage_received: received,
            dead,
        },
    }
}

fn seat_with(id: u64, player: PlayerGame) -> Seat {
    Seat { id, infos: PlayerInfos { player, last_call: 0, garbage_received: 0, dead: false } }
}

fn action_to(id: u64, action: GameAction) -> Outgoing {
    Outgoing { to: Recipient::Player(id), request: ServerRequest::MinifiedAction(action) }
}

fn occupied(row: &[Option<TetriminoType>; 10]) -> usize {
    row.iter().filter(|c| c.is_some()).count()
}

#[test]
fn garbage_table() {
    assert_eq!(garbage_amount(0, false), 0);
    assert_eq!(garbage_amount(1, false), 0);
    assert_eq!(garbage_amount(2, false), 1);
    assert_eq!(garbage_amount(3, false), 2);
    assert_eq!(garbage_amount(4, false), 4);
    assert_eq!(garbage_amount(5, false), 0);
    assert_eq!(garbage_amount(0, true), 0);
    assert_eq!(garbage_amount(1, true), 2);
    assert_eq!(garbage_amount(2, true), 4);
    assert_eq!(garbage_amount(3, true), 6);
    assert_eq!(garbage_amount(4, true), 8);
    assert_eq!(garbage_amount(32, true), 64);
    assert_eq!(garbage_amount(1000, true), 2000);
    assert_eq!(garbage_amount(u32::MAX, false), 0);
}

#[test]
fn the_receiver_has_received_the_least() {
    let pool = Pool::from_parts(
        vec![seat(1, 0, false), seat(2, 5, false), seat(3, 2, false), seat(4, 2, false)],
        100,
    )
    .unwrap();
    assert_eq!(pool.choose_receiver(1), Some(3));
    // The sender is left out even where it has received the least.
    assert_eq!(pool.choose_receiver(3), Some(1));
    assert_eq!(pool.choose_receiver(9), Some(1));
}

#[test]
fn the_receiver_is_never_dead() {
    let pool = Pool::from_parts(
        vec![seat(1, 0, false), seat(2, 5, false), seat(3, 2, true), seat(4, 2, false)],
        100,
    )
    .unwrap();
    assert_eq!(pool.choose_receiver(1), Some(4));
    let pool =
        Pool::from_parts(vec![seat(1, 0, false), seat(2, 5, true), seat(3, 2, true)], 100).unwrap();
    assert_eq!(pool.choose_receiver(1), None);
    let pool = Pool::from_parts(vec![seat(1, 0, false)], 100).unwrap();
    assert_eq!(pool.choose_receiver(1), None);
    let pool = Pool::from_parts(vec![], 100).unwrap();
    assert_eq!(pool.choose_receiver(1), None);
}

#[test]
fn a_pool_has_no_two_members_with_one_connection() {
    assert!(Pool::from_parts(vec![seat(1, 0, false), seat(1, 0, false)], 100).is_none());
    let pool = Pool::from_parts(vec![seat(7, 0, false), seat(3, 0, true)], 250).unwrap();
    assert_eq!(pool.len(), 2);
    assert_eq!(pool.call_every(), 250);
    assert_eq!(pool.members(), vec![7, 3]);
    assert!(pool.player(3).unwrap().dead);
    assert!(pool.player(4).is_none());
}

#[test]
fn garbage_goes_to_the_receiver_and_to_nobody_else() {
    let mut pool = Pool::from_parts(
        vec![seat(1, 0, false), seat(2, 5, false), seat(3, 2, false), seat(4, 2, false)],
        100,
    )
    .unwrap();
    let message = pool.send_garbage_at(1, LockReport { rows: 4, spin: false }, 6);
    assert_eq!(message, Some(action_to(3, GameAction::GetGarbage(4, 6))));
    assert_eq!(pool.player(3).unwrap().garbage_received, 6);
    let matrix = *pool.player(3).unwrap().player.matrix();
    for y in 0..4 {
        assert_eq!(occupied(&matrix[y]), 9);
        assert_eq!(matrix[y][6], None);
    }
    assert_eq!(occupied(&matrix[4]), 0);
    for id in [1u64, 2, 4].iter() {
        assert_eq!(*pool.player(*id).unwrap().player.matrix(), empty_matrix());
    }
    assert_eq!(pool.player(2).unwrap().garbage_received, 5);
    assert_eq!(pool.player(4).unwrap().garbage_received, 2);
    // Now 4 has received less than 3.
    assert_eq!(pool.choose_receiver(1), Some(4));
}

#[test]
fn a_lock_that_sends_nothing_changes_nothing() {
    let mut pool = Pool::from_parts(vec![seat(1, 0, false), seat(2, 0, false)], 100).unwrap();
    assert_eq!(pool.send_garbage_at(1, LockReport { rows: 1, spin: false }, 6), None);
    assert_eq!(pool.send_garbage_at(1, LockReport { rows: 0, spin: true }, 6), None);
    assert_eq!(pool.player(2).unwrap().garbage_received, 0);
    assert_eq!(*pool.player(2).unwrap().player.matrix(), empty_matrix());
}

#[test]
fn garbage_without_a_receiver_is_lost() {
    let mut pool = Pool::from_parts(vec![seat(1, 0, false), seat(2, 0, true)], 100).unwrap();
    assert_eq!(pool.send_garbage(1, 4, false), None);
    assert_eq!(pool.player(2).unwrap().garbage_received, 0);
    assert_eq!(*pool.player(2).unwrap().player.matrix(), empty_matrix());
}

#[test]
fn the_count_of_garbage_stops_at_the_end_of_its_range() {
    let mut pool =
        Pool::from_parts(vec![seat(1, 0, false), seat(2, u32::MAX - 1, false)], 100).unwrap();
    assert!(pool.send_garbage_at(1, LockReport { rows: 4, spin: false }, 0).is_some());
    assert_eq!(pool.player(2).unwrap().garbage_received, u32::MAX);
}

#[test]
fn the_hole_of_random_garbage_lies_in_the_grid() {
    for _ in 0..50 {
        let mut pool = Pool::from_parts(vec![seat(1, 0, false), seat(2, 0, false)], 100).unwrap();
        let message = pool.send_garbage(1, 3, true).unwrap();
        assert_eq!(message.to, Recipient::Player(2));
        match message.request {
            ServerRequest::MinifiedAction(GameAction::GetGarbage(amount, hole)) => {
                assert_eq!(amount, 6);
                assert!(hole < 10);
                let matrix = *pool.player(2).unwrap().player.matrix();
                for y in 0..6 {
                    assert_eq!(occupied(&matrix[y]), 9);
                    assert_eq!(matrix[y][hole], None);
                }
            }
            other => panic!("unexpected message {:?}", other),
        }
        assert_eq!(pool.player(2).unwrap().garbage_received, 6);
    }
}

#[test]
fn immobility_is_no_way_left_right_or_up() {
    let mut matrix = empty_matrix();
    let piece = Tetrimino::from_parts(TetriminoType::O, 0, (0, 1)).unwrap();
    assert!(!is_immobile(&piece, &matrix));
    matrix[1][2] = Some(TetriminoType::I);
    assert!(!is_immobile(&piece, &matrix));
    matrix[2][0] = Some(TetriminoType::I);
    assert!(is_immobile(&piece, &matrix));
}

#[test]
fn creating_a_pool_tells_every_member() {
    let (pool, out) =
        Pool::create(vec![(10, String::from("ann")), (20, String::from("bob"))], 300, 1000);
    assert_eq!(pool.len(), 2);
    assert_eq!(pool.call_every(), 300);
    assert_eq!(pool.members(), vec![10, 20]);
    assert_eq!(out.len(), 3);
    for (i, id) in [10u64, 20].iter().enumerate() {
        let infos = pool.player(*id).unwrap();
        assert_eq!(infos.last_call, 1000);
        assert_eq!(infos.garbage_received, 0);
        assert!(!infos.dead);
        assert_eq!(infos.player.pending_tetriminos().len(), 6);
        assert_eq!(
            out[i],
            Outgoing {
                to: Recipient::Player(*id),
                request: ServerRequest::GameReady(infos.player.clone(), 300),
            }
        );
    }
    assert_eq!(pool.player(10).unwrap().player.name(), "ann");
    assert_eq!(pool.player(20).unwrap().player.name(), "bob");
    assert_eq!(
        out[2],
        Outgoing {
            to: Recipient::Pool,
            request: ServerRequest::PlayerListUpdate(vec![
                PlayerMinimalInfos { name: String::from("ann"), dead: false },
                PlayerMinimalInfos { name: String::from("bob"), dead: false },
            ]),
        }
    );
    assert_eq!(pool.user_list().len(), 2);
}

#[test]
fn removing_a_member_keeps_the_others() {
    let mut pool =
        Pool::from_parts(vec![seat(1, 0, false), seat(2, 5, false), seat(3, 2, false)], 100)
            .unwrap();
    pool.remove_user(2);
    assert_eq!(pool.members(), vec![1, 3]);
    pool.remove_user(2);
    assert_eq!(pool.members(), vec![1, 3]);
    pool.remove_user(1);
    pool.remove_user(3);
    assert_eq!(pool.len(), 0);
}

#[test]
fn a_round_ticks_the_members_whose_timer_ran_out() {
    let (mut pool, _) =
        Pool::create(vec![(10, String::from("ann")), (20, String::from("bob"))], 300, 1000);
    // Too early for anyone.
    assert!(pool.update(1299).is_empty());
    assert!(pool.update(999).is_empty());
    assert!(pool.player(10).unwrap().player.current_tetrimino().is_none());
    // The first tick spawns a piece for each.
    let next_of_ann = *pool.player(10).unwrap().player.pending_tetriminos().last().unwrap();
    let out = pool.update(1300);
    assert_eq!(out.len(), 2);
    for (i, id) in [10u64, 20].iter().enumerate() {
        let infos = pool.player(*id).unwrap();
        assert_eq!(infos.last_call, 1300);
        let queued = infos.player.pending_tetriminos()[0];
        assert_eq!(out[i], action_to(*id, GameAction::NewTetrimino(queued)));
    }
    assert_eq!(
        pool.player(10).unwrap().player.current_tetrimino(),
        Some(Tetrimino::new(next_of_ann))
    );
    // The next tick lets the pieces fall.
    assert!(pool.update(1500).is_empty());
    let out = pool.update(1600);
    assert_eq!(out, vec![action_to(10, GameAction::Fall), action_to(20, GameAction::Fall)]);
    assert_eq!(pool.player(10).unwrap().player.current_tetrimino().unwrap().position().1, 21);
    assert_eq!(pool.player(20).unwrap().last_call, 1600);
}

// A grid that leaves no room at the spawn position.
fn topped_out() -> Matrix {
    let mut matrix = empty_matrix();
    for y in 0..23 {
        for x in 3..7 {
            matrix[y][x] = Some(TetriminoType::J);
        }
    }
    matrix
}

#[test]
fn a_player_whose_piece_cannot_spawn_has_lost() {
    let mut pool = Pool::from_parts(
        vec![
            seat_with(1, board("ann", topped_out(), None)),
            seat_with(2, board("bob", empty_matrix(), None)),
        ],
        100,
    )
    .unwrap();
    let out = pool.update(100);
    assert!(pool.player(1).unwrap().dead);
    assert!(!pool.player(2).unwrap().dead);
    assert_eq!(out.len(), 3);
    assert_eq!(out[0], Outgoing { to: Recipient::Player(1), request: ServerRequest::GameOver });
    assert_eq!(
        out[1],
        Outgoing {
            to: Recipient::Pool,
            request: ServerRequest::PlayerListUpdate(vec![
                PlayerMinimalInfos { name: String::from("ann"), dead: true },
                PlayerMinimalInfos { name: String::from("bob"), dead: false },
            ]),
        }
    );
    assert_eq!(out[2].to, Recipient::Player(2));
    // Nothing is scheduled for a player who has lost, and nothing taken.
    let frozen = pool.player(1).unwrap().player.clone();
    let out = pool.update(500);
    assert_eq!(out, vec![action_to(2, GameAction::Fall)]);
    assert_eq!(pool.player(1).unwrap().player, frozen);
    assert_eq!(pool.player(1).unwrap().last_call, 100);
    assert!(pool.handle_player_input(1, Input::Left, 600).is_empty());
    assert!(pool.handle_player_input(1, Input::Fall, 600).is_empty());
    assert_eq!(pool.player(1).unwrap().player, frozen);
}

// Rows 0 and 1 lack column 4 only.
fn two_rows_with_a_gap() -> Matrix {
    let mut matrix = empty_matrix();
    for y in 0..2 {
        matrix[y] = [Some(TetriminoType::L); 10];
        matrix[y][4] = None;
    }
    matrix
}

#[test]
fn a_hard_drop_that_clears_two_rows_sends_one_row_of_garbage() {
    let bar = Tetrimino::from_parts(TetriminoType::I, 1, (3, 22)).unwrap();
    let mut pool = Pool::from_parts(
        vec![
            seat_with(1, board("ann", two_rows_with_a_gap(), Some(bar))),
            seat_with(2, board("bob", empty_matrix(), None)),
            seat_with(3, board("cid", empty_matrix(), None)),
        ],
        100,
    )
    .unwrap();
    let out = pool.handle_player_input(1, Input::FastMove, 40);
    assert_eq!(out.len(), 2);
    assert_eq!(out[0], action_to(1, GameAction::MoveCurrentTetrimino(Direction::FastDown)));
    assert_eq!(out[1].to, Recipient::Player(2));
    let hole = match &out[1].request {
        ServerRequest::MinifiedAction(GameAction::GetGarbage(1, hole)) => *hole,
        other => panic!("unexpected message {:?}", other),
    };
    assert!(hole < 10);
    let ann = pool.player(1).unwrap();
    assert_eq!(ann.last_call, 40);
    assert_eq!(ann.player.current_tetrimino(), None);
    let mut left = empty_matrix();
    left[0][4] = Some(TetriminoType::I);
    left[1][4] = Some(TetriminoType::I);
    assert_eq!(*ann.player.matrix(), left);
    let bob = pool.player(2).unwrap();
    assert_eq!(bob.garbage_received, 1);
    assert_eq!(occupied(&bob.player.matrix()[0]), 9);
    assert_eq!(bob.player.matrix()[0][hole], None);
    assert_eq!(pool.player(3).unwrap().garbage_received, 0);
}

#[test]
fn a_tick_that_locks_routes_its_garbage() {
    // The bar stands in the gap already, on the floor. Above it the
    // column is free: the piece is not immobile.
    let bar = Tetrimino::from_parts(TetriminoType::I, 1, (3, 3)).unwrap();
    let mut pool = Pool::from_parts(
        vec![
            seat_with(1, board("ann", two_rows_with_a_gap(), Some(bar))),
            seat_with(2, board("bob", empty_matrix(), None)),
        ],
        100,
    )
    .unwrap();
    // Without an active piece a move finds nothing to act on.
    let out = pool.handle_player_input(2, Input::Left, 90);
    assert!(out.is_empty());
    assert_eq!(pool.player(2).unwrap().last_call, 0);
    let out = pool.handle_player_input(1, Input::Fall, 95);
    assert_eq!(out.len(), 2);
    assert_eq!(out[0], action_to(1, GameAction::Fall));
    match &out[1] {
        Outgoing {
            to: Recipient::Player(2),
            request: ServerRequest::MinifiedAction(GameAction::GetGarbage(1, hole)),
        } => assert!(*hole < 10),
        other => panic!("unexpected message {:?}", other),
    }
    assert_eq!(pool.player(1).unwrap().last_call, 95);
    assert_eq!(pool.player(2).unwrap().garbage_received, 1);
}

#[test]
fn inputs_are_applied_at_once() {
    let piece = Tetrimino::from_parts(TetriminoType::O, 0, (0, 10)).unwrap();
    let mut pool = Pool::from_parts(
        vec![seat_with(1, board("ann", empty_matrix(), Some(piece)))],
        100,
    )
    .unwrap();
    // Against the wall: nothing to replay, but the player was active.
    assert!(pool.handle_player_input(1, Input::Left, 10).is_empty());
    assert_eq!(pool.player(1).unwrap().last_call, 10);
    assert_eq!(
        pool.handle_player_input(1, Input::Right, 20),
        vec![action_to(1, GameAction::MoveCurrentTetrimino(Direction::Right))]
    );
    assert_eq!(
        pool.handle_player_input(1, Input::Acceleration, 30),
        vec![action_to(1, GameAction::MoveCurrentTetrimino(Direction::Down))]
    );
    assert_eq!(
        pool.handle_player_input(1, Input::Rotate, 40),
        vec![action_to(1, GameAction::Rotate(false))]
    );
    assert_eq!(
        pool.handle_player_input(1, Input::RotateRevert, 50),
        vec![action_to(1, GameAction::Rotate(true))]
    );
    assert_eq!(pool.player(1).unwrap().player.current_tetrimino().unwrap().position(), (1, 9));
    assert_eq!(
        pool.handle_player_input(1, Input::StockTetrimino, 60),
        vec![action_to(1, GameAction::StockTetrimino)]
    );
    assert_eq!(pool.player(1).unwrap().last_call, 60);
    assert_eq!(pool.player(1).unwrap().player.stocked_tetrimino(), TetriminoType::O);
    // No active piece: the input finds nothing to act on, and the timer
    // goes on.
    assert!(pool.handle_player_input(1, Input::Left, 70).is_empty());
    assert!(pool.handle_player_input(1, Input::StockTetrimino, 70).is_empty());
    assert!(pool.handle_player_input(1, Input::FastMove, 70).is_empty());
    assert_eq!(pool.player(1).unwrap().last_call, 60);
    // A fall tick asks for the next piece.
    let out = pool.handle_player_input(1, Input::Fall, 80);
    assert_eq!(out.len(), 1);
    assert_eq!(
        pool.player(1).unwrap().player.current_tetrimino(),
        Some(Tetrimino::new(TetriminoType::T))
    );
    assert_eq!(pool.player(1).unwrap().last_call, 80);
    // A stranger's input changes nothing.
    assert!(pool.handle_player_input(5, Input::Left, 90).is_empty());
}

#[test]
fn a_step_reports_the_lock_it_made() {
    let mut matrix = two_rows_with_a_gap();
    matrix[2] = [Some(TetriminoType::L); 10];
    matrix[2][4] = None;
    matrix[3][3] = Some(TetriminoType::L);
    matrix[3][5] = Some(TetriminoType::L);
    // The bar in the gap, rows 0 to 3, walled in on both sides; above it
    // the column is free.
    let bar = Tetrimino::from_parts(TetriminoType::I, 1, (3, 3)).unwrap();
    let mut infos = PlayerInfos::new(board("ann", matrix, Some(bar)), 0);
    let outcome = infos.play_at(Input::Fall, 7, 0);
    assert_eq!(
        outcome,
        StepOutcome {
            reply: Some(GameAction::Fall),
            died: false,
            lock: Some(LockReport { rows: 3, spin: false }),
        }
    );
    assert_eq!(infos.last_call, 7);

    matrix[4][4] = Some(TetriminoType::L);
    let mut infos = PlayerInfos::new(board("ann", matrix, Some(bar)), 0);
    assert!(infos.is_due(100, 100));
    assert!(!infos.is_due(99, 100));
    let outcome = infos.play_at(Input::FastMove, 8, 0);
    assert_eq!(
        outcome,
        StepOutcome {
            reply: Some(GameAction::MoveCurrentTetrimino(Direction::FastDown)),
            died: false,
            lock: Some(LockReport { rows: 3, spin: true }),
        }
    );
    assert_eq!(garbage_amount(3, true), 6);
}

#[test]
fn a_connected_player_starts_without_a_pool() {
    let mut player = Player::new();
    assert_eq!(player.name(), "Anonyme");
    assert_eq!(player.pool(), PoolState::NoPool);
    player.set_name(String::from("ann"));
    player.change_pool(PoolState::PendingPool);
    assert_eq!(player.name(), "ann");
    assert_eq!(player.pool(), PoolState::PendingPool);
    player.change_pool(PoolState::Pool(12));
    assert_eq!(player.clone().pool(), PoolState::Pool(12));
}
