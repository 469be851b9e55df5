use crate::game::{
    grid_view, grid_wf, lemma_cleared_shape, BoardState, Direction, GameAction, Grid, Input,
    Matrix, PlayerGame,
};
use crate::tetrimino::{lemma_valid_bounds, rotated, Placement, Tetrimino};
use vstd::prelude::*;

verus! {

/// Why an action was not applied. The two kinds differ in what they mean
/// for the fall timer: the first counts as activity of the player, the
/// second does not.
#[derive(Debug, PartialEq, Eq, Structural, Clone, Copy)]
pub enum ApplyActionError {
    InvalidActionResetTimer,
    InvalidActionNoResetTimer,
}

/// Where a piece comes to rest when it descends as far as it can.
pub open spec fn resting(p: Placement, g: Grid) -> Placement
    decreases p.y,
    when p.wf()
    via resting_decreases
{
    if p.moved(Direction::Down).valid_on(g) {
        resting(p.moved(Direction::Down), g)
    } else {
        p
    }
}

#[via_fn]
proof fn resting_decreases(p: Placement, g: Grid) {
    if p.moved(Direction::Down).valid_on(g) {
        lemma_valid_bounds(p.moved(Direction::Down), g);
    }
}

/// The board with `p` as its active piece.
pub open spec fn with_piece(s: BoardState, p: Placement) -> BoardState {
    BoardState { current: Some(p), ..s }
}

/// The board that an action leads to. A rejected action leaves the board
/// as it is.
pub open spec fn next_state(s: BoardState, action: GameAction) -> BoardState {
    match action {
        GameAction::MoveCurrentTetrimino(Direction::FastDown) => match s.current {
            Some(p) => with_piece(s, resting(p, s.grid)).locked(),
            None => s,
        },
        GameAction::MoveCurrentTetrimino(direction) => match s.current {
            Some(p) => if p.moved(direction).valid_on(s.grid) {
                with_piece(s, p.moved(direction))
            } else {
                s
            },
            None => s,
        },
        GameAction::NewTetrimino(added) => s.enqueued(added),
        GameAction::PlaceCurrentTetrimino => s.locked(),
        GameAction::Rotate(revert_direction) => match s.current {
            Some(p) => match rotated(p, s.grid, revert_direction) {
                Some(q) => with_piece(s, q),
                None => s,
            },
            None => s,
        },
        GameAction::StockTetrimino => s.held(),
        GameAction::GetGarbage(count, hole) => s.with_garbage_rows(hole as int, count as nat),
        GameAction::Fall => match s.current {
            Some(p) => if p.moved(Direction::Down).valid_on(s.grid) {
                with_piece(s, p.moved(Direction::Down))
            } else {
                s.locked()
            },
            None => s,
        },
    }
}

/// Whether an action is applied, and if not, why not.
pub open spec fn verdict(s: BoardState, action: GameAction) -> Result<(), ApplyActionError> {
    match action {
        GameAction::MoveCurrentTetrimino(Direction::FastDown) => if s.current is Some {
            Ok(())
        } else {
            Err(ApplyActionError::InvalidActionNoResetTimer)
        },
        GameAction::MoveCurrentTetrimino(direction) => match s.current {
            Some(p) => if p.moved(direction).valid_on(s.grid) {
                Ok(())
            } else {
                Err(ApplyActionError::InvalidActionResetTimer)
            },
            None => Err(ApplyActionError::InvalidActionNoResetTimer),
        },
        GameAction::Rotate(revert_direction) => match s.current {
            Some(p) => if rotated(p, s.grid, revert_direction) is Some {
                Ok(())
            } else {
                Err(ApplyActionError::InvalidActionResetTimer)
            },
            None => Err(ApplyActionError::InvalidActionNoResetTimer),
        },
        GameAction::StockTetrimino => if s.current is Some {
            Ok(())
        } else {
            Err(ApplyActionError::InvalidActionNoResetTimer)
        },
        GameAction::Fall => if s.current is Some {
            Ok(())
        } else {
            Err(ApplyActionError::InvalidActionResetTimer)
        },
        _ => Ok(()),
    }
}

/// The board with its active piece, if any, at rest.
pub open spec fn dropped(s: BoardState) -> BoardState {
    match s.current {
        Some(p) => with_piece(s, resting(p, s.grid)),
        None => s,
    }
}

/// The action that a player's input asks for.
pub open spec fn input_action(input: Input) -> GameAction {
    match input {
        Input::Left => GameAction::MoveCurrentTetrimino(Direction::Left),
        Input::Right => GameAction::MoveCurrentTetrimino(Direction::Right),
        Input::FastMove => GameAction::MoveCurrentTetrimino(Direction::FastDown),
        Input::Rotate => GameAction::Rotate(false),
        Input::RotateRevert => GameAction::Rotate(true),
        Input::StockTetrimino => GameAction::StockTetrimino,
        Input::Acceleration => GameAction::MoveCurrentTetrimino(Direction::Down),
        Input::Fall => GameAction::Fall,
    }
}

/// Turns what a player asks for into an action. The fall tick is no
/// key of a player's: it comes from the timer.
pub fn input_to_action(input: Input) -> (r: GameAction)
    requires
        input != Input::Fall,
    ensures
        r == input_action(input),
{
    match input {
        Input::Left => GameAction::MoveCurrentTetrimino(Direction::Left),
        Input::Right => GameAction::MoveCurrentTetrimino(Direction::Right),
        Input::FastMove => GameAction::MoveCurrentTetrimino(Direction::FastDown),
        Input::Rotate => GameAction::Rotate(false),
        Input::RotateRevert => GameAction::Rotate(true),
        Input::StockTetrimino => GameAction::StockTetrimino,
        Input::Acceleration => GameAction::MoveCurrentTetrimino(Direction::Down),
        Input::Fall => GameAction::Fall,
    }
}

/// Moves a piece down as far as it goes on the grid.
pub fn drop_tetrimino(tetrimino: &mut Tetrimino, matrix: &Matrix)
    requires
        old(tetrimino).wf(),
    ensures
        final(tetrimino).wf(),
        final(tetrimino)@ == resting(old(tetrimino)@, grid_view(*matrix)),
{
    let ghost g = grid_view(*matrix);
    while tetrimino.can_move_to(matrix, Direction::Down)
        invariant
            tetrimino.wf(),
            g == grid_view(*matrix),
            resting(tetrimino@, g) == resting(old(tetrimino)@, g),
        decreases tetrimino@.y + 200,
    {
        proof {
            tetrimino.lemma_view_range();
            lemma_valid_bounds(tetrimino@.moved(Direction::Down), g);
        }
        tetrimino.apply_direction(Direction::Down);
    }
}

/// Moves the active piece down as far as it goes, without locking it.
pub fn drop_current_tetrimino(player: &mut PlayerGame)
    requires
        old(player).wf(),
    ensures
        final(player).wf(),
        final(player)@ == dropped(old(player)@),
{
    match player.current_tetrimino() {
        Some(mut tetrimino) => {
            drop_tetrimino(&mut tetrimino, player.matrix());
            *player.current_tetrimino_mut() = Some(tetrimino);
        },
        None => {},
    }
}

/// Applies an action to a board. This is the one transition function of
/// the game: the server applies with it what it decides, and the client
/// what it predicts and what it replays.
pub fn apply_action(player: &mut PlayerGame, action: GameAction) -> (r: Result<
    (),
    ApplyActionError,
>)
    requires
        old(player).wf(),
    ensures
        final(player).wf(),
        final(player)@ == next_state(old(player)@, action),
        r == verdict(old(player)@, action),
{
    match action {
        GameAction::MoveCurrentTetrimino(Direction::FastDown) => {
            if player.current_tetrimino().is_some() {
                drop_current_tetrimino(player);
                player.place_current_tetrimino();
                Ok(())
            } else {
                Err(ApplyActionError::InvalidActionNoResetTimer)
            }
        },
        GameAction::MoveCurrentTetrimino(direction) => {
            match player.current_tetrimino() {
                Some(mut tetrimino) => {
                    if tetrimino.can_move_to(player.matrix(), direction) {
                        tetrimino.apply_direction(direction);
                        *player.current_tetrimino_mut() = Some(tetrimino);
                        Ok(())
                    } else {
                        Err(ApplyActionError::InvalidActionResetTimer)
                    }
                },
                None => Err(ApplyActionError::InvalidActionNoResetTimer),
            }
        },
        GameAction::NewTetrimino(added_tetrimino) => {
            player.change_tetrimino_add_pending(added_tetrimino);
            Ok(())
        },
        GameAction::PlaceCurrentTetrimino => {
            player.place_current_tetrimino();
            Ok(())
        },
        GameAction::Rotate(direction) => {
            match player.current_tetrimino() {
                Some(mut tetrimino) => {
                    if tetrimino.rotate(player.matrix(), direction) {
                        *player.current_tetrimino_mut() = Some(tetrimino);
                        Ok(())
                    } else {
                        Err(ApplyActionError::InvalidActionResetTimer)
                    }
                },
                None => Err(ApplyActionError::InvalidActionNoResetTimer),
            }
        },
        GameAction::StockTetrimino => {
            if player.current_tetrimino().is_some() {
                player.stock_current_tetrimino();
                Ok(())
            } else {
                Err(ApplyActionError::InvalidActionNoResetTimer)
            }
        },
        GameAction::GetGarbage(garbage_to_send, hole_position) => {
            let mut sent: u32 = 0;
            while sent < garbage_to_send
                invariant
                    sent <= garbage_to_send,
                    player.wf(),
                    player@ == old(player)@.with_garbage_rows(hole_position as int, sent as nat),
                decreases garbage_to_send - sent,
            {
                player.add_garbage(hole_position);
                sent += 1;
            }
            Ok(())
        },
        GameAction::Fall => {
            match player.current_tetrimino() {
                Some(mut tetrimino) => {
                    if tetrimino.can_move_to(player.matrix(), Direction::Down) {
                        tetrimino.apply_direction(Direction::Down);
                        *player.current_tetrimino_mut() = Some(tetrimino);
                    } else {
                        player.place_current_tetrimino();
                    }
                    Ok(())
                },
                None => Err(ApplyActionError::InvalidActionResetTimer),
            }
        },
    }
}

/// The board after the active piece took single steps down until a step
/// was rejected.
pub open spec fn descended(s: BoardState) -> BoardState
    decreases s.current->0.y,
    when s.wf() && s.current is Some
    via descended_decreases
{
    if verdict(s, GameAction::MoveCurrentTetrimino(Direction::Down)) is Ok {
        descended(next_state(s, GameAction::MoveCurrentTetrimino(Direction::Down)))
    } else {
        s
    }
}

#[via_fn]
proof fn descended_decreases(s: BoardState) {
    let p = s.current->0;
    if p.moved(Direction::Down).valid_on(s.grid) {
        lemma_valid_bounds(p.moved(Direction::Down), s.grid);
    }
}

/// The board after fall ticks were applied until one of them locked the
/// active piece.
pub open spec fn fallen(s: BoardState) -> BoardState
    decreases s.current->0.y,
    when s.wf() && s.current is Some
    via fallen_decreases
{
    if s.current->0.moved(Direction::Down).valid_on(s.grid) {
        fallen(next_state(s, GameAction::Fall))
    } else {
        next_state(s, GameAction::Fall)
    }
}

#[via_fn]
proof fn fallen_decreases(s: BoardState) {
    let p = s.current->0;
    if p.moved(Direction::Down).valid_on(s.grid) {
        lemma_valid_bounds(p.moved(Direction::Down), s.grid);
    }
}

/// Where a piece rests it cannot descend: it has the type, the rotation and
/// the column it started with, and stands no higher.
pub proof fn lemma_resting(p: Placement, g: Grid)
    requires
        p.wf(),
    ensures
        resting(p, g).wf(),
        !resting(p, g).moved(Direction::Down).valid_on(g),
        resting(p, g) == p.at(p.x, resting(p, g).y),
        resting(p, g).y <= p.y,
        p.moved(Direction::Down).valid_on(g) ==> resting(p, g).valid_on(g),
    decreases p.y,
{
    if p.moved(Direction::Down).valid_on(g) {
        lemma_valid_bounds(p.moved(Direction::Down), g);
        lemma_resting(p.moved(Direction::Down), g);
    }
}

/// A hard drop leaves the board that single steps down, taken until one is
/// rejected, followed by locking the piece leave.
pub proof fn lemma_hard_drop_is_descent_then_lock(s: BoardState)
    requires
        s.wf(),
        s.current is Some,
    ensures
        next_state(s, GameAction::MoveCurrentTetrimino(Direction::FastDown)) == next_state(
            descended(s),
            GameAction::PlaceCurrentTetrimino,
        ),
        descended(s) == with_piece(s, resting(s.current->0, s.grid)),
    decreases s.current->0.y,
{
    let p = s.current->0;
    if p.moved(Direction::Down).valid_on(s.grid) {
        lemma_valid_bounds(p.moved(Direction::Down), s.grid);
        let t = next_state(s, GameAction::MoveCurrentTetrimino(Direction::Down));
        lemma_hard_drop_is_descent_then_lock(t);
        assert(with_piece(t, resting(t.current->0, t.grid)) == with_piece(
            s,
            resting(p, s.grid),
        ));
    } else {
        assert(with_piece(s, p) == s);
    }
}

/// A hard drop leaves the board that fall ticks leave when they are applied
/// until one of them locks the piece.
pub proof fn lemma_hard_drop_is_repeated_fall(s: BoardState)
    requires
        s.wf(),
        s.current is Some,
    ensures
        next_state(s, GameAction::MoveCurrentTetrimino(Direction::FastDown)) == fallen(s),
    decreases s.current->0.y,
{
    let p = s.current->0;
    if p.moved(Direction::Down).valid_on(s.grid) {
        lemma_valid_bounds(p.moved(Direction::Down), s.grid);
        let t = next_state(s, GameAction::Fall);
        lemma_hard_drop_is_repeated_fall(t);
        assert(with_piece(t, resting(t.current->0, t.grid)) == with_piece(
            s,
            resting(p, s.grid),
        ));
    } else {
        assert(with_piece(s, p) == s);
    }
}

/// A board stays a board when garbage rows come in.
pub proof fn lemma_garbage_rows_wf(s: BoardState, hole: int, count: nat)
    requires
        s.wf(),
    ensures
        s.with_garbage_rows(hole, count).wf(),
    decreases count,
{
    if count > 0 {
        lemma_garbage_rows_wf(s, hole, (count - 1) as nat);
    }
}

/// A board stays a board when its active piece is locked.
pub proof fn lemma_locked_wf(s: BoardState)
    requires
        s.wf(),
    ensures
        s.locked().wf(),
{
    let g = s.stamped_grid();
    assert(grid_wf(g));
    lemma_cleared_shape(g);
}

/// Whatever action is applied to a board, applied or rejected, leaves a
/// board.
pub proof fn lemma_next_state_wf(s: BoardState, action: GameAction)
    requires
        s.wf(),
    ensures
        next_state(s, action).wf(),
{
    match action {
        GameAction::MoveCurrentTetrimino(Direction::FastDown) => {
            if let Some(p) = s.current {
                lemma_resting(p, s.grid);
                lemma_locked_wf(with_piece(s, resting(p, s.grid)));
            }
        },
        GameAction::PlaceCurrentTetrimino => {
            lemma_locked_wf(s);
        },
        GameAction::Fall => {
            lemma_locked_wf(s);
        },
        GameAction::GetGarbage(count, hole) => {
            lemma_garbage_rows_wf(s, hole as int, count as nat);
        },
        _ => {},
    }
}

/// An action that is rejected leaves the board as it was.
pub proof fn lemma_rejected_changes_nothing(s: BoardState, action: GameAction)
    requires
        verdict(s, action) is Err,
    ensures
        next_state(s, action) == s,
{
}

/// Where the active piece is valid before an action, the active piece
/// that a move, a turn or a fall tick leaves is valid too.
pub proof fn lemma_moves_keep_valid(s: BoardState, action: GameAction)
    requires
        s.wf(),
        s.current matches Some(p) && p.valid_on(s.grid),
        action is MoveCurrentTetrimino || action is Rotate || action is Fall,
    ensures
        next_state(s, action).current matches Some(q) ==> q.valid_on(next_state(s, action).grid),
{
    match action {
        GameAction::MoveCurrentTetrimino(Direction::FastDown) => {},
        GameAction::Fall => {},
        _ => {},
    }
}

} // verus!
