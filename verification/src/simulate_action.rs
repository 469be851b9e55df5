use crate::actions::{drop_tetrimino, next_state, resting, verdict, with_piece};
use crate::game::{
    cleared, grid_view, line_complete, remove_lines, row_full, stamp, stamp_piece, BoardState,
    Direction, GameAction, Grid, Matrix,
};
use crate::tetrimino::{rotated, Placement, Tetrimino};
use vstd::prelude::*;

verus! {

/// Why a simulated action gives no piece.
#[derive(Debug, PartialEq, Eq, Structural, Clone, Copy)]
pub enum SimulateActionError {
    ImpossibleAction,
}

/// Where an action leaves a piece on a grid that stays as it is, and
/// whether the piece is then to be locked. A move or a turn that is
/// rejected gives nothing, and so do the actions that are about more
/// than the piece.
pub open spec fn simulated(p: Placement, g: Grid, action: GameAction) -> Option<(Placement, bool)> {
    match action {
        GameAction::MoveCurrentTetrimino(Direction::FastDown) => Some((resting(p, g), true)),
        GameAction::MoveCurrentTetrimino(direction) => if p.moved(direction).valid_on(g) {
            Some((p.moved(direction), false))
        } else {
            None
        },
        GameAction::Rotate(revert_direction) => match rotated(p, g, revert_direction) {
            Some(q) => Some((q, false)),
            None => None,
        },
        GameAction::Fall => if p.moved(Direction::Down).valid_on(g) {
            Some((p.moved(Direction::Down), false))
        } else {
            Some((p, true))
        },
        _ => None,
    }
}

/// What the action would do to the piece, without a board: the piece
/// after the action, and whether it is to be locked there.
pub fn simulate_action(matrix: &Matrix, tetrimino: &Tetrimino, action: GameAction) -> (r: Result<
    (Tetrimino, bool),
    SimulateActionError,
>)
    requires
        tetrimino.wf(),
    ensures
        match r {
            Ok((after, placed)) => after.wf() && simulated(
                tetrimino@,
                grid_view(*matrix),
                action,
            ) == Some((after@, placed)),
            Err(_) => simulated(tetrimino@, grid_view(*matrix), action) is None,
        },
{
    let mut tetrimino = *tetrimino;
    match action {
        GameAction::MoveCurrentTetrimino(Direction::FastDown) => {
            drop_tetrimino(&mut tetrimino, matrix);
            Ok((tetrimino, true))
        },
        GameAction::MoveCurrentTetrimino(direction) => {
            if tetrimino.can_move_to(matrix, direction) {
                tetrimino.apply_direction(direction);
                Ok((tetrimino, false))
            } else {
                Err(SimulateActionError::ImpossibleAction)
            }
        },
        GameAction::Rotate(revert_direction) => {
            if tetrimino.rotate(matrix, revert_direction) {
                Ok((tetrimino, false))
            } else {
                Err(SimulateActionError::ImpossibleAction)
            }
        },
        GameAction::Fall => {
            if tetrimino.can_move_to(matrix, Direction::Down) {
                tetrimino.apply_direction(Direction::Down);
                Ok((tetrimino, false))
            } else {
                Ok((tetrimino, true))
            }
        },
        _ => Err(SimulateActionError::ImpossibleAction),
    }
}

/// What is simulated for a piece is what the action does to a board with
/// that piece as its active piece: the board has the piece where the
/// simulation leaves it, locked where the simulation says so, and an
/// action that gives nothing in the simulation is rejected by the board
/// if it is a move or a turn.
pub proof fn lemma_simulation_agrees(s: BoardState, action: GameAction)
    requires
        s.wf(),
        s.current is Some,
    ensures
        match simulated(s.current->0, s.grid, action) {
            Some((q, placed)) => verdict(s, action) is Ok && next_state(s, action) == if placed {
                with_piece(s, q).locked()
            } else {
                with_piece(s, q)
            },
            None => action is MoveCurrentTetrimino || action is Rotate ==> verdict(s, action) is Err
                && next_state(s, action) == s,
        },
{
    assert(with_piece(s, s.current->0) == s);
}

/// Whether row `y` of the grid is full.
pub fn is_line_complete(matrix: &Matrix, y: usize) -> (r: bool)
    requires
        y < 32,
    ensures
        r == row_full(grid_view(*matrix)[y as int]),
{
    line_complete(matrix, y)
}

/// Removes the full rows of the grid: the rows above move down, and empty
/// rows come in at the top.
pub fn remove_complete_lines(matrix: &mut Matrix)
    ensures
        grid_view(*final(matrix)) == cleared(grid_view(*old(matrix))),
{
    let _ = remove_lines(matrix);
}

/// The grid after the piece was locked where it stands.
pub fn place_tetrimino(tetrimino: &Tetrimino, matrix: &Matrix) -> (r: Matrix)
    requires
        tetrimino.wf(),
    ensures
        grid_view(r) == cleared(stamp(grid_view(*matrix), tetrimino@)),
{
    let mut matrix = *matrix;
    stamp_piece(&mut matrix, tetrimino);
    remove_complete_lines(&mut matrix);
    matrix
}

} // verus!
