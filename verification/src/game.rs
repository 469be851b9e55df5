use crate::rotation_tetrimino::{is_grid, shape_view};
use crate::tetrimino::{
    lemma_cells_square, shape_size, spawn_placement, Placement, Tetrimino, TetriminoType,
};
use crate::tetrimino_bag::{
    bag_after_draw, bag_wf, fresh_split, lemma_draw_split, lemma_full_bag_wf, TetriminoBag,
};
use vstd::prelude::*;

verus! {

/// The cell grid as it is stored: 32 rows of 10 cells, row 0 at the bottom.
/// Only the lowest 22 rows are shown.
pub type Matrix = [[Option<TetriminoType>; 10]; 32];

/// One row of the grid.
pub type Row = Seq<Option<TetriminoType>>;

/// The cell grid as contracts see it: `g[y][x]` is column `x` of row `y`.
pub type Grid = Seq<Row>;

/// The grid that a matrix holds.
pub open spec fn grid_view(m: Matrix) -> Grid {
    Seq::new(32, |y: int| m@[y]@)
}

/// A grid has 32 rows of 10 cells.
pub open spec fn grid_wf(g: Grid) -> bool {
    &&& g.len() == 32
    &&& forall|y: int| 0 <= y < 32 ==> (#[trigger] g[y]).len() == 10
}

#[derive(Debug, PartialEq, Eq, Structural, Clone, Copy)]
/// Where a piece can be moved. `FastDown` is the drop to the resting place.
pub enum Direction {
    Left,
    Right,
    Down,
    Up,
    FastDown,
}

/// What can be done to a board. The client that predicts and the server
/// that decides speak in these, and the server sends them to the clients
/// to replay.
#[derive(Debug, PartialEq, Eq, Structural, Clone, Copy)]
pub enum GameAction {
    /// Move the active piece one step, or, with `FastDown`, drop and lock it.
    MoveCurrentTetrimino(Direction),
    /// Lock the active piece where it is.
    PlaceCurrentTetrimino,
    /// Turn the active piece; the flag reverses the direction.
    Rotate(bool),
    /// Make the next upcoming type the active piece; the type given joins
    /// the queue.
    NewTetrimino(TetriminoType),
    /// Take garbage rows: their number and the column of the hole.
    GetGarbage(u32, usize),
    /// Swap the active piece with the hold slot.
    StockTetrimino,
    /// One tick of the fall timer.
    Fall,
}

/// What a player asks for.
#[derive(Debug, Clone, Copy, PartialEq, Eq, Structural)]
pub enum Input {
    Left,
    Right,
    FastMove,
    Rotate,
    RotateRevert,
    StockTetrimino,
    Acceleration,
    Fall,
}

pub open spec fn empty_row() -> Row {
    Seq::new(10, |x: int| None)
}

pub open spec fn empty_grid() -> Grid {
    Seq::new(32, |y: int| empty_row())
}

/// Every cell of the row is occupied.
pub open spec fn row_full(r: Row) -> bool {
    forall|x: int| 0 <= x < 10 ==> (#[trigger] r[x]) is Some
}

/// The grid with the cells that `p` covers set to its type. Cells of `p`
/// outside the grid leave no mark.
pub open spec fn stamp(g: Grid, p: Placement) -> Grid {
    Seq::new(
        32,
        |y: int|
            Seq::new(
                10,
                |x: int|
                    if p.occupies(x, y) {
                        Some(p.ttype)
                    } else {
                        g[y][x]
                    },
            ),
    )
}

/// The indices of the full rows among the lowest `n`, in rising order.
pub open spec fn full_rows_below(g: Grid, n: nat) -> Seq<u8>
    decreases n,
{
    if n == 0 {
        Seq::empty()
    } else if row_full(g[n - 1]) {
        full_rows_below(g, (n - 1) as nat).push((n - 1) as u8)
    } else {
        full_rows_below(g, (n - 1) as nat)
    }
}

/// The indices of the full rows of the grid, in rising order.
pub open spec fn full_rows(g: Grid) -> Seq<u8> {
    full_rows_below(g, 32)
}

/// The rows from `from` up that are not full, in their order.
pub open spec fn rows_kept_from(g: Grid, from: int) -> Seq<Row>
    decreases 32 - from,
{
    if from < 0 || from >= 32 {
        Seq::empty()
    } else if row_full(g[from]) {
        rows_kept_from(g, from + 1)
    } else {
        seq![g[from]] + rows_kept_from(g, from + 1)
    }
}

/// The grid without its full rows: the other rows move down to close the
/// gaps, in their order, and empty rows fill the top.
pub open spec fn cleared(g: Grid) -> Grid {
    let kept = rows_kept_from(g, 0);
    Seq::new(
        32,
        |y: int|
            if y < kept.len() {
                kept[y]
            } else {
                empty_row()
            },
    )
}

/// A garbage row: solid but for the cell in column `hole`.
pub open spec fn garbage_row(hole: int) -> Row {
    Seq::new(
        10,
        |x: int|
            if x == hole {
                None
            } else {
                Some(TetriminoType::Empty)
            },
    )
}

/// The grid pushed up by one garbage row: the top row is lost.
pub open spec fn with_garbage_row(g: Grid, hole: int) -> Grid {
    Seq::new(
        32,
        |y: int|
            if y == 0 {
                garbage_row(hole)
            } else {
                g[y - 1]
            },
    )
}

/// The active piece that a type gives: none for `Empty`, else the piece at
/// its spawn position.
pub open spec fn spawned(t: TetriminoType) -> Option<Placement> {
    if t == TetriminoType::Empty {
        None
    } else {
        Some(spawn_placement(t))
    }
}

pub open spec fn option_view(o: Option<Tetrimino>) -> Option<Placement> {
    match o {
        Some(t) => Some(t@),
        None => None,
    }
}

/// A board as contracts see it.
pub struct BoardState {
    pub name: Seq<char>,
    pub grid: Grid,
    /// The active piece.
    pub current: Option<Placement>,
    /// The held type, `Empty` when nothing is held.
    pub stocked: TetriminoType,
    /// The upcoming types. The last one comes next.
    pub pending: Seq<TetriminoType>,
    pub bag: Seq<TetriminoType>,
}

impl BoardState {
    pub open spec fn wf(self) -> bool {
        &&& grid_wf(self.grid)
        &&& self.current matches Some(p) ==> p.wf()
        &&& self.pending.len() > 0
        &&& bag_wf(self.bag)
    }

    /// The grid with the active piece, if any, stamped into it.
    pub open spec fn stamped_grid(self) -> Grid {
        match self.current {
            Some(p) => stamp(self.grid, p),
            None => self.grid,
        }
    }

    /// The board after the active piece is locked: its cells are stamped
    /// into the grid, the full rows are removed, and no piece is active.
    pub open spec fn locked(self) -> BoardState {
        BoardState { grid: cleared(self.stamped_grid()), current: None, ..self }
    }

    /// The rows that locking the active piece removes.
    pub open spec fn locked_lines(self) -> Seq<u8> {
        full_rows(self.stamped_grid())
    }

    /// The board after one garbage row came in from below: the active piece
    /// is pushed up with the rows.
    pub open spec fn with_garbage(self, hole: int) -> BoardState {
        BoardState {
            grid: with_garbage_row(self.grid, hole),
            current: match self.current {
                Some(p) => Some(p.moved(Direction::Up)),
                None => None,
            },
            ..self
        }
    }

    /// The board after `count` garbage rows came in.
    pub open spec fn with_garbage_rows(self, hole: int, count: nat) -> BoardState
        decreases count,
    {
        if count == 0 {
            self
        } else {
            self.with_garbage_rows(hole, (count - 1) as nat).with_garbage(hole)
        }
    }

    /// The board with a fresh piece of type `t` as its active piece.
    pub open spec fn with_current(self, t: TetriminoType) -> BoardState {
        BoardState { current: spawned(t), ..self }
    }

    /// The board after the next upcoming type became the active piece and
    /// `added` joined the queue.
    pub open spec fn enqueued(self, added: TetriminoType) -> BoardState {
        BoardState {
            pending: seq![added] + self.pending.drop_last(),
            current: spawned(self.pending.last()),
            ..self
        }
    }

    /// The board after the active piece and the hold slot changed places.
    /// Without an active piece nothing changes.
    pub open spec fn held(self) -> BoardState {
        match self.current {
            Some(p) => BoardState { stocked: p.ttype, current: spawned(self.stocked), ..self },
            None => self,
        }
    }
}

/// What a player's name and state are to the other players.
#[derive(Debug, Clone, PartialEq)]
pub struct PlayerMinimalInfos {
    pub name: String,
    pub dead: bool,
}

/// An entry of the roster as contracts see it.
pub struct MinimalInfos {
    pub name: Seq<char>,
    pub dead: bool,
}

impl View for PlayerMinimalInfos {
    type V = MinimalInfos;

    open spec fn view(&self) -> MinimalInfos {
        MinimalInfos { name: self.name@, dead: self.dead }
    }
}

pub open spec fn roster_view(list: Seq<PlayerMinimalInfos>) -> Seq<MinimalInfos> {
    Seq::new(list.len(), |i: int| list[i]@)
}

/// A player's board: the grid, the active piece, the hold slot, the queue of
/// upcoming types and the randomizer.
#[derive(Debug, PartialEq)]
pub struct PlayerGame {
    name: String,
    matrix: Matrix,
    current_tetrimino: Option<Tetrimino>,
    stocked_tetrimino: TetriminoType,
    pending_tetriminos: Vec<TetriminoType>,
    bag: TetriminoBag,
}

impl View for PlayerGame {
    type V = BoardState;

    closed spec fn view(&self) -> BoardState {
        BoardState {
            name: self.name@,
            grid: grid_view(self.matrix),
            current: option_view(self.current_tetrimino),
            stocked: self.stocked_tetrimino,
            pending: self.pending_tetriminos@,
            bag: self.bag@,
        }
    }
}

impl Clone for PlayerGame {
    fn clone(&self) -> (r: Self)
        ensures
            r@ == self@,
    {
        let pending_tetriminos = self.pending_tetriminos.clone();
        assert(pending_tetriminos@ =~= self.pending_tetriminos@);
        let bag = self.bag.clone();
        PlayerGame {
            name: self.name.clone(),
            matrix: self.matrix,
            current_tetrimino: self.current_tetrimino,
            stocked_tetrimino: self.stocked_tetrimino,
            pending_tetriminos,
            bag,
        }
    }
}

impl PlayerGame {
    pub open spec fn wf(&self) -> bool {
        self@.wf()
    }

    pub fn name(&self) -> (r: &str)
        ensures
            r@ == self@.name,
    {
        self.name.as_str()
    }

    pub fn matrix(&self) -> (r: &Matrix)
        ensures
            grid_view(*r) == self@.grid,
    {
        &self.matrix
    }

    pub fn current_tetrimino(&self) -> (r: Option<Tetrimino>)
        ensures
            option_view(r) == self@.current,
    {
        self.current_tetrimino
    }

    pub fn stocked_tetrimino(&self) -> (r: TetriminoType)
        ensures
            r == self@.stocked,
    {
        self.stocked_tetrimino
    }

    pub fn pending_tetriminos(&self) -> (r: Vec<TetriminoType>)
        ensures
            r@ == self@.pending,
    {
        let r = self.pending_tetriminos.clone();
        assert(r@ =~= self.pending_tetriminos@);
        r
    }

    pub fn bag(&self) -> (r: &TetriminoBag)
        ensures
            r@ == self@.bag,
    {
        &self.bag
    }

    /// The active piece, to change in place.
    pub fn current_tetrimino_mut(&mut self) -> (r: &mut Option<Tetrimino>)
        ensures
            option_view(*r) == old(self)@.current,
            final(self)@ == (BoardState { current: option_view(*final(r)), ..old(self)@ }),
    {
        &mut self.current_tetrimino
    }

    pub fn change_current_tetrimino(&mut self, ttype: TetriminoType)
        ensures
            final(self)@ == old(self)@.with_current(ttype),
    {
        if ttype == TetriminoType::Empty {
            self.current_tetrimino = None;
        } else {
            self.current_tetrimino = Some(Tetrimino::new(ttype));
        }
    }

    /// Swaps the active piece's type with the hold slot; what was held
    /// becomes the active piece at its spawn position.
    pub fn stock_current_tetrimino(&mut self)
        ensures
            final(self)@ == old(self)@.held(),
    {
        if let Some(current_tetrimino) = self.current_tetrimino {
            let tmp_tetrimino = self.stocked_tetrimino;
            self.stocked_tetrimino = current_tetrimino.ttype();
            self.change_current_tetrimino(tmp_tetrimino);
        }
    }

    /// Makes the next upcoming type the active piece and puts `added` at
    /// the far end of the queue.
    pub fn change_tetrimino_add_pending(&mut self, added_tetrimino: TetriminoType)
        requires
            old(self).wf(),
        ensures
            final(self)@ == old(self)@.enqueued(added_tetrimino),
            final(self).wf(),
    {
        let tetrimino = self.pending_tetriminos.pop().unwrap();
        self.pending_tetriminos.insert(0, added_tetrimino);
        self.change_current_tetrimino(tetrimino);
        assert(self.pending_tetriminos@ =~= seq![added_tetrimino] + old(
            self,
        ).pending_tetriminos@.drop_last());
    }
}

/// What `full_rows_below` lists: full rows only, each below `n`, in rising
/// order, and every full row below `n`.
pub proof fn lemma_full_rows_below(g: Grid, n: nat)
    requires
        n <= 32,
    ensures
        full_rows_below(g, n).len() <= n,
        forall|i: int|
            0 <= i < full_rows_below(g, n).len() ==> (#[trigger] full_rows_below(g, n)[i]) < n
                && row_full(g[full_rows_below(g, n)[i] as int]),
        forall|i: int, j: int|
            0 <= i < j < full_rows_below(g, n).len() ==> full_rows_below(g, n)[i]
                < full_rows_below(g, n)[j],
        forall|r: int|
            0 <= r < n && row_full(#[trigger] g[r]) ==> full_rows_below(g, n).contains(r as u8),
    decreases n,
{
    if n > 0 {
        let prev = full_rows_below(g, (n - 1) as nat);
        let cur = full_rows_below(g, n);
        lemma_full_rows_below(g, (n - 1) as nat);
        assert forall|r: int| 0 <= r < n && row_full(#[trigger] g[r]) implies cur.contains(
            r as u8,
        ) by {
            if r < n - 1 {
                let i = choose|i: int| 0 <= i < prev.len() && prev[i] == r as u8;
                assert(cur[i] == r as u8);
            } else {
                assert(cur[cur.len() - 1] == r as u8);
            }
        }
    }
}

/// The rows kept from `a` up start with the rows from `a` to `b`, where
/// none of these is full.
pub proof fn lemma_kept_run(g: Grid, a: int, b: int)
    requires
        grid_wf(g),
        0 <= a <= b <= 32,
        forall|r: int| a <= r < b ==> !row_full(#[trigger] g[r]),
    ensures
        rows_kept_from(g, a) == g.subrange(a, b) + rows_kept_from(g, b),
    decreases b - a,
{
    if a < b {
        lemma_kept_run(g, a + 1, b);
        assert(seq![g[a]] + (g.subrange(a + 1, b) + rows_kept_from(g, b)) =~= g.subrange(a, b)
            + rows_kept_from(g, b));
    } else {
        assert(g.subrange(a, b) + rows_kept_from(g, b) =~= rows_kept_from(g, b));
    }
}

/// From row `a` up no more rows are kept than there are.
pub proof fn lemma_kept_len(g: Grid, a: int)
    requires
        0 <= a <= 32,
    ensures
        rows_kept_from(g, a).len() <= 32 - a,
    decreases 32 - a,
{
    if a < 32 {
        lemma_kept_len(g, a + 1);
    }
}

/// The grid with the rows below `top` as they are and the rows from `top`
/// up without their full rows.
spec fn compacted_from(g: Grid, top: int) -> Grid {
    let kept = rows_kept_from(g, top);
    Seq::new(
        32,
        |y: int|
            if y < top {
                g[y]
            } else if y - top < kept.len() {
                kept[y - top]
            } else {
                empty_row()
            },
    )
}

/// The grid without row `line`: the rows above it move down by one.
spec fn without_row(g: Grid, line: int) -> Grid {
    Seq::new(
        32,
        |y: int|
            if y < line {
                g[y]
            } else if y < 31 {
                g[y + 1]
            } else {
                empty_row()
            },
    )
}

proof fn lemma_remove_full_row(g: Grid, line: int, top: int)
    requires
        grid_wf(g),
        0 <= line < top <= 32,
        row_full(g[line]),
        forall|r: int| line < r < top ==> !row_full(#[trigger] g[r]),
    ensures
        without_row(compacted_from(g, top), line) == compacted_from(g, line),
{
    lemma_kept_run(g, line + 1, top);
    lemma_kept_len(g, top);
    let kept_top = rows_kept_from(g, top);
    let kept_line = rows_kept_from(g, line);
    assert(kept_line == g.subrange(line + 1, top) + kept_top);
    let a = without_row(compacted_from(g, top), line);
    let b = compacted_from(g, line);
    assert forall|y: int| 0 <= y < 32 implies a[y] == b[y] by {
        if y < line {
        } else if y < top - 1 {
            assert(kept_line[y - line] == g[y + 1]);
        } else if y < 31 {
            if y + 1 - top < kept_top.len() {
                assert(kept_line[y - line] == kept_top[y + 1 - top]);
            }
        }
    }
    assert(a =~= b);
}

pub(crate) fn line_complete(matrix: &Matrix, y: usize) -> (r: bool)
    requires
        y < 32,
    ensures
        r == row_full(grid_view(*matrix)[y as int]),
{
    let mut x: usize = 0;
    while x < 10
        invariant
            y < 32,
            x <= 10,
            forall|i: int| 0 <= i < x ==> (#[trigger] grid_view(*matrix)[y as int][i]) is Some,
        decreases 10 - x,
    {
        if matrix[y][x].is_none() {
            assert(grid_view(*matrix)[y as int][x as int] is None);
            return false;
        }
        x += 1;
    }
    true
}

/// Removes the full rows of the grid and returns their indices.
pub(crate) fn remove_lines(matrix: &mut Matrix) -> (line_to_remove: Vec<u8>)
    ensures
        grid_view(*final(matrix)) == cleared(grid_view(*old(matrix))),
        line_to_remove@ == full_rows(grid_view(*old(matrix))),
{
    let ghost g0 = grid_view(*matrix);
    let mut line_to_remove: Vec<u8> = Vec::new();
    let mut y: usize = 0;
    while y < 32
        invariant
            y <= 32,
            g0 == grid_view(*matrix),
            line_to_remove@ == full_rows_below(g0, y as nat),
        decreases 32 - y,
    {
        if line_complete(matrix, y) {
            line_to_remove.push(y as u8);
        }
        y += 1;
    }
    proof {
        lemma_full_rows_below(g0, 32);
    }
    let mut k: usize = line_to_remove.len();
    let mut top: usize = 32;
    while k > 0
        invariant
            grid_wf(g0),
            k <= line_to_remove@.len(),
            top <= 32,
            line_to_remove@ == full_rows(g0),
            line_to_remove@.len() <= 32,
            forall|i: int|
                0 <= i < line_to_remove@.len() ==> (#[trigger] line_to_remove@[i]) < 32
                    && row_full(g0[line_to_remove@[i] as int]),
            forall|i: int, j: int|
                0 <= i < j < line_to_remove@.len() ==> line_to_remove@[i] < line_to_remove@[j],
            forall|r: int|
                0 <= r < 32 && row_full(#[trigger] g0[r]) ==> line_to_remove@.contains(r as u8),
            k > 0 ==> line_to_remove@[k - 1] < top,
            k < line_to_remove@.len() ==> top == line_to_remove@[k as int],
            k == line_to_remove@.len() ==> top == 32,
            grid_view(*matrix) == compacted_from(g0, top as int),
        decreases k,
    {
        let line: usize = line_to_remove[k - 1] as usize;
        let ghost before = grid_view(*matrix);
        let mut y: usize = line;
        while y < 31
            invariant
                line <= y <= 31,
                before.len() == 32,
                forall|r: int|
                    0 <= r < 32 ==> #[trigger] grid_view(*matrix)[r] == if line <= r < y {
                        before[r + 1]
                    } else {
                        before[r]
                    },
            decreases 31 - y,
        {
            let ghost prev = grid_view(*matrix);
            matrix[y] = matrix[y + 1];
            assert forall|r: int| 0 <= r < 32 implies #[trigger] grid_view(*matrix)[r] == if r
                == y {
                prev[y + 1]
            } else {
                prev[r]
            } by {}
            y += 1;
        }
        let ghost shifted = grid_view(*matrix);
        matrix[31] = [None;10];
        proof {
            assert(grid_view(*matrix)[31] =~= empty_row());
            assert forall|r: int| 0 <= r < 31 implies #[trigger] grid_view(*matrix)[r]
                == shifted[r] by {}
            assert(grid_view(*matrix) =~= without_row(before, line as int));
            assert forall|r: int| line < r < top implies !row_full(#[trigger] g0[r]) by {
                if row_full(g0[r]) {
                    let i = choose|i: int|
                        0 <= i < line_to_remove@.len() && line_to_remove@[i] == r as u8;
                    assert(i > k - 1);
                    assert(i < k);
                }
            }
            lemma_remove_full_row(g0, line as int, top as int);
        }
        top = line;
        k -= 1;
    }
    proof {
        assert forall|r: int| 0 <= r < top implies !row_full(#[trigger] g0[r]) by {
            if row_full(g0[r]) {
                let i = choose|i: int|
                    0 <= i < line_to_remove@.len() && line_to_remove@[i] == r as u8;
                assert(i < 0);
            }
        }
        lemma_kept_run(g0, 0, top as int);
        lemma_kept_len(g0, top as int);
        assert(grid_view(*matrix) =~= cleared(g0));
    }
    line_to_remove
}

/// The grid after the cells of the bitmap before cell `(x, y)`, column by
/// column, were stamped.
spec fn stamped_before(g: Grid, p: Placement, x: int, y: int) -> Grid {
    Seq::new(
        32,
        |gy: int|
            Seq::new(
                10,
                |gx: int|
                    if p.occupies(gx, gy) && (gx - p.x < x || (gx - p.x == x && p.y - gy < y)) {
                        Some(p.ttype)
                    } else {
                        g[gy][gx]
                    },
            ),
    )
}

/// Stamps the cells that the piece covers into the grid.
pub(crate) fn stamp_piece(matrix: &mut Matrix, tetrimino: &Tetrimino)
    requires
        tetrimino.wf(),
    ensures
        grid_view(*final(matrix)) == stamp(grid_view(*old(matrix)), tetrimino@),
{
    let ghost g0 = grid_view(*matrix);
    let ghost p = tetrimino@;
    let tetri_shape = tetrimino.to_blocks();
    let size: usize = tetri_shape.len();
    let position = tetrimino.position();
    let ttype = tetrimino.ttype();
    proof {
        lemma_cells_square(p);
        assert(grid_view(*matrix) =~~= stamped_before(g0, p, 0, 0));
    }
    let mut x: usize = 0;
    while x < size
        invariant
            p == tetrimino@,
            p.wf(),
            position.0 == p.x,
            position.1 == p.y,
            ttype == p.ttype,
            shape_view(tetri_shape) == p.cells(),
            size == shape_size(p.ttype),
            size == tetri_shape@.len(),
            is_grid(p.cells(), size as nat, size as nat),
            x <= size,
            grid_view(*matrix) == stamped_before(g0, p, x as int, 0),
        decreases size - x,
    {
        let mut y: usize = 0;
        while y < size
            invariant
                p == tetrimino@,
                p.wf(),
                position.0 == p.x,
                position.1 == p.y,
                ttype == p.ttype,
                shape_view(tetri_shape) == p.cells(),
                size == shape_size(p.ttype),
                size == tetri_shape@.len(),
                is_grid(p.cells(), size as nat, size as nat),
                x < size,
                y <= size,
                grid_view(*matrix) == stamped_before(g0, p, x as int, y as int),
            decreases size - y,
        {
            let matrix_pos_x: i16 = x as i16 + position.0 as i16;
            let matrix_pos_y: i16 = position.1 as i16 - y as i16;
            assert(shape_view(tetri_shape)[x as int].len() == size);
            let set: bool = tetri_shape[x][y];
            assert(set == p.cells()[x as int][y as int]);
            let ghost prev = grid_view(*matrix);
            if set && 0 <= matrix_pos_x && matrix_pos_x < 10 && 0 <= matrix_pos_y && matrix_pos_y
                < 32 {
                matrix[matrix_pos_y as usize][matrix_pos_x as usize] = Some(ttype);
                assert(p.occupies(matrix_pos_x as int, matrix_pos_y as int));
            }
            proof {
                let next = stamped_before(g0, p, x as int, y + 1);
                assert forall|gy: int| 0 <= gy < 32 implies #[trigger] grid_view(*matrix)[gy]
                    =~= next[gy] by {
                    assert forall|gx: int| 0 <= gx < 10 implies grid_view(*matrix)[gy][gx]
                        == next[gy][gx] by {
                        if gx == matrix_pos_x && gy == matrix_pos_y {
                        } else {
                            assert(grid_view(*matrix)[gy][gx] == prev[gy][gx]);
                        }
                    }
                }
                assert(grid_view(*matrix) =~= next);
            }
            y += 1;
        }
        assert(stamped_before(g0, p, x as int, size as int) =~~= stamped_before(g0, p, x + 1, 0));
        x += 1;
    }
    assert(stamped_before(g0, p, size as int, 0) =~~= stamp(g0, p));
}

impl PlayerGame {
    /// Whether row `y` of the grid is full.
    pub fn is_line_complete(&self, y: usize) -> (r: bool)
        requires
            y < 32,
        ensures
            r == row_full(self@.grid[y as int]),
    {
        line_complete(&self.matrix, y)
    }

    /// Removes the full rows: the rows above move down, and empty rows come
    /// in at the top. Returns the indices of the rows removed, rising.
    pub fn remove_complete_lines(&mut self) -> (line_to_remove: Vec<u8>)
        ensures
            final(self)@ == (BoardState { grid: cleared(old(self)@.grid), ..old(self)@ }),
            line_to_remove@ == full_rows(old(self)@.grid),
    {
        remove_lines(&mut self.matrix)
    }

    /// Locks the active piece: stamps its cells into the grid, leaves the
    /// board without an active piece, and removes the full rows. Returns
    /// the indices of the rows removed, rising.
    pub fn place_current_tetrimino(&mut self) -> (lines: Vec<u8>)
        requires
            old(self).wf(),
        ensures
            final(self)@ == old(self)@.locked(),
            lines@ == old(self)@.locked_lines(),
            final(self).wf(),
    {
        if let Some(tetrimino) = self.current_tetrimino {
            stamp_piece(&mut self.matrix, &tetrimino);
        }
        self.current_tetrimino = None;
        self.remove_complete_lines()
    }

    /// Pushes one garbage row in from below: every row moves up by one, the
    /// top row is lost, the new bottom row is solid but for column `hole`,
    /// and the active piece moves up with the rows.
    pub fn add_garbage(&mut self, hole: usize)
        ensures
            final(self)@ == old(self)@.with_garbage(hole as int),
            old(self).wf() ==> final(self).wf(),
    {
        match self.current_tetrimino {
            Some(mut tetrimino) => {
                tetrimino.apply_direction(Direction::Up);
                self.current_tetrimino = Some(tetrimino);
            },
            None => {},
        }
        let mut new_row: [Option<TetriminoType>; 10] = [Some(TetriminoType::Empty);10];
        if hole < 10 {
            new_row[hole] = None;
        }
        let ghost before = grid_view(self.matrix);
        let mut y: usize = 31;
        while y > 0
            invariant
                y <= 31,
                before.len() == 32,
                self.name == old(self).name,
                self.stocked_tetrimino == old(self).stocked_tetrimino,
                self.pending_tetriminos == old(self).pending_tetriminos,
                self.bag == old(self).bag,
                option_view(self.current_tetrimino) == old(self)@.with_garbage(hole as int).current,
                forall|r: int|
                    0 <= r < 32 ==> #[trigger] grid_view(self.matrix)[r] == if y < r {
                        before[r - 1]
                    } else {
                        before[r]
                    },
            decreases y,
        {
            let ghost prev = grid_view(self.matrix);
            self.matrix[y] = self.matrix[y - 1];
            assert forall|r: int| 0 <= r < 32 implies #[trigger] grid_view(self.matrix)[r] == if r
                == y {
                prev[y - 1]
            } else {
                prev[r]
            } by {}
            y -= 1;
        }
        let ghost shifted = grid_view(self.matrix);
        self.matrix[0] = new_row;
        proof {
            assert(grid_view(self.matrix)[0] =~= garbage_row(hole as int));
            assert forall|r: int| 0 < r < 32 implies #[trigger] grid_view(self.matrix)[r]
                == shifted[r] by {}
            assert(grid_view(self.matrix) =~= with_garbage_row(before, hole as int));
        }
    }
}

impl BoardState {
    /// The board after the bag's item at `index` was drawn into the queue
    /// and the next upcoming type became the active piece.
    pub open spec fn spawned_next(self, index: int) -> BoardState {
        (BoardState { bag: bag_after_draw(self.bag, index), ..self }).enqueued(self.bag[index])
    }
}

impl PlayerGame {
    /// A board at the start of a match: an empty grid, no active piece,
    /// nothing held, and six types drawn from a fresh bag as the queue.
    pub fn new(name: String) -> (r: Self)
        ensures
            r.wf(),
            r@.name == name@,
            r@.grid == empty_grid(),
            r@.current is None,
            r@.stocked == TetriminoType::Empty,
            r@.pending.len() == 6,
            fresh_split(r@.pending, r@.bag),
    {
        let mut bag = TetriminoBag::new();
        let mut pending_tetriminos: Vec<TetriminoType> = Vec::new();
        proof {
            lemma_full_bag_wf();
        }
        while pending_tetriminos.len() < 6
            invariant
                pending_tetriminos@.len() <= 6,
                fresh_split(pending_tetriminos@, bag@),
            decreases 6 - pending_tetriminos@.len(),
        {
            let ghost before = bag@;
            let tetrimino = bag.choose_a_tetrimino();
            proof {
                let index = choose|index: int|
                    0 <= index < before.len() && tetrimino == before[index] && bag@
                        == #[trigger] bag_after_draw(before, index);
                lemma_draw_split(pending_tetriminos@, before, index);
            }
            pending_tetriminos.push(tetrimino);
        }
        let matrix: Matrix = [[None;10];32];
        assert(grid_view(matrix) =~~= empty_grid());
        Self {
            name,
            matrix,
            current_tetrimino: None,
            stocked_tetrimino: TetriminoType::Empty,
            pending_tetriminos,
            bag,
        }
    }

    /// A board made of the given parts, if the queue is not empty.
    pub fn from_parts(
        name: String,
        matrix: Matrix,
        current_tetrimino: Option<Tetrimino>,
        stocked_tetrimino: TetriminoType,
        pending_tetriminos: Vec<TetriminoType>,
        bag: TetriminoBag,
    ) -> (r: Option<Self>)
        requires
            current_tetrimino matches Some(t) ==> t.wf(),
            bag.wf(),
        ensures
            r is Some <==> pending_tetriminos@.len() > 0,
            r matches Some(board) ==> board.wf() && board@ == (BoardState {
                name: name@,
                grid: grid_view(matrix),
                current: option_view(current_tetrimino),
                stocked: stocked_tetrimino,
                pending: pending_tetriminos@,
                bag: bag@,
            }),
    {
        if pending_tetriminos.len() == 0 {
            None
        } else {
            Some(
                Self {
                    name,
                    matrix,
                    current_tetrimino,
                    stocked_tetrimino,
                    pending_tetriminos,
                    bag,
                },
            )
        }
    }

    /// Draws the bag's item at `index` into the queue and makes the next
    /// upcoming type the active piece. Returns the type drawn.
    pub fn new_tetrimino_at(&mut self, index: usize) -> (added_tetrimino: TetriminoType)
        requires
            old(self).wf(),
            index < old(self)@.bag.len(),
        ensures
            added_tetrimino == old(self)@.bag[index as int],
            final(self)@ == old(self)@.spawned_next(index as int),
            final(self).wf(),
    {
        let added_tetrimino = self.bag.draw_at(index);
        self.change_tetrimino_add_pending(added_tetrimino);
        added_tetrimino
    }

    /// Draws a type from the bag at random into the queue and makes the
    /// next upcoming type the active piece. Returns the type drawn.
    pub fn new_tetrimino(&mut self) -> (added_tetrimino: TetriminoType)
        requires
            old(self).wf(),
        ensures
            exists|index: int|
                0 <= index < old(self)@.bag.len() && added_tetrimino == old(self)@.bag[index]
                    && final(self)@ == #[trigger] old(self)@.spawned_next(index),
            final(self).wf(),
    {
        let ghost before = self@;
        let added_tetrimino = self.bag.choose_a_tetrimino();
        proof {
            let index = choose|index: int|
                0 <= index < before.bag.len() && added_tetrimino == before.bag[index] && self.bag@
                    == #[trigger] bag_after_draw(before.bag, index);
            assert(self@ == (BoardState { bag: bag_after_draw(before.bag, index), ..before }));
        }
        self.change_tetrimino_add_pending(added_tetrimino);
        proof {
            let index = choose|index: int|
                0 <= index < before.bag.len() && added_tetrimino == before.bag[index] && self.bag@
                    == #[trigger] bag_after_draw(before.bag, index);
            assert(self@ == before.spawned_next(index));
        }
        added_tetrimino
    }
}

/// A piece of any of the seven types is valid at its spawn position on a
/// grid whose cells around that position are empty. The empty grid is such
/// a grid.
pub proof fn lemma_spawn_valid(g: Grid, t: TetriminoType)
    requires
        grid_wf(g),
        t != TetriminoType::Empty,
        forall|x: int, y: int| 3 <= x < 7 && 19 <= y < 23 ==> (#[trigger] g[y][x]) is None,
    ensures
        spawn_placement(t).valid_on(g),
        spawn_placement(t).valid_on(empty_grid()),
{
    let p = spawn_placement(t);
    assert forall|x: int, y: int| #[trigger] p.occupies(x, y) implies 0 <= x < 10 && 0 <= y < 32
        && g[y][x] is None && empty_grid()[y][x] is None by {
        assert(3 <= x < 7 && 19 <= y < 23);
    }
}

/// Clearing removes as many rows as are full and puts as many empty rows at
/// the top; no row of the cleared grid is full.
pub proof fn lemma_cleared_shape(g: Grid)
    requires
        grid_wf(g),
    ensures
        grid_wf(cleared(g)),
        rows_kept_from(g, 0).len() + full_rows(g).len() == 32,
        forall|y: int|
            rows_kept_from(g, 0).len() <= y < 32 ==> #[trigger] cleared(g)[y] == empty_row(),
        forall|y: int| 0 <= y < 32 ==> !row_full(#[trigger] cleared(g)[y]),
{
    lemma_kept_count(g, 0);
    lemma_kept_rows(g, 0);
    let kept = rows_kept_from(g, 0);
    assert forall|y: int| 0 <= y < 32 implies !row_full(#[trigger] cleared(g)[y]) && cleared(
        g,
    )[y].len() == 10 by {
        if y >= kept.len() {
            assert(empty_row()[0] is None);
        }
    }
}

/// From row `a` up, the rows kept and the full rows are all the rows.
proof fn lemma_kept_count(g: Grid, a: int)
    requires
        0 <= a <= 32,
    ensures
        rows_kept_from(g, a).len() + full_rows(g).len() - full_rows_below(g, a as nat).len() == 32
            - a,
    decreases 32 - a,
{
    if a < 32 {
        lemma_kept_count(g, a + 1);
    }
}

/// Every row kept is a row of the grid that is not full.
proof fn lemma_kept_rows(g: Grid, a: int)
    requires
        grid_wf(g),
        0 <= a <= 32,
    ensures
        forall|i: int|
            0 <= i < rows_kept_from(g, a).len() ==> !row_full(#[trigger] rows_kept_from(g, a)[i])
                && rows_kept_from(g, a)[i].len() == 10,
    decreases 32 - a,
{
    if a < 32 {
        lemma_kept_rows(g, a + 1);
        let kept = rows_kept_from(g, a);
        let rest = rows_kept_from(g, a + 1);
        assert forall|i: int| 0 <= i < kept.len() implies !row_full(#[trigger] kept[i])
            && kept[i].len() == 10 by {
            if row_full(g[a]) {
                assert(kept[i] == rest[i]);
            } else if i == 0 {
                assert(kept[i] == g[a]);
            } else {
                assert(kept[i] == rest[i - 1]);
            }
        }
    }
}

/// A garbage row with its hole inside the grid has nine solid cells and
/// the hole.
pub proof fn lemma_garbage_row(hole: int)
    requires
        0 <= hole < 10,
    ensures
        garbage_row(hole).len() == 10,
        garbage_row(hole)[hole] is None,
        forall|x: int| 0 <= x < 10 && x != hole ==> (#[trigger] garbage_row(hole)[x]) is Some,
        !row_full(garbage_row(hole)),
{
    assert(garbage_row(hole)[hole] is None);
}

/// A piece that was valid, with no cell in the top row, is valid again
/// after a garbage row came in, one row higher.
pub proof fn lemma_garbage_keeps_valid(s: BoardState, hole: int)
    requires
        s.wf(),
        s.current is Some,
        s.current->0.valid_on(s.grid),
        forall|x: int| !s.current->0.occupies(x, 31),
    ensures
        s.with_garbage(hole).current == Some(s.current->0.at(s.current->0.x, s.current->0.y + 1)),
        s.with_garbage(hole).current->0.valid_on(s.with_garbage(hole).grid),
{
    let p = s.current->0;
    crate::tetrimino::lemma_valid_bounds(p, s.grid);
    let q = p.at(p.x, p.y + 1);
    let g2 = with_garbage_row(s.grid, hole);
    assert(p.moved(Direction::Up) == q);
    assert forall|x: int, y: int| #[trigger] q.occupies(x, y) implies 0 <= x < 10 && 0 <= y < 32
        && g2[y][x] is None by {
        assert(p.occupies(x, y - 1));
    }
}

} // verus!
