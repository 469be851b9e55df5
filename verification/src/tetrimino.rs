use crate::game::{grid_view, Direction, Grid, Matrix};
use crate::rotation_tetrimino::{
    is_grid, is_rect, lemma_rotate_once_rect, rotate_n, rotate_once, rotate_shape, shape_view,
    wall_kicks, wall_kicks_tests_list, Shape,
};
use vstd::prelude::*;

verus! {

/// The seven piece types, and `Empty` for a hold slot that holds nothing.
/// Garbage cells carry `Empty` as their tag.
#[derive(Debug, Clone, Copy, PartialEq, Eq, Structural, Hash)]
pub enum TetriminoType {
    I,
    J,
    L,
    O,
    S,
    T,
    Z,
    Empty,
}

/// The stored geometry: the bitmap of each type before any rotation.
pub open spec fn base_shape(t: TetriminoType) -> Shape {
    match t {
        TetriminoType::I => seq![
            seq![false, true, false, false],
            seq![false, true, false, false],
            seq![false, true, false, false],
            seq![false, true, false, false],
        ],
        TetriminoType::J => seq![
            seq![true, true, false],
            seq![false, true, false],
            seq![false, true, false],
        ],
        TetriminoType::L => seq![
            seq![false, true, false],
            seq![false, true, false],
            seq![true, true, false],
        ],
        TetriminoType::O => seq![seq![true, true], seq![true, true]],
        TetriminoType::S => seq![
            seq![false, true, false],
            seq![true, true, false],
            seq![true, false, false],
        ],
        TetriminoType::T => seq![
            seq![false, true, false],
            seq![true, true, false],
            seq![false, true, false],
        ],
        TetriminoType::Z => seq![
            seq![true, false, false],
            seq![true, true, false],
            seq![false, true, false],
        ],
        TetriminoType::Empty => seq![],
    }
}

/// Side of the square that holds a type's bitmap.
pub open spec fn shape_size(t: TetriminoType) -> int {
    match t {
        TetriminoType::I => 4,
        TetriminoType::O => 2,
        TetriminoType::Empty => 0,
        _ => 3,
    }
}

impl TetriminoType {
    /// The bitmap of the type before any rotation: a vector of columns.
    pub fn to_blocks(&self) -> (ret: Vec<Vec<bool>>)
        ensures
            shape_view(ret) == base_shape(*self),
            ret@.len() == shape_size(*self),
    {
        let ret = match self {
            Self::I => vec![
                vec![false, true, false, false],
                vec![false, true, false, false],
                vec![false, true, false, false],
                vec![false, true, false, false],
            ],
            Self::J => vec![
                vec![true, true, false],
                vec![false, true, false],
                vec![false, true, false],
            ],
            Self::L => vec![
                vec![false, true, false],
                vec![false, true, false],
                vec![true, true, false],
            ],
            Self::O => vec![vec![true, true], vec![true, true]],
            Self::S => vec![
                vec![false, true, false],
                vec![true, true, false],
                vec![true, false, false],
            ],
            Self::T => vec![
                vec![false, true, false],
                vec![true, true, false],
                vec![false, true, false],
            ],
            Self::Z => vec![
                vec![true, false, false],
                vec![true, true, false],
                vec![false, true, false],
            ],
            Self::Empty => vec![],
        };
        proof {
            let s = shape_view(ret);
            let b = base_shape(*self);
            assert(s.len() == b.len());
            assert forall|i: int| 0 <= i < s.len() implies #[trigger] s[i] =~= b[i] by {}
            assert(s =~= b);
        }
        ret
    }
}


/// Where a piece stands, as contracts see it: its type, its rotation state
/// and the grid position of its anchor.
pub struct Placement {
    pub ttype: TetriminoType,
    pub rotation: int,
    pub x: int,
    pub y: int,
}

/// The number of the `i8` range that is nearest to `v`.
pub open spec fn clamp_i8(v: int) -> int {
    if v < i8::MIN {
        i8::MIN as int
    } else if v > i8::MAX {
        i8::MAX as int
    } else {
        v
    }
}

impl Placement {
    /// A real piece: one of the seven types, in one of the four rotation states.
    pub open spec fn wf(self) -> bool {
        &&& self.ttype != TetriminoType::Empty
        &&& 0 <= self.rotation < 4
    }

    /// The occupied-cell bitmap: the base shape turned `rotation` times.
    pub open spec fn cells(self) -> Shape {
        rotate_n(base_shape(self.ttype), self.rotation as nat)
    }

    /// Whether the piece covers the grid cell in column `x` of row `y`.
    pub open spec fn occupies(self, x: int, y: int) -> bool {
        let i = x - self.x;
        let j = self.y - y;
        &&& 0 <= i < shape_size(self.ttype)
        &&& 0 <= j < shape_size(self.ttype)
        &&& self.cells()[i][j]
    }

    /// Every covered cell lies inside the grid and over an empty cell.
    pub open spec fn valid_on(self, g: Grid) -> bool {
        forall|x: int, y: int| #[trigger]
            self.occupies(x, y) ==> 0 <= x < 10 && 0 <= y < 32 && g[y][x] is None
    }

    /// The same piece with its anchor at `(x, y)`.
    pub open spec fn at(self, x: int, y: int) -> Placement {
        Placement { x, y, ..self }
    }

    /// The same piece in rotation state `rotation`.
    pub open spec fn turned(self, rotation: int) -> Placement {
        Placement { rotation, ..self }
    }

    /// The piece one step further in `direction`. A coordinate stops at the
    /// ends of the `i8` range; `FastDown` moves nothing.
    pub open spec fn moved(self, direction: Direction) -> Placement {
        match direction {
            Direction::Left => self.at(clamp_i8(self.x - 1), self.y),
            Direction::Right => self.at(clamp_i8(self.x + 1), self.y),
            Direction::Down => self.at(self.x, clamp_i8(self.y - 1)),
            Direction::Up => self.at(self.x, clamp_i8(self.y + 1)),
            Direction::FastDown => self,
        }
    }
}

/// The bitmap of a real piece is a square of its type's size.
pub proof fn lemma_cells_square(p: Placement)
    requires
        p.wf(),
    ensures
        is_rect(p.cells()),
        is_grid(p.cells(), shape_size(p.ttype) as nat, shape_size(p.ttype) as nat),
{
    let b = base_shape(p.ttype);
    assert(is_rect(b) && is_grid(b, shape_size(p.ttype) as nat, shape_size(p.ttype) as nat));
    reveal_with_fuel(rotate_n, 4);
    lemma_rotate_once_rect(b);
    lemma_rotate_once_rect(rotate_once(b));
    lemma_rotate_once_rect(rotate_once(rotate_once(b)));
}

/// Four quarter turns of the bitmap of a piece, whatever its type and its
/// rotation state, give that bitmap back.
pub proof fn lemma_full_turn_restores_cells(p: Placement)
    requires
        p.wf(),
    ensures
        rotate_n(p.cells(), 4) == p.cells(),
{
    lemma_cells_square(p);
    crate::rotation_tetrimino::lemma_four_rotations_identity(p.cells());
}

/// A real piece covers at least one cell.
pub proof fn lemma_covers_a_cell(p: Placement) -> (c: (int, int))
    requires
        p.wf(),
    ensures
        p.occupies(c.0, c.1),
        p.x <= c.0 < p.x + 4,
        p.y - 4 < c.1 <= p.y,
{
    lemma_cells_square(p);
    let b = base_shape(p.ttype);
    let n = shape_size(p.ttype);
    reveal_with_fuel(rotate_n, 4);
    // The centre cell of a 3x3 bitmap stays set under every turn, the O
    // piece is all set, and the bar of the I piece is followed turn by turn.
    let s = p.cells();
    let (i, j): (int, int) = if p.ttype == TetriminoType::O {
        (0, 0)
    } else if p.ttype == TetriminoType::I {
        if p.rotation == 0 {
            (0, 1)
        } else if p.rotation == 1 {
            (1, 0)
        } else if p.rotation == 2 {
            (0, 2)
        } else {
            (2, 0)
        }
    } else {
        (1, 1)
    };
    let r1 = rotate_once(b);
    let r2 = rotate_once(r1);
    let r3 = rotate_once(r2);
    lemma_rotate_once_rect(b);
    lemma_rotate_once_rect(r1);
    lemma_rotate_once_rect(r2);
    assert(b[1][1] || p.ttype == TetriminoType::O);
    assert(s[i][j]);
    (p.x + i, p.y - j)
}

/// A piece that is valid on some grid has its anchor near that grid.
pub proof fn lemma_valid_bounds(p: Placement, g: Grid)
    requires
        p.wf(),
        p.valid_on(g),
    ensures
        -4 < p.x < 10,
        0 <= p.y < 36,
{
    let c = lemma_covers_a_cell(p);
}

/// Where a piece of type `t` appears: unturned, centred, just above the rows
/// that are shown.
pub open spec fn spawn_placement(t: TetriminoType) -> Placement {
    Placement { ttype: t, rotation: 0, x: (10 - shape_size(t)) / 2, y: 22 }
}

/// The rotation state that a turn leads to.
pub open spec fn rotation_target(rotation: int, revert_direction: bool) -> int {
    if revert_direction {
        (rotation + 1) % 4
    } else {
        (rotation + 3) % 4
    }
}

/// The rotation state whose wall-kick table a turn uses: the lower of the
/// two states that the turn joins, counted cyclically.
pub open spec fn kick_table_key(rotation: int, revert_direction: bool) -> int {
    if revert_direction {
        rotation
    } else {
        (rotation + 3) % 4
    }
}

/// The piece turned and shifted by the `k`-th wall kick of its table.
pub open spec fn rotation_candidate(p: Placement, revert_direction: bool, k: int) -> Placement {
    let kick = wall_kicks(p.ttype, kick_table_key(p.rotation, revert_direction))[k];
    let t = p.turned(rotation_target(p.rotation, revert_direction));
    if revert_direction {
        t.at(p.x - kick.0, p.y + kick.1)
    } else {
        t.at(p.x + kick.0, p.y - kick.1)
    }
}

/// What a turn leads to: the first of the five candidates that is valid on
/// `g`, if there is one.
pub open spec fn rotated(p: Placement, g: Grid, revert_direction: bool) -> Option<Placement> {
    if rotation_candidate(p, revert_direction, 0).valid_on(g) {
        Some(rotation_candidate(p, revert_direction, 0))
    } else if rotation_candidate(p, revert_direction, 1).valid_on(g) {
        Some(rotation_candidate(p, revert_direction, 1))
    } else if rotation_candidate(p, revert_direction, 2).valid_on(g) {
        Some(rotation_candidate(p, revert_direction, 2))
    } else if rotation_candidate(p, revert_direction, 3).valid_on(g) {
        Some(rotation_candidate(p, revert_direction, 3))
    } else if rotation_candidate(p, revert_direction, 4).valid_on(g) {
        Some(rotation_candidate(p, revert_direction, 4))
    } else {
        None
    }
}

/// A falling piece. Its fields are private: a piece is made by `new` or
/// `from_parts`, which take none but the seven real types.
#[derive(Debug, Clone, Copy, PartialEq, Eq, Structural, Hash)]
pub struct Tetrimino {
    ttype: TetriminoType,
    rotation: u8,
    x: i8,
    y: i8,
}

impl View for Tetrimino {
    type V = Placement;

    closed spec fn view(&self) -> Placement {
        Placement {
            ttype: self.ttype,
            rotation: self.rotation as int,
            x: self.x as int,
            y: self.y as int,
        }
    }
}

impl Tetrimino {
    pub open spec fn wf(&self) -> bool {
        self@.wf()
    }

    /// The coordinates of a piece fit in `i8`.
    pub proof fn lemma_view_range(self)
        ensures
            i8::MIN <= self@.x <= i8::MAX,
            i8::MIN <= self@.y <= i8::MAX,
            0 <= self@.rotation <= u8::MAX,
    {
    }

    /// Two pieces with the same placement are the same piece.
    pub proof fn lemma_view_injective(self, other: Tetrimino)
        requires
            self@ == other@,
        ensures
            self == other,
    {
    }

    /// A piece of the given type at its spawn position. There is no piece of
    /// the empty type.
    pub fn new(ttype: TetriminoType) -> (r: Self)
        requires
            ttype != TetriminoType::Empty,
        ensures
            r@ == spawn_placement(ttype),
            r.wf(),
    {
        let size: usize = ttype.to_blocks().len();
        let x: usize = (10 - size) / 2;
        Self { ttype, rotation: 0, x: x as i8, y: 22 }
    }

    /// A piece of the given type, rotation state and anchor, if these make a
    /// real piece.
    pub fn from_parts(ttype: TetriminoType, rotation: u8, position: (i8, i8)) -> (r: Option<Self>)
        ensures
            r is Some <==> ttype != TetriminoType::Empty && rotation < 4,
            r matches Some(t) ==> t@ == (Placement {
                ttype,
                rotation: rotation as int,
                x: position.0 as int,
                y: position.1 as int,
            }),
    {
        if ttype == TetriminoType::Empty || rotation >= 4 {
            None
        } else {
            Some(Self { ttype, rotation, x: position.0, y: position.1 })
        }
    }

    pub fn position(&self) -> (r: (i8, i8))
        ensures
            r.0 == self@.x,
            r.1 == self@.y,
    {
        (self.x, self.y)
    }

    pub fn ttype(&self) -> (r: TetriminoType)
        ensures
            r == self@.ttype,
    {
        self.ttype
    }

    pub fn rotation(&self) -> (r: u8)
        ensures
            r == self@.rotation,
    {
        self.rotation
    }

    /// Moves the anchor one step. A coordinate at an end of the `i8` range
    /// stays there: a piece that far out lies outside every grid.
    pub fn apply_direction(&mut self, direction: Direction)
        ensures
            final(self)@ == old(self)@.moved(direction),
    {
        match direction {
            Direction::Left => {
                if self.x > i8::MIN {
                    self.x -= 1;
                }
            },
            Direction::Right => {
                if self.x < i8::MAX {
                    self.x += 1;
                }
            },
            Direction::Down => {
                if self.y > i8::MIN {
                    self.y -= 1;
                }
            },
            Direction::Up => {
                if self.y < i8::MAX {
                    self.y += 1;
                }
            },
            _ => {},
        }
    }

    /// The occupied-cell bitmap of the piece in its rotation state.
    pub fn to_blocks(&self) -> (ret: Vec<Vec<bool>>)
        requires
            self.wf(),
        ensures
            shape_view(ret) == self@.cells(),
            ret@.len() == shape_size(self@.ttype),
    {
        let base = self.ttype.to_blocks();
        proof {
            lemma_cells_square(self@.turned(0));
            lemma_cells_square(self@);
        }
        rotate_shape(self.rotation, base)
    }

    /// Whether the piece covers the cell in column `x` of row `y`.
    pub fn check_position(&self, x: i8, y: i8) -> (r: bool)
        requires
            self.wf(),
        ensures
            r == self@.occupies(x as int, y as int),
    {
        let tetri_shape = self.to_blocks();
        let size: i16 = tetri_shape.len() as i16;
        let tetri_x: i16 = x as i16 - self.x as i16;
        let tetri_y: i16 = self.y as i16 - y as i16;
        proof {
            lemma_cells_square(self@);
        }
        if tetri_x >= 0 && tetri_y >= 0 && tetri_x < size && tetri_y < size {
            assert(shape_view(tetri_shape)[tetri_x as int].len() == size);
            tetri_shape[tetri_x as usize][tetri_y as usize]
        } else {
            false
        }
    }

    /// Whether every covered cell lies inside the grid and over an empty cell.
    pub fn is_valid(&self, matrix: &Matrix) -> (r: bool)
        requires
            self.wf(),
        ensures
            r == self@.valid_on(grid_view(*matrix)),
    {
        let tetri_shape = self.to_blocks();
        let size: usize = tetri_shape.len();
        let ghost p = self@;
        let ghost g = grid_view(*matrix);
        proof {
            lemma_cells_square(p);
        }
        let mut x: usize = 0;
        while x < size
            invariant
                p == self@,
                p.wf(),
                g == grid_view(*matrix),
                shape_view(tetri_shape) == p.cells(),
                size == shape_size(p.ttype),
                size == tetri_shape@.len(),
                is_grid(p.cells(), size as nat, size as nat),
                x <= size,
                forall|i: int, j: int| 0 <= i < x && 0 <= j < size ==> cell_ok(p, g, i, j),
            decreases size - x,
        {
            let mut y: usize = 0;
            while y < size
                invariant
                    p == self@,
                    p.wf(),
                    g == grid_view(*matrix),
                    shape_view(tetri_shape) == p.cells(),
                    size == shape_size(p.ttype),
                    size == tetri_shape@.len(),
                    is_grid(p.cells(), size as nat, size as nat),
                    x < size,
                    y <= size,
                    forall|i: int, j: int| 0 <= i < x && 0 <= j < size ==> cell_ok(p, g, i, j),
                    forall|j: int| 0 <= j < y ==> cell_ok(p, g, x as int, j),
                decreases size - y,
            {
                let matrix_pos_x: i16 = x as i16 + self.x as i16;
                let matrix_pos_y: i16 = self.y as i16 - y as i16;
                assert(shape_view(tetri_shape)[x as int].len() == size);
                let set: bool = tetri_shape[x][y];
                assert(set == p.cells()[x as int][y as int]);
                if set && (matrix_pos_x < 0 || matrix_pos_x >= 10 || matrix_pos_y < 0
                    || matrix_pos_y >= 32
                    || matrix[matrix_pos_y as usize][matrix_pos_x as usize].is_some()) {
                    assert(p.occupies(matrix_pos_x as int, matrix_pos_y as int));
                    return false;
                }
                assert(cell_ok(p, g, x as int, y as int));
                y += 1;
            }
            x += 1;
        }
        assert forall|gx: int, gy: int| #[trigger] p.occupies(gx, gy) implies 0 <= gx < 10 && 0
            <= gy < 32 && g[gy][gx] is None by {
            assert(cell_ok(p, g, gx - p.x, p.y - gy));
        }
        true
    }

    /// Whether the piece would be valid one step further in `direction`.
    pub fn can_move_to(&self, matrix: &Matrix, direction: Direction) -> (r: bool)
        requires
            self.wf(),
        ensures
            r == self@.moved(direction).valid_on(grid_view(*matrix)),
    {
        let mut moved_tetrimino = *self;
        moved_tetrimino.apply_direction(direction);
        moved_tetrimino.is_valid(matrix)
    }

    /// Turns the piece a quarter turn, trying the five wall kicks of its
    /// table in order. The first candidate that is valid is taken; if none
    /// is, the piece stays as it was.
    pub fn rotate(&mut self, matrix: &Matrix, revert_direction: bool) -> (success: bool)
        requires
            old(self).wf(),
        ensures
            final(self).wf(),
            success == (rotated(old(self)@, grid_view(*matrix), revert_direction) is Some),
            success ==> Some(final(self)@) == rotated(
                old(self)@,
                grid_view(*matrix),
                revert_direction,
            ),
            !success ==> *final(self) == *old(self),
    {
        let ghost p = self@;
        let ghost g = grid_view(*matrix);
        let target: u8 = if revert_direction {
            (self.rotation + 1) % 4
        } else {
            (self.rotation + 3) % 4
        };
        let key: u8 = if revert_direction {
            (target + 3) % 4
        } else {
            target
        };
        let kicks = wall_kicks_tests_list(self.ttype, key);
        let mut k: usize = 0;
        while k < 5
            invariant
                k <= 5,
                *self == *old(self),
                p == self@,
                p.wf(),
                g == grid_view(*matrix),
                target == rotation_target(p.rotation, revert_direction),
                key == kick_table_key(p.rotation, revert_direction),
                forall|i: int|
                    0 <= i < 5 ==> (#[trigger] kicks[i].0 as int, kicks[i].1 as int) == wall_kicks(
                        p.ttype,
                        key as int,
                    )[i],
                forall|i: int| 0 <= i < k ==> !rotation_candidate(p, revert_direction, i).valid_on(g),
            decreases 5 - k,
        {
            let kick: (i8, i8) = kicks[k];
            assert((kick.0 as int, kick.1 as int) == wall_kicks(p.ttype, key as int)[k as int]);
            let x: i16 = if revert_direction {
                self.x as i16 - kick.0 as i16
            } else {
                self.x as i16 + kick.0 as i16
            };
            let y: i16 = if revert_direction {
                self.y as i16 + kick.1 as i16
            } else {
                self.y as i16 - kick.1 as i16
            };
            let ghost c = rotation_candidate(p, revert_direction, k as int);
            assert(c.x == x && c.y == y);
            if -128 <= x && x <= 127 && -128 <= y && y <= 127 {
                let rotated_tetri = Tetrimino {
                    ttype: self.ttype,
                    rotation: target,
                    x: x as i8,
                    y: y as i8,
                };
                assert(rotated_tetri@ == c);
                if rotated_tetri.is_valid(matrix) {
                    *self = rotated_tetri;
                    return true;
                }
            } else {
                proof {
                    if c.valid_on(g) {
                        lemma_valid_bounds(c, g);
                    }
                }
            }
            k += 1;
        }
        false
    }
}

/// Cell `(i, j)` of the bitmap, if set, lies inside the grid over an empty cell.
pub open spec fn cell_ok(p: Placement, g: Grid, i: int, j: int) -> bool {
    p.cells()[i][j] ==> 0 <= p.x + i < 10 && 0 <= p.y - j < 32 && g[p.y - j][p.x + i] is None
}

} // verus!
