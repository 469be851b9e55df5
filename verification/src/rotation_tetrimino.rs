use crate::tetrimino::TetriminoType;
use vstd::prelude::*;

verus! {

/// A piece bitmap: `s[i][j]` is the cell `i` columns right of the anchor and
/// `j` rows below it.
pub type Shape = Seq<Seq<bool>>;

/// The bitmap that a vector of columns stands for.
pub open spec fn shape_view(v: Vec<Vec<bool>>) -> Shape {
    Seq::new(v@.len(), |i: int| v@[i]@)
}

/// Every column of `s` has `h` cells and there are `w` columns.
pub open spec fn is_grid(s: Shape, w: nat, h: nat) -> bool {
    &&& s.len() == w
    &&& forall|i: int| 0 <= i < s.len() ==> (#[trigger] s[i]).len() == h
}

/// `s` is a non-empty rectangle.
pub open spec fn is_rect(s: Shape) -> bool {
    &&& s.len() > 0
    &&& s[0].len() > 0
    &&& is_grid(s, s.len(), s[0].len())
}

/// One quarter turn: column `x` of the result is row `x` of `s`, read from
/// the last column of `s` to the first.
pub open spec fn rotate_once(s: Shape) -> Shape {
    Seq::new(s[0].len(), |x: int| Seq::new(s.len(), |j: int| s[s.len() - 1 - j][x]))
}

/// `n` quarter turns.
pub open spec fn rotate_n(s: Shape, n: nat) -> Shape
    decreases n,
{
    if n == 0 {
        s
    } else {
        rotate_n(rotate_once(s), (n - 1) as nat)
    }
}

/// How many quarter turns `rotate_shape` makes for a rotation argument.
pub open spec fn rotation_count(nb_rotate: u8) -> nat {
    if nb_rotate == 0 {
        0
    } else {
        (1 + (nb_rotate - 1) % 4) as nat
    }
}

/// A quarter turn of a rectangle is a rectangle with width and height
/// exchanged.
pub proof fn lemma_rotate_once_rect(s: Shape)
    requires
        is_rect(s),
    ensures
        is_rect(rotate_once(s)),
        rotate_once(s).len() == s[0].len(),
        rotate_once(s)[0].len() == s.len(),
{
}

/// Four quarter turns give back the bitmap they started from.
pub proof fn lemma_four_rotations_identity(s: Shape)
    requires
        is_rect(s),
    ensures
        rotate_n(s, 4) == s,
{
    let r1 = rotate_once(s);
    let r2 = rotate_once(r1);
    let r3 = rotate_once(r2);
    let r4 = rotate_once(r3);
    lemma_rotate_once_rect(s);
    lemma_rotate_once_rect(r1);
    lemma_rotate_once_rect(r2);
    lemma_rotate_once_rect(r3);
    assert(r4.len() == s.len());
    assert forall|i: int| 0 <= i < s.len() implies #[trigger] r4[i] =~= s[i] by {
        assert(r4[i].len() == s[i].len());
        assert forall|j: int| 0 <= j < s[i].len() implies r4[i][j] == s[i][j] by {
            // Follow the cell back through the four turns.
            let w = s.len() as int;
            let h = s[0].len() as int;
            assert(r3[h - 1 - j][i] == r2[w - 1 - i][h - 1 - j]);
            assert(r2[w - 1 - i][h - 1 - j] == r1[j][w - 1 - i]);
            assert(r1[j][w - 1 - i] == s[i][j]);
        }
    }
    assert(r4 =~= s);
    reveal_with_fuel(rotate_n, 5);
}

fn rotate_tetrimino_by_one(tetrimino: Vec<Vec<bool>>) -> (ret: Vec<Vec<bool>>)
    requires
        is_rect(shape_view(tetrimino)),
    ensures
        shape_view(ret) == rotate_once(shape_view(tetrimino)),
{
    let ghost s = shape_view(tetrimino);
    let mut ret: Vec<Vec<bool>> = Vec::new();
    let width: usize = tetrimino[0].len();
    let height: usize = tetrimino.len();
    let mut x: usize = 0;
    while x < width
        invariant
            is_rect(s),
            s == shape_view(tetrimino),
            width == s[0].len(),
            height == s.len(),
            x <= width,
            ret@.len() == x,
            forall|i: int| 0 <= i < x ==> (#[trigger] ret@[i])@ == rotate_once(s)[i],
        decreases width - x,
    {
        let mut row: Vec<bool> = Vec::new();
        let mut y: usize = 0;
        while y < height
            invariant
                is_rect(s),
                s == shape_view(tetrimino),
                width == s[0].len(),
                height == s.len(),
                x < width,
                y <= height,
                row@.len() == y,
                forall|j: int| 0 <= j < y ==> #[trigger] row@[j] == s[y - 1 - j][x as int],
            decreases height - y,
        {
            assert(s[y as int].len() == width);
            let cell: bool = tetrimino[y][x];
            row.insert(0, cell);
            y += 1;
        }
        assert(row@ =~= rotate_once(s)[x as int]);
        ret.push(row);
        x += 1;
    }
    assert(shape_view(ret) =~= rotate_once(s));
    ret
}

/// Turns a bitmap by `rotation_count(nb_rotate)` quarter turns.
pub fn rotate_shape(nb_rotate: u8, tetrimino: Vec<Vec<bool>>) -> (ret: Vec<Vec<bool>>)
    requires
        nb_rotate != 0 ==> is_rect(shape_view(tetrimino)),
    ensures
        shape_view(ret) == rotate_n(shape_view(tetrimino), rotation_count(nb_rotate)),
    decreases nb_rotate,
{
    if nb_rotate == 0 {
        return tetrimino;
    }
    proof {
        lemma_rotate_once_rect(shape_view(tetrimino));
    }
    let turned = rotate_tetrimino_by_one(tetrimino);
    let rest: u8 = (nb_rotate - 1) % 4;
    proof {
        lemma_rotation_count_small(rest);
    }
    rotate_shape(rest, turned)
}

proof fn lemma_rotation_count_small(r: u8)
    requires
        r < 4,
    ensures
        rotation_count(r) == r,
{
}


/// The five wall-kick offsets of the standard rotation system for the
/// quarter turn that leaves rotation state `rotation`, in the order in which
/// they are tried. The I piece has a table of its own.
pub open spec fn wall_kicks(ttype: TetriminoType, rotation: int) -> Seq<(int, int)> {
    if ttype == TetriminoType::I {
        if rotation == 0 {
            seq![(0int, 0int), (-2int, 0int), (1int, 0int), (-2int, -1int), (1int, 2int)]
        } else if rotation == 1 {
            seq![(0int, 0int), (-1int, 0int), (2int, 0int), (-1int, 2int), (2int, -1int)]
        } else if rotation == 2 {
            seq![(0int, 0int), (2int, 0int), (-1int, 0int), (2int, 1int), (-1int, -2int)]
        } else {
            seq![(0int, 0int), (1int, 0int), (-2int, 0int), (1int, -2int), (-2int, 1int)]
        }
    } else {
        if rotation == 0 {
            seq![(0int, 0int), (-1int, 0int), (-1int, 1int), (0int, -2int), (-1int, -2int)]
        } else if rotation == 1 {
            seq![(0int, 0int), (1int, 0int), (1int, -1int), (0int, 2int), (1int, 2int)]
        } else if rotation == 2 {
            seq![(0int, 0int), (1int, 0int), (1int, 1int), (0int, -2int), (1int, -2int)]
        } else {
            seq![(0int, 0int), (-1int, 0int), (-1int, -1int), (0int, 2int), (-1int, 2int)]
        }
    }
}

/// The wall-kick offsets to try, in order, for a piece type and the rotation
/// state that keys the table. A whole turn, 4, counts as state 0.
pub fn wall_kicks_tests_list(ttype: TetriminoType, rotation: u8) -> (ret: [(i8, i8); 5])
    requires
        rotation <= 4,
    ensures
        forall|k: int|
            0 <= k < 5 ==> (#[trigger] ret[k].0 as int, ret[k].1 as int) == wall_kicks(
                ttype,
                rotation as int % 4,
            )[k],
{
    let back: u8 = (4 - rotation) % 4;
    assert(((rotation & 1) != 0) == (rotation == 1 || rotation == 3)) by (bit_vector)
        requires
            rotation <= 4,
    ;
    assert(((back & 2) != 0) == (back == 2 || back == 3)) by (bit_vector)
        requires
            back < 4,
    ;
    let b1 = rotation & 1 != 0;
    let b2 = back & 2 != 0;
    let r0: i8 = if b1 {
        -1
    } else {
        1
    };
    let r1: i8 = if b2 {
        -1
    } else {
        1
    };
    match (ttype, (b1, b2)) {
        (TetriminoType::I, (false, false)) => [(0, 0), (-2, 0), (1, 0), (-2, -1), (1, 2)],
        (TetriminoType::I, (true, true)) => [(0, 0), (-1, 0), (2, 0), (-1, 2), (2, -1)],
        (TetriminoType::I, (false, true)) => [(0, 0), (2, 0), (-1, 0), (2, 1), (-1, -2)],
        (TetriminoType::I, (true, false)) => [(0, 0), (1, 0), (-2, 0), (1, -2), (-2, 1)],
        _ => [(0, 0), (-r1, 0), (-r1, r0), (0, -2 * r0), (-r1, -2 * r0)],
    }
}

} // verus!
