use crate::actions::{input_action, input_to_action, lemma_resting};
use crate::game::{
    cleared, full_rows, grid_view, lemma_full_rows_below, remove_lines, stamp, stamp_piece,
    Direction, GameAction, Grid, Input, Matrix,
};
use crate::simulate_action::{simulate_action, simulated};
use crate::tetrimino::{lemma_valid_bounds, spawn_placement, Placement, Tetrimino, TetriminoType};
use vstd::prelude::*;

verus! {

/// Whether a row holds a cell.
pub open spec fn row_in_use(g: Grid, y: int) -> bool {
    exists|x: int| 0 <= x < 10 && (#[trigger] g[y][x]) is Some
}

/// The index of the highest row among the lowest `n` that holds a cell,
/// and 0 where none does.
pub open spec fn height_below(g: Grid, n: nat) -> int
    decreases n,
{
    if n == 0 {
        0
    } else if row_in_use(g, n - 1) {
        n - 1
    } else {
        height_below(g, (n - 1) as nat)
    }
}

/// The index of the highest row that holds a cell, and 0 for an empty grid.
pub open spec fn height(g: Grid) -> int {
    height_below(g, 32)
}

/// The sides of the cell in column `x` of row `y` at which an occupied
/// cell meets an empty one. The edge of the grid is no such side.
pub open spec fn open_sides(g: Grid, x: int, y: int) -> int {
    let here = g[y][x] is Some;
    (if y != 0 && (g[y - 1][x] is Some) != here {
        1int
    } else {
        0int
    }) + (if y != 31 && (g[y + 1][x] is Some) != here {
        1int
    } else {
        0int
    }) + (if x != 0 && (g[y][x - 1] is Some) != here {
        1int
    } else {
        0int
    }) + (if x != 9 && (g[y][x + 1] is Some) != here {
        1int
    } else {
        0int
    })
}

/// The open sides of the first `n` cells, counted row by row from the
/// bottom, each row from the left.
pub open spec fn open_sides_below(g: Grid, n: nat) -> int
    decreases n,
{
    if n == 0 {
        0
    } else {
        open_sides_below(g, (n - 1) as nat) + open_sides(g, (n - 1) % 10, (n - 1) / 10)
    }
}

/// The score of the surface: one point off for every side at which an
/// occupied cell meets an empty one, counted from either cell.
pub open spec fn contact_surface(g: Grid) -> int {
    -open_sides_below(g, 320)
}

/// The score of a grid: its surface, and two points off for every row of
/// height.
pub open spec fn matrix_score(g: Grid) -> int {
    contact_surface(g) - 2 * height(g)
}

/// The first `n` cells have at most four open sides each.
pub proof fn lemma_open_sides_bound(g: Grid, n: nat)
    ensures
        0 <= open_sides_below(g, n) <= 4 * n,
    decreases n,
{
    if n > 0 {
        lemma_open_sides_bound(g, (n - 1) as nat);
    }
}

/// The height of the lowest `n` rows is a row among them, or 0.
pub proof fn lemma_height_bound(g: Grid, n: nat)
    ensures
        0 <= height_below(g, n) <= n,
    decreases n,
{
    if n > 0 {
        lemma_height_bound(g, (n - 1) as nat);
    }
}

/// The score of a grid: its surface, and two points off for every row of
/// height. The best grid scores 0.
pub fn score_matrix(matrix: &Matrix) -> (r: i32)
    ensures
        r == matrix_score(grid_view(*matrix)),
{
    proof {
        lemma_open_sides_bound(grid_view(*matrix), 320);
        lemma_height_bound(grid_view(*matrix), 32);
    }
    score_contact_surface(matrix) - (2 * get_height(matrix))
}

/// The index of the highest row that holds a cell, and 0 for an empty grid.
pub fn get_height(matrix: &Matrix) -> (r: i32)
    ensures
        r == height(grid_view(*matrix)),
{
    let ghost g = grid_view(*matrix);
    let mut j: usize = 32;
    while j > 0
        invariant
            j <= 32,
            g == grid_view(*matrix),
            height(g) == height_below(g, j as nat),
        decreases j,
    {
        j -= 1;
        let mut x: usize = 0;
        while x < 10
            invariant
                j < 32,
                x <= 10,
                g == grid_view(*matrix),
                height(g) == height_below(g, (j + 1) as nat),
                forall|i: int| 0 <= i < x ==> (#[trigger] g[j as int][i]) is None,
            decreases 10 - x,
        {
            if matrix[j][x].is_some() {
                assert(g[j as int][x as int] is Some);
                assert(row_in_use(g, j as int));
                return j as i32;
            }
            x += 1;
        }
        assert(!row_in_use(g, j as int));
    }
    0
}

/// The score of the surface: one point off for every side at which an
/// occupied cell meets an empty one, counted from either cell.
pub fn score_contact_surface(matrix: &Matrix) -> (r: i32)
    ensures
        r == contact_surface(grid_view(*matrix)),
{
    let ghost g = grid_view(*matrix);
    let mut score: i32 = 0;
    let mut y: usize = 0;
    while y < 32
        invariant
            y <= 32,
            g == grid_view(*matrix),
            score == -open_sides_below(g, (y * 10) as nat),
        decreases 32 - y,
    {
        let mut x: usize = 0;
        while x < 10
            invariant
                y < 32,
                x <= 10,
                g == grid_view(*matrix),
                score == -open_sides_below(g, (y * 10 + x) as nat),
            decreases 10 - x,
        {
            proof {
                lemma_open_sides_bound(g, (y * 10 + x) as nat);
                assert((y * 10 + x) % 10 == x && (y * 10 + x) / 10 == y);
            }
            let here = matrix[y][x].is_some();
            if y != 0 && matrix[y - 1][x].is_some() != here {
                score -= 1;
            }
            if y != 31 && matrix[y + 1][x].is_some() != here {
                score -= 1;
            }
            if x != 0 && matrix[y][x - 1].is_some() != here {
                score -= 1;
            }
            if x != 9 && matrix[y][x + 1].is_some() != here {
                score -= 1;
            }
            x += 1;
        }
        y += 1;
    }
    score
}

/// A position that the search has reached, with the inputs that lead to it.
#[derive(Debug, Clone)]
pub struct Reached {
    pub tetrimino: Tetrimino,
    /// The piece is to be locked there.
    pub placed: bool,
    pub inputs: Vec<Input>,
}

pub struct ReachedView {
    pub piece: Placement,
    pub placed: bool,
    pub inputs: Seq<Input>,
}

impl View for Reached {
    type V = ReachedView;

    open spec fn view(&self) -> ReachedView {
        ReachedView { piece: self.tetrimino@, placed: self.placed, inputs: self.inputs@ }
    }
}

pub open spec fn table_view(table: Seq<Reached>) -> Seq<ReachedView> {
    Seq::new(table.len(), |i: int| table[i]@)
}

/// The inputs that the search tries at every position, in their order.
pub open spec fn search_inputs() -> Seq<Input> {
    seq![
        Input::FastMove,
        Input::Acceleration,
        Input::Left,
        Input::Right,
        Input::Rotate,
        Input::RotateRevert,
    ]
}

/// Where inputs lead a piece on a grid that stays as it is, and whether
/// the piece is then to be locked. Inputs after the piece is to be locked
/// lead nowhere, and so does an input that is rejected.
pub open spec fn run(g: Grid, p: Placement, moves: Seq<Input>) -> Option<(Placement, bool)>
    decreases moves.len(),
{
    if moves.len() == 0 {
        Some((p, false))
    } else {
        match run(g, p, moves.drop_last()) {
            Some((q, false)) => simulated(q, g, input_action(moves.last())),
            _ => None,
        }
    }
}

/// The table holds the position.
pub open spec fn holds(table: Seq<ReachedView>, key: (Placement, bool)) -> bool {
    exists|i: int|
        0 <= i < table.len() && (#[trigger] table[i]).piece == key.0 && table[i].placed == key.1
}

/// The table holds no position twice.
pub open spec fn no_position_twice(table: Seq<ReachedView>) -> bool {
    forall|i: int, j: int|
        0 <= i < j < table.len() ==> !(table[i].piece == table[j].piece && table[i].placed
            == table[j].placed)
}

/// The second table starts with the first.
pub open spec fn extends(table: Seq<ReachedView>, longer: Seq<ReachedView>) -> bool {
    &&& table.len() <= longer.len()
    &&& forall|i: int| 0 <= i < table.len() ==> #[trigger] longer[i] == table[i]
}

/// The entry's inputs start with `prefix`, and what follows leads from
/// `root` to the entry's position.
pub open spec fn entry_sound(e: ReachedView, g: Grid, root: Placement, prefix: Seq<Input>) -> bool {
    &&& e.piece.wf()
    &&& e.inputs.len() >= prefix.len()
    &&& e.inputs.take(prefix.len() as int) == prefix
    &&& run(g, root, e.inputs.skip(prefix.len() as int)) == Some((e.piece, e.placed))
}

/// The table holds every position that one of the inputs of the search
/// leads to from `p`.
pub open spec fn successors_held(table: Seq<ReachedView>, g: Grid, p: Placement) -> bool {
    forall|k: int|
        0 <= k < 6 ==> (simulated(p, g, input_action(#[trigger] search_inputs()[k])) matches Some(
            key,
        ) ==> holds(table, key))
}

/// From entry `from` on, the table holds the successors of every position
/// in it at which the piece is not to be locked.
pub open spec fn closed_from(table: Seq<ReachedView>, g: Grid, from: int) -> bool {
    forall|i: int|
        from <= i < table.len() && !(#[trigger] table[i]).placed ==> successors_held(
            table,
            g,
            table[i].piece,
        )
}

/// A number for each type.
pub open spec fn type_index(t: TetriminoType) -> int {
    match t {
        TetriminoType::I => 0,
        TetriminoType::J => 1,
        TetriminoType::L => 2,
        TetriminoType::O => 3,
        TetriminoType::S => 4,
        TetriminoType::T => 5,
        TetriminoType::Z => 6,
        TetriminoType::Empty => 7,
    }
}

/// The placements among which every valid one is found.
pub open spec fn in_box(p: Placement) -> bool {
    p.wf() && -4 < p.x < 10 && 0 <= p.y < 36
}

/// A number for each placement of the box, below 13104.
pub open spec fn code(p: Placement) -> int {
    type_index(p.ttype) * 1872 + p.rotation * 468 + (p.x + 3) * 36 + p.y
}

/// The table holds a position of the box with the number `c`, at which the
/// piece is not to be locked.
pub open spec fn holds_code(table: Seq<ReachedView>, c: int) -> bool {
    exists|i: int|
        0 <= i < table.len() && !(#[trigger] table[i]).placed && in_box(table[i].piece) && code(
            table[i].piece,
        ) == c
}

/// How many of the first `n` numbers are the number of no position in the
/// table at which the piece is not to be locked. The search ends because
/// this count falls with every such position it reaches.
pub open spec fn unvisited(table: Seq<ReachedView>, n: nat) -> nat
    decreases n,
{
    if n == 0 {
        0
    } else {
        unvisited(table, (n - 1) as nat) + if holds_code(table, n - 1) {
            0nat
        } else {
            1nat
        }
    }
}

proof fn lemma_code_injective(p: Placement, q: Placement)
    requires
        in_box(p),
        in_box(q),
        code(p) == code(q),
    ensures
        p == q,
{
}

proof fn lemma_extends_holds(table: Seq<ReachedView>, longer: Seq<ReachedView>)
    requires
        extends(table, longer),
    ensures
        forall|key: (Placement, bool)| holds(table, key) ==> holds(longer, key),
        forall|c: int| holds_code(table, c) ==> holds_code(longer, c),
{
    assert forall|key: (Placement, bool)| holds(table, key) implies holds(longer, key) by {
        let i = choose|i: int|
            0 <= i < table.len() && (#[trigger] table[i]).piece == key.0 && table[i].placed
                == key.1;
        assert(longer[i] == table[i]);
    }
    assert forall|c: int| holds_code(table, c) implies holds_code(longer, c) by {
        let i = choose|i: int|
            0 <= i < table.len() && !(#[trigger] table[i]).placed && in_box(table[i].piece)
                && code(table[i].piece) == c;
        assert(longer[i] == table[i]);
    }
}

proof fn lemma_unvisited_falls(table: Seq<ReachedView>, longer: Seq<ReachedView>, n: nat)
    requires
        extends(table, longer),
    ensures
        unvisited(longer, n) <= unvisited(table, n),
        forall|c: int|
            0 <= c < n && holds_code(longer, c) && !holds_code(table, c) ==> unvisited(longer, n)
                < unvisited(table, n),
    decreases n,
{
    lemma_extends_holds(table, longer);
    if n > 0 {
        lemma_unvisited_falls(table, longer, (n - 1) as nat);
    }
}

/// What an input of the search leads to is a piece, and a valid one unless
/// it is to be locked.
proof fn lemma_simulated_piece(p: Placement, g: Grid, action: GameAction)
    requires
        p.wf(),
    ensures
        simulated(p, g, action) matches Some((q, placed)) ==> q.wf() && (!placed ==> q.valid_on(g)
            && in_box(q) && 0 <= code(q) < 13104),
{
    match action {
        GameAction::MoveCurrentTetrimino(Direction::FastDown) => {
            lemma_resting(p, g);
        },
        _ => {
            if let Some((q, placed)) = simulated(p, g, action) {
                if !placed {
                    lemma_valid_bounds(q, g);
                }
            }
        },
    }
}

/// Inputs that follow a first input lead from where the first input leads.
proof fn lemma_run_prepend(g: Grid, p: Placement, input: Input, q: Placement, moves: Seq<Input>)
    requires
        simulated(p, g, input_action(input)) == Some((q, false)),
    ensures
        run(g, p, seq![input] + moves) == run(g, q, moves),
    decreases moves.len(),
{
    let all = seq![input] + moves;
    if moves.len() == 0 {
        assert(all.drop_last() =~= Seq::<Input>::empty());
        assert(run(g, p, all.drop_last()) == Some((p, false)));
    } else {
        assert(all.drop_last() =~= seq![input] + moves.drop_last());
        lemma_run_prepend(g, p, input, q, moves.drop_last());
    }
}

/// What a table holds of the successors of the positions in it, a longer
/// table holds too.
proof fn lemma_closed_extends(
    table: Seq<ReachedView>,
    longer: Seq<ReachedView>,
    g: Grid,
    from: int,
)
    requires
        0 <= from,
        extends(table, longer),
        closed_from(table, g, from),
    ensures
        forall|i: int|
            from <= i < table.len() && !(#[trigger] longer[i]).placed ==> successors_held(
                longer,
                g,
                longer[i].piece,
            ),
        forall|p: Placement| successors_held(table, g, p) ==> successors_held(longer, g, p),
{
    lemma_extends_holds(table, longer);
    assert forall|i: int| from <= i < table.len() && !(#[trigger] longer[i]).placed implies successors_held(
        longer,
        g,
        longer[i].piece,
    ) by {
        assert(longer[i] == table[i]);
        assert(successors_held(table, g, table[i].piece));
    }
}

/// One input that is not rejected leads to what it is simulated to lead
/// to.
proof fn lemma_run_one(g: Grid, p: Placement, input: Input)
    ensures
        run(g, p, seq![input]) == simulated(p, g, input_action(input)),
{
    assert(seq![input].drop_last() =~= Seq::<Input>::empty());
    assert(seq![input].last() == input);
    reveal_with_fuel(run, 2);
}

/// An entry whose inputs lead from where `input` leads to, after the
/// prefix with `input`, leads there from `root` after the prefix alone.
proof fn lemma_sound_lifted(
    e: ReachedView,
    g: Grid,
    root: Placement,
    prefix: Seq<Input>,
    input: Input,
    q: Placement,
)
    requires
        simulated(root, g, input_action(input)) == Some((q, false)),
        entry_sound(e, g, q, prefix.push(input)),
    ensures
        entry_sound(e, g, root, prefix),
{
    let longer = prefix.push(input);
    assert(e.inputs.take(prefix.len() as int) =~= e.inputs.take(longer.len() as int).take(
        prefix.len() as int,
    ));
    assert(longer.take(prefix.len() as int) =~= prefix);
    let rest = e.inputs.skip(longer.len() as int);
    assert(e.inputs.take(longer.len() as int)[prefix.len() as int] == longer[prefix.len() as int]);
    assert(e.inputs.skip(prefix.len() as int) =~= seq![input] + rest);
    lemma_run_prepend(g, root, input, q, rest);
}

/// A position at which the piece is not to be locked, and which is new to
/// the table, lowers the count of the numbers that the table lacks.
proof fn lemma_new_position_counts(
    before: Seq<ReachedView>,
    pushed: Seq<ReachedView>,
    q: Placement,
    g: Grid,
)
    requires
        extends(before, pushed),
        pushed.len() == before.len() + 1,
        pushed[before.len() as int].piece == q,
        !pushed[before.len() as int].placed,
        !holds(before, (q, false)),
        in_box(q),
        0 <= code(q) < 13104,
    ensures
        unvisited(pushed, 13104) < unvisited(before, 13104),
{
    let c = code(q);
    if holds_code(before, c) {
        let i = choose|i: int|
            0 <= i < before.len() && !(#[trigger] before[i]).placed && in_box(before[i].piece)
                && code(before[i].piece) == c;
        lemma_code_injective(before[i].piece, q);
        assert(holds(before, (q, false)));
    }
    assert(holds_code(pushed, c)) by {
        assert(pushed[before.len() as int].piece == q);
    }
    lemma_unvisited_falls(before, pushed, 13104);
}

/// The table with one more entry at which the piece is to be locked is
/// closed where the table was.
proof fn lemma_closed_after_placed(
    before: Seq<ReachedView>,
    pushed: Seq<ReachedView>,
    g: Grid,
    from: int,
)
    requires
        0 <= from,
        extends(before, pushed),
        pushed.len() == before.len() + 1,
        pushed[before.len() as int].placed,
        closed_from(before, g, from),
    ensures
        closed_from(pushed, g, from),
{
    lemma_closed_extends(before, pushed, g, from);
}

/// The table after a position was added to it and searched is closed
/// where the table before was.
proof fn lemma_closed_after_search(
    before: Seq<ReachedView>,
    pushed: Seq<ReachedView>,
    after: Seq<ReachedView>,
    g: Grid,
    from: int,
)
    requires
        0 <= from <= before.len(),
        extends(before, pushed),
        pushed.len() == before.len() + 1,
        extends(pushed, after),
        closed_from(before, g, from),
        successors_held(after, g, pushed[before.len() as int].piece),
        closed_from(after, g, pushed.len() as int),
    ensures
        closed_from(after, g, from),
{
    lemma_closed_extends(before, pushed, g, from);
    lemma_extends_holds(pushed, after);
    assert forall|i: int| from <= i < after.len() && !(#[trigger] after[i]).placed implies successors_held(
        after,
        g,
        after[i].piece,
    ) by {
        if i < before.len() {
            assert(pushed[i] == before[i]);
            assert(after[i] == pushed[i]);
            assert(successors_held(before, g, before[i].piece));
            assert(successors_held(pushed, g, pushed[i].piece));
        } else if i == before.len() {
            assert(after[i] == pushed[i]);
        } else {
        }
    }
}

fn contains_key(table: &Vec<Reached>, tetrimino: &Tetrimino, placed: bool) -> (r: bool)
    ensures
        r == holds(table_view(table@), (tetrimino@, placed)),
{
    let mut i: usize = 0;
    while i < table.len()
        invariant
            i <= table@.len(),
            forall|k: int|
                0 <= k < i ==> !((#[trigger] table_view(table@)[k]).piece == tetrimino@
                    && table_view(table@)[k].placed == placed),
        decreases table@.len() - i,
    {
        if table[i].tetrimino == *tetrimino && table[i].placed == placed {
            assert(table_view(table@)[i as int].piece == tetrimino@);
            return true;
        }
        proof {
            if table[i as int].tetrimino@ == tetrimino@ {
                table[i as int].tetrimino.lemma_view_injective(*tetrimino);
            }
        }
        i += 1;
    }
    false
}

/// Adds to the table every position that inputs lead to from the piece,
/// with the inputs that lead there after `current_inputs`. A position
/// that the table holds already is left as it is, and not searched again.
#[verifier::rlimit(40)]
pub fn find_all_possible_positions(
    hashmap: &mut Vec<Reached>,
    matrix: &Matrix,
    tetrimino: &Tetrimino,
    current_inputs: Vec<Input>,
)
    requires
        tetrimino.wf(),
        forall|i: int|
            0 <= i < old(hashmap)@.len() ==> (#[trigger] table_view(old(hashmap)@)[i]).piece.wf(),
    ensures
        extends(table_view(old(hashmap)@), table_view(final(hashmap)@)),
        forall|i: int|
            0 <= i < final(hashmap)@.len() ==> (#[trigger] table_view(
                final(hashmap)@,
            )[i]).piece.wf(),
        forall|i: int|
            old(hashmap)@.len() <= i < final(hashmap)@.len() ==> entry_sound(
                #[trigger] table_view(final(hashmap)@)[i],
                grid_view(*matrix),
                tetrimino@,
                current_inputs@,
            ),
        successors_held(table_view(final(hashmap)@), grid_view(*matrix), tetrimino@),
        closed_from(table_view(final(hashmap)@), grid_view(*matrix), old(hashmap)@.len() as int),
        no_position_twice(table_view(old(hashmap)@)) ==> no_position_twice(
            table_view(final(hashmap)@),
        ),
    decreases unvisited(table_view(old(hashmap)@), 13104),
{
    let ghost g = grid_view(*matrix);
    let ghost start = table_view(hashmap@);
    let ghost root = tetrimino@;
    let ghost prefix = current_inputs@;
    let inputs: [Input; 6] = [
        Input::FastMove,
        Input::Acceleration,
        Input::Left,
        Input::Right,
        Input::Rotate,
        Input::RotateRevert,
    ];
    assert(inputs@ =~= search_inputs());
    let mut n: usize = 0;
    while n < 6
        invariant
            n <= 6,
            g == grid_view(*matrix),
            root == tetrimino@,
            root.wf(),
            prefix == current_inputs@,
            inputs@ == search_inputs(),
            start == table_view(old(hashmap)@),
            extends(start, table_view(hashmap@)),
            forall|i: int|
                0 <= i < hashmap@.len() ==> (#[trigger] table_view(hashmap@)[i]).piece.wf(),
            forall|i: int|
                start.len() <= i < hashmap@.len() ==> entry_sound(
                    #[trigger] table_view(hashmap@)[i],
                    g,
                    root,
                    prefix,
                ),
            forall|k: int|
                0 <= k < n ==> (simulated(root, g, input_action(#[trigger] search_inputs()[k])) matches Some(
                    key,
                ) ==> holds(table_view(hashmap@), key)),
            closed_from(table_view(hashmap@), g, start.len() as int),
            no_position_twice(start) ==> no_position_twice(table_view(hashmap@)),
        decreases 6 - n,
    {
        let input = inputs[n];
        assert(input == search_inputs()[n as int]);
        let ghost before = table_view(hashmap@);
        let mut updated_inputs = current_inputs.clone();
        assert(updated_inputs@ =~= prefix);
        updated_inputs.push(input);
        proof {
            lemma_simulated_piece(root, g, input_action(input));
        }
        match simulate_action(matrix, tetrimino, input_to_action(input)) {
            Ok(key) => {
                if !contains_key(hashmap, &key.0, key.1) {
                    let sequence = updated_inputs.clone();
                    assert(sequence@ =~= prefix.push(input));
                    hashmap.push(Reached { tetrimino: key.0, placed: key.1, inputs: sequence });
                    let ghost pushed = table_view(hashmap@);
                    proof {
                        assert(pushed =~= before.push(
                            ReachedView {
                                piece: key.0@,
                                placed: key.1,
                                inputs: prefix.push(input),
                            },
                        ));
                        let e = pushed[before.len() as int];
                        assert(e.inputs.take(prefix.len() as int) =~= prefix);
                        assert(e.inputs.skip(prefix.len() as int) =~= seq![input]);
                        lemma_run_one(g, root, input);
                        assert(entry_sound(e, g, root, prefix));
                        assert(extends(before, pushed));
                        lemma_extends_holds(before, pushed);
                        assert(holds(pushed, (key.0@, key.1)));
                        assert(no_position_twice(before) ==> no_position_twice(pushed)) by {
                            if no_position_twice(before) {
                                assert forall|i: int, j: int|
                                    0 <= i < j < pushed.len() implies !(pushed[i].piece
                                    == pushed[j].piece && pushed[i].placed
                                    == pushed[j].placed) by {
                                    if j < before.len() {
                                        assert(pushed[i] == before[i] && pushed[j] == before[j]);
                                    } else {
                                        assert(pushed[i] == before[i]);
                                    }
                                }
                            }
                        }
                    }
                    if !key.1 {
                        proof {
                            lemma_unvisited_falls(start, before, 13104);
                            lemma_new_position_counts(before, pushed, key.0@, g);
                        }
                        find_all_possible_positions(hashmap, matrix, &key.0, updated_inputs);
                        proof {
                            let after = table_view(hashmap@);
                            lemma_extends_holds(pushed, after);
                            assert forall|i: int| start.len() <= i < after.len() implies entry_sound(
                                #[trigger] after[i],
                                g,
                                root,
                                prefix,
                            ) by {
                                if i < pushed.len() {
                                    assert(after[i] == pushed[i]);
                                } else {
                                    lemma_sound_lifted(after[i], g, root, prefix, input, key.0@);
                                }
                            }
                            lemma_closed_after_search(before, pushed, after, g, start.len() as int);
                        }
                    } else {
                        proof {
                            lemma_closed_after_placed(before, pushed, g, start.len() as int);
                        }
                    }
                }
            },
            Err(_) => {},
        }
        n += 1;
    }
}

/// The grid after a piece was locked at `q`.
pub open spec fn grid_after(g: Grid, q: Placement) -> Grid {
    cleared(stamp(g, q))
}

/// How many rows locking a piece at `q` removes.
pub open spec fn lines_of(g: Grid, q: Placement) -> nat {
    full_rows(stamp(g, q)).len()
}

/// What removing rows adds to the score: nothing for one row, and for more
/// rows a hundred times their square less one.
pub open spec fn line_bonus(lines: nat) -> int {
    if lines > 1 {
        (lines * lines - 1) * 100
    } else {
        0
    }
}

/// The inputs lead the piece `p`, or after a hold the piece of the held
/// type, to the place `q` where it is to be locked.
pub open spec fn leads_to_lock(
    g: Grid,
    p: Placement,
    stocked: TetriminoType,
    inputs: Seq<Input>,
    q: Placement,
) -> bool {
    ||| run(g, p, inputs) == Some((q, true))
    ||| inputs.len() > 0 && inputs[0] == Input::StockTetrimino && run(
        g,
        spawn_placement(stocked),
        inputs.skip(1),
    ) == Some((q, true))
}

/// Some inputs lead the piece `p`, or the piece of the held type, to the
/// place `q` where it is to be locked.
pub open spec fn lock_reachable(g: Grid, p: Placement, stocked: TetriminoType, q: Placement) -> bool {
    exists|moves: Seq<Input>|
        #[trigger] run(g, p, moves) == Some((q, true)) || run(g, spawn_placement(stocked), moves)
            == Some((q, true))
}

/// The type that is held after a piece was locked at `q`: the type that
/// was held, unless the held piece was the one locked.
pub open spec fn held_after(p: Placement, stocked: TetriminoType, q: Placement) -> TetriminoType {
    if q.ttype == p.ttype {
        stocked
    } else {
        p.ttype
    }
}

/// Holds of everything. It marks what a quantifier ranges over, for the
/// solver to find it.
pub open spec fn considered<A>(a: A) -> bool {
    true
}

/// Whether the search looks no further than the piece at hand.
pub open spec fn last_level(pending: Seq<TetriminoType>, deep: nat) -> bool {
    deep == 0 || pending.len() == 0
}

/// `value` is a worth of locking the piece at `q`: at the last level the
/// score of the grid that the lock leaves and the bonus for its rows, and
/// before that a score that the search may give for the next piece on
/// that grid, and the bonus.
pub open spec fn lock_value(
    g: Grid,
    p: Placement,
    stocked: TetriminoType,
    pending: Seq<TetriminoType>,
    deep: nat,
    q: Placement,
    value: int,
) -> bool
    decreases deep, 0nat,
{
    if last_level(pending, deep) {
        value == matrix_score(grid_after(g, q)) + line_bonus(lines_of(g, q))
    } else {
        exists|score: int, inputs: Seq<Input>|
            #[trigger] considered((score, inputs)) && is_choice(
                grid_after(g, q),
                spawn_placement(pending.last()),
                held_after(p, stocked, q),
                pending.drop_last(),
                (deep - 1) as nat,
                score,
                inputs,
            ) && value == score + line_bonus(lines_of(g, q))
    }
}

/// The inputs lead to a lock at `q` of worth `value`, no lock that can be
/// reached is known to be worth more, and `score` is what the search
/// gives for it: at the last level the score of the grid alone.
pub open spec fn choice_at(
    g: Grid,
    p: Placement,
    stocked: TetriminoType,
    pending: Seq<TetriminoType>,
    deep: nat,
    score: int,
    inputs: Seq<Input>,
    q: Placement,
    value: int,
) -> bool
    decreases deep, 1nat,
{
    &&& leads_to_lock(g, p, stocked, inputs, q)
    &&& lock_value(g, p, stocked, pending, deep, q, value)
    &&& score == if last_level(pending, deep) {
        value - line_bonus(lines_of(g, q))
    } else {
        value
    }
    &&& forall|y: Placement| #[trigger]
        lock_reachable(g, p, stocked, y) ==> exists|v: int|
            #[trigger] considered(v) && lock_value(g, p, stocked, pending, deep, y, v) && v
                <= value
}

/// What the search may give: inputs that lead to a lock, the score of that
/// lock, and no lock that can be reached is known to be worth more.
pub open spec fn is_choice(
    g: Grid,
    p: Placement,
    stocked: TetriminoType,
    pending: Seq<TetriminoType>,
    deep: nat,
    score: int,
    inputs: Seq<Input>,
) -> bool
    decreases deep, 2nat,
{
    exists|q: Placement, value: int|
        #[trigger] considered((q, value)) && choice_at(
            g,
            p,
            stocked,
            pending,
            deep,
            score,
            inputs,
            q,
            value,
        )
}

/// What any input leads to, one of the inputs of the search leads to: a
/// fall tick is a step down where the piece can fall, and a drop where it
/// cannot.
proof fn lemma_step_is_searched(p: Placement, g: Grid, input: Input)
    requires
        p.wf(),
        simulated(p, g, input_action(input)) is Some,
    ensures
        exists|k: int|
            0 <= k < 6 && simulated(p, g, input_action(#[trigger] search_inputs()[k])) == simulated(
                p,
                g,
                input_action(input),
            ),
{
    let inputs = search_inputs();
    match input {
        Input::FastMove => {
            assert(inputs[0] == input);
        },
        Input::Acceleration => {
            assert(inputs[1] == input);
        },
        Input::Left => {
            assert(inputs[2] == input);
        },
        Input::Right => {
            assert(inputs[3] == input);
        },
        Input::Rotate => {
            assert(inputs[4] == input);
        },
        Input::RotateRevert => {
            assert(inputs[5] == input);
        },
        Input::StockTetrimino => {},
        Input::Fall => {
            if p.moved(Direction::Down).valid_on(g) {
                assert(inputs[1] == Input::Acceleration);
            } else {
                assert(inputs[0] == Input::FastMove);
                assert(crate::actions::resting(p, g) == p);
            }
        },
    }
}

/// Inputs lead a piece to a piece of its type.
proof fn lemma_run_keeps_type(g: Grid, p: Placement, moves: Seq<Input>)
    requires
        p.wf(),
    ensures
        run(g, p, moves) matches Some((q, placed)) ==> q.wf() && q.ttype == p.ttype,
        run(g, p, moves) is Some && moves.len() > 0 ==> moves[0] != Input::StockTetrimino,
        run(g, p, moves) matches Some((q, placed)) ==> (placed ==> moves.len() > 0),
    decreases moves.len(),
{
    if moves.len() > 0 {
        lemma_run_keeps_type(g, p, moves.drop_last());
        if let Some((q, false)) = run(g, p, moves.drop_last()) {
            lemma_resting(q, g);
            if moves.len() > 1 {
                assert(moves.drop_last()[0] == moves[0]);
            }
        }
    }
}

/// A table that holds the successors of the root and of every position in
/// it at which the piece is not to be locked holds every position that
/// inputs lead to from the root.
proof fn lemma_table_complete(
    table: Seq<ReachedView>,
    g: Grid,
    root: Placement,
    moves: Seq<Input>,
)
    requires
        root.wf(),
        successors_held(table, g, root),
        closed_from(table, g, 0),
        moves.len() > 0,
        run(g, root, moves) is Some,
    ensures
        holds(table, run(g, root, moves)->0),
    decreases moves.len(),
{
    let q = match run(g, root, moves.drop_last()) {
        Some((q, _)) => q,
        None => root,
    };
    lemma_run_keeps_type(g, root, moves.drop_last());
    lemma_step_is_searched(q, g, moves.last());
    let k = choose|k: int|
        0 <= k < 6 && simulated(q, g, input_action(#[trigger] search_inputs()[k])) == simulated(
            q,
            g,
            input_action(moves.last()),
        );
    if moves.len() == 1 {
        assert(q == root);
    } else {
        lemma_table_complete(table, g, root, moves.drop_last());
        let i = choose|i: int|
            0 <= i < table.len() && (#[trigger] table[i]).piece == q && table[i].placed == false;
        assert(successors_held(table, g, table[i].piece));
    }
}

/// The bonus for rows is at most 102300: a grid has 32 rows.
proof fn lemma_line_bonus_bound(lines: nat)
    requires
        lines <= 32,
    ensures
        0 <= line_bonus(lines) <= 102300,
{
    assert(lines * lines <= 1024) by (nonlinear_arith)
        requires
            lines <= 32,
    ;
    assert(lines > 1 ==> lines * lines >= 1) by (nonlinear_arith);
}

/// The score of a grid is at least -1344.
proof fn lemma_matrix_score_bound(g: Grid)
    ensures
        -1344 <= matrix_score(g) <= 0,
{
    lemma_open_sides_bound(g, 320);
    lemma_height_bound(g, 32);
}

/// The grid after the piece was locked where it stands, and the number of
/// rows that the lock removed.
fn place_and_count(tetrimino: &Tetrimino, matrix: &Matrix) -> (r: (Matrix, usize))
    requires
        tetrimino.wf(),
    ensures
        grid_view(r.0) == grid_after(grid_view(*matrix), tetrimino@),
        r.1 == lines_of(grid_view(*matrix), tetrimino@),
        r.1 <= 32,
{
    let mut matrix = *matrix;
    stamp_piece(&mut matrix, tetrimino);
    proof {
        lemma_full_rows_below(grid_view(matrix), 32);
    }
    let lines = remove_lines(&mut matrix);
    (matrix, lines.len())
}

/// None of the types is the empty type.
pub open spec fn real_types(types: Seq<TetriminoType>) -> bool {
    forall|i: int| 0 <= i < types.len() ==> #[trigger] types[i] != TetriminoType::Empty
}

/// The first `first_len` entries were found from the piece `p`, and the
/// others from the piece of the held type after a hold.
pub open spec fn table_sound(
    table: Seq<ReachedView>,
    g: Grid,
    p: Placement,
    stocked: TetriminoType,
    first_len: int,
) -> bool {
    forall|j: int|
        0 <= j < table.len() ==> if j < first_len {
            entry_sound(#[trigger] table[j], g, p, Seq::empty())
        } else {
            entry_sound(table[j], g, spawn_placement(stocked), seq![Input::StockTetrimino])
        }
}

/// The first `upto` entries at which the piece is to be locked have their
/// worth in `values`, and none is worth more than `best_value`.
pub open spec fn values_known(
    table: Seq<ReachedView>,
    values: Seq<int>,
    g: Grid,
    p: Placement,
    stocked: TetriminoType,
    pending: Seq<TetriminoType>,
    deep: nat,
    upto: int,
    best_value: int,
) -> bool {
    forall|j: int|
        0 <= j < upto && (#[trigger] table[j]).placed ==> lock_value(
            g,
            p,
            stocked,
            pending,
            deep,
            table[j].piece,
            values[j],
        ) && values[j] <= best_value
}

/// What an entry of the table says of its position: the inputs lead to
/// it, and the first input tells from which piece.
proof fn lemma_entry(
    table: Seq<ReachedView>,
    g: Grid,
    p: Placement,
    stocked: TetriminoType,
    first_len: int,
    j: int,
)
    requires
        p.wf(),
        stocked != TetriminoType::Empty,
        table_sound(table, g, p, stocked, first_len),
        0 <= j < table.len(),
        table[j].placed,
    ensures
        leads_to_lock(g, p, stocked, table[j].inputs, table[j].piece),
        table[j].inputs.len() > 0,
        held_after(p, stocked, table[j].piece) == if table[j].inputs[0] == Input::StockTetrimino {
            p.ttype
        } else {
            stocked
        },
{
    let e = table[j];
    if j < first_len {
        assert(e.inputs.skip(0) =~= e.inputs);
        lemma_run_keeps_type(g, p, e.inputs);
    } else {
        let held = spawn_placement(stocked);
        assert(e.inputs.take(1)[0] == seq![Input::StockTetrimino][0]);
        lemma_run_keeps_type(g, held, e.inputs.skip(1));
    }
}

/// At the last level a lock is worth the score of the grid it leaves and
/// the bonus for its rows.
proof fn lemma_lock_value_last(
    g: Grid,
    p: Placement,
    stocked: TetriminoType,
    pending: Seq<TetriminoType>,
    deep: nat,
    q: Placement,
)
    requires
        last_level(pending, deep),
    ensures
        lock_value(
            g,
            p,
            stocked,
            pending,
            deep,
            q,
            matrix_score(grid_after(g, q)) + line_bonus(lines_of(g, q)),
        ),
{
}

/// Before the last level a lock is worth what the search gives for the
/// next piece on the grid it leaves, and the bonus for its rows.
proof fn lemma_lock_value_next(
    g: Grid,
    p: Placement,
    stocked: TetriminoType,
    pending: Seq<TetriminoType>,
    deep: nat,
    q: Placement,
    score: int,
    inputs: Seq<Input>,
)
    requires
        !last_level(pending, deep),
        is_choice(
            grid_after(g, q),
            spawn_placement(pending.last()),
            held_after(p, stocked, q),
            pending.drop_last(),
            (deep - 1) as nat,
            score,
            inputs,
        ),
    ensures
        lock_value(g, p, stocked, pending, deep, q, score + line_bonus(lines_of(g, q))),
{
    assert(considered((score, inputs)));
    assert(is_choice(
        grid_after(g, q),
        spawn_placement(pending.last()),
        held_after(p, stocked, q),
        pending.drop_last(),
        (deep - 1) as nat,
        score,
        inputs,
    ) && score + line_bonus(lines_of(g, q)) == score + line_bonus(lines_of(g, q)));
}

/// No lock that can be reached is worth more than the most that an entry
/// of a complete table is worth.
proof fn lemma_nothing_better(
    table: Seq<ReachedView>,
    values: Seq<int>,
    g: Grid,
    p: Placement,
    stocked: TetriminoType,
    pending: Seq<TetriminoType>,
    deep: nat,
    value: int,
    y: Placement,
)
    requires
        p.wf(),
        stocked != TetriminoType::Empty,
        successors_held(table, g, p),
        successors_held(table, g, spawn_placement(stocked)),
        closed_from(table, g, 0),
        values_known(table, values, g, p, stocked, pending, deep, table.len() as int, value),
        lock_reachable(g, p, stocked, y),
    ensures
        exists|v: int|
            #[trigger] considered(v) && lock_value(g, p, stocked, pending, deep, y, v) && v
                <= value,
{
    let held = spawn_placement(stocked);
    let moves = choose|moves: Seq<Input>|
        #[trigger] run(g, p, moves) == Some((y, true)) || run(g, held, moves) == Some((y, true));
    if run(g, p, moves) == Some((y, true)) {
        lemma_run_keeps_type(g, p, moves);
        lemma_table_complete(table, g, p, moves);
    } else {
        lemma_run_keeps_type(g, held, moves);
        lemma_table_complete(table, g, held, moves);
    }
    assert(holds(table, (y, true)));
    let j = choose|j: int|
        0 <= j < table.len() && (#[trigger] table[j]).piece == y && table[j].placed == true;
    assert(considered(values[j]) && lock_value(g, p, stocked, pending, deep, y, values[j])
        && values[j] <= value);
}

/// A lock that the inputs lead to, with its worth and its score, is a
/// choice of the search where no lock that can be reached is known to be
/// worth more.
proof fn lemma_choice(
    g: Grid,
    p: Placement,
    stocked: TetriminoType,
    pending: Seq<TetriminoType>,
    deep: nat,
    score: int,
    inputs: Seq<Input>,
    q: Placement,
    value: int,
)
    requires
        leads_to_lock(g, p, stocked, inputs, q),
        lock_value(g, p, stocked, pending, deep, q, value),
        score == if last_level(pending, deep) {
            value - line_bonus(lines_of(g, q))
        } else {
            value
        },
        forall|y: Placement| #[trigger]
            lock_reachable(g, p, stocked, y) ==> exists|v: int|
                #[trigger] considered(v) && lock_value(g, p, stocked, pending, deep, y, v) && v
                    <= value,
    ensures
        is_choice(g, p, stocked, pending, deep, score, inputs),
{
    assert(choice_at(g, p, stocked, pending, deep, score, inputs, q, value));
    assert(considered((q, value)));
}

/// A complete table holds a position at which the piece is to be locked.
proof fn lemma_some_lock(table: Seq<ReachedView>, g: Grid, p: Placement)
    requires
        successors_held(table, g, p),
    ensures
        exists|j: int| 0 <= j < table.len() && (#[trigger] table[j]).placed,
{
    assert(search_inputs()[0] == Input::FastMove);
    let key = simulated(p, g, input_action(search_inputs()[0]))->0;
    assert(holds(table, key));
    let j = choose|j: int|
        0 <= j < table.len() && (#[trigger] table[j]).piece == key.0 && table[j].placed == key.1;
    assert(table[j].placed);
}

/// Whether the inputs begin with a hold.
fn starts_with_hold(inputs: &Vec<Input>) -> (r: bool)
    ensures
        r == (inputs@.len() > 0 && inputs@[0] == Input::StockTetrimino),
{
    inputs.len() > 0 && inputs[0] == Input::StockTetrimino
}

/// The bonus for the rows that a lock removed.
fn bonus_for(lines: usize) -> (r: i32)
    requires
        lines <= 32,
    ensures
        r == line_bonus(lines as nat),
        0 <= r <= 102300,
{
    proof {
        lemma_line_bonus_bound(lines as nat);
        assert(lines * lines <= 1024) by (nonlinear_arith)
            requires
                lines <= 32,
        ;
        assert(lines > 1 ==> lines * lines >= 1) by (nonlinear_arith);
    }
    if lines > 1 {
        ((lines * lines - 1) * 100) as i32
    } else {
        0
    }
}

/// Searches for the best place to lock the piece, or after a hold the
/// piece of the held type, looking `deep` pieces of the queue ahead.
/// Returns the score of that place and the inputs that lead there.
#[verifier::rlimit(60)]
pub fn get_best_score_position(
    tetrimino: Tetrimino,
    stocked_tetrimino: TetriminoType,
    pending_tetriminos: Vec<TetriminoType>,
    matrix: &Matrix,
    deep: usize,
) -> (r: (i32, Vec<Input>))
    requires
        tetrimino.wf(),
        stocked_tetrimino != TetriminoType::Empty,
        real_types(pending_tetriminos@),
        deep <= 20000,
    ensures
        is_choice(
            grid_view(*matrix),
            tetrimino@,
            stocked_tetrimino,
            pending_tetriminos@,
            deep as nat,
            r.0 as int,
            r.1@,
        ),
        -1344 <= r.0 <= 102300 * deep,
    decreases deep,
{
    let ghost g = grid_view(*matrix);
    let ghost p = tetrimino@;
    let ghost held = spawn_placement(stocked_tetrimino);
    let ghost pending = pending_tetriminos@;
    let mut hashmap: Vec<Reached> = Vec::new();
    assert(table_view(hashmap@) =~= Seq::empty());
    find_all_possible_positions(&mut hashmap, matrix, &tetrimino, Vec::new());
    let ghost first = table_view(hashmap@);
    let first_len = hashmap.len();
    let held_piece = Tetrimino::new(stocked_tetrimino);
    let mut stock_inputs: Vec<Input> = Vec::new();
    stock_inputs.push(Input::StockTetrimino);
    assert(stock_inputs@ =~= seq![Input::StockTetrimino]);
    find_all_possible_positions(&mut hashmap, matrix, &held_piece, stock_inputs);
    let ghost table = table_view(hashmap@);
    proof {
        lemma_closed_extends(first, table, g, 0);
        assert(closed_from(table, g, 0));
        assert(table_sound(table, g, p, stocked_tetrimino, first_len as int)) by {
            assert forall|j: int| 0 <= j < table.len() implies if j < first_len {
                entry_sound(#[trigger] table[j], g, p, Seq::empty())
            } else {
                entry_sound(table[j], g, held, seq![Input::StockTetrimino])
            } by {
                if j < first_len {
                    assert(table[j] == first[j]);
                }
            }
        }
        lemma_some_lock(table, g, p);
    }
    let last = deep == 0 || pending_tetriminos.len() == 0;
    let mut rest = pending_tetriminos;
    let mut next_type = TetriminoType::I;
    if !last {
        next_type = rest.pop().unwrap();
        assert(next_type == pending.last());
        assert(rest@ =~= pending.drop_last());
    }
    let mut found = false;
    let mut best: usize = 0;
    let mut best_value: i32 = 0;
    let mut best_score: i32 = 0;
    let ghost mut values: Seq<int> = Seq::empty();
    let mut i: usize = 0;
    while i < hashmap.len()
        invariant
            i <= table.len(),
            table == table_view(hashmap@),
            g == grid_view(*matrix),
            p == tetrimino@,
            p.wf(),
            stocked_tetrimino != TetriminoType::Empty,
            real_types(pending),
            deep <= 20000,
            last == last_level(pending, deep as nat),
            !last ==> next_type == pending.last() && rest@ == pending.drop_last(),
            table_sound(table, g, p, stocked_tetrimino, first_len as int),
            forall|j: int| 0 <= j < table.len() ==> (#[trigger] table[j]).piece.wf(),
            values.len() == i,
            values_known(
                table,
                values,
                g,
                p,
                stocked_tetrimino,
                pending,
                deep as nat,
                i as int,
                best_value as int,
            ),
            forall|j: int| 0 <= j < i && (#[trigger] table[j]).placed ==> found,
            found ==> best < i && table[best as int].placed && best_value == values[best as int],
            found ==> best_score == if last {
                best_value - line_bonus(lines_of(g, table[best as int].piece))
            } else {
                best_value as int
            },
            found ==> -1344 <= best_score <= 102300 * deep,
            found ==> -1344 <= best_value <= 102300 * (deep + 1),
        decreases table.len() - i,
    {
        let ghost old_values = values;
        let ghost old_best_value = best_value as int;
        let mut value_here: i32 = 0;
        if hashmap[i].placed {
            assert(table[i as int].piece.wf());
            let (placed_matrix, lines) = place_and_count(&hashmap[i].tetrimino, matrix);
            let malus = bonus_for(lines);
            let ghost q = table[i as int].piece;
            let score_here: i32;
            if last {
                proof {
                    lemma_matrix_score_bound(grid_after(g, q));
                    lemma_lock_value_last(g, p, stocked_tetrimino, pending, deep as nat, q);
                }
                let score = score_matrix(&placed_matrix);
                value_here = score + malus;
                score_here = score;
            } else {
                proof {
                    lemma_entry(table, g, p, stocked_tetrimino, first_len as int, i as int);
                }
                let stocked_after = if starts_with_hold(&hashmap[i].inputs) {
                    tetrimino.ttype()
                } else {
                    stocked_tetrimino
                };
                let queue = rest.clone();
                assert(queue@ =~= pending.drop_last());
                let sub = get_best_score_position(
                    Tetrimino::new(next_type),
                    stocked_after,
                    queue,
                    &placed_matrix,
                    deep - 1,
                );
                value_here = sub.0 + malus;
                score_here = value_here;
                proof {
                    lemma_lock_value_next(
                        g,
                        p,
                        stocked_tetrimino,
                        pending,
                        deep as nat,
                        q,
                        sub.0 as int,
                        sub.1@,
                    );
                }
                assert(lock_value(
                    g,
                    p,
                    stocked_tetrimino,
                    pending,
                    deep as nat,
                    q,
                    value_here as int,
                ));
            }
            if !found || value_here > best_value {
                found = true;
                best = i;
                best_value = value_here;
                best_score = score_here;
            }
        }
        proof {
            values = values.push(value_here as int);
            assert forall|j: int| 0 <= j < i + 1 && (#[trigger] table[j]).placed implies lock_value(
                g,
                p,
                stocked_tetrimino,
                pending,
                deep as nat,
                table[j].piece,
                values[j],
            ) && values[j] <= best_value by {
                if j < i {
                    assert(values[j] == old_values[j]);
                    assert(old_values[j] <= old_best_value);
                }
            }
        }
        i += 1;
    }
    proof {
        let j = choose|j: int| 0 <= j < table.len() && (#[trigger] table[j]).placed;
        assert(found);
        lemma_closed_extends(first, table, g, 0);
        lemma_entry(table, g, p, stocked_tetrimino, first_len as int, best as int);
        let value = best_value as int;
        assert forall|y: Placement| #[trigger]
            lock_reachable(g, p, stocked_tetrimino, y) implies exists|v: int|
            #[trigger] considered(v) && lock_value(
                g,
                p,
                stocked_tetrimino,
                pending,
                deep as nat,
                y,
                v,
            ) && v <= value by {
            lemma_nothing_better(
                table,
                values,
                g,
                p,
                stocked_tetrimino,
                pending,
                deep as nat,
                value,
                y,
            );
        }
        lemma_choice(
            g,
            p,
            stocked_tetrimino,
            pending,
            deep as nat,
            best_score as int,
            table[best as int].inputs,
            table[best as int].piece,
            value,
        );
    }
    let inputs = hashmap[best].inputs.clone();
    assert(inputs@ =~= table[best as int].inputs);
    (best_score, inputs)
}

} // verus!
