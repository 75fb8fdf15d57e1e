//! The heuristic auto-player: board features, the placement score, and the exhaustive
//! search over hold, rotation and horizontal offset.

use crate::block::block_kind::NONE;
use crate::game::{
    collides, drop_row, field_grid, fix_block, full_rows, hard_drop, hold, hold_step, move_block,
    place, rot_cw, rotate_right, rotation_target, row_full, Field, Game, GameView, Grid,
    Position, FIELD_HEIGHT, LEFT_COL, RIGHT_END, SCAN_END,
};
use vstd::prelude::*;

verus! {

/// The number of playable columns.
pub const PLAY_WIDTH: usize = RIGHT_END - LEFT_COL;

/// Some playable cell of the row is occupied.
pub open spec fn row_occupied(r: Seq<usize>) -> bool {
    exists|x: int| LEFT_COL <= x < RIGHT_END && #[trigger] r[x] != NONE
}

/// The first row at or below `y` (up to the floor) with an occupied playable cell, or
/// `SCAN_END` where there is none.
pub open spec fn top_row(g: Grid, y: int) -> int
    decreases SCAN_END - y,
{
    if y >= SCAN_END {
        SCAN_END as int
    } else if row_occupied(g[y]) {
        y
    } else {
        top_row(g, y + 1)
    }
}

/// The height above the floor of a row.
pub open spec fn height_of_row(y: int) -> int {
    SCAN_END - y
}

/// The height of the topmost occupied cell, 0 for an empty board.
pub open spec fn height_max(g: Grid) -> int {
    let t = top_row(g, 0);
    if t < SCAN_END {
        height_of_row(t)
    } else {
        0
    }
}

/// The first row at or below `y` where column `x` is occupied, or `SCAN_END`.
pub open spec fn col_top(g: Grid, x: int, y: int) -> int
    decreases SCAN_END - y,
{
    if y >= SCAN_END {
        SCAN_END as int
    } else if g[y][x] != NONE {
        y
    } else {
        col_top(g, x, y + 1)
    }
}

/// The height of column `x`: that of its topmost occupied cell, 0 if it is empty.
pub open spec fn col_height(g: Grid, x: int) -> int {
    let t = col_top(g, x, 0);
    if t < SCAN_END {
        height_of_row(t)
    } else {
        0
    }
}

pub open spec fn abs(v: int) -> int {
    if v < 0 {
        -v
    } else {
        v
    }
}

/// The sum of the height differences of the first `n` pairs of neighbouring columns.
pub open spec fn bumpiness(g: Grid, n: int) -> int
    decreases n,
{
    if n <= 0 {
        0
    } else {
        bumpiness(g, n - 1) + abs(col_height(g, LEFT_COL + n - 1) - col_height(g, LEFT_COL + n))
    }
}

/// The bumpiness of the whole playable width.
pub open spec fn height_diff(g: Grid) -> int {
    bumpiness(g, PLAY_WIDTH - 1)
}

/// Some cell of column `x` above row `y` is occupied.
pub open spec fn blocked_above(g: Grid, y: int, x: int) -> bool {
    exists|y2: int| 0 <= y2 < y && #[trigger] g[y2][x] != NONE
}

/// Cell `(y, x)` is empty under an occupied cell: a hole.
pub open spec fn is_hole(g: Grid, y: int, x: int) -> bool {
    g[y][x] == NONE && blocked_above(g, y, x)
}

/// The holes of row `y` among the columns `LEFT_COL..xe`.
pub open spec fn holes_in_row(g: Grid, y: int, xe: int) -> int
    decreases xe - LEFT_COL,
{
    if xe <= LEFT_COL {
        0
    } else {
        holes_in_row(g, y, xe - 1) + if is_hole(g, y, xe - 1) {
            1int
        } else {
            0
        }
    }
}

/// The holes of the rows `y..SCAN_END`.
pub open spec fn holes_from(g: Grid, y: int) -> int
    decreases SCAN_END - y,
{
    if y >= SCAN_END {
        0
    } else {
        holes_in_row(g, y, RIGHT_END as int) + holes_from(g, y + 1)
    }
}

/// The holes of the board.
pub open spec fn dead_space(g: Grid) -> int {
    holes_from(g, 0)
}

/// The number of playable rows that are full.
pub fn erase_line_count(field: &Field) -> (count: usize)
    ensures
        count == full_rows(field_grid(*field), SCAN_END as int),
        count <= SCAN_END,
{
    let ghost g = field_grid(*field);
    let mut count: usize = 0;
    let mut y: usize = 0;
    while y < SCAN_END
        invariant
            y <= SCAN_END,
            g == field_grid(*field),
            count == full_rows(g, y as int),
            count <= y,
        decreases SCAN_END - y,
    {
        let mut can_erase = true;
        let mut x: usize = LEFT_COL;
        while x < RIGHT_END
            invariant_except_break
                can_erase,
            invariant
                LEFT_COL <= x <= RIGHT_END,
                y < SCAN_END,
                forall|xx: int| LEFT_COL <= xx < x ==> #[trigger] field[y as int][xx] != NONE,
            ensures
                can_erase == row_full(field[y as int]@),
            decreases RIGHT_END - x,
        {
            if field[y][x] == NONE {
                can_erase = false;
                break;
            }
            x = x + 1;
        }
        assert(g[y as int] == field[y as int]@);
        if can_erase {
            count = count + 1;
        }
        y = y + 1;
    }
    count
}

/// The height of the topmost occupied cell, 0 for an empty board.
pub fn field_height_max(field: &Field) -> (h: usize)
    ensures
        h == height_max(field_grid(*field)),
        h < FIELD_HEIGHT,
{
    let ghost g = field_grid(*field);
    let mut y: usize = 0;
    while y < SCAN_END
        invariant
            y <= SCAN_END,
            g == field_grid(*field),
            top_row(g, 0) == top_row(g, y as int),
        decreases SCAN_END - y,
    {
        let mut x: usize = LEFT_COL;
        while x < RIGHT_END
            invariant
                LEFT_COL <= x <= RIGHT_END,
                y < SCAN_END,
                g == field_grid(*field),
                top_row(g, 0) == top_row(g, y as int),
                forall|xx: int| LEFT_COL <= xx < x ==> #[trigger] field[y as int][xx] == NONE,
            decreases RIGHT_END - x,
        {
            if field[y][x] != NONE {
                assert(g[y as int][x as int] != NONE);
                return SCAN_END - y;
            }
            x = x + 1;
        }
        assert(!row_occupied(g[y as int]));
        y = y + 1;
    }
    0
}

/// The heights of the playable columns, left to right.
fn column_heights(field: &Field) -> (top: [usize; 11])
    ensures
        forall|i: int| 0 <= i < PLAY_WIDTH ==> #[trigger] top[i] == col_height(field_grid(*field), LEFT_COL + i),
        forall|i: int| 0 <= i < PLAY_WIDTH ==> #[trigger] top[i] < FIELD_HEIGHT,
{
    let ghost g = field_grid(*field);
    let mut top: [usize; 11] = [0; 11];
    let mut x: usize = LEFT_COL;
    while x < RIGHT_END
        invariant
            LEFT_COL <= x <= RIGHT_END,
            g == field_grid(*field),
            forall|i: int| 0 <= i < x - LEFT_COL ==> #[trigger] top[i] == col_height(g, LEFT_COL + i),
            forall|i: int| x - LEFT_COL <= i < PLAY_WIDTH ==> #[trigger] top[i] == 0,
            forall|i: int| 0 <= i < PLAY_WIDTH ==> #[trigger] top[i] < FIELD_HEIGHT,
        decreases RIGHT_END - x,
    {
        let ghost before = top;
        let mut y: usize = 0;
        while y < SCAN_END
            invariant_except_break
                top == before,
            invariant
                forall|i: int| x - LEFT_COL <= i < PLAY_WIDTH ==> #[trigger] before[i] == 0,
                y <= SCAN_END,
                LEFT_COL <= x < RIGHT_END,
                g == field_grid(*field),
                col_top(g, x as int, 0) == col_top(g, x as int, y as int),
                forall|i: int| 0 <= i < PLAY_WIDTH && i != x - LEFT_COL ==> #[trigger] top[i] == before[i],
                forall|i: int| 0 <= i < PLAY_WIDTH ==> #[trigger] top[i] < FIELD_HEIGHT,
            ensures
                top[x - LEFT_COL] == col_height(g, x as int),
            decreases SCAN_END - y,
        {
            if field[y][x] != NONE {
                assert(g[y as int][x as int] != NONE);
                top[x - LEFT_COL] = SCAN_END - y;
                break;
            }
            y = y + 1;
        }
        x = x + 1;
    }
    top
}

/// The sum, over neighbouring playable columns, of their height difference.
pub fn diff_in_height(field: &Field) -> (diff: usize)
    ensures
        diff == height_diff(field_grid(*field)),
        diff <= FIELD_HEIGHT * (PLAY_WIDTH - 1),
{
    let ghost g = field_grid(*field);
    let top = column_heights(field);
    let mut diff: usize = 0;
    let mut i: usize = 0;
    while i < PLAY_WIDTH - 1
        invariant
            i <= PLAY_WIDTH - 1,
            g == field_grid(*field),
            diff == bumpiness(g, i as int),
            diff <= FIELD_HEIGHT * i,
            forall|j: int| 0 <= j < PLAY_WIDTH ==> #[trigger] top[j] == col_height(g, LEFT_COL + j),
            forall|j: int| 0 <= j < PLAY_WIDTH ==> #[trigger] top[j] < FIELD_HEIGHT,
        decreases PLAY_WIDTH - 1 - i,
    {
        let a = top[i];
        let b = top[i + 1];
        if a > b {
            diff = diff + (a - b);
        } else {
            diff = diff + (b - a);
        }
        i = i + 1;
    }
    diff
}

/// The number of holes: empty playable cells with an occupied cell above them in the
/// same column.
pub fn dead_space_count(field: &Field) -> (count: usize)
    ensures
        count == dead_space(field_grid(*field)),
        count <= 11 * 20,
{
    let ghost g = field_grid(*field);
    assert(PLAY_WIDTH == 11);
    let mut count: usize = 0;
    let mut y: usize = SCAN_END;
    while y > 0
        invariant
            y <= SCAN_END,
            g == field_grid(*field),
            count == holes_from(g, y as int),
            count <= 11 * (20 - y),
        decreases y,
    {
        y = y - 1;
        let mut x: usize = LEFT_COL;
        while x < RIGHT_END
            invariant
                LEFT_COL <= x <= RIGHT_END,
                y < SCAN_END,
                g == field_grid(*field),
                count == holes_from(g, y + 1) + holes_in_row(g, y as int, x as int),
                count <= 11 * (19 - y) + (x - LEFT_COL),
            decreases RIGHT_END - x,
        {
            // the lowest empty cells of each column
            if field[y][x] == NONE {
                let mut y2: usize = y;
                let mut found = false;
                while y2 > 0
                    invariant_except_break
                        !found,
                        forall|yy: int| y2 <= yy < y ==> #[trigger] g[yy][x as int] == NONE,
                    invariant
                        count == holes_from(g, y + 1) + holes_in_row(g, y as int, x as int),
                        count <= 11 * (19 - y) + (x - LEFT_COL),
                        y2 <= y,
                        y < SCAN_END,
                        LEFT_COL <= x < RIGHT_END,
                        g == field_grid(*field),
                    ensures
                        found == blocked_above(g, y as int, x as int),
                    decreases y2,
                {
                    y2 = y2 - 1;
                    // an occupied cell above makes it a hole
                    if field[y2][x] != NONE {
                        assert(g[y2 as int][x as int] != NONE);
                        found = true;
                        break;
                    }
                }
                if found {
                    count = count + 1;
                }
            }
            assert(holes_in_row(g, y as int, x + 1) == holes_in_row(g, y as int, x as int) + if is_hole(g, y as int, x as int) {
                1int
            } else {
                0
            });
            assert(g[y as int][x as int] == field[y as int][x as int]);
            x = x + 1;
        }
        assert(holes_from(g, y as int) == holes_in_row(g, y as int, RIGHT_END as int) + holes_from(g, y + 1));
    }
    count
}

/// The placement score of a board, scaled by 20 so that it is an integer. Unscaled it is
/// `100 * lines / 4 + 1 * (1 - height_max / 20) + 10 * (1 - height_diff / 200)
/// + 100 * (1 - dead_space / 200)`.
pub open spec fn heuristic(g: Grid) -> int {
    500 * full_rows(g, SCAN_END as int) - height_max(g) - height_diff(g) - 10 * dead_space(g) + 2220
}

/// The placement score of a board, scaled by 20: see `heuristic`.
pub fn board_score(field: &Field) -> (score: i64)
    ensures
        score == heuristic(field_grid(*field)),
{
    let line = erase_line_count(field);
    let height_max = field_height_max(field);
    let height_diff = diff_in_height(field);
    let dead_space = dead_space_count(field);
    500 * (line as i64) - (height_max as i64) - (height_diff as i64) - 10 * (dead_space as i64) + 2220
}

/// The position and mask after `n` clockwise rotations, each with its wall kicks.
pub open spec fn turn_n(f: Grid, p: Position, s: Grid, n: nat) -> (Position, Grid)
    decreases n,
{
    if n == 0 {
        (p, s)
    } else {
        let (p1, s1) = turn_n(f, p, s, (n - 1) as nat);
        let r = rot_cw(s1);
        match rotation_target(f, p1, r) {
            Some(q) => (q, r),
            None => (p1, s1),
        }
    }
}

/// Column `x` moved by `dx`, stopping at 0 (and left as it is where it would overflow).
pub open spec fn shifted_x(x: usize, dx: int) -> usize {
    if x + dx <= 0 {
        0
    } else if x + dx > usize::MAX {
        x
    } else {
        (x + dx) as usize
    }
}

/// Where the piece `s` at `p` rests after trying to move `dx` columns and dropping.
pub open spec fn drop_at(f: Grid, p: Position, s: Grid, dx: int) -> Position {
    let t = Position { x: shifted_x(p.x, dx), y: p.y };
    let p2 = if collides(f, t, s) {
        p
    } else {
        t
    };
    Position { x: p2.x, y: drop_row(f, p2, s) }
}

/// The board, position and mask of the candidate that turns `b`'s piece `rot` times,
/// moves it by `dx` and drops and locks it (without clearing rows).
pub open spec fn candidate(b: GameView, rot: nat, dx: int) -> (Grid, Position, Grid) {
    let (p1, s1) = turn_n(b.grid(), b.pos, b.shape(), rot);
    let p3 = drop_at(b.grid(), p1, s1, dx);
    (place(b.grid(), p3, s1), p3, s1)
}

/// `r` is the state of that candidate: `b` with the new board, position and mask.
pub open spec fn is_candidate(b: GameView, rot: nat, dx: int, r: GameView) -> bool {
    let c = candidate(b, rot, dx);
    &&& r == (GameView { field: r.field, pos: c.1, block: r.block, ..b })
    &&& r.grid() == c.0
    &&& r.shape() == c.2
}

/// The number of candidates: 2 hold choices, 4 rotations, 10 offsets.
pub const CANDIDATES: usize = 80;

/// The state candidate `k` starts from: the held state `h` for the first 40, else `g`.
pub open spec fn base_of(g: GameView, h: GameView, k: int) -> GameView {
    if k < 40 {
        h
    } else {
        g
    }
}

/// The rotation count of candidate `k`.
pub open spec fn rot_of(k: int) -> nat {
    ((k % 40) / 10) as nat
}

/// The column offset of candidate `k`, from -4 through 5.
pub open spec fn dx_of(k: int) -> int {
    k % 10 - 4
}

/// The score of candidate `k`.
pub open spec fn candidate_score(g: GameView, h: GameView, k: int) -> int {
    heuristic(candidate(base_of(g, h, k), rot_of(k), dx_of(k)).0)
}

/// The best of the first `n` candidates and its score: a candidate replaces the running
/// best only when its score is strictly greater, and the running best starts as no
/// candidate (-1) with score 0.
pub open spec fn best(g: GameView, h: GameView, n: int) -> (int, int)
    decreases n,
{
    if n <= 0 {
        (-1, 0)
    } else {
        let prev = best(g, h, n - 1);
        let sc = candidate_score(g, h, n - 1);
        if prev.1 < sc {
            (n - 1, sc)
        } else {
            prev
        }
    }
}

/// `r` is the outcome of the search from `g`, where holding gives `h`: the best
/// candidate, or `g` itself where no candidate scores above 0.
pub open spec fn search_result(g: GameView, h: GameView, r: GameView) -> bool {
    let k = best(g, h, CANDIDATES as int).0;
    if k < 0 {
        r == g
    } else {
        is_candidate(base_of(g, h, k), rot_of(k), dx_of(k), r)
    }
}

/// What the running best of the search holds after `n` candidates.
pub open spec fn elite_inv(g: GameView, h: GameView, n: int, k: int, score: int, e: GameView) -> bool {
    &&& best(g, h, n) == (k, score)
    &&& k < 0 ==> e == g
    &&& k >= 0 ==> is_candidate(base_of(g, h, k), rot_of(k), dx_of(k), e)
}

proof fn lemma_index(i: int, rot: int, dx: int)
    requires
        0 <= i < 2,
        0 <= rot < 4,
        -4 <= dx <= 5,
    ensures
        rot_of(40 * i + 10 * rot + dx + 4) == rot,
        dx_of(40 * i + 10 * rot + dx + 4) == dx,
        (40 * i + 10 * rot + dx + 4 < 40) == (i == 0),
{
    let k = 40 * i + 10 * rot + dx + 4;
    assert(k % 40 == 10 * rot + dx + 4) by (nonlinear_arith)
        requires
            k == 40 * i + 10 * rot + dx + 4,
            0 <= i < 2,
            0 <= 10 * rot + dx + 4 < 40,
    ;
    assert(k % 10 == dx + 4) by (nonlinear_arith)
        requires
            k == 40 * i + 10 * rot + dx + 4,
            0 <= dx + 4 < 10,
    ;
    assert((k % 40) / 10 == rot) by (nonlinear_arith)
        requires
            k % 40 == 10 * rot + dx + 4,
            0 <= dx + 4 < 10,
    ;
}

/// Column `x` moved by `dx`, stopping at 0.
pub(crate) fn shift_x(x: usize, dx: i64) -> (r: usize)
    requires
        -4 <= dx <= 5,
    ensures
        r == shifted_x(x, dx as int),
{
    if dx < 0 {
        let d = (-dx) as usize;
        if x <= d {
            0
        } else {
            x - d
        }
    } else {
        let d = dx as usize;
        if x > usize::MAX - d {
            x
        } else {
            x + d
        }
    }
}

/// The placement search: tries every hold choice (hold first), every rotation count
/// 0 to 3 and every column offset -4 to 5 in that order, drops and locks each candidate
/// on a copy, and returns the copy whose board scores strictly highest, the earliest on
/// ties; the state itself where none scores above 0. `game` is not changed.
pub fn eval(game: &Game) -> (r: Game)
    requires
        game@.next.len() > 0,
    ensures
        exists|h: GameView| #[trigger] hold_step(game@, h) && search_result(game@, h, r@),
{
    let ghost g = game@;
    let mut elite = game.snapshot();
    let mut elite_score: i64 = 0;
    let ghost mut elite_k: int = -1;
    let mut held = game.snapshot();
    hold(&mut held);
    let ghost h = held@;
    let mut hold_i: usize = 0;
    while hold_i < 2
        invariant
            hold_i <= 2,
            g == game@,
            h == held@,
            hold_step(g, h),
            elite_inv(g, h, 40 * hold_i, elite_k, elite_score as int, elite@),
        decreases 2 - hold_i,
    {
        let base = if hold_i == 0 {
            held.snapshot()
        } else {
            game.snapshot()
        };
        let ghost b = base@;
        assert(b == base_of(g, h, 40 * hold_i as int));
        let mut rot: usize = 0;
        while rot < 4
            invariant
                hold_i < 2,
                rot <= 4,
                g == game@,
                h == held@,
                hold_step(g, h),
                b == base@,
                b == base_of(g, h, 40 * hold_i as int),
                elite_inv(g, h, 40 * hold_i + 10 * rot, elite_k, elite_score as int, elite@),
            decreases 4 - rot,
        {
            let mut rg = base.snapshot();
            let mut j: usize = 0;
            while j < rot
                invariant
                    j <= rot,
                    b == base@,
                    rg@ == (GameView { pos: turn_n(b.grid(), b.pos, b.shape(), j as nat).0, block: rg.block, ..b }),
                    rg@.shape() == turn_n(b.grid(), b.pos, b.shape(), j as nat).1,
                decreases rot - j,
            {
                rotate_right(&mut rg);
                j = j + 1;
            }
            let mut dx: i64 = -4;
            while dx <= 5
                invariant
                    -4 <= dx <= 6,
                    hold_i < 2,
                    rot < 4,
                    g == game@,
                    h == held@,
                    hold_step(g, h),
                    b == base@,
                    b == base_of(g, h, 40 * hold_i as int),
                    rg@ == (GameView { pos: turn_n(b.grid(), b.pos, b.shape(), rot as nat).0, block: rg.block, ..b }),
                    rg@.shape() == turn_n(b.grid(), b.pos, b.shape(), rot as nat).1,
                    elite_inv(g, h, 40 * hold_i + 10 * rot + dx + 4, elite_k, elite_score as int, elite@),
                decreases 6 - dx,
            {
                let ghost k = 40 * hold_i + 10 * rot + dx + 4;
                proof {
                    lemma_index(hold_i as int, rot as int, dx as int);
                }
                let mut c = rg.snapshot();
                let new_pos = Position { x: shift_x(c.pos.x, dx), y: c.pos.y };
                move_block(&mut c, new_pos);
                hard_drop(&mut c);
                fix_block(&mut c);
                assert(is_candidate(base_of(g, h, k), rot_of(k), dx_of(k), c@));
                let score = board_score(&c.field);
                if elite_score < score {
                    elite = c;
                    elite_score = score;
                    proof {
                        elite_k = k;
                    }
                }
                dx = dx + 1;
            }
            rot = rot + 1;
        }
        hold_i = hold_i + 1;
    }
    elite
}

} // verus!
