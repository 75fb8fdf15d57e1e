//! The board, the game state and its mutators: collision, movement, rotation with
//! wall kicks, hold, drop, lock, line clear and scoring.

use std::collections::VecDeque;

use crate::block::block_kind::{GHOST, NONE, WALL};
use crate::block::{block_shape, gen_block_7, is_bag, shape_grid, BlockColor, BlockKind, BlockShape};
use vstd::prelude::*;

verus! {

/// Columns: 11 playable, 2 walls, 2 sentinels.
pub const FIELD_WIDTH: usize = 15;

/// Rows: 20 playable, 1 floor, 1 sentinel.
pub const FIELD_HEIGHT: usize = 22;

/// The number of shapes shown ahead of the active one.
pub const NEXT_LENGTH: usize = 3;

pub type Field = [[BlockColor; FIELD_WIDTH]; FIELD_HEIGHT];

/// Rows of cells, the mathematical form of a board or a shape.
pub type Grid = Seq<Seq<usize>>;

/// The top-left corner of a piece's 4x4 box on the board.
#[derive(Debug, Clone, Copy, PartialEq, Eq, Structural)]
pub struct Position {
    pub x: usize,
    pub y: usize,
}

pub open spec fn spawn_pos() -> Position {
    Position { x: 5, y: 0 }
}

impl Position {
    /// The spawn position.
    pub fn init() -> (p: Self)
        ensures
            p == spawn_pos(),
    {
        Position { x: 5, y: 0 }
    }
}

/// The rows of a board.
pub open spec fn field_grid(f: Field) -> Grid {
    Seq::new(FIELD_HEIGHT as nat, |y: int| f[y]@)
}

/// Shape cell `(y, x)` is set and lands on an occupied board cell.
pub open spec fn cell_hits(f: Grid, p: Position, s: Grid, y: int, x: int) -> bool {
    &&& y + p.y < FIELD_HEIGHT
    &&& x + p.x < FIELD_WIDTH
    &&& s[y][x] != NONE
    &&& f[y + p.y][x + p.x] != NONE
}

/// Placing shape `s` at `p` overlaps an occupied cell; shape cells off the board are ignored.
pub open spec fn collides(f: Grid, p: Position, s: Grid) -> bool {
    exists|y: int, x: int| 0 <= y < 4 && 0 <= x < 4 && #[trigger] cell_hits(f, p, s, y, x)
}

/// Board cell `(y, x)` lies under a set cell of shape `s` placed at `p`.
pub open spec fn covers(p: Position, s: Grid, y: int, x: int) -> bool {
    &&& p.y <= y < p.y + 4
    &&& p.x <= x < p.x + 4
    &&& s[y - p.y][x - p.x] != NONE
}

/// The board with shape `s` merged in at `p`: covered cells take the shape's colour,
/// every other cell keeps its value.
pub open spec fn place(f: Grid, p: Position, s: Grid) -> Grid {
    Seq::new(
        f.len(),
        |y: int|
            Seq::new(
                f[y].len(),
                |x: int|
                    if covers(p, s, y, x) {
                        s[y - p.y][x - p.x]
                    } else {
                        f[y][x]
                    },
            ),
    )
}

/// The row where a piece stops when it falls from `p`: it descends while the next row
/// down is free, and at most to row `FIELD_HEIGHT`, below which it covers no cell.
pub open spec fn drop_row(f: Grid, p: Position, s: Grid) -> usize
    decreases FIELD_HEIGHT - p.y,
{
    if p.y >= FIELD_HEIGHT || collides(f, Position { x: p.x, y: (p.y + 1) as usize }, s) {
        p.y
    } else {
        drop_row(f, Position { x: p.x, y: (p.y + 1) as usize }, s)
    }
}

/// A 4x4 mask: four rows of four cells.
pub open spec fn wf_shape(s: Grid) -> bool {
    &&& s.len() == 4
    &&& forall|y: int| 0 <= y < 4 ==> #[trigger] s[y].len() == 4
}

/// Collision test of shape `block` at `pos` against the board.
pub fn is_collision(field: &Field, pos: &Position, block: &BlockShape) -> (r: bool)
    ensures
        r == collides(field_grid(*field), *pos, shape_grid(*block)),
{
    let ghost f = field_grid(*field);
    let ghost s = shape_grid(*block);
    let mut y: usize = 0;
    while y < 4
        invariant
            y <= 4,
            f == field_grid(*field),
            s == shape_grid(*block),
            forall|yy: int, xx: int| 0 <= yy < y && 0 <= xx < 4 ==> !#[trigger] cell_hits(f, *pos, s, yy, xx),
        decreases 4 - y,
    {
        let mut x: usize = 0;
        while x < 4
            invariant
                y < 4,
                x <= 4,
                f == field_grid(*field),
                s == shape_grid(*block),
                forall|yy: int, xx: int| 0 <= yy < y && 0 <= xx < 4 ==> !#[trigger] cell_hits(f, *pos, s, yy, xx),
                forall|xx: int| 0 <= xx < x ==> !#[trigger] cell_hits(f, *pos, s, y as int, xx),
            decreases 4 - x,
        {
            // cells of the shape that fall off the board are ignored
            if pos.y < FIELD_HEIGHT - y && pos.x < FIELD_WIDTH - x {
                if block[y][x] != NONE && field[y + pos.y][x + pos.x] != NONE {
                    assert(cell_hits(f, *pos, s, y as int, x as int));
                    return true;
                }
            }
            x = x + 1;
        }
        y = y + 1;
    }
    false
}

/// The whole state of one game session.
pub struct Game {
    /// The board: fixed cells, walls and floor.
    pub field: Field,
    /// Where the active piece stands.
    pub pos: Position,
    /// The active piece, in its current orientation.
    pub block: BlockShape,
    /// The held piece, if any.
    pub hold: Option<BlockShape>,
    /// Whether hold was used since the last lock.
    pub holded: bool,
    /// The shapes that come next, head first.
    pub next: VecDeque<BlockShape>,
    /// What is left of the current bag.
    pub next_buf: VecDeque<BlockShape>,
    pub score: usize,
    /// Rows cleared so far.
    pub line: usize,
}

/// A game state with its queues as sequences.
pub struct GameView {
    pub field: Field,
    pub pos: Position,
    pub block: BlockShape,
    pub hold: Option<BlockShape>,
    pub holded: bool,
    pub next: Seq<BlockShape>,
    pub next_buf: Seq<BlockShape>,
    pub score: usize,
    pub line: usize,
}

impl View for Game {
    type V = GameView;

    open spec fn view(&self) -> GameView {
        GameView {
            field: self.field,
            pos: self.pos,
            block: self.block,
            hold: self.hold,
            holded: self.holded,
            next: self.next@,
            next_buf: self.next_buf@,
            score: self.score,
            line: self.line,
        }
    }
}

impl GameView {
    /// The queue holds exactly `NEXT_LENGTH` shapes and the bag is not full.
    pub open spec fn wf(self) -> bool {
        &&& self.next.len() == NEXT_LENGTH
        &&& self.next_buf.len() < 7
    }

    pub open spec fn grid(self) -> Grid {
        field_grid(self.field)
    }

    pub open spec fn shape(self) -> Grid {
        shape_grid(self.block)
    }
}

/// A copy of a queue.
fn copy_queue(q: &VecDeque<BlockShape>) -> (r: VecDeque<BlockShape>)
    ensures
        r@ == q@,
{
    let mut r: VecDeque<BlockShape> = VecDeque::new();
    let mut i: usize = 0;
    while i < q.len()
        invariant
            i <= q@.len(),
            r@ == q@.subrange(0, i as int),
        decreases q@.len() - i,
    {
        r.push_back(q[i]);
        i = i + 1;
        assert(r@ =~= q@.subrange(0, i as int));
    }
    assert(r@ =~= q@);
    r
}

impl Game {
    /// A copy of the whole state, for a caller to read or to try moves on.
    pub fn snapshot(&self) -> (g: Game)
        ensures
            g@ == self@,
    {
        Game {
            field: self.field,
            pos: self.pos,
            block: self.block,
            hold: self.hold,
            holded: self.holded,
            next: copy_queue(&self.next),
            next_buf: copy_queue(&self.next_buf),
            score: self.score,
            line: self.line,
        }
    }
}

/// Moves the active piece to `new_pos` if it fits there; otherwise nothing changes.
pub fn move_block(game: &mut Game, new_pos: Position)
    ensures
        collides(old(game)@.grid(), new_pos, old(game)@.shape()) ==> final(game)@ == old(game)@,
        !collides(old(game)@.grid(), new_pos, old(game)@.shape()) ==> final(game)@ == (GameView { pos: new_pos, ..old(game)@ }),
{
    if !is_collision(&game.field, &new_pos, &game.block) {
        game.pos = new_pos;
    }
}

/// Merges the active piece into the board at its position. Only the cells under the
/// piece's set mask cells change; mask cells that fall off the board are skipped.
pub fn fix_block(game: &mut Game)
    ensures
        final(game)@ == (GameView { field: final(game).field, ..old(game)@ }),
        final(game)@.grid() == place(old(game)@.grid(), old(game).pos, old(game)@.shape()),
{
    let pos = game.pos;
    let block = game.block;
    paint(&mut game.field, pos, &block);
}

/// Writes the set cells of `block` at `pos` into the board, skipping those off the board.
pub(crate) fn paint(field: &mut Field, pos: Position, block: &BlockShape)
    ensures
        field_grid(*final(field)) == place(field_grid(*old(field)), pos, shape_grid(*block)),
{
    let ghost f0 = field_grid(*old(field));
    let ghost s = shape_grid(*block);
    let mut y: usize = 0;
    while y < 4
        invariant
            y <= 4,
            f0 == field_grid(*old(field)),
            s == shape_grid(*block),
            forall|a: int, b: int| 0 <= a < FIELD_HEIGHT && 0 <= b < FIELD_WIDTH ==>
                #[trigger] field[a][b] == if covers(pos, s, a, b) && a < pos.y + y {
                    s[a - pos.y][b - pos.x]
                } else {
                    f0[a][b]
                },
        decreases 4 - y,
    {
        let mut x: usize = 0;
        while x < 4
            invariant
                y < 4,
                x <= 4,
                f0 == field_grid(*old(field)),
                s == shape_grid(*block),
                forall|a: int, b: int| 0 <= a < FIELD_HEIGHT && 0 <= b < FIELD_WIDTH ==>
                    #[trigger] field[a][b] == if covers(pos, s, a, b) && (a < pos.y + y || (
                    a == pos.y + y && b < pos.x + x)) {
                        s[a - pos.y][b - pos.x]
                    } else {
                        f0[a][b]
                    },
            decreases 4 - x,
        {
            if block[y][x] != NONE && pos.y < FIELD_HEIGHT - y && pos.x < FIELD_WIDTH - x {
                field[y + pos.y][x + pos.x] = block[y][x];
            }
            x = x + 1;
        }
        y = y + 1;
    }
    assert(field_grid(*field) =~~= place(f0, pos, s));
}

/// The mask `s` with each set cell tagged as the landing preview.
pub open spec fn ghost_mask(s: Grid) -> Grid {
    Seq::new(4, |y: int| Seq::new(4, |x: int| if s[y][x] != NONE { GHOST } else { NONE }))
}

/// What the board shows: a copy of it with the landing preview of the active piece,
/// and the active piece over that.
pub fn display_field(game: &Game) -> (f: Field)
    ensures
        field_grid(f) == place(
            place(
                game@.grid(),
                Position { x: game.pos.x, y: drop_row(game@.grid(), game.pos, game@.shape()) },
                ghost_mask(game@.shape()),
            ),
            game.pos,
            game@.shape(),
        ),
{
    let mut field_buf = game.field;
    let ghost_pos = get_ghost_pos(&game.field, &game.pos, &game.block);
    let mut ghost: BlockShape = [[NONE; 4]; 4];
    let mut y: usize = 0;
    while y < 4
        invariant
            y <= 4,
            forall|a: int, b: int| 0 <= a < 4 && 0 <= b < 4 ==> #[trigger] ghost[a][b] == if a < y {
                ghost_mask(game@.shape())[a][b]
            } else {
                NONE
            },
        decreases 4 - y,
    {
        let mut x: usize = 0;
        while x < 4
            invariant
                y < 4,
                x <= 4,
                forall|a: int, b: int| 0 <= a < 4 && 0 <= b < 4 ==> #[trigger] ghost[a][b] == if a < y || (a == y
                    && b < x) {
                    ghost_mask(game@.shape())[a][b]
                } else {
                    NONE
                },
            decreases 4 - x,
        {
            if game.block[y][x] != NONE {
                ghost[y][x] = GHOST;
            }
            x = x + 1;
        }
        y = y + 1;
    }
    assert(shape_grid(ghost) =~~= ghost_mask(game@.shape()));
    paint(&mut field_buf, ghost_pos, &ghost);
    paint(&mut field_buf, game.pos, &game.block);
    field_buf
}

/// Where the active piece would land if dropped straight down from `pos`.
pub fn get_ghost_pos(field: &Field, pos: &Position, block: &BlockShape) -> (r: Position)
    ensures
        r == (Position { x: pos.x, y: drop_row(field_grid(*field), *pos, shape_grid(*block)) }),
{
    let ghost f = field_grid(*field);
    let ghost s = shape_grid(*block);
    let mut ghost_pos = *pos;
    loop
        invariant
            ghost_pos.x == pos.x,
            f == field_grid(*field),
            s == shape_grid(*block),
            drop_row(f, ghost_pos, s) == drop_row(f, *pos, s),
        ensures
            drop_row(f, ghost_pos, s) == ghost_pos.y,
        decreases FIELD_HEIGHT - ghost_pos.y,
    {
        if ghost_pos.y >= FIELD_HEIGHT {
            assert(drop_row(f, ghost_pos, s) == ghost_pos.y);
            break;
        }
        let new_pos = Position { x: ghost_pos.x, y: ghost_pos.y + 1 };
        if is_collision(field, &new_pos, block) {
            assert(drop_row(f, ghost_pos, s) == ghost_pos.y);
            break;
        }
        ghost_pos = new_pos;
    }
    ghost_pos
}

/// Moves the active piece straight down as far as it goes.
pub fn hard_drop(game: &mut Game)
    ensures
        final(game)@ == (GameView {
            pos: Position { x: old(game).pos.x, y: drop_row(old(game)@.grid(), old(game).pos, old(game)@.shape()) },
            ..old(game)@
        }),
{
    game.pos = get_ghost_pos(&game.field, &game.pos, &game.block);
    let p = game.pos;
    move_block(game, p);
}

/// Clockwise quarter turn of a 4x4 mask: `new[y][x] = old[3 - x][y]`.
pub open spec fn rot_cw(s: Grid) -> Grid {
    Seq::new(4, |y: int| Seq::new(4, |x: int| s[3 - x][y]))
}

/// Counter-clockwise quarter turn of a 4x4 mask: `new[3 - x][y] = old[y][x]`.
pub open spec fn rot_ccw(s: Grid) -> Grid {
    Seq::new(4, |y: int| Seq::new(4, |x: int| s[x][3 - y]))
}

/// `v - d`, or `v` where that would go below zero.
pub open spec fn back(v: usize, d: usize) -> usize {
    if v >= d {
        (v - d) as usize
    } else {
        v
    }
}

/// `v + d`, or `v` where that would overflow.
pub open spec fn ahead(v: usize, d: usize) -> usize {
    if v + d <= usize::MAX {
        (v + d) as usize
    } else {
        v
    }
}

/// The wall-kick positions, in the order they are tried: up, right, down, left by one,
/// then the same by two.
pub open spec fn kick_offsets(p: Position) -> Seq<Position> {
    seq![
        Position { x: p.x, y: back(p.y, 1) },
        Position { x: ahead(p.x, 1), y: p.y },
        Position { x: p.x, y: ahead(p.y, 1) },
        Position { x: back(p.x, 1), y: p.y },
        Position { x: p.x, y: back(p.y, 2) },
        Position { x: ahead(p.x, 2), y: p.y },
        Position { x: p.x, y: ahead(p.y, 2) },
        Position { x: back(p.x, 2), y: p.y },
    ]
}

/// The first position of `c` where `s` fits.
pub open spec fn first_free(f: Grid, c: Seq<Position>, s: Grid) -> Option<Position>
    decreases c.len(),
{
    if c.len() == 0 {
        None
    } else if !collides(f, c[0], s) {
        Some(c[0])
    } else {
        first_free(f, c.drop_first(), s)
    }
}

/// Where a freshly rotated mask `s` ends up: in place if it fits, else at the first
/// wall-kick position that fits, else nowhere (the rotation is refused).
pub open spec fn rotation_target(f: Grid, p: Position, s: Grid) -> Option<Position> {
    if !collides(f, p, s) {
        Some(p)
    } else {
        first_free(f, kick_offsets(p), s)
    }
}

/// `g1` is `g0` after trying to turn the active piece into the mask `r`.
pub open spec fn rotated(g0: GameView, g1: GameView, r: Grid) -> bool {
    match rotation_target(g0.grid(), g0.pos, r) {
        Some(q) => g1 == (GameView { pos: q, block: g1.block, ..g0 }) && g1.shape() == r,
        None => g1 == g0,
    }
}

/// Rotates the active piece a quarter turn clockwise, with wall kicks.
pub fn rotate_right(game: &mut Game)
    ensures
        rotated(old(game)@, final(game)@, rot_cw(old(game)@.shape())),
{
    let mut new_shape: BlockShape = [[0; 4]; 4];
    let mut y: usize = 0;
    while y < 4
        invariant
            y <= 4,
            forall|a: int, b: int| 0 <= a < y && 0 <= b < 4 ==> #[trigger] new_shape[a][b] == game.block[3 - b][a],
        decreases 4 - y,
    {
        let mut x: usize = 0;
        while x < 4
            invariant
                y < 4,
                x <= 4,
                forall|a: int, b: int| 0 <= a < y && 0 <= b < 4 ==> #[trigger] new_shape[a][b] == game.block[3 - b][a],
                forall|b: int| 0 <= b < x ==> #[trigger] new_shape[y as int][b] == game.block[3 - b][y as int],
            decreases 4 - x,
        {
            new_shape[y][x] = game.block[4 - 1 - x][y];
            x = x + 1;
        }
        y = y + 1;
    }
    assert(shape_grid(new_shape) =~~= rot_cw(game@.shape()));
    turn_to(game, new_shape);
}

/// Rotates the active piece a quarter turn counter-clockwise, with wall kicks.
pub fn rotate_left(game: &mut Game)
    ensures
        rotated(old(game)@, final(game)@, rot_ccw(old(game)@.shape())),
{
    let mut new_shape: BlockShape = [[0; 4]; 4];
    let mut y: usize = 0;
    while y < 4
        invariant
            y <= 4,
            forall|a: int, b: int| 0 <= a < 4 && 0 <= b < y ==> #[trigger] new_shape[3 - a][b] == game.block[b][a],
        decreases 4 - y,
    {
        let mut x: usize = 0;
        while x < 4
            invariant
                y < 4,
                x <= 4,
                forall|a: int, b: int| 0 <= a < 4 && 0 <= b < y ==> #[trigger] new_shape[3 - a][b] == game.block[b][a],
                forall|a: int| 0 <= a < x ==> #[trigger] new_shape[3 - a][y as int] == game.block[y as int][a],
            decreases 4 - x,
        {
            new_shape[4 - 1 - x][y] = game.block[y][x];
            x = x + 1;
        }
        y = y + 1;
    }
    assert forall|a: int, b: int| 0 <= a < 4 && 0 <= b < 4 implies new_shape[a][b] == game.block[b][3 - a] by {
        assert(new_shape[3 - (3 - a)][b] == game.block[b][3 - a]);
    }
    assert(shape_grid(new_shape) =~~= rot_ccw(game@.shape()));
    turn_to(game, new_shape);
}

/// Replaces the active piece by `new_shape` where it fits, trying the wall kicks.
fn turn_to(game: &mut Game, new_shape: BlockShape)
    ensures
        rotated(old(game)@, final(game)@, shape_grid(new_shape)),
        final(game).block == old(game).block || final(game).block == new_shape,
{
    if !is_collision(&game.field, &game.pos, &new_shape) {
        game.block = new_shape;
    } else {
        match super_rotation(&game.field, &game.pos, &new_shape) {
            Ok(new_pos) => {
                game.pos = new_pos;
                game.block = new_shape;
            },
            Err(()) => {},
        }
    }
}

/// The first wall-kick position where `block` fits, if any.
fn super_rotation(field: &Field, pos: &Position, block: &BlockShape) -> (r: Result<Position, ()>)
    ensures
        match r {
            Ok(q) => first_free(field_grid(*field), kick_offsets(*pos), shape_grid(*block)) == Some(q),
            Err(_) => first_free(field_grid(*field), kick_offsets(*pos), shape_grid(*block)) is None,
        },
{
    let diff_pos: [Position; 8] = [
        // up 1
        Position { x: pos.x, y: pos.y.checked_sub(1).unwrap_or(pos.y) },
        // right 1
        Position { x: pos.x.checked_add(1).unwrap_or(pos.x), y: pos.y },
        // down 1
        Position { x: pos.x, y: pos.y.checked_add(1).unwrap_or(pos.y) },
        // left 1
        Position { x: pos.x.checked_sub(1).unwrap_or(pos.x), y: pos.y },
        // up 2
        Position { x: pos.x, y: pos.y.checked_sub(2).unwrap_or(pos.y) },
        // right 2
        Position { x: pos.x.checked_add(2).unwrap_or(pos.x), y: pos.y },
        // down 2
        Position { x: pos.x, y: pos.y.checked_add(2).unwrap_or(pos.y) },
        // left 2
        Position { x: pos.x.checked_sub(2).unwrap_or(pos.x), y: pos.y },
    ];
    let ghost f = field_grid(*field);
    let ghost s = shape_grid(*block);
    let ghost k = kick_offsets(*pos);
    assert(diff_pos@ =~= k);
    assert(k.subrange(0, 8) =~= k);
    let mut i: usize = 0;
    while i < 8
        invariant
            i <= 8,
            diff_pos@ == k,
            k == kick_offsets(*pos),
            f == field_grid(*field),
            s == shape_grid(*block),
            first_free(f, k, s) == first_free(f, k.subrange(i as int, 8), s),
        decreases 8 - i,
    {
        assert(k.subrange(i as int, 8).drop_first() =~= k.subrange(i + 1, 8));
        assert(k.subrange(i as int, 8)[0] == diff_pos@[i as int]);
        let cand = diff_pos[i];
        if !is_collision(field, &cand, block) {
            assert(first_free(f, k.subrange(i as int, 8), s) == Some(cand));
            return Ok(cand);
        }
        i = i + 1;
    }
    assert(k.subrange(8, 8).len() == 0);
    Err(())
}

/// `g1` is `g0` after the head of the queue became the active piece at the spawn
/// position and one shape moved from the bag to the tail of the queue, the bag being
/// refilled with a fresh one first where it was empty.
pub open spec fn spawn_step(g0: GameView, g1: GameView) -> bool {
    &&& g0.next.len() > 0
    &&& g1 == (GameView { pos: spawn_pos(), block: g0.next[0], next: g1.next, next_buf: g1.next_buf, ..g0 })
    &&& if g0.next_buf.len() > 0 {
        &&& g1.next == g0.next.drop_first().push(g0.next_buf[0])
        &&& g1.next_buf == g0.next_buf.drop_first()
    } else {
        exists|bag: Seq<BlockShape>|
            #[trigger] is_bag(bag) && bag.len() == 7 && g1.next == g0.next.drop_first().push(bag[0])
                && g1.next_buf == bag.drop_first()
    }
}

/// `g1` is `g0` after a hold: nothing changes where hold was already used for this
/// piece; else the active piece goes to the hold slot and either the held piece comes
/// back at the spawn position or, with the slot empty, the next piece spawns.
pub open spec fn hold_step(g0: GameView, g1: GameView) -> bool {
    if g0.holded {
        g1 == g0
    } else {
        match g0.hold {
            Some(h) => g1 == (GameView { block: h, hold: Some(g0.block), pos: spawn_pos(), holded: true, ..g0 }),
            None => exists|mid: GameView|
                #[trigger] spawn_step(GameView { hold: Some(g0.block), ..g0 }, mid) && g1 == (GameView {
                    holded: true,
                    ..mid
                }),
        }
    }
}

/// A spawn keeps the queue at its length and the bag short of full.
pub proof fn lemma_spawn_keeps_wf(g0: GameView, g1: GameView)
    requires
        spawn_step(g0, g1),
        g0.wf(),
    ensures
        g1.wf(),
{
    if g0.next_buf.len() == 0 {
        let bag = choose|bag: Seq<BlockShape>|
            #[trigger] is_bag(bag) && bag.len() == 7 && g1.next == g0.next.drop_first().push(bag[0])
                && g1.next_buf == bag.drop_first();
        assert(g1.next_buf.len() == 6);
    }
}

/// A queue holding `v[lo..hi]` in order.
fn queue_of(v: &Vec<BlockShape>, lo: usize, hi: usize) -> (q: VecDeque<BlockShape>)
    requires
        lo <= hi <= v@.len(),
    ensures
        q@ == v@.subrange(lo as int, hi as int),
{
    let mut q: VecDeque<BlockShape> = VecDeque::new();
    let mut i: usize = lo;
    while i < hi
        invariant
            lo <= i <= hi,
            hi <= v@.len(),
            q@ == v@.subrange(lo as int, i as int),
        decreases hi - i,
    {
        q.push_back(v[i]);
        i = i + 1;
        assert(q@ =~= v@.subrange(lo as int, i as int));
    }
    q
}

/// Makes the head of the queue the active piece at the spawn position and moves one
/// shape from the bag to the tail of the queue, refilling the bag first if it is empty.
/// Fails where the new piece collides at once: the game is over.
pub fn spawn_block(game: &mut Game) -> (r: Result<(), ()>)
    requires
        old(game)@.next.len() > 0,
    ensures
        spawn_step(old(game)@, final(game)@),
        r is Ok <==> !collides(final(game)@.grid(), spawn_pos(), final(game)@.shape()),
        old(game)@.wf() ==> final(game)@.wf(),
{
    game.pos = Position::init();
    match game.next.pop_front() {
        Some(b) => {
            game.block = b;
        },
        None => {},
    }
    match game.next_buf.pop_front() {
        Some(next) => {
            game.next.push_back(next);
        },
        None => {
            let bag = gen_block_7();
            let ghost bag_v = bag@;
            game.next_buf = queue_of(&bag, 0, bag.len());
            assert(bag_v.subrange(0, bag_v.len() as int) =~= bag_v);
            match game.next_buf.pop_front() {
                Some(next) => {
                    game.next.push_back(next);
                },
                None => {},
            }
            assert(is_bag(bag_v) && bag_v.len() == 7);
        },
    }
    proof {
        if old(game)@.wf() {
            lemma_spawn_keeps_wf(old(game)@, game@);
        }
    }
    if is_collision(&game.field, &game.pos, &game.block) {
        Err(())
    } else {
        Ok(())
    }
}

/// Holds the active piece: see `hold_step`. At most once per piece.
pub fn hold(game: &mut Game)
    requires
        old(game)@.next.len() > 0,
    ensures
        hold_step(old(game)@, final(game)@),
        final(game).holded,
        old(game)@.wf() ==> final(game)@.wf(),
{
    if game.holded {
        return;
    }
    match game.hold {
        Some(held) => {
            game.hold = Some(game.block);
            game.block = held;
            game.pos = Position::init();
        },
        None => {
            game.hold = Some(game.block);
            let _ = spawn_block(game);
            assert(spawn_step(GameView { hold: Some(old(game).block), ..old(game)@ }, game@));
        },
    }
    game.holded = true;
}

/// The first column checked for a full row.
pub const LEFT_COL: usize = 2;

/// One past the last column checked for a full row.
pub const RIGHT_END: usize = FIELD_WIDTH - 2;

/// One past the last row scanned for full rows (the floor row).
pub const SCAN_END: usize = FIELD_HEIGHT - 2;

/// Every playable cell of the row is occupied.
pub open spec fn row_full(r: Seq<usize>) -> bool {
    forall|x: int| LEFT_COL <= x < RIGHT_END ==> #[trigger] r[x] != NONE
}

/// The number of full rows among rows `0..hi`.
pub open spec fn full_rows(g: Grid, hi: int) -> nat
    decreases hi,
{
    if hi <= 0 {
        0
    } else if row_full(g[hi - 1]) {
        full_rows(g, hi - 1) + 1
    } else {
        full_rows(g, hi - 1)
    }
}

/// The rows among `0..hi` that are not full, top to bottom.
pub open spec fn survivors(g: Grid, hi: int) -> Grid
    decreases hi,
{
    if hi <= 0 {
        Seq::empty()
    } else if row_full(g[hi - 1]) {
        survivors(g, hi - 1)
    } else {
        survivors(g, hi - 1).push(g[hi - 1])
    }
}

/// An empty playable row between its two walls.
pub open spec fn empty_row() -> Seq<usize> {
    Seq::new(FIELD_WIDTH as nat, |x: int| initial_cell(0, x))
}

/// Row `y` (in `0..hi`) once the full rows among `0..hi` are cleared: the rows that were
/// not full sit at the bottom in their order, and the rows freed at the top are empty.
pub open spec fn compacted_row(g: Grid, hi: int, y: int) -> Seq<usize> {
    let d = full_rows(g, hi);
    if y >= d {
        survivors(g, hi)[y - d]
    } else {
        empty_row()
    }
}

/// The board once all full rows are cleared; the floor and the row under it keep their
/// value.
pub open spec fn compacted(g: Grid) -> Grid {
    Seq::new(
        g.len(),
        |y: int|
            if 0 <= y < SCAN_END {
                compacted_row(g, SCAN_END as int, y)
            } else {
                g[y]
            },
    )
}

pub proof fn lemma_survivors_len(g: Grid, hi: int)
    requires
        hi >= 0,
    ensures
        survivors(g, hi).len() + full_rows(g, hi) == hi,
    decreases hi,
{
    if hi > 0 {
        lemma_survivors_len(g, hi - 1);
    }
}

/// No row left among the survivors is full.
pub proof fn lemma_survivors_not_full(g: Grid, hi: int)
    ensures
        forall|i: int| 0 <= i < survivors(g, hi).len() ==> !row_full(#[trigger] survivors(g, hi)[i]),
    decreases hi,
{
    if hi > 0 {
        lemma_survivors_not_full(g, hi - 1);
        let s = survivors(g, hi - 1);
        if !row_full(g[hi - 1]) {
            assert forall|i: int| 0 <= i < survivors(g, hi).len() implies !row_full(
                #[trigger] survivors(g, hi)[i],
            ) by {
                if i < s.len() {
                    assert(survivors(g, hi)[i] == s[i]);
                }
            }
        }
    }
}

/// The cells of an empty playable row, walls included.
fn empty_field_row() -> (r: [usize; FIELD_WIDTH])
    ensures
        r@ == empty_row(),
{
    let r: [usize; FIELD_WIDTH] = [NONE, WALL, NONE, NONE, NONE, NONE, NONE, NONE, NONE, NONE, NONE, NONE, NONE, WALL, NONE];
    assert(r@ =~= empty_row());
    r
}

/// Clears every full playable row, top to bottom: the rows above it shift down by one and
/// an empty row comes in at the top. Returns the number of rows cleared.
pub fn erace_line(field: &mut Field) -> (count: usize)
    ensures
        count == full_rows(field_grid(*old(field)), SCAN_END as int),
        field_grid(*final(field)) == compacted(field_grid(*old(field))),
{
    let ghost f0 = *old(field);
    let ghost g = field_grid(f0);
    let mut count: usize = 0;
    let mut y: usize = 0;
    while y < SCAN_END
        invariant
            y <= SCAN_END,
            g == field_grid(f0),
            count == full_rows(g, y as int),
            forall|r: int| y <= r < FIELD_HEIGHT ==> #[trigger] field[r] == f0[r],
            forall|r: int| 0 <= r < y ==> #[trigger] field[r]@ == compacted_row(g, y as int, r),
        decreases SCAN_END - y,
    {
        proof {
            lemma_survivors_len(g, y as int);
        }
        // is the row full?
        let mut can_erace = true;
        let mut x: usize = LEFT_COL;
        while x < RIGHT_END
            invariant_except_break
                can_erace,
            invariant
                LEFT_COL <= x <= RIGHT_END,
                y < SCAN_END,
                forall|xx: int| LEFT_COL <= xx < x ==> #[trigger] field[y as int][xx] != NONE,
            ensures
                can_erace == row_full(field[y as int]@),
            decreases RIGHT_END - x,
        {
            if field[y][x] == NONE {
                can_erace = false;
                break;
            }
            x = x + 1;
        }
        assert(field[y as int] == f0[y as int]);
        assert(g[y as int] == field[y as int]@);
        // clear it
        if can_erace {
            count = count + 1;
            let ghost before = *field;
            let mut y2: usize = y;
            while y2 >= 1
                invariant
                    y2 <= y,
                    y < SCAN_END,
                    forall|r: int| 0 <= r < FIELD_HEIGHT && (r <= y2 || r > y) ==> #[trigger] field[r] == before[r],
                    forall|r: int| y2 < r <= y ==> #[trigger] field[r] == before[r - 1],
                decreases y2,
            {
                field[y2] = field[y2 - 1];
                y2 = y2 - 1;
            }
            field[0] = empty_field_row();
            proof {
                lemma_survivors_len(g, y + 1);
                assert(full_rows(g, y + 1) == full_rows(g, y as int) + 1);
                assert(survivors(g, y + 1) == survivors(g, y as int));
                assert forall|r: int| 0 <= r < y + 1 implies #[trigger] field[r]@ == compacted_row(g, y + 1, r) by {
                    if r >= 1 {
                        assert(field[r] == before[r - 1]);
                        assert(before[r - 1]@ == compacted_row(g, y as int, r - 1));
                    }
                }
            }
        } else {
            proof {
                lemma_survivors_len(g, y + 1);
                assert forall|r: int| 0 <= r < y + 1 implies #[trigger] field[r]@ == compacted_row(g, y + 1, r) by {
                    if r < y {
                        assert(field[r]@ == compacted_row(g, y as int, r));
                    }
                }
            }
        }
        y = y + 1;
    }
    assert(field_grid(*field) =~~= compacted(g));
    count
}

/// After clearing, no playable row is full: the pass leaves nothing to clear.
pub proof fn lemma_erase_leaves_no_full_row(g: Grid, y: int)
    requires
        g.len() == FIELD_HEIGHT,
        0 <= y < SCAN_END,
    ensures
        !row_full(compacted(g)[y]),
{
    lemma_survivors_len(g, SCAN_END as int);
    lemma_survivors_not_full(g, SCAN_END as int);
    assert(empty_row()[LEFT_COL as int] == NONE);
}

/// The points for clearing `n` rows at once (`n` at most 4).
pub open spec fn line_score(n: nat) -> nat {
    if n == 0 {
        0
    } else if n == 1 {
        1
    } else if n == 2 {
        5
    } else if n == 3 {
        25
    } else {
        125
    }
}

/// The points for clearing `n` rows at once.
pub fn score_for_lines(n: usize) -> (r: usize)
    requires
        n <= 4,
    ensures
        r == line_score(n as nat),
{
    match n {
        0 => 0,
        1 => 1,
        2 => 5,
        3 => 25,
        _ => 125,
    }
}

/// `g1` is `g0` after its active piece was locked: merged into the board, full rows
/// cleared, score and row count raised, and the next piece spawned. Hold is usable again
/// unless the spawn failed (`ok` false), which ends the game.
pub open spec fn landed(g0: GameView, g1: GameView, ok: bool) -> bool {
    let placed = place(g0.grid(), g0.pos, g0.shape());
    let n = full_rows(placed, SCAN_END as int);
    let cleared = GameView {
        field: g1.field,
        score: (g0.score + line_score(n)) as usize,
        line: (g0.line + n) as usize,
        ..g0
    };
    &&& g1.grid() == compacted(placed)
    &&& spawn_step(cleared, GameView { holded: g0.holded, ..g1 })
    &&& g1.holded == if ok {
        false
    } else {
        g0.holded
    }
}

/// Locks the active piece: merges it into the board, clears full rows, adds their score,
/// spawns the next piece and makes hold usable again. Fails where the next piece collides
/// at once: the game is over, and the board shows the locked piece.
pub fn landing(game: &mut Game) -> (r: Result<(), ()>)
    requires
        old(game)@.next.len() > 0,
        full_rows(place(old(game)@.grid(), old(game).pos, old(game)@.shape()), SCAN_END as int) <= 4,
        old(game).score <= usize::MAX - 125,
        old(game).line <= usize::MAX - 4,
    ensures
        landed(old(game)@, final(game)@, r is Ok),
        r is Ok <==> !collides(final(game)@.grid(), spawn_pos(), final(game)@.shape()),
        old(game)@.wf() ==> final(game)@.wf(),
{
    fix_block(game);
    let line = erace_line(&mut game.field);
    game.score = game.score + score_for_lines(line);
    game.line = game.line + line;
    let spawned = spawn_block(game);
    match spawned {
        Ok(()) => {},
        Err(()) => {
            return Err(());
        },
    }
    game.holded = false;
    Ok(())
}

/// Whether a board cell is wall or floor on a fresh board.
pub open spec fn initial_cell(y: int, x: int) -> usize {
    if (y < SCAN_END && (x == 1 || x == FIELD_WIDTH - 2)) || (y == SCAN_END && 1 <= x <= FIELD_WIDTH - 2) {
        WALL
    } else {
        NONE
    }
}

impl Game {
    /// A new game: an empty board between its walls and floor, nothing held, no score,
    /// and one fresh bag dealt in order: its first shape active at the spawn position,
    /// the next three in the queue, the other three left in the bag.
    pub fn new() -> (g: Game)
        ensures
            g@.wf(),
            g.pos == spawn_pos(),
            g.hold is None,
            !g.holded,
            g.score == 0,
            g.line == 0,
            forall|y: int, x: int| 0 <= y < FIELD_HEIGHT && 0 <= x < FIELD_WIDTH ==> #[trigger] g.field[y][x] == initial_cell(y, x),
            exists|bag: Seq<BlockShape>|
                #[trigger] is_bag(bag) && bag.len() == 7 && g.block == bag[0] && g@.next == bag.subrange(1, 4)
                    && g@.next_buf == bag.subrange(4, 7),
    {
        let mut field: Field = [[NONE; FIELD_WIDTH]; FIELD_HEIGHT];
        let mut y: usize = 0;
        while y < SCAN_END
            invariant
                y <= SCAN_END,
                forall|a: int, b: int| 0 <= a < FIELD_HEIGHT && 0 <= b < FIELD_WIDTH ==> #[trigger] field[a][b] == if a < y {
                    initial_cell(a, b)
                } else {
                    NONE
                },
            decreases SCAN_END - y,
        {
            field[y][1] = WALL;
            field[y][FIELD_WIDTH - 2] = WALL;
            y = y + 1;
        }
        let mut x: usize = 1;
        while x < FIELD_WIDTH - 1
            invariant
                1 <= x <= FIELD_WIDTH - 1,
                forall|a: int, b: int| 0 <= a < FIELD_HEIGHT && 0 <= b < FIELD_WIDTH ==> #[trigger] field[a][b] == if a < SCAN_END || (a == SCAN_END && b < x) {
                    initial_cell(a, b)
                } else {
                    NONE
                },
            decreases FIELD_WIDTH - 1 - x,
        {
            field[SCAN_END][x] = WALL;
            x = x + 1;
        }
        let bag = gen_block_7();
        let mut game = Game {
            field,
            pos: Position::init(),
            block: block_shape(BlockKind::random()),
            hold: None,
            holded: false,
            next: queue_of(&bag, 0, NEXT_LENGTH),
            next_buf: queue_of(&bag, NEXT_LENGTH, bag.len()),
            score: 0,
            line: 0,
        };
        let _ = spawn_block(&mut game);
        assert(game@.next =~= bag@.subrange(1, 4));
        assert(game@.next_buf =~= bag@.subrange(4, 7));
        game
    }
}

/// A placement that collides still collides after a translation by `(0, 0)`.
pub proof fn lemma_collides_zero_translation(f: Grid, p: Position, s: Grid)
    requires
        collides(f, p, s),
    ensures
        collides(f, Position { x: (p.x + 0) as usize, y: (p.y + 0) as usize }, s),
{
    assert(Position { x: (p.x + 0) as usize, y: (p.y + 0) as usize } == p);
}

/// Locking a piece leaves every board cell outside the piece's set mask cells as it was.
pub proof fn lemma_lock_keeps_other_cells(f: Grid, p: Position, s: Grid, y: int, x: int)
    requires
        0 <= y < f.len(),
        0 <= x < f[y].len(),
        !covers(p, s, y, x),
    ensures
        place(f, p, s)[y][x] == f[y][x],
{
}

/// Seven draws in a row that start from an empty bag put each of the seven canonical
/// shapes exactly once at the tail of the queue.
pub proof fn lemma_seven_draws_form_a_bag(states: Seq<GameView>)
    requires
        states.len() == 8,
        states[0].next_buf.len() == 0,
        forall|i: int| 0 <= i < 7 ==> #[trigger] spawn_step(states[i], states[i + 1]),
    ensures
        is_bag(Seq::new(7, |i: int| states[i + 1].next.last())),
{
    let first: int = 0;
    assert(spawn_step(states[first], states[first + 1]));
    let bag = choose|bag: Seq<BlockShape>|
        #[trigger] is_bag(bag) && bag.len() == 7 && states[1].next == states[0].next.drop_first().push(bag[0])
            && states[1].next_buf == bag.drop_first();
    let drawn = Seq::new(7, |i: int| states[i + 1].next.last());
    assert forall|i: int| 0 <= i < 7 implies #[trigger] drawn[i] == bag[i] by {
        lemma_draw_from_bag(states, bag, i + 1);
    }
    assert(drawn =~= bag);
}

proof fn lemma_draw_from_bag(states: Seq<GameView>, bag: Seq<BlockShape>, i: int)
    requires
        states.len() == 8,
        forall|j: int| 0 <= j < 7 ==> #[trigger] spawn_step(states[j], states[j + 1]),
        bag.len() == 7,
        states[1].next == states[0].next.drop_first().push(bag[0]),
        states[1].next_buf == bag.drop_first(),
        1 <= i <= 7,
    ensures
        states[i].next_buf == bag.subrange(i, 7),
        states[i].next.last() == bag[i - 1],
    decreases i,
{
    if i == 1 {
        assert(bag.drop_first() =~= bag.subrange(1, 7));
    } else {
        lemma_draw_from_bag(states, bag, i - 1);
        let j = i - 1;
        assert(spawn_step(states[j], states[j + 1]));
        assert(states[i - 1].next_buf.len() > 0);
        assert(bag.subrange(i - 1, 7).drop_first() =~= bag.subrange(i, 7));
    }
}

/// A quarter turn in the given direction.
pub open spec fn turn(s: Grid, clockwise: bool) -> Grid {
    if clockwise {
        rot_cw(s)
    } else {
        rot_ccw(s)
    }
}

/// Every cell of the 4x4 box at `p` that lies on the board is empty.
pub open spec fn box_free(f: Grid, p: Position) -> bool {
    forall|y: int, x: int|
        0 <= y < 4 && 0 <= x < 4 && y + p.y < FIELD_HEIGHT && x + p.x < FIELD_WIDTH ==> #[trigger] f[y + p.y][x
            + p.x] == NONE
}

/// Four clockwise quarter turns give back the mask.
pub proof fn lemma_four_cw_turns(s: Grid)
    requires
        wf_shape(s),
    ensures
        rot_cw(rot_cw(rot_cw(rot_cw(s)))) == s,
{
    assert(rot_cw(rot_cw(rot_cw(rot_cw(s)))) =~~= s);
}

/// Four counter-clockwise quarter turns give back the mask.
pub proof fn lemma_four_ccw_turns(s: Grid)
    requires
        wf_shape(s),
    ensures
        rot_ccw(rot_ccw(rot_ccw(rot_ccw(s)))) == s,
{
    assert(rot_ccw(rot_ccw(rot_ccw(rot_ccw(s)))) =~~= s);
}

proof fn lemma_free_box_never_collides(f: Grid, p: Position, s: Grid)
    requires
        box_free(f, p),
    ensures
        !collides(f, p, s),
{
    assert forall|y: int, x: int| 0 <= y < 4 && 0 <= x < 4 implies !#[trigger] cell_hits(f, p, s, y, x) by {
        if y + p.y < FIELD_HEIGHT && x + p.x < FIELD_WIDTH {
            assert(f[y + p.y][x + p.x] == NONE);
        }
    }
}

/// Where the piece's box is free, four quarter turns in the same direction (clockwise,
/// or counter-clockwise) bring the game back to the state it started from.
pub proof fn lemma_four_turns_in_free_box(states: Seq<GameView>, clockwise: bool)
    requires
        states.len() == 5,
        box_free(states[0].grid(), states[0].pos),
        forall|i: int| 0 <= i < 4 ==> #[trigger] rotated(
            states[i],
            states[i + 1],
            turn(states[i].shape(), clockwise),
        ),
    ensures
        states[4] == states[0],
{
    let s0 = states[0].shape();
    lemma_turn_in_free_box(states, clockwise, 0);
    lemma_turn_in_free_box(states, clockwise, 1);
    lemma_turn_in_free_box(states, clockwise, 2);
    lemma_turn_in_free_box(states, clockwise, 3);
    assert(states[4].shape() == turn(turn(turn(turn(s0, clockwise), clockwise), clockwise), clockwise));
    if clockwise {
        lemma_four_cw_turns(s0);
    } else {
        lemma_four_ccw_turns(s0);
    }
    crate::block::lemma_shape_grid_injective(states[4].block, states[0].block);
}

proof fn lemma_turn_in_free_box(states: Seq<GameView>, clockwise: bool, i: int)
    requires
        states.len() == 5,
        box_free(states[0].grid(), states[0].pos),
        forall|j: int| 0 <= j < 4 ==> #[trigger] rotated(
            states[j],
            states[j + 1],
            turn(states[j].shape(), clockwise),
        ),
        0 <= i < 4,
    ensures
        states[i + 1] == (GameView { block: states[i + 1].block, ..states[0] }),
        states[i + 1].shape() == turn(states[i].shape(), clockwise),
    decreases i,
{
    if i > 0 {
        lemma_turn_in_free_box(states, clockwise, i - 1);
    }
    let r = turn(states[i].shape(), clockwise);
    assert(states[i].grid() == states[0].grid());
    assert(states[i].pos == states[0].pos);
    lemma_free_box_never_collides(states[i].grid(), states[i].pos, r);
    assert(rotated(states[i], states[i + 1], r));
}

/// A second hold before the next lock changes nothing.
pub proof fn lemma_hold_twice(g0: GameView, g1: GameView, g2: GameView)
    requires
        hold_step(g0, g1),
        hold_step(g1, g2),
    ensures
        g2 == g1,
        g1.holded,
{
    if !g0.holded && g0.hold is None {
        let mid = choose|mid: GameView|
            #[trigger] spawn_step(GameView { hold: Some(g0.block), ..g0 }, mid) && g1 == (GameView {
                holded: true,
                ..mid
            });
    }
}

} // verus!
