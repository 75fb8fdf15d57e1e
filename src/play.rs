//! The decisions of a play session: what a command, a gravity tick or one move of the
//! random auto-player does to the game. The caller runs the loop, the timer and the input.

use crate::ai::{candidate, erase_line_count, eval, search_result, shift_x, turn_n};
use crate::block::random_below;
use crate::game::{
    collides, drop_row, full_rows, hard_drop, lemma_spawn_keeps_wf, paint, place, spawn_step, hold, hold_step, is_collision, landed, landing, move_block,
    rot_cw, rot_ccw, rotate_left, rotate_right, rotated, spawn_pos, Game, GameView, Position,
    SCAN_END,
};
use vstd::prelude::*;

verus! {

/// A player command.
#[derive(Debug, Clone, Copy, PartialEq, Eq, Structural)]
pub enum Command {
    /// One column left.
    Left,
    /// One column right.
    Right,
    /// One row down.
    Down,
    /// Hard drop, then lock.
    Drop,
    RotateRight,
    RotateLeft,
    Hold,
}

/// What a step leaves the session in.
#[derive(Debug, Clone, Copy, PartialEq, Eq, Structural)]
pub enum Outcome {
    Running,
    /// The next piece collided at spawn: the session is over.
    GameOver,
}

/// The piece can be locked and scored: a shape is queued, the lock leaves at most 4 full
/// rows (the score table ends there), and the score and row count have room for them.
pub open spec fn lockable(g: GameView) -> bool {
    &&& g.next.len() > 0
    &&& full_rows(place(g.grid(), g.pos, g.shape()), SCAN_END as int) <= 4
    &&& g.score <= usize::MAX - 125
    &&& g.line <= usize::MAX - 4
}

/// `g1` and `o` are what a lock of `g0` gives. A board that cannot be scored (see
/// `lockable`) ends the session unchanged.
pub open spec fn lock_step(g0: GameView, g1: GameView, o: Outcome) -> bool {
    if lockable(g0) {
        &&& landed(g0, g1, o is Running)
        &&& (o is Running <==> !collides(g1.grid(), spawn_pos(), g1.shape()))
    } else {
        g1 == g0 && o is GameOver
    }
}

/// Whether the active piece can be locked and scored: see `lockable`.
pub fn can_lock(game: &Game) -> (b: bool)
    ensures
        b == lockable(game@),
{
    let mut locked = game.field;
    paint(&mut locked, game.pos, &game.block);
    game.next.len() > 0 && erase_line_count(&locked) <= 4 && game.score <= usize::MAX - 125
        && game.line <= usize::MAX - 4
}

/// Locks the active piece, where it can be scored.
pub fn lock(game: &mut Game) -> (o: Outcome)
    requires
        old(game)@.wf(),
    ensures
        lock_step(old(game)@, final(game)@, o),
        final(game)@.wf(),
{
    if !can_lock(game) {
        return Outcome::GameOver;
    }
    match landing(game) {
        Ok(()) => Outcome::Running,
        Err(()) => Outcome::GameOver,
    }
}

/// One row further down.
pub open spec fn below(p: Position) -> Position {
    Position { x: p.x, y: (p.y + 1) as usize }
}

/// One gravity tick: the piece moves down a row if it fits there, else it locks.
pub fn gravity_step(game: &mut Game) -> (o: Outcome)
    requires
        old(game)@.wf(),
        old(game).pos.y < usize::MAX,
    ensures
        !collides(old(game)@.grid(), below(old(game).pos), old(game)@.shape()) ==> final(game)@ == (GameView {
            pos: below(old(game).pos),
            ..old(game)@
        }) && o is Running,
        collides(old(game)@.grid(), below(old(game).pos), old(game)@.shape()) ==> lock_step(old(game)@, final(game)@, o),
        final(game)@.wf(),
{
    let new_pos = Position { x: game.pos.x, y: game.pos.y + 1 };
    if !is_collision(&game.field, &new_pos, &game.block) {
        game.pos = new_pos;
        Outcome::Running
    } else {
        lock(game)
    }
}

/// The state after a command; for `Drop` with the lock outcome.
pub open spec fn command_step(g0: GameView, cmd: Command, g1: GameView, o: Outcome) -> bool {
    let f = g0.grid();
    let s = g0.shape();
    let moved = |t: Position|
        if collides(f, t, s) {
            g1 == g0
        } else {
            g1 == (GameView { pos: t, ..g0 })
        };
    match cmd {
        Command::Left => moved(Position { x: if g0.pos.x >= 1 { (g0.pos.x - 1) as usize } else { g0.pos.x }, y: g0.pos.y }) && o is Running,
        Command::Right => moved(Position { x: (g0.pos.x + 1) as usize, y: g0.pos.y }) && o is Running,
        Command::Down => moved(below(g0.pos)) && o is Running,
        Command::Drop => exists|d: GameView|
            d == (GameView { pos: Position { x: g0.pos.x, y: drop_row(f, g0.pos, s) }, ..g0 })
                && #[trigger] lock_step(d, g1, o),
        Command::RotateRight => rotated(g0, g1, rot_cw(s)) && o is Running,
        Command::RotateLeft => rotated(g0, g1, rot_ccw(s)) && o is Running,
        Command::Hold => hold_step(g0, g1) && o is Running,
    }
}

/// Carries out one player command.
pub fn apply_command(game: &mut Game, cmd: Command) -> (o: Outcome)
    requires
        old(game)@.wf(),
        old(game).pos.x < usize::MAX,
        old(game).pos.y < usize::MAX,
    ensures
        command_step(old(game)@, cmd, final(game)@, o),
        final(game)@.wf(),
{
    match cmd {
        Command::Left => {
            let new_pos = Position { x: game.pos.x.checked_sub(1).unwrap_or(game.pos.x), y: game.pos.y };
            move_block(game, new_pos);
            Outcome::Running
        },
        Command::Right => {
            let new_pos = Position { x: game.pos.x + 1, y: game.pos.y };
            move_block(game, new_pos);
            Outcome::Running
        },
        Command::Down => {
            let new_pos = Position { x: game.pos.x, y: game.pos.y + 1 };
            move_block(game, new_pos);
            Outcome::Running
        },
        Command::Drop => {
            hard_drop(game);
            let ghost d = game@;
            let o = lock(game);
            assert(lock_step(d, game@, o));
            o
        },
        Command::RotateRight => {
            rotate_right(game);
            Outcome::Running
        },
        Command::RotateLeft => {
            rotate_left(game);
            Outcome::Running
        },
        Command::Hold => {
            hold(game);
            Outcome::Running
        },
    }
}

/// The gravity interval for a number of cleared rows: one second, 100 ms shorter for
/// every 10 rows, and 100 ms where that reaches 0.
pub open spec fn interval_ms(line: int) -> int {
    let t = 1000 - (line / 10) * 100;
    if t <= 0 {
        100
    } else {
        t
    }
}

/// The gravity interval in milliseconds: see `interval_ms`.
pub fn gravity_interval_ms(line: usize) -> (ms: u64)
    ensures
        ms == interval_ms(line as int),
{
    let tens = line / 10;
    if tens >= 10 {
        100
    } else {
        1000 - (tens as u64) * 100
    }
}

/// `h` is `g` after the auto-player's hold choice.
pub open spec fn held_by(g: GameView, do_hold: bool, h: GameView) -> bool {
    if do_hold {
        hold_step(g, h)
    } else {
        h == g
    }
}

/// `d` is `h` with its piece turned `turns` times clockwise, moved `dx` columns and
/// dropped, not yet locked.
pub open spec fn placed_by(h: GameView, turns: nat, dx: int, d: GameView) -> bool {
    let c = candidate(h, turns, dx);
    d == (GameView { pos: c.1, block: d.block, ..h }) && d.shape() == c.2
}

/// One move of the auto-player with its choices given: hold or not, turn clockwise
/// `turns` times, move by `dx` columns (stopping at column 0), hard drop and lock.
pub fn auto_step(game: &mut Game, do_hold: bool, turns: usize, dx: i64) -> (o: Outcome)
    requires
        old(game)@.wf(),
        turns <= 3,
        -4 <= dx <= 5,
    ensures
        exists|h: GameView, d: GameView|
            #![trigger held_by(old(game)@, do_hold, h), placed_by(h, turns as nat, dx as int, d)]
            held_by(old(game)@, do_hold, h) && placed_by(h, turns as nat, dx as int, d) && lock_step(
                d,
                final(game)@,
                o,
            ),
        final(game)@.wf(),
{
    if do_hold {
        hold(game);
    }
    let ghost h = game@;
    let mut j: usize = 0;
    while j < turns
        invariant
            j <= turns,
            game@ == (GameView { pos: turn_n(h.grid(), h.pos, h.shape(), j as nat).0, block: game.block, ..h }),
            game@.shape() == turn_n(h.grid(), h.pos, h.shape(), j as nat).1,
            h.wf(),
        decreases turns - j,
    {
        rotate_right(game);
        j = j + 1;
    }
    let new_pos = Position { x: shift_x(game.pos.x, dx), y: game.pos.y };
    move_block(game, new_pos);
    hard_drop(game);
    let ghost d = game@;
    assert(placed_by(h, turns as nat, dx as int, d));
    assert(held_by(old(game)@, do_hold, h));
    let o = lock(game);
    assert(lock_step(d, game@, o));
    o
}

/// One move of the random auto-player: it holds with chance 1 in 5, turns clockwise 0 to
/// 3 times, moves -4 to 5 columns, then drops and locks.
pub fn auto_play_step(game: &mut Game) -> (o: Outcome)
    requires
        old(game)@.wf(),
    ensures
        exists|do_hold: bool, turns: usize, dx: i64|
            #![trigger auto_choice(old(game)@, do_hold, turns, dx, final(game)@, o)]
            auto_choice(old(game)@, do_hold, turns, dx, final(game)@, o),
        final(game)@.wf(),
{
    let do_hold = random_below(5) == 0;
    let turns = random_below(4);
    let dx = random_below(10) as i64 - 4;
    let o = auto_step(game, do_hold, turns, dx);
    assert(auto_choice(old(game)@, do_hold, turns, dx, game@, o));
    o
}

/// `g1` and `o` are what `auto_step` gives from `g0` with these choices.
pub open spec fn auto_choice(g0: GameView, do_hold: bool, turns: usize, dx: i64, g1: GameView, o: Outcome) -> bool {
    &&& turns <= 3
    &&& -4 <= dx <= 5
    &&& exists|h: GameView, d: GameView|
        #![trigger held_by(g0, do_hold, h), placed_by(h, turns as nat, dx as int, d)]
        held_by(g0, do_hold, h) && placed_by(h, turns as nat, dx as int, d) && lock_step(d, g1, o)
}

/// A hold keeps the queue and the bag in shape.
pub proof fn lemma_hold_keeps_wf(g0: GameView, g1: GameView)
    requires
        hold_step(g0, g1),
        g0.wf(),
    ensures
        g1.wf(),
{
    if !g0.holded && g0.hold is None {
        let mid = choose|mid: GameView|
            #[trigger] spawn_step(GameView { hold: Some(g0.block), ..g0 }, mid) && g1 == (GameView {
                holded: true,
                ..mid
            });
        lemma_spawn_keeps_wf(GameView { hold: Some(g0.block), ..g0 }, mid);
    }
}

/// One move of the heuristic auto-player: the placement search picks the best placement
/// (see `eval`), which is then committed on the board as it was and locked.
pub fn ai_step(game: &mut Game) -> (o: Outcome)
    requires
        old(game)@.wf(),
    ensures
        exists|h: GameView, r: GameView|
            #![trigger hold_step(old(game)@, h), search_result(old(game)@, h, r)]
            hold_step(old(game)@, h) && search_result(old(game)@, h, r) && lock_step(
                GameView { field: old(game).field, ..r },
                final(game)@,
                o,
            ),
        final(game)@.wf(),
{
    let ghost g = game@;
    let mut best = eval(game);
    let ghost r = best@;
    let ghost h = choose|h: GameView| #[trigger] hold_step(g, h) && search_result(g, h, r);
    proof {
        lemma_hold_keeps_wf(g, h);
    }
    best.field = game.field;
    *game = best;
    assert(game@ == (GameView { field: g.field, ..r }));
    let o = lock(game);
    assert(hold_step(g, h) && search_result(g, h, r));
    o
}

} // verus!
