//! What every tick keeps, and what the game promises across ticks.
use vstd::prelude::*;

use crate::board::full_row_count;
use crate::game::{
    apply_inputs, gravity, input_effect, no_quit, score_for, GameModel, GameState, ROWS_PER_LEVEL,
};
use crate::input::Input;
use crate::shape::Position;
use crate::GRAVITY_TICK;

verus! {

/// Once the game is over it stays over: the board and the score no longer change, and every
/// input is dropped.
pub proof fn lemma_game_over_is_final(g: GameModel, inputs: Seq<Input>, delta_ms: u32)
    requires
        g.state == GameState::GameOver,
    ensures
        g.ticked(inputs, delta_ms).state == GameState::GameOver,
        g.ticked(inputs, delta_ms).board == g.board,
        g.ticked(inputs, delta_ms).score == g.score,
        g.ticked(inputs, delta_ms).input_buffer.len() == 0,
{
}

/// A tick never lowers the score or the count of cleared rows.
pub proof fn lemma_progress_never_decreases(g: GameModel, inputs: Seq<Input>, delta_ms: u32)
    requires
        g.tick_defined(inputs, delta_ms),
    ensures
        g.ticked(inputs, delta_ms).score >= g.score,
        g.ticked(inputs, delta_ms).cleared_rows >= g.cleared_rows,
{
    let k = full_row_count(g.board.grid);
    if g.state == GameState::CheckRows {
        assert(score_for(g.level as int, k as int) >= 0) by (nonlinear_arith)
            requires
                g.level >= 0,
                0 <= crate::game::base_score(k as int),
        ;
    }
}

/// Gravity always matches the level: a tick keeps the gravity tick equal to the gravity of the
/// current level.
pub proof fn lemma_gravity_follows_level(g: GameModel, inputs: Seq<Input>, delta_ms: u32)
    requires
        g.gravity_tick == gravity(g.level as nat),
    ensures
        g.ticked(inputs, delta_ms).gravity_tick == gravity(
            g.ticked(inputs, delta_ms).level as nat,
        ),
{
    crate::game::lemma_gravity_bounds((g.cleared_rows / ROWS_PER_LEVEL) as nat);
}

/// After the level check the level is the number of cleared rows divided by the rows per
/// level.
pub proof fn lemma_level_follows_cleared_rows(g: GameModel)
    requires
        g.state == GameState::CheckLevel,
    ensures
        g.stepped().level == g.cleared_rows / ROWS_PER_LEVEL,
        g.stepped().state == GameState::MakeNewShape,
{
}

/// A paused game without a pause request stays paused and leaves the board as it is.
pub proof fn lemma_pause_holds(g: GameModel, inputs: Seq<Input>, delta_ms: u32)
    requires
        g.state == GameState::Pause,
        !(g.input_buffer + inputs).contains(Input::Pause),
    ensures
        g.ticked(inputs, delta_ms).state == GameState::Pause,
        g.ticked(inputs, delta_ms).board == g.board,
        g.ticked(inputs, delta_ms).score == g.score,
{
}

/// A hard drop ends the input step in the merge step, whatever gravity is due; the inputs
/// before it still apply.
pub proof fn lemma_hard_drop_goes_to_merge(g: GameModel)
    requires
        g.state == GameState::TakeInput,
        g.input_buffer.len() > 0,
        g.input_buffer[0] == Input::HardDrop,
    ensures
        g.stepped().state == GameState::MergeShape,
        g.stepped().board == g.board.hard_dropped(),
{
    reveal(input_effect);
}

/// Gravity never increases from one level to the next, and it strictly decreases while it is
/// positive.
pub proof fn lemma_gravity_decreases(level: nat)
    ensures
        gravity(level + 1) <= gravity(level),
        gravity(level) > 0 ==> gravity(level + 1) < gravity(level),
{
    crate::game::lemma_gravity_bounds(level);
    let t = gravity(level);
    assert(gravity(level + 1) == t * 85 / 100);
    assert(t * 85 / 100 <= t) by (nonlinear_arith)
        requires
            t >= 0,
    ;
    assert(t > 0 ==> t * 85 / 100 < t) by (nonlinear_arith)
        requires
            t >= 0,
    ;
}

/// Gravity at a level is at most its value at any lower level.
pub proof fn lemma_gravity_monotone(lo: nat, hi: nat)
    requires
        lo <= hi,
    ensures
        gravity(hi) <= gravity(lo),
    decreases hi - lo,
{
    if lo < hi {
        lemma_gravity_decreases((hi - 1) as nat);
        lemma_gravity_monotone(lo, (hi - 1) as nat);
    }
}

/// From level one on, gravity is below its level-zero value.
pub proof fn lemma_gravity_below_base(level: nat)
    requires
        level >= 1,
    ensures
        gravity(level) < GRAVITY_TICK,
{
    lemma_gravity_decreases(0);
    lemma_gravity_monotone(1, level);
}

/// A tick keeps a game well formed, with no quit request buffered, as long as none arrives.
pub proof fn lemma_tick_keeps_wf(g: GameModel, inputs: Seq<Input>, delta_ms: u32)
    requires
        g.wf(),
        no_quit(inputs),
        g.tick_defined(inputs, delta_ms),
    ensures
        g.ticked(inputs, delta_ms).wf(),
{
    let t = g.with_tick(inputs, delta_ms);
    assert forall|i: int| 0 <= i < t.input_buffer.len() implies t.input_buffer[i]
        != Input::Quit by {
        if i >= g.input_buffer.len() {
            assert(t.input_buffer[i] == inputs[i - g.input_buffer.len()]);
        }
    }
    crate::game::lemma_step_keeps_wf(t);
}

} // verus!

verus! {

/// Inputs that arrive while the game is between input steps wait in the buffer, in order;
/// bringing in a new piece keeps only the pause requests among them.
pub proof fn lemma_inputs_wait_for_input_step(g: GameModel, inputs: Seq<Input>, delta_ms: u32)
    ensures
        (g.state == GameState::DropShape || g.state == GameState::MergeShape || g.state
            == GameState::CheckRows || g.state == GameState::CheckLevel) ==> g.ticked(
            inputs,
            delta_ms,
        ).input_buffer == g.input_buffer + inputs,
        g.state == GameState::MakeNewShape ==> g.ticked(inputs, delta_ms).input_buffer
            == crate::game::pauses_only(g.input_buffer + inputs),
{
}

/// Settling a piece without completing a row scores nothing.
pub proof fn lemma_no_full_row_no_points(g: GameModel)
    requires
        g.state == GameState::CheckRows,
        full_row_count(g.board.grid) == 0,
        g.step_defined(),
    ensures
        g.stepped().score == g.score,
        g.stepped().cleared_rows == g.cleared_rows,
{
}

} // verus!

verus! {

/// Each input does what it names to the active piece: a step left, right or down, a hard
/// drop that ends the step in the merge step, a turn either way, or a pause request that ends
/// the step and leaves the board as it is.
pub proof fn lemma_inputs_do_what_they_name(b: crate::board::BoardModel)
    ensures
        input_effect(b, Input::Left) == (b.moved(crate::board::Move::Left), None::<GameState>),
        input_effect(b, Input::Right) == (b.moved(crate::board::Move::Right), None::<GameState>),
        input_effect(b, Input::SoftDrop) == (b.moved(crate::board::Move::Drop), None::<GameState>),
        input_effect(b, Input::HardDrop) == (b.hard_dropped(), Some(GameState::MergeShape)),
        input_effect(b, Input::RotateCw) == (
            b.rotated(crate::board::Rotation::Clockwise),
            None::<GameState>,
        ),
        input_effect(b, Input::RotateCcw) == (
            b.rotated(crate::board::Rotation::AntiClockwise),
            None::<GameState>,
        ),
        input_effect(b, Input::Pause) == (b, Some(GameState::Pause)),
{
    reveal(input_effect);
}

/// A lone input in the input step moves the piece by one cell in its direction when the piece
/// fits there, and leaves it where it is otherwise: right adds one to the column, left takes one
/// away, a soft drop adds one to the row.
pub proof fn lemma_one_input_moves_one_cell(g: GameModel, input: Input)
    requires
        g.state == GameState::TakeInput,
        g.input_buffer == seq![input],
        g.board.active(),
        g.board.wf(),
        input == Input::Left || input == Input::Right || input == Input::SoftDrop,
    ensures
        ({
            let s = g.board.shape.unwrap();
            let p = g.board.shape_position.unwrap();
            let dx: int = if input == Input::Left {
                -1
            } else if input == Input::Right {
                1
            } else {
                0
            };
            let dy: int = if input == Input::SoftDrop {
                1
            } else {
                0
            };
            let q = Position { x: (p.x + dx) as isize, y: (p.y + dy) as isize };
            &&& q.x == p.x + dx && q.y == p.y + dy
            &&& g.stepped().board.shape == g.board.shape
            &&& g.stepped().board.grid == g.board.grid
            &&& g.stepped().board.shape_position == Some(
                if crate::board::fits(g.board.grid, s, q) {
                    q
                } else {
                    p
                },
            )
            &&& g.stepped().input_buffer.len() == 0
        }),
{
    reveal(input_effect);
    crate::board_laws::lemma_steps_move_one_cell(g.board);
    reveal_with_fuel(apply_inputs, 2);
    let rest = g.input_buffer.drop_first();
    assert(g.input_buffer[0] == input);
    assert(rest.len() == 0);
    assert(apply_inputs(g.board, g.input_buffer) == (input_effect(g.board, input).0, None::<
        GameState,
    >));
}

/// A tick adds the elapsed time to the clock before its step; only a gravity step restarts the
/// clock. In the input step without inputs, gravity becomes due exactly when the time gathered
/// since the last gravity step exceeds the gravity tick.
pub proof fn lemma_tick_gathers_time(g: GameModel, inputs: Seq<Input>, delta_ms: u32)
    requires
        g.clock + delta_ms <= u32::MAX,
    ensures
        g.with_tick(inputs, delta_ms).clock == g.clock + delta_ms,
        g.with_tick(inputs, delta_ms).input_buffer == g.input_buffer + inputs,
        g.state != GameState::DropShape ==> g.ticked(inputs, delta_ms).clock == g.clock
            + delta_ms,
        g.state == GameState::DropShape ==> g.ticked(inputs, delta_ms).clock == 0,
        (g.state == GameState::TakeInput && g.input_buffer.len() == 0 && inputs.len() == 0) ==> (
        g.ticked(inputs, delta_ms).state == GameState::DropShape <==> g.clock + delta_ms
            > g.gravity_tick),
        (g.state == GameState::TakeInput && g.input_buffer.len() == 0 && inputs.len() == 0) ==> (
        g.ticked(inputs, delta_ms).state == GameState::TakeInput <==> g.clock + delta_ms
            <= g.gravity_tick),
{
    let t = g.with_tick(inputs, delta_ms);
    if g.state == GameState::TakeInput && g.input_buffer.len() == 0 && inputs.len() == 0 {
        assert(t.input_buffer.len() == 0);
    }
}

} // verus!

verus! {

/// A gravity step moves the piece one row down when it fits there and goes back to the input
/// step; when it does not fit the piece has landed and the next step merges it.
pub proof fn lemma_gravity_step(g: GameModel)
    requires
        g.state == GameState::DropShape,
        g.board.active(),
        g.board.wf(),
    ensures
        ({
            let s = g.board.shape.unwrap();
            let p = g.board.shape_position.unwrap();
            let down = Position { x: p.x, y: (p.y + 1) as isize };
            &&& down.y == p.y + 1
            &&& crate::board::fits(g.board.grid, s, down) ==> g.stepped().state
                == GameState::TakeInput && g.stepped().board.shape_position == Some(down)
            &&& !crate::board::fits(g.board.grid, s, down) ==> g.stepped().state
                == GameState::MergeShape && g.stepped().board == g.board
            &&& g.stepped().clock == 0
        }),
{
    crate::board_laws::lemma_steps_move_one_cell(g.board);
}

/// A paused game resumes on a pause request, dropping every buffered input.
pub proof fn lemma_pause_resumes(g: GameModel, inputs: Seq<Input>, delta_ms: u32)
    requires
        g.state == GameState::Pause,
        (g.input_buffer + inputs).contains(Input::Pause),
    ensures
        g.ticked(inputs, delta_ms).state == GameState::TakeInput,
        g.ticked(inputs, delta_ms).board == g.board,
        g.ticked(inputs, delta_ms).input_buffer.len() == 0,
{
}

} // verus!
