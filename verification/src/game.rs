//! The game loop as a state machine: each tick buffers the inputs, advances the clock and takes
//! one step.
use vstd::prelude::*;

use crate::board::{
    full_row_count, grid_of, ghost_cells, Board, BoardModel, DropOutcome, Move, Rotation,
    SpawnOutcome,
};
use crate::input::Input;
use crate::random::{get_random_shape_type, next_state, shape_of_state};
use crate::{Frame, GRAVITY_TICK};

verus! {

/// Rows to clear for each new level.
pub const ROWS_PER_LEVEL: u32 = 10;

/// Milliseconds between gravity steps at a level: 85% of the previous level's, rounded down.
pub open spec fn gravity(level: nat) -> int
    decreases level,
{
    if level == 0 {
        GRAVITY_TICK as int
    } else {
        gravity((level - 1) as nat) * 85 / 100
    }
}

/// Points for clearing `cleared_rows` rows at once, before the level bonus.
pub open spec fn base_score(cleared_rows: int) -> int {
    if cleared_rows == 1 {
        100
    } else if cleared_rows == 2 {
        300
    } else if cleared_rows == 3 {
        500
    } else if cleared_rows == 4 {
        800
    } else {
        0
    }
}

/// Points for clearing `cleared_rows` rows at once at `level`.
pub open spec fn score_for(level: int, cleared_rows: int) -> int {
    base_score(cleared_rows) * (level + 1)
}

/// Gravity stays between zero and its level-zero value.
pub proof fn lemma_gravity_bounds(level: nat)
    ensures
        0 <= gravity(level) <= GRAVITY_TICK,
    decreases level,
{
    if level > 0 {
        lemma_gravity_bounds((level - 1) as nat);
    }
}

/// Milliseconds between gravity steps at `level`.
pub fn get_gravity(level: u32) -> (tick: u32)
    ensures
        tick == gravity(level as nat),
{
    let mut tick: u32 = GRAVITY_TICK;
    let mut i: u32 = 0;
    while i < level
        invariant
            0 <= i <= level,
            tick == gravity(i as nat),
            tick <= GRAVITY_TICK,
        decreases level - i,
    {
        proof {
            lemma_gravity_bounds((i + 1) as nat);
        }
        tick = tick * 85 / 100;
        i += 1;
    }
    tick
}

/// Points for clearing `cleared_rows` rows at once at `level`.
pub fn get_score(level: u32, cleared_rows: u32) -> (score: u32)
    requires
        cleared_rows <= 4,
        level < u32::MAX,
        score_for(level as int, cleared_rows as int) <= u32::MAX,
    ensures
        score == score_for(level as int, cleared_rows as int),
{
    let base_score: u32 = match cleared_rows {
        0 => 0,
        1 => 100,
        2 => 300,
        3 => 500,
        _ => 800,
    };
    base_score * (level + 1)
}

#[derive(Debug, Clone, Copy, PartialEq, Eq, Structural)]
pub enum GameState {
    MakeNewShape,
    MergeShape,
    DropShape,
    TakeInput,
    CheckRows,
    GameOver,
    CheckLevel,
    Pause,
}

/// The whole game: the board, the step it is at, the time since the last gravity step, the
/// piece generator, the inputs not yet handled, and the progress of the player.
pub struct Game {
    pub board: Board,
    pub state: GameState,
    pub clock: u32,
    pub shape_state: u64,
    pub input_buffer: Vec<Input>,
    pub level: u32,
    pub gravity_tick: u32,
    pub cleared_rows: u32,
    pub score: u32,
}

/// The mathematical content of a game.
pub struct GameModel {
    pub board: BoardModel,
    pub state: GameState,
    pub clock: u32,
    pub shape_state: u64,
    pub input_buffer: Seq<Input>,
    pub level: u32,
    pub gravity_tick: u32,
    pub cleared_rows: u32,
    pub score: u32,
}

impl View for Game {
    type V = GameModel;

    open spec fn view(&self) -> GameModel {
        GameModel {
            board: self.board@,
            state: self.state,
            clock: self.clock,
            shape_state: self.shape_state,
            input_buffer: self.input_buffer@,
            level: self.level,
            gravity_tick: self.gravity_tick,
            cleared_rows: self.cleared_rows,
            score: self.score,
        }
    }
}

/// The pause requests among the inputs, in order.
pub open spec fn pauses_only(s: Seq<Input>) -> Seq<Input>
    decreases s.len(),
{
    if s.len() == 0 {
        s
    } else if s.last() == Input::Pause {
        pauses_only(s.drop_last()).push(Input::Pause)
    } else {
        pauses_only(s.drop_last())
    }
}

/// Whether no input asks to quit.
pub open spec fn no_quit(s: Seq<Input>) -> bool {
    forall|i: int| 0 <= i < s.len() ==> s[i] != Input::Quit
}

/// What one input does to the board, and the step it ends with, if it ends one.
#[verifier::opaque]
pub open spec fn input_effect(b: BoardModel, input: Input) -> (BoardModel, Option<GameState>) {
    match input {
        Input::Pause => (b, Some(GameState::Pause)),
        Input::HardDrop => (b.hard_dropped(), Some(GameState::MergeShape)),
        Input::Left => (b.moved(Move::Left), None),
        Input::Right => (b.moved(Move::Right), None),
        Input::SoftDrop => (b.moved(Move::Drop), None),
        Input::RotateCcw => (b.rotated(Rotation::AntiClockwise), None),
        Input::RotateCw => (b.rotated(Rotation::Clockwise), None),
        Input::Quit => (b, None),
    }
}

/// Applies buffered inputs to the board in order, until a pause request or a hard drop ends
/// the step; returns the board and the step that ended it, if one did.
pub open spec fn apply_inputs(b: BoardModel, s: Seq<Input>) -> (BoardModel, Option<GameState>)
    decreases s.len(),
{
    if s.len() == 0 {
        (b, None)
    } else {
        let (b1, ended) = input_effect(b, s[0]);
        if ended is Some {
            (b1, ended)
        } else {
            apply_inputs(b1, s.drop_first())
        }
    }
}

/// Whether applying one input is defined: it must not ask to quit, and a move or turn needs an
/// active piece whose new cells can be computed within `isize`.
pub open spec fn input_defined(b: BoardModel, input: Input) -> bool {
    match input {
        Input::Pause => true,
        Input::Quit => false,
        Input::HardDrop => b.can_move(Move::Drop),
        Input::Left => b.can_move(Move::Left),
        Input::Right => b.can_move(Move::Right),
        Input::SoftDrop => b.can_move(Move::Drop),
        Input::RotateCcw => b.can_rotate(Rotation::AntiClockwise),
        Input::RotateCw => b.can_rotate(Rotation::Clockwise),
    }
}

/// Whether applying the inputs in order is defined, up to the one that ends the step.
pub open spec fn inputs_defined(b: BoardModel, s: Seq<Input>) -> bool
    decreases s.len(),
{
    if s.len() == 0 {
        true
    } else {
        let (b1, ended) = input_effect(b, s[0]);
        input_defined(b, s[0]) && (ended is None ==> inputs_defined(b1, s.drop_first()))
    }
}

impl GameModel {
    /// The game with its step replaced.
    pub open spec fn with_state(self, state: GameState) -> GameModel {
        GameModel { state, ..self }
    }

    /// The well-formedness of a game: a well-formed board, and no quit request buffered.
    pub open spec fn wf(self) -> bool {
        &&& self.board.wf()
        &&& no_quit(self.input_buffer)
    }

    /// The piece that the generator gives next.
    pub open spec fn next_shape(self) -> crate::shape::ShapeType {
        shape_of_state(next_state(self.shape_state))
    }

    /// Bringing in the next piece: only pause requests stay buffered; the game is over when the
    /// piece finds no room.
    pub open spec fn after_make_new_shape(self) -> GameModel {
        let t = self.next_shape();
        GameModel {
            shape_state: next_state(self.shape_state),
            input_buffer: pauses_only(self.input_buffer),
            board: self.board.spawned(t),
            state: match self.board.spawn_outcome(t) {
                SpawnOutcome::Spawned => GameState::TakeInput,
                SpawnOutcome::FullBoard => GameState::GameOver,
            },
            ..self
        }
    }

    /// A gravity step: the clock restarts and the piece moves down one row, or has landed.
    pub open spec fn after_drop_shape(self) -> GameModel {
        GameModel {
            clock: 0,
            board: self.board.moved(Move::Drop),
            state: match self.board.drop_outcome() {
                DropOutcome::Landed => GameState::MergeShape,
                DropOutcome::Dropped => GameState::TakeInput,
            },
            ..self
        }
    }

    /// The active piece settles into the grid.
    pub open spec fn after_merge_shape(self) -> GameModel {
        GameModel { board: self.board.merged(), state: GameState::CheckRows, ..self }
    }

    /// Full rows are cleared, scored and counted.
    pub open spec fn after_check_rows(self) -> GameModel {
        let k = full_row_count(self.board.grid);
        GameModel {
            board: self.board.rows_checked(),
            score: (self.score + score_for(self.level as int, k as int)) as u32,
            cleared_rows: (self.cleared_rows + k) as u32,
            state: GameState::CheckLevel,
            ..self
        }
    }

    /// The level follows the cleared rows, and gravity follows the level.
    pub open spec fn after_check_level(self) -> GameModel {
        let new_level = self.cleared_rows / ROWS_PER_LEVEL;
        if new_level != self.level {
            GameModel {
                level: new_level,
                gravity_tick: gravity(new_level as nat) as u32,
                state: GameState::MakeNewShape,
                ..self
            }
        } else {
            GameModel { state: GameState::MakeNewShape, ..self }
        }
    }

    /// Buffered inputs move the piece; a pause request or a hard drop ends the step; otherwise
    /// gravity is due once the clock has passed the gravity tick. The buffer ends up empty.
    pub open spec fn after_take_input(self) -> GameModel {
        let (b, ended) = apply_inputs(self.board, self.input_buffer);
        GameModel {
            board: b,
            input_buffer: Seq::empty(),
            state: match ended {
                Some(s) => s,
                None => if self.clock > self.gravity_tick {
                    GameState::DropShape
                } else {
                    GameState::TakeInput
                },
            },
            ..self
        }
    }

    /// A pause request resumes the game; every buffered input is dropped.
    pub open spec fn after_pause(self) -> GameModel {
        GameModel {
            input_buffer: Seq::empty(),
            state: if self.input_buffer.contains(Input::Pause) {
                GameState::TakeInput
            } else {
                GameState::Pause
            },
            ..self
        }
    }

    /// The game stays over and drops every buffered input.
    pub open spec fn after_game_over(self) -> GameModel {
        GameModel { input_buffer: Seq::empty(), state: GameState::GameOver, ..self }
    }

    /// One step of the state machine.
    pub open spec fn stepped(self) -> GameModel {
        match self.state {
            GameState::DropShape => self.after_drop_shape(),
            GameState::MakeNewShape => self.after_make_new_shape(),
            GameState::CheckRows => self.after_check_rows(),
            GameState::TakeInput => self.after_take_input(),
            GameState::MergeShape => self.after_merge_shape(),
            GameState::Pause => self.after_pause(),
            GameState::GameOver => self.after_game_over(),
            GameState::CheckLevel => self.after_check_level(),
        }
    }

    /// Whether the current step is defined: a move needs an active piece whose cells can be
    /// computed within `isize`, merging needs the piece on the board, the buffered inputs must
    /// not ask to quit before the step ends, and scoring must stay within `u32`.
    pub open spec fn step_defined(self) -> bool {
        &&& self.state == GameState::DropShape ==> self.board.can_move(Move::Drop)
        &&& self.state == GameState::MergeShape ==> self.board.piece_on_board()
        &&& self.state == GameState::TakeInput ==> inputs_defined(self.board, self.input_buffer)
        &&& self.state == GameState::CheckRows ==> {
            let k = full_row_count(self.board.grid);
            &&& k <= 4
            &&& self.level < u32::MAX
            &&& self.score + score_for(self.level as int, k as int) <= u32::MAX
            &&& self.cleared_rows + k <= u32::MAX
        }
    }

    /// The game after the inputs are buffered and the clock advanced, before the step.
    pub open spec fn with_tick(self, inputs: Seq<Input>, delta_ms: u32) -> GameModel {
        GameModel {
            input_buffer: self.input_buffer + inputs,
            clock: (self.clock + delta_ms) as u32,
            ..self
        }
    }

    /// Whether a tick with these inputs is defined.
    pub open spec fn tick_defined(self, inputs: Seq<Input>, delta_ms: u32) -> bool {
        &&& self.clock + delta_ms <= u32::MAX
        &&& self.with_tick(inputs, delta_ms).step_defined()
    }

    /// One tick: buffer the inputs, advance the clock, take one step.
    pub open spec fn ticked(self, inputs: Seq<Input>, delta_ms: u32) -> GameModel {
        self.with_tick(inputs, delta_ms).stepped()
    }
}

/// The game at its start: an empty board, about to bring in the first piece.
pub open spec fn initial_game(shape_state: u64) -> GameModel {
    GameModel {
        board: crate::board::empty_board(),
        state: GameState::MakeNewShape,
        clock: 0,
        shape_state,
        input_buffer: Seq::empty(),
        level: 0,
        gravity_tick: GRAVITY_TICK,
        cleared_rows: 0,
        score: 0,
    }
}

} // verus!

verus! {

impl Default for Game {
    fn default() -> (game: Self)
        ensures
            game@ == initial_game(1),
    {
        Self {
            board: Board::default(),
            state: GameState::MakeNewShape,
            clock: 0,
            shape_state: 1,
            input_buffer: Vec::new(),
            level: 0,
            gravity_tick: GRAVITY_TICK,
            cleared_rows: 0,
            score: 0,
        }
    }
}

impl Game {
    /// A new game whose piece generator starts from `state`.
    pub fn new(state: u64) -> (game: Self)
        ensures
            game@ == initial_game(state),
    {
        Game { shape_state: state, ..Default::default() }
    }

    /// A new game that starts at `level`, as if its rows had already been cleared.
    pub fn new_at_level(shape_state: u64, level: u32) -> (game: Self)
        requires
            ROWS_PER_LEVEL * level <= u32::MAX,
        ensures
            game@ == (GameModel {
                level,
                cleared_rows: (ROWS_PER_LEVEL * level) as u32,
                gravity_tick: gravity(level as nat) as u32,
                ..initial_game(shape_state)
            }),
    {
        Game {
            shape_state,
            level,
            cleared_rows: ROWS_PER_LEVEL * level,
            gravity_tick: get_gravity(level),
            ..Default::default()
        }
    }

    /// Brings in the next piece; returns the step that follows.
    pub fn make_new_shape(&mut self) -> (next: GameState)
        ensures
            final(self)@.with_state(next) == old(self)@.after_make_new_shape(),
            final(self).state == old(self).state,
    {
        let shape_type = get_random_shape_type(&mut self.shape_state);
        let mut kept: Vec<Input> = Vec::new();
        let mut i: usize = 0;
        while i < self.input_buffer.len()
            invariant
                0 <= i <= self.input_buffer@.len(),
                kept@ == pauses_only(self.input_buffer@.take(i as int)),
            decreases self.input_buffer@.len() - i,
        {
            assert(self.input_buffer@.take(i + 1).drop_last() =~= self.input_buffer@.take(i as int));
            if self.input_buffer[i] == Input::Pause {
                kept.push(Input::Pause);
            }
            i += 1;
        }
        assert(self.input_buffer@.take(self.input_buffer@.len() as int) =~= self.input_buffer@);
        self.input_buffer = kept;
        match self.board.add_new_shape(shape_type) {
            SpawnOutcome::Spawned => GameState::TakeInput,
            SpawnOutcome::FullBoard => GameState::GameOver,
        }
    }

    /// Moves the active piece one row down by gravity; returns the step that follows.
    pub fn drop_shape(&mut self) -> (next: GameState)
        requires
            old(self)@.board.can_move(Move::Drop),
        ensures
            final(self)@.with_state(next) == old(self)@.after_drop_shape(),
            final(self).state == old(self).state,
    {
        self.clock = 0;
        match self.board.drop_shape() {
            DropOutcome::Landed => GameState::MergeShape,
            DropOutcome::Dropped => GameState::TakeInput,
        }
    }

    fn merge_shape(&mut self) -> (next: GameState)
        requires
            old(self)@.board.piece_on_board(),
        ensures
            final(self)@.with_state(next) == old(self)@.after_merge_shape(),
            final(self).state == old(self).state,
    {
        self.board.merge_shape();
        GameState::CheckRows
    }

    fn check_rows(&mut self) -> (next: GameState)
        requires
            full_row_count(old(self)@.board.grid) <= 4,
            old(self).level < u32::MAX,
            old(self).score + score_for(
                old(self).level as int,
                full_row_count(old(self)@.board.grid) as int,
            ) <= u32::MAX,
            old(self).cleared_rows + full_row_count(old(self)@.board.grid) <= u32::MAX,
        ensures
            final(self)@.with_state(next) == old(self)@.after_check_rows(),
            final(self).state == old(self).state,
    {
        let cleared_rows = self.board.check_rows();
        self.score += get_score(self.level, cleared_rows);
        self.cleared_rows += cleared_rows;
        GameState::CheckLevel
    }

    fn check_level(&mut self) -> (next: GameState)
        ensures
            final(self)@.with_state(next) == old(self)@.after_check_level(),
            final(self).state == old(self).state,
    {
        let new_level = self.cleared_rows / ROWS_PER_LEVEL;
        if new_level != self.level {
            self.level = new_level;
            self.gravity_tick = get_gravity(self.level);
        }
        GameState::MakeNewShape
    }

    fn take_input(&mut self) -> (next: GameState)
        requires
            inputs_defined(old(self)@.board, old(self)@.input_buffer),
        ensures
            final(self)@.with_state(next) == old(self)@.after_take_input(),
            final(self).state == old(self).state,
    {
        let ghost buf = self.input_buffer@;
        let ghost b0 = self.board@;
        let n = self.input_buffer.len();
        let mut i: usize = 0;
        assert(buf.skip(0) =~= buf);
        while i < n
            invariant
                n == buf.len(),
                buf == old(self).input_buffer@,
                b0 == old(self)@.board,
                0 <= i <= n,
                inputs_defined(self.board@, buf.skip(i as int)),
                apply_inputs(b0, buf) == apply_inputs(self.board@, buf.skip(i as int)),
                self@ == (GameModel { board: self.board@, ..old(self)@ }),
            decreases n - i,
        {
            assert(self.input_buffer@ == buf);
            let input = self.input_buffer[i];
            let ghost before = self.board@;
            proof {
                lemma_apply_inputs_step(before, buf, i as int);
                assert(input == buf[i as int]);
            }
            let ended = handle_input(&mut self.board, input);
            if let Some(e) = ended {
                self.input_buffer.clear();
                return e;
            }
            i += 1;
        }
        self.input_buffer.clear();
        if self.clock > self.gravity_tick {
            GameState::DropShape
        } else {
            GameState::TakeInput
        }
    }

    fn pause(&mut self) -> (next: GameState)
        ensures
            final(self)@.with_state(next) == old(self)@.after_pause(),
            final(self).state == old(self).state,
    {
        let n = self.input_buffer.len();
        let mut i: usize = 0;
        while i < n
            invariant
                n == self.input_buffer@.len(),
                self@ == old(self)@,
                0 <= i <= n,
                forall|j: int| 0 <= j < i ==> self.input_buffer@[j] != Input::Pause,
            decreases n - i,
        {
            if self.input_buffer[i] == Input::Pause {
                assert(old(self)@.input_buffer.contains(Input::Pause));
                self.input_buffer.clear();
                return GameState::TakeInput;
            }
            i += 1;
        }
        assert(!old(self)@.input_buffer.contains(Input::Pause));
        self.input_buffer.clear();
        GameState::Pause
    }

    fn game_over(&mut self) -> (next: GameState)
        ensures
            final(self)@.with_state(next) == old(self)@.after_game_over(),
            final(self).state == old(self).state,
    {
        self.input_buffer.clear();
        GameState::GameOver
    }
}

} // verus!

verus! {

proof fn lemma_apply_inputs_step(b: BoardModel, buf: Seq<Input>, i: int)
    requires
        0 <= i < buf.len(),
    ensures
        apply_inputs(b, buf.skip(i)) == (if input_effect(b, buf[i]).1 is Some {
            input_effect(b, buf[i])
        } else {
            apply_inputs(input_effect(b, buf[i]).0, buf.skip(i + 1))
        }),
        inputs_defined(b, buf.skip(i)) == (input_defined(b, buf[i]) && (input_effect(
            b,
            buf[i],
        ).1 is None ==> inputs_defined(input_effect(b, buf[i]).0, buf.skip(i + 1)))),
{
    assert(buf.skip(i)[0] == buf[i]);
    assert(buf.skip(i).drop_first() =~= buf.skip(i + 1));
}

/// Applies one input to the board.
fn handle_input(board: &mut Board, input: Input) -> (ended: Option<GameState>)
    requires
        input_defined(old(board)@, input),
    ensures
        (final(board)@, ended) == input_effect(old(board)@, input),
{
    proof {
        reveal(input_effect);
    }
    match input {
        Input::Pause => Some(GameState::Pause),
        Input::Left => {
            board.move_shape(Move::Left);
            None
        },
        Input::Right => {
            board.move_shape(Move::Right);
            None
        },
        Input::SoftDrop => {
            board.move_shape(Move::Drop);
            None
        },
        Input::RotateCcw => {
            board.rotate_shape(Rotation::AntiClockwise);
            None
        },
        Input::RotateCw => {
            board.rotate_shape(Rotation::Clockwise);
            None
        },
        Input::HardDrop => {
            board.hard_drop();
            Some(GameState::MergeShape)
        },
        Input::Quit => None,
    }
}

} // verus!

verus! {

/// Keeping only pause requests keeps no quit request.
pub proof fn lemma_pauses_only(s: Seq<Input>)
    ensures
        no_quit(pauses_only(s)),
        forall|i: int| 0 <= i < pauses_only(s).len() ==> pauses_only(s)[i] == Input::Pause,
    decreases s.len(),
{
    if s.len() > 0 {
        lemma_pauses_only(s.drop_last());
    }
}

/// Applying inputs keeps a board well formed.
pub proof fn lemma_apply_inputs_wf(b: BoardModel, s: Seq<Input>)
    requires
        b.wf(),
        inputs_defined(b, s),
    ensures
        apply_inputs(b, s).0.wf(),
    decreases s.len(),
{
    reveal(input_effect);
    if s.len() > 0 && s[0] != Input::Pause {
        crate::board_laws::lemma_operations_keep_wf(
            b,
            crate::shape::ShapeType::I,
            Move::Left,
            Rotation::Clockwise,
        );
        crate::board_laws::lemma_operations_keep_wf(
            b,
            crate::shape::ShapeType::I,
            Move::Right,
            Rotation::AntiClockwise,
        );
        crate::board_laws::lemma_operations_keep_wf(
            b,
            crate::shape::ShapeType::I,
            Move::Drop,
            Rotation::AntiClockwise,
        );
        let (b1, ended) = input_effect(b, s[0]);
        if ended is None {
            lemma_apply_inputs_wf(b1, s.drop_first());
        }
    }
}

/// On a well-formed board with an active piece, inputs without a quit request can always be
/// applied.
pub proof fn lemma_wf_inputs_defined(b: BoardModel, s: Seq<Input>)
    requires
        b.wf(),
        no_quit(s),
        (s.len() > 0 && s[0] != Input::Pause) ==> b.active(),
    ensures
        inputs_defined(b, s),
    decreases s.len(),
{
    reveal(input_effect);
    if s.len() > 0 && s[0] != Input::Pause {
        let p = b.shape_position.unwrap();
        let sh = b.shape.unwrap();
        crate::board::lemma_on_board_in_range(sh, p, Move::Left, Rotation::Clockwise);
        crate::board::lemma_on_board_in_range(sh, p, Move::Right, Rotation::AntiClockwise);
        crate::board::lemma_on_board_in_range(sh, p, Move::Drop, Rotation::AntiClockwise);
        crate::board_laws::lemma_operations_keep_wf(b, crate::shape::ShapeType::I, Move::Left, Rotation::Clockwise);
        crate::board_laws::lemma_operations_keep_wf(b, crate::shape::ShapeType::I, Move::Right, Rotation::AntiClockwise);
        crate::board_laws::lemma_operations_keep_wf(b, crate::shape::ShapeType::I, Move::Drop, Rotation::AntiClockwise);
        let (b1, ended) = input_effect(b, s[0]);
        if ended is None {
            let rest = s.drop_first();
            assert forall|i: int| 0 <= i < rest.len() implies rest[i] != Input::Quit by {
                assert(rest[i] == s[i + 1]);
            }
            assert(b1.active());
            lemma_wf_inputs_defined(b1, rest);
        }
    }
}

/// Every step that is defined keeps a game well formed.
pub proof fn lemma_step_keeps_wf(g: GameModel)
    requires
        g.wf(),
        g.step_defined(),
    ensures
        g.stepped().wf(),
{
    crate::board_laws::lemma_operations_keep_wf(
        g.board,
        g.next_shape(),
        Move::Drop,
        Rotation::Clockwise,
    );
    lemma_pauses_only(g.input_buffer);
    if g.state == GameState::TakeInput {
        lemma_apply_inputs_wf(g.board, g.input_buffer);
    }
}

/// A well-formed game can take its step whenever it has an active piece where the step moves
/// one, and scoring stays within `u32`.
pub proof fn lemma_wf_step_defined(g: GameModel)
    requires
        g.wf(),
        g.state == GameState::DropShape ==> g.board.active(),
        (g.state == GameState::TakeInput && g.input_buffer.len() > 0 && g.input_buffer[0]
            != Input::Pause) ==> g.board.active(),
        g.state == GameState::CheckRows ==> {
            let k = full_row_count(g.board.grid);
            &&& k <= 4
            &&& g.level < u32::MAX
            &&& g.score + score_for(g.level as int, k as int) <= u32::MAX
            &&& g.cleared_rows + k <= u32::MAX
        },
    ensures
        g.step_defined(),
{
    if g.board.active() {
        crate::board::lemma_on_board_in_range(
            g.board.shape.unwrap(),
            g.board.shape_position.unwrap(),
            Move::Drop,
            Rotation::Clockwise,
        );
    }
    if g.state == GameState::TakeInput {
        lemma_wf_inputs_defined(g.board, g.input_buffer);
    }
}

impl Game {
    fn step_state(&mut self)
        requires
            old(self)@.step_defined(),
        ensures
            final(self)@ == old(self)@.stepped(),
    {
        self.state = match self.state {
            GameState::DropShape => self.drop_shape(),
            GameState::MakeNewShape => self.make_new_shape(),
            GameState::CheckRows => self.check_rows(),
            GameState::TakeInput => self.take_input(),
            GameState::MergeShape => self.merge_shape(),
            GameState::Pause => self.pause(),
            GameState::GameOver => self.game_over(),
            GameState::CheckLevel => self.check_level(),
        }
    }

    /// Buffers the inputs, advances the clock by `delta_ms` and takes one step.
    pub fn tick(&mut self, inputs: &[Input], delta_ms: u32)
        requires
            old(self)@.tick_defined(inputs@, delta_ms),
        ensures
            final(self)@ == old(self)@.ticked(inputs@, delta_ms),
    {
        let mut i: usize = 0;
        while i < inputs.len()
            invariant
                0 <= i <= inputs@.len(),
                self@ == (GameModel {
                    input_buffer: old(self)@.input_buffer + inputs@.take(i as int),
                    ..old(self)@
                }),
            decreases inputs@.len() - i,
        {
            self.input_buffer.push(inputs[i]);
            assert(old(self)@.input_buffer + inputs@.take(i + 1) =~= (old(self)@.input_buffer
                + inputs@.take(i as int)).push(inputs@[i as int]));
            i += 1;
        }
        assert(inputs@.take(inputs@.len() as int) =~= inputs@);
        self.clock += delta_ms;
        self.step_state();
    }

    /// What a front end draws: the board with the active piece, the score, the level and the
    /// ghost.
    pub fn get_frame(&self) -> (frame: Frame)
        requires
            self@.board.piece_on_board(),
            (self.board.shape is Some && self.board.ghost_position is Some)
                ==> self.board.shape.unwrap().fits_at(self.board.ghost_position.unwrap()),
        ensures
            grid_of(frame.board) == self@.board.rendered(),
            frame.score == self.score,
            frame.level == self.level,
            match (self.board.shape, self.board.ghost_position) {
                (Some(s), Some(g)) => frame.ghost_piece is Some && frame.ghost_piece.unwrap()@
                    == ghost_cells(s, g),
                _ => frame.ghost_piece is None,
            },
    {
        let buffer = self.board.render_cells();
        Frame {
            board: buffer,
            score: self.score,
            level: self.level,
            ghost_piece: self.board.get_ghost(),
        }
    }
}

} // verus!

verus! {

/// Whether applying one input to the board is defined.
fn input_is_defined(board: &Board, input: Input) -> (ok: bool)
    ensures
        ok == input_defined(board@, input),
{
    match input {
        Input::Pause => true,
        Input::Quit => false,
        Input::HardDrop => board.can_move(Move::Drop),
        Input::SoftDrop => board.can_move(Move::Drop),
        Input::Left => board.can_move(Move::Left),
        Input::Right => board.can_move(Move::Right),
        Input::RotateCcw => board.can_rotate(Rotation::AntiClockwise),
        Input::RotateCw => board.can_rotate(Rotation::Clockwise),
    }
}

/// Whether applying the inputs in order to the board is defined, up to the one that ends the
/// step; the inputs are tried on a copy of the board.
fn inputs_are_defined(board: &Board, inputs: &Vec<Input>) -> (ok: bool)
    ensures
        ok == inputs_defined(board@, inputs@),
{
    let mut b = *board;
    let mut i: usize = 0;
    assert(inputs@.skip(0) =~= inputs@);
    while i < inputs.len()
        invariant
            0 <= i <= inputs@.len(),
            inputs_defined(board@, inputs@) == inputs_defined(b@, inputs@.skip(i as int)),
        decreases inputs@.len() - i,
    {
        proof {
            lemma_apply_inputs_step(b@, inputs@, i as int);
        }
        let input = inputs[i];
        if !input_is_defined(&b, input) {
            return false;
        }
        if handle_input(&mut b, input).is_some() {
            return true;
        }
        i += 1;
    }
    assert(inputs@.skip(i as int).len() == 0);
    true
}

impl Game {
    /// Whether a tick with these inputs is defined: the clock must not overflow, and the step
    /// must be defined once the inputs are buffered.
    pub fn tick_is_defined(&self, inputs: &[Input], delta_ms: u32) -> (defined: bool)
        ensures
            defined == self@.tick_defined(inputs@, delta_ms),
    {
        if delta_ms > u32::MAX - self.clock {
            return false;
        }
        match self.state {
            GameState::DropShape => self.board.can_move(Move::Drop),
            GameState::MergeShape => self.board.piece_is_on_board(),
            GameState::TakeInput => {
                let mut all: Vec<Input> = Vec::new();
                let mut j: usize = 0;
                while j < self.input_buffer.len()
                    invariant
                        0 <= j <= self.input_buffer@.len(),
                        all@ == self.input_buffer@.take(j as int),
                    decreases self.input_buffer@.len() - j,
                {
                    all.push(self.input_buffer[j]);
                    assert(self.input_buffer@.take(j + 1) =~= self.input_buffer@.take(
                        j as int,
                    ).push(self.input_buffer@[j as int]));
                    j += 1;
                }
                assert(self.input_buffer@.take(j as int) =~= self.input_buffer@);
                let mut i: usize = 0;
                while i < inputs.len()
                    invariant
                        0 <= i <= inputs@.len(),
                        all@ == self.input_buffer@ + inputs@.take(i as int),
                    decreases inputs@.len() - i,
                {
                    all.push(inputs[i]);
                    assert(self.input_buffer@ + inputs@.take(i + 1) =~= (self.input_buffer@
                        + inputs@.take(i as int)).push(inputs@[i as int]));
                    i += 1;
                }
                assert(inputs@.take(i as int) =~= inputs@);
                inputs_are_defined(&self.board, &all)
            },
            GameState::CheckRows => {
                let k = self.board.count_full_rows();
                if k > 4 || self.level == u32::MAX {
                    return false;
                }
                let base: u64 = match k {
                    0 => 0,
                    1 => 100,
                    2 => 300,
                    3 => 500,
                    _ => 800,
                };
                let points: u64 = base * (self.level as u64 + 1);
                assert(points == score_for(self.level as int, k as int)) by (nonlinear_arith)
                    requires
                        points == base * (self.level as u64 + 1),
                        base == base_score(k as int),
                ;
                points + self.score as u64 <= u32::MAX as u64 && self.cleared_rows as u64
                    + k as u64 <= u32::MAX as u64
            },
            _ => true,
        }
    }
}

} // verus!
