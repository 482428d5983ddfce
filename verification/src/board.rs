//! The playing field: settled cells, the active piece, its ghost, and the rules that move them.
use vstd::prelude::*;

use crate::shape::{Orientation, Position, Shape, ShapeType};
use crate::{COLS, ROWS};

verus! {

#[derive(Eq, PartialEq, Clone, Copy, Debug, Structural)]
enum MoveOutcome {
    Moved(Position),
    Failed,
}

#[derive(Eq, PartialEq, Copy, Clone, Debug, Structural)]
pub enum Move {
    Drop,
    Left,
    Right,
}

#[derive(Eq, PartialEq, Copy, Clone, Debug, Structural)]
pub enum Rotation {
    Clockwise,
    AntiClockwise,
}

#[derive(Eq, PartialEq, Clone, Copy, Debug, Structural)]
pub enum SpawnOutcome {
    Spawned,
    FullBoard,
}

#[derive(Eq, PartialEq, Clone, Copy, Debug, Structural)]
pub enum DropOutcome {
    Dropped,
    Landed,
}

/// The field: `cells[row][col]` is a settled cell; `shape` at `shape_position` is the active
/// piece, and `ghost_position` is where it would land.
#[derive(Eq, PartialEq, Clone, Copy, Debug)]
pub struct Board {
    pub shape: Option<Shape>,
    pub shape_position: Option<Position>,
    pub ghost_position: Option<Position>,
    pub cells: [[bool; COLS]; ROWS],
}

/// The mathematical content of a board: the grid is a sequence of rows, each a sequence of
/// columns.
pub struct BoardModel {
    pub shape: Option<Shape>,
    pub shape_position: Option<Position>,
    pub ghost_position: Option<Position>,
    pub grid: Seq<Seq<bool>>,
}

/// The grid of an array of rows.
pub open spec fn grid_of(cells: [[bool; COLS]; ROWS]) -> Seq<Seq<bool>> {
    cells@.map_values(|row: [bool; COLS]| row@)
}

/// Whether a grid has the board's dimensions.
pub open spec fn grid_shaped(g: Seq<Seq<bool>>) -> bool {
    &&& g.len() == ROWS
    &&& forall|r: int| 0 <= r < ROWS ==> (#[trigger] g[r]).len() == COLS
}

/// An empty row.
pub open spec fn blank_row() -> Seq<bool> {
    Seq::new(COLS as nat, |c: int| false)
}

/// An empty grid.
pub open spec fn blank_grid() -> Seq<Seq<bool>> {
    Seq::new(ROWS as nat, |r: int| blank_row())
}

/// Whether every cell of a row is settled.
pub open spec fn row_full(row: Seq<bool>) -> bool {
    forall|c: int| 0 <= c < row.len() ==> #[trigger] row[c]
}

/// The number of settled cells of a row.
pub open spec fn count_filled(row: Seq<bool>) -> nat
    decreases row.len(),
{
    if row.len() == 0 {
        0
    } else {
        count_filled(row.drop_last()) + if row.last() {
            1nat
        } else {
            0nat
        }
    }
}

/// The number of full rows of a grid.
pub open spec fn full_row_count(g: Seq<Seq<bool>>) -> nat
    decreases g.len(),
{
    if g.len() == 0 {
        0
    } else {
        full_row_count(g.drop_last()) + if row_full(g.last()) {
            1nat
        } else {
            0nat
        }
    }
}

/// The rows of a grid that are not full, in their order.
pub open spec fn kept_rows(g: Seq<Seq<bool>>) -> Seq<Seq<bool>>
    decreases g.len(),
{
    if g.len() == 0 {
        g
    } else if row_full(g.last()) {
        kept_rows(g.drop_last())
    } else {
        kept_rows(g.drop_last()).push(g.last())
    }
}

/// `n` empty rows.
pub open spec fn blank_rows(n: nat) -> Seq<Seq<bool>> {
    Seq::new(n, |r: int| blank_row())
}

/// The grid with every full row removed, the rows above falling down, and empty rows coming
/// in at the top.
pub open spec fn cleared(g: Seq<Seq<bool>>) -> Seq<Seq<bool>> {
    blank_rows(full_row_count(g)) + kept_rows(g)
}

/// Whether the board cell at column `x`, row `y` exists and is not settled.
pub open spec fn free(g: Seq<Seq<bool>>, x: int, y: int) -> bool {
    0 <= x < COLS && 0 <= y < ROWS && !g[y][x]
}

/// Whether the board cell at column `x`, row `y` exists.
pub open spec fn on_board(x: int, y: int) -> bool {
    0 <= x < COLS && 0 <= y < ROWS
}

/// Whether every position of the sequence is a free board cell.
pub open spec fn all_free(g: Seq<Seq<bool>>, ps: Seq<Position>) -> bool {
    forall|i: int| 0 <= i < ps.len() ==> free(g, (#[trigger] ps[i]).x as int, ps[i].y as int)
}

/// Whether the piece with its box corner at `pos` covers only existing board cells.
pub open spec fn lies_on_board(s: Shape, pos: Position) -> bool {
    forall|i: int|
        0 <= i < 4 ==> on_board(
            (#[trigger] s.cells()[i]).x + pos.x,
            s.cells()[i].y + pos.y,
        )
}

/// Whether the piece with its box corner at `pos` covers only free board cells.
pub open spec fn fits(g: Seq<Seq<bool>>, s: Shape, pos: Position) -> bool {
    forall|i: int|
        0 <= i < 4 ==> free(g, (#[trigger] s.cells()[i]).x + pos.x, s.cells()[i].y + pos.y)
}

/// Whether the piece covers the board cell at column `x`, row `y`.
pub open spec fn covers(s: Shape, pos: Position, x: int, y: int) -> bool {
    exists|i: int|
        0 <= i < 4 && (#[trigger] s.cells()[i]).x + pos.x == x && s.cells()[i].y + pos.y == y
}

/// The grid with the cells that the piece covers settled.
pub open spec fn stamped(g: Seq<Seq<bool>>, s: Shape, pos: Position) -> Seq<Seq<bool>> {
    Seq::new(
        ROWS as nat,
        |r: int| Seq::new(COLS as nat, |c: int| g[r][c] || covers(s, pos, c, r)),
    )
}

/// The position one row lower.
pub open spec fn below(pos: Position) -> Position {
    Position { x: pos.x, y: (pos.y + 1) as isize }
}

/// The position shifted by `dx` columns.
pub open spec fn shifted(pos: Position, dx: int) -> Position {
    Position { x: (pos.x + dx) as isize, y: pos.y }
}

/// Where the piece comes to rest when it falls straight down from `pos`.
pub open spec fn landing(g: Seq<Seq<bool>>, s: Shape, pos: Position) -> Position
    decreases ROWS - pos.y,
{
    if pos.y < ROWS && fits(g, s, below(pos)) {
        landing(g, s, below(pos))
    } else {
        pos
    }
}

} // verus!

verus! {

/// The shape of a piece after turning it.
pub open spec fn turned_shape(s: Shape, r: Rotation) -> Shape {
    match r {
        Rotation::Clockwise => Shape { orientation: s.orientation.clockwise(), ..s },
        Rotation::AntiClockwise => Shape { orientation: s.orientation.anti_clockwise(), ..s },
    }
}

/// The position one step away in the direction of the move.
pub open spec fn target(pos: Position, m: Move) -> Position {
    match m {
        Move::Left => Position { x: (pos.x - 1) as isize, y: pos.y },
        Move::Right => Position { x: (pos.x + 1) as isize, y: pos.y },
        Move::Drop => below(pos),
    }
}

/// The `i`-th sideways offset tried after a turn: 0, -1, 1, -2, 2, ...
pub open spec fn kick(i: int) -> int {
    if i % 2 == 1 {
        -((i + 1) / 2)
    } else {
        i / 2
    }
}

/// How many sideways offsets are tried after turning a piece of this type.
pub open spec fn kick_count(t: ShapeType) -> int {
    2 * (t.size() - 2) + 1
}

/// The first of the offsets `kick(i)`, ..., `kick(n - 1)` at which the piece fits.
pub open spec fn first_kick(g: Seq<Seq<bool>>, s: Shape, pos: Position, n: int, i: int) -> Option<
    int,
>
    decreases n - i,
{
    if i >= n {
        None
    } else if fits(g, s, shifted(pos, kick(i))) {
        Some(kick(i))
    } else {
        first_kick(g, s, pos, n, i + 1)
    }
}

/// The column at which a piece of this type appears.
pub open spec fn spawn_position(t: ShapeType) -> Position {
    Position { x: ((COLS - t.size()) / 2) as isize, y: 0 }
}

/// The offset of one step in the direction of the move.
pub open spec fn delta(m: Move) -> Position {
    match m {
        Move::Left => Position { x: -1isize, y: 0 },
        Move::Right => Position { x: 1, y: 0 },
        Move::Drop => Position { x: 0, y: 1 },
    }
}

/// Whether computing the cells of the piece one step away from `pos` stays within `isize`.
pub open spec fn step_in_range(s: Shape, pos: Position, m: Move) -> bool {
    pos.can_add(delta(m)) && s.fits_at(target(pos, m))
}

/// Whether computing the cells of the piece at each of the first `n` sideways offsets from
/// `pos` stays within `isize`.
pub open spec fn kicks_in_range(s: Shape, pos: Position, n: int) -> bool {
    forall|i: int| 0 <= i < n ==> #[trigger] kick_in_range(s, pos, i)
}

/// Whether computing the cells of the piece at the `i`-th sideways offset from `pos` stays
/// within `isize`.
pub open spec fn kick_in_range(s: Shape, pos: Position, i: int) -> bool {
    isize::MIN <= pos.x + kick(i) <= isize::MAX && s.fits_at(shifted(pos, kick(i)))
}

impl BoardModel {
    /// Whether the active piece, if any, lies on the board.
    pub open spec fn piece_on_board(self) -> bool {
        self.active() ==> lies_on_board(self.shape.unwrap(), self.shape_position.unwrap())
    }

    /// Whether there is an active piece whose step in the direction of the move can be
    /// computed within `isize`.
    pub open spec fn can_move(self, m: Move) -> bool {
        self.active() && step_in_range(self.shape.unwrap(), self.shape_position.unwrap(), m)
    }

    /// Whether there is an active piece whose turn, with every sideways offset, can be computed
    /// within `isize`.
    pub open spec fn can_rotate(self, r: Rotation) -> bool {
        &&& self.active()
        &&& kicks_in_range(
            turned_shape(self.shape.unwrap(), r),
            self.shape_position.unwrap(),
            kick_count(self.shape.unwrap().shape_type),
        )
    }

    /// Whether there is an active piece with a position.
    pub open spec fn active(self) -> bool {
        self.shape is Some && self.shape_position is Some
    }

    /// The well-formedness of a board: the active piece and its ghost lie on the board.
    pub open spec fn wf(self) -> bool {
        &&& grid_shaped(self.grid)
        &&& self.active() ==> lies_on_board(self.shape.unwrap(), self.shape_position.unwrap())
        &&& (self.shape is Some && self.ghost_position is Some) ==> lies_on_board(
            self.shape.unwrap(),
            self.ghost_position.unwrap(),
        )
    }

    /// The board after trying to bring a new piece of type `t` in at the top.
    pub open spec fn spawned(self, t: ShapeType) -> BoardModel {
        let s = Shape::new_spec(t, Orientation::North);
        let p = spawn_position(t);
        if fits(self.grid, s, p) {
            BoardModel {
                shape: Some(s),
                shape_position: Some(p),
                ghost_position: Some(landing(self.grid, s, p)),
                grid: self.grid,
            }
        } else {
            self
        }
    }

    /// Whether a new piece of type `t` finds room at the top.
    pub open spec fn spawn_outcome(self, t: ShapeType) -> SpawnOutcome {
        if fits(self.grid, Shape::new_spec(t, Orientation::North), spawn_position(t)) {
            SpawnOutcome::Spawned
        } else {
            SpawnOutcome::FullBoard
        }
    }

    /// The board with the ghost recomputed for the active piece standing at `pos`.
    pub open spec fn with_ghost(self, pos: Position) -> BoardModel {
        BoardModel {
            ghost_position: Some(landing(self.grid, self.shape.unwrap(), pos)),
            ..self
        }
    }

    /// The board after trying one step of the active piece.
    pub open spec fn moved(self, m: Move) -> BoardModel {
        let s = self.shape.unwrap();
        let t = target(self.shape_position.unwrap(), m);
        if fits(self.grid, s, t) {
            BoardModel { shape_position: Some(t), ..self }.with_ghost(t)
        } else {
            self
        }
    }

    /// Whether a step down fails, that is whether the active piece has landed.
    pub open spec fn drop_outcome(self) -> DropOutcome {
        if fits(self.grid, self.shape.unwrap(), below(self.shape_position.unwrap())) {
            DropOutcome::Dropped
        } else {
            DropOutcome::Landed
        }
    }

    /// The board after the active piece falls as far as it can; the ghost is gone.
    pub open spec fn hard_dropped(self) -> BoardModel {
        BoardModel {
            shape_position: Some(
                landing(self.grid, self.shape.unwrap(), self.shape_position.unwrap()),
            ),
            ghost_position: None,
            ..self
        }
    }

    /// The board after trying to turn the active piece, with the sideways offsets tried in
    /// order.
    pub open spec fn rotated(self, r: Rotation) -> BoardModel {
        let s = self.shape.unwrap();
        let p = self.shape_position.unwrap();
        let ns = turned_shape(s, r);
        match first_kick(self.grid, ns, p, kick_count(s.shape_type), 0) {
            Some(k) => BoardModel {
                shape: Some(ns),
                shape_position: Some(shifted(p, k)),
                ..self
            }.with_ghost(shifted(p, k)),
            None => self,
        }
    }

    /// The board after the active piece settles into the grid.
    pub open spec fn merged(self) -> BoardModel {
        if self.active() {
            BoardModel {
                shape: None,
                shape_position: None,
                ghost_position: None,
                grid: stamped(self.grid, self.shape.unwrap(), self.shape_position.unwrap()),
            }
        } else {
            self
        }
    }

    /// What the board shows: the settled cells and the active piece.
    pub open spec fn rendered(self) -> Seq<Seq<bool>> {
        if self.active() {
            stamped(self.grid, self.shape.unwrap(), self.shape_position.unwrap())
        } else {
            self.grid
        }
    }

    /// The board after its full rows are cleared.
    pub open spec fn rows_checked(self) -> BoardModel {
        BoardModel { grid: cleared(self.grid), ..self }
    }
}

impl View for Board {
    type V = BoardModel;

    open spec fn view(&self) -> BoardModel {
        BoardModel {
            shape: self.shape,
            shape_position: self.shape_position,
            ghost_position: self.ghost_position,
            grid: grid_of(self.cells),
        }
    }
}

} // verus!

verus! {

broadcast use vstd::array::group_array_axioms;

/// The empty board without an active piece.
pub open spec fn empty_board() -> BoardModel {
    BoardModel { shape: None, shape_position: None, ghost_position: None, grid: blank_grid() }
}

/// The ghost's board cells as (column, row) pairs.
pub open spec fn ghost_cells(s: Shape, ghost: Position) -> Seq<(usize, usize)> {
    s.cells_at_spec(ghost).map_values(|p: Position| (p.x as usize, p.y as usize))
}

/// The grid of an array holds the array's cells.
pub proof fn lemma_grid_of(cells: [[bool; COLS]; ROWS])
    ensures
        grid_shaped(grid_of(cells)),
        forall|r: int, c: int|
            0 <= r < ROWS && 0 <= c < COLS ==> #[trigger] grid_of(cells)[r][c] == cells[r][c],
{
}

/// A piece that lies on the board has its box corner near the board.
pub proof fn lemma_near_board(s: Shape, pos: Position)
    requires
        lies_on_board(s, pos),
    ensures
        -4 < pos.x < COLS,
        -4 < pos.y < ROWS,
        forall|i: int| 0 <= i < 4 ==> 0 <= (#[trigger] s.cells()[i]).x < 4 && 0 <= s.cells()[i].y < 4,
{
    crate::shape::lemma_piece_cells_distinct_in_box(s);
    assert(on_board(s.cells()[0].x + pos.x, s.cells()[0].y + pos.y));
}

/// A piece that fits lies on the board.
pub proof fn lemma_fits_lies(g: Seq<Seq<bool>>, s: Shape, pos: Position)
    requires
        fits(g, s, pos),
    ensures
        lies_on_board(s, pos),
{
    assert forall|i: int| 0 <= i < 4 implies on_board(
        (#[trigger] s.cells()[i]).x + pos.x,
        s.cells()[i].y + pos.y,
    ) by {
        assert(free(g, s.cells()[i].x + pos.x, s.cells()[i].y + pos.y));
    }
}

/// Checking the covered cells one by one is checking that the piece fits.
pub proof fn lemma_all_free_is_fits(g: Seq<Seq<bool>>, s: Shape, pos: Position)
    requires
        s.fits_at(pos),
    ensures
        all_free(g, s.cells_at_spec(pos)) == fits(g, s, pos),
{
    crate::shape::lemma_piece_cells_distinct_in_box(s);
    let ps = s.cells_at_spec(pos);
    assert forall|i: int| 0 <= i < 4 implies (#[trigger] ps[i]).x == s.cells()[i].x + pos.x
        && ps[i].y == s.cells()[i].y + pos.y by {
        assert(s.cells()[i].can_add(pos));
    }
    if all_free(g, ps) {
        assert forall|i: int| 0 <= i < 4 implies free(
            g,
            (#[trigger] s.cells()[i]).x + pos.x,
            s.cells()[i].y + pos.y,
        ) by {
            assert(free(g, ps[i].x as int, ps[i].y as int));
        }
    }
    if fits(g, s, pos) {
        assert forall|i: int| 0 <= i < ps.len() implies free(
            g,
            (#[trigger] ps[i]).x as int,
            ps[i].y as int,
        ) by {
            assert(free(g, s.cells()[i].x + pos.x, s.cells()[i].y + pos.y));
        }
    }
}

/// A piece on the board falls straight down to a place where it still lies on the board, and
/// where it fits unless it did not move.
pub proof fn lemma_landing(g: Seq<Seq<bool>>, s: Shape, pos: Position)
    requires
        lies_on_board(s, pos),
    ensures
        lies_on_board(s, landing(g, s, pos)),
        landing(g, s, pos).x == pos.x,
        landing(g, s, pos).y >= pos.y,
        landing(g, s, pos) == pos || fits(g, s, landing(g, s, pos)),
        !fits(g, s, below(landing(g, s, pos))),
    decreases ROWS - pos.y,
{
    lemma_near_board(s, pos);
    if pos.y < ROWS && fits(g, s, below(pos)) {
        lemma_fits_lies(g, s, below(pos));
        lemma_landing(g, s, below(pos));
    } else if pos.y >= ROWS {
        assert(!on_board(s.cells()[0].x + pos.x, s.cells()[0].y + pos.y));
    }
}

/// A piece that lies on the board can take any step, and turn with any sideways offset, within
/// `isize`.
pub proof fn lemma_on_board_in_range(s: Shape, pos: Position, m: Move, r: Rotation)
    requires
        lies_on_board(s, pos),
    ensures
        step_in_range(s, pos, m),
        kicks_in_range(turned_shape(s, r), pos, kick_count(s.shape_type)),
{
    lemma_near_board(s, pos);
    crate::shape::lemma_piece_cells_distinct_in_box(turned_shape(s, r));
    crate::shape::lemma_piece_cells_distinct_in_box(s);
    assert forall|i: int| 0 <= i < kick_count(s.shape_type) implies #[trigger] kick_in_range(
        turned_shape(s, r),
        pos,
        i,
    ) by {
        assert(-3 <= kick(i) <= 3);
    }
}

/// A piece falls straight down from `pos` to a place where it either did not move or fits.
pub proof fn lemma_landing_from(g: Seq<Seq<bool>>, s: Shape, pos: Position)
    requires
        step_in_range(s, pos, Move::Drop),
    ensures
        landing(g, s, pos).x == pos.x,
        landing(g, s, pos).y >= pos.y,
        landing(g, s, pos) == pos || (fits(g, s, landing(g, s, pos)) && lies_on_board(
            s,
            landing(g, s, pos),
        )),
        landing(g, s, pos) != pos ==> fits(g, s, below(pos)),
        landing(g, s, pos) == pos ==> !fits(g, s, below(pos)),
{
    if pos.y < ROWS && fits(g, s, below(pos)) {
        lemma_fits_lies(g, s, below(pos));
        lemma_landing(g, s, below(pos));
    } else if fits(g, s, below(pos)) {
        crate::shape::lemma_piece_cells_distinct_in_box(s);
        assert(free(g, s.cells()[0].x + below(pos).x, s.cells()[0].y + below(pos).y));
    }
}

impl Board {
    /// The active piece, if any.
    pub fn get_shape(&self) -> (shape: Option<Shape>)
        ensures
            shape == self.shape,
    {
        self.shape
    }

    /// The position of the active piece, if any.
    pub fn get_shape_pos(&self) -> (pos: Option<Position>)
        ensures
            pos == self.shape_position,
    {
        self.shape_position
    }

    fn is_valid_placement(&self, positions: &[Position]) -> (valid: bool)
        ensures
            valid == all_free(self@.grid, positions@),
    {
        proof {
            lemma_grid_of(self.cells);
        }
        let mut i: usize = 0;
        while i < positions.len()
            invariant
                0 <= i <= positions@.len(),
                grid_shaped(self@.grid),
                forall|r: int, c: int|
                    0 <= r < ROWS && 0 <= c < COLS ==> #[trigger] self@.grid[r][c]
                        == self.cells[r][c],
                forall|j: int|
                    0 <= j < i ==> free(
                        self@.grid,
                        (#[trigger] positions@[j]).x as int,
                        positions@[j].y as int,
                    ),
            decreases positions@.len() - i,
        {
            let pos = positions[i];
            if !(0 <= pos.x && pos.x < COLS as isize && 0 <= pos.y && pos.y < ROWS as isize) {
                return false;
            }
            if self.cells[pos.y as usize][pos.x as usize] {
                return false;
            }
            i += 1;
        }
        true
    }

    /// Sets one settled cell.
    pub fn set_cell(&mut self, row: usize, col: usize, value: bool)
        requires
            row < ROWS,
            col < COLS,
        ensures
            final(self)@ == (BoardModel {
                grid: old(self)@.grid.update(
                    row as int,
                    old(self)@.grid[row as int].update(col as int, value),
                ),
                ..old(self)@
            }),
    {
        self.cells[row][col] = value;
        proof {
            lemma_grid_of(self.cells);
            lemma_grid_of(old(self).cells);
            assert(self@.grid =~~= old(self)@.grid.update(
                row as int,
                old(self)@.grid[row as int].update(col as int, value),
            ));
        }
    }

    fn move_shape_from_pos(&self, input_move: Move, pos: Position) -> (outcome: MoveOutcome)
        requires
            self.shape is Some,
            step_in_range(self.shape.unwrap(), pos, input_move),
        ensures
            outcome == (if fits(self@.grid, self.shape.unwrap(), target(pos, input_move)) {
                MoveOutcome::Moved(target(pos, input_move))
            } else {
                MoveOutcome::Failed
            }),
    {
        let vec = match input_move {
            Move::Left => Position::new(-1, 0),
            Move::Right => Position::new(1, 0),
            Move::Drop => Position::new(0, 1),
        };
        let shape = self.shape.unwrap();
        assert(vec == delta(input_move));
        let new_pos = pos + vec;
        assert(new_pos == target(pos, input_move));
        let new_cells = shape.cells_at(new_pos);
        proof {
            lemma_all_free_is_fits(self@.grid, shape, new_pos);
        }
        if self.is_valid_placement(&new_cells) {
            MoveOutcome::Moved(new_pos)
        } else {
            MoveOutcome::Failed
        }
    }

    fn hard_drop_from_pos(&self, pos: Position) -> (landed: Position)
        requires
            self.shape is Some,
            step_in_range(self.shape.unwrap(), pos, Move::Drop),
        ensures
            landed == landing(self@.grid, self.shape.unwrap(), pos),
    {
        let ghost s = self.shape.unwrap();
        let ghost g = self@.grid;
        let mut pos = pos;
        let ghost start = pos;
        loop
            invariant
                self.shape is Some,
                s == self.shape.unwrap(),
                g == self@.grid,
                step_in_range(s, pos, Move::Drop),
                landing(g, s, pos) == landing(g, s, start),
            ensures
                pos == landing(g, s, start),
            decreases ROWS - pos.y,
        {
            match self.move_shape_from_pos(Move::Drop, pos) {
                MoveOutcome::Moved(next_pos) => {
                    proof {
                        lemma_fits_lies(g, s, next_pos);
                        lemma_near_board(s, next_pos);
                        lemma_on_board_in_range(s, next_pos, Move::Drop, Rotation::Clockwise);
                        lemma_landing_from(g, s, pos);
                    }
                    pos = next_pos;
                },
                MoveOutcome::Failed => {
                    break ;
                },
            }
        }
        pos
    }

    /// Puts the ghost where the active piece would land from `new_pos`.
    pub fn update_ghost_position(&mut self, new_pos: Position)
        requires
            old(self).shape is Some,
            step_in_range(old(self).shape.unwrap(), new_pos, Move::Drop),
        ensures
            final(self)@ == old(self)@.with_ghost(new_pos),
    {
        let ghost_pos = self.hard_drop_from_pos(new_pos);
        self.ghost_position = Some(ghost_pos)
    }

    /// The cells of the ghost as (column, row) pairs, if there is an active piece with a ghost.
    pub fn get_ghost(&self) -> (shown: Option<[(usize, usize); 4]>)
        requires
            (self.shape is Some && self.ghost_position is Some) ==> self.shape.unwrap().fits_at(
                self.ghost_position.unwrap(),
            ),
        ensures
            match (self.shape, self.ghost_position) {
                (Some(s), Some(g)) => shown is Some && shown.unwrap()@ == ghost_cells(s, g),
                _ => shown is None,
            },
    {
        match (self.shape, self.ghost_position) {
            (Some(shape), Some(ghost_pos)) => {
                let c = shape.cells_at(ghost_pos);
                let cells = [
                    (c[0].x as usize, c[0].y as usize),
                    (c[1].x as usize, c[1].y as usize),
                    (c[2].x as usize, c[2].y as usize),
                    (c[3].x as usize, c[3].y as usize),
                ];
                assert(cells@ =~= ghost_cells(shape, ghost_pos));
                Some(cells)
            },
            _ => None,
        }
    }
}

} // verus!

verus! {

/// The first `n` positions of `ps` include one at column `c`, row `r`.
pub open spec fn among_first(ps: Seq<Position>, n: int, c: int, r: int) -> bool {
    exists|j: int| 0 <= j < n && (#[trigger] ps[j]).x == c && ps[j].y == r
}

/// Sets the cells that the piece covers in an array of rows.
fn stamp_cells(cells: &mut [[bool; COLS]; ROWS], shape: Shape, pos: Position)
    requires
        lies_on_board(shape, pos),
    ensures
        grid_of(*final(cells)) == stamped(grid_of(*old(cells)), shape, pos),
{
    proof {
        lemma_near_board(shape, pos);
        crate::shape::lemma_piece_cells_distinct_in_box(shape);
    }
    let c = shape.cells_at(pos);
    let ghost g0 = grid_of(*cells);
    proof {
        lemma_grid_of(*cells);
    }
    let mut i: usize = 0;
    while i < 4
        invariant
            0 <= i <= 4,
            g0 == grid_of(*old(cells)),
            c@ == shape.cells_at_spec(pos),
            lies_on_board(shape, pos),
            shape.cells().len() == 4,
            -4 < pos.x < COLS,
            -4 < pos.y < ROWS,
            forall|k: int|
                0 <= k < 4 ==> 0 <= (#[trigger] shape.cells()[k]).x < 4 && 0 <= shape.cells()[k].y
                    < 4,
            forall|r: int, col: int|
                0 <= r < ROWS && 0 <= col < COLS ==> #[trigger] cells[r][col] == (g0[r][col]
                    || among_first(c@, i as int, col, r)),
        decreases 4 - i,
    {
        let p = c[i];
        assert(shape.cells()[i as int].can_add(pos));
        assert(p == shape.cells()[i as int].plus(pos));
        assert(on_board(shape.cells()[i as int].x + pos.x, shape.cells()[i as int].y + pos.y));
        cells[p.y as usize][p.x as usize] = true;
        assert forall|r: int, col: int| 0 <= r < ROWS && 0 <= col < COLS implies #[trigger] cells[r][col]
            == (g0[r][col] || among_first(c@, i + 1, col, r)) by {
            if r == p.y && col == p.x {
                assert(c@[i as int] == p);
            } else if among_first(c@, i + 1, col, r) {
                let j = choose|j: int| 0 <= j < i + 1 && (#[trigger] c@[j]).x == col && c@[j].y == r;
                assert(j != i);
            }
        }
        i += 1;
    }
    proof {
        lemma_grid_of(*cells);
        let st = stamped(g0, shape, pos);
        assert forall|r: int, col: int| 0 <= r < ROWS && 0 <= col < COLS implies
            among_first(c@, 4, col, r) == covers(shape, pos, col, r) by {
            if among_first(c@, 4, col, r) {
                let j = choose|j: int| 0 <= j < 4 && (#[trigger] c@[j]).x == col && c@[j].y == r;
                assert(shape.cells()[j].can_add(pos));
                assert(shape.cells()[j].x + pos.x == col && shape.cells()[j].y + pos.y == r);
            }
            if covers(shape, pos, col, r) {
                let j = choose|j: int|
                    0 <= j < 4 && (#[trigger] shape.cells()[j]).x + pos.x == col
                        && shape.cells()[j].y + pos.y == r;
                assert(shape.cells()[j].can_add(pos));
                assert(c@[j].x == col && c@[j].y == r);
            }
        }
        assert forall|r: int| 0 <= r < ROWS implies #[trigger] grid_of(*cells)[r] =~= st[r] by {
            assert forall|col: int| 0 <= col < COLS implies #[trigger] grid_of(*cells)[r][col]
                == st[r][col] by {
                assert(grid_of(*cells)[r][col] == cells[r][col]);
            }
        }
        assert(grid_of(*cells) =~= st);
    }
}

impl Default for Board {
    fn default() -> (board: Self)
        ensures
            board@ == empty_board(),
    {
        let board = Board {
            shape: None,
            shape_position: None,
            ghost_position: None,
            cells: [[false; COLS]; ROWS],
        };
        proof {
            lemma_grid_of(board.cells);
            assert forall|r: int| 0 <= r < ROWS implies #[trigger] board@.grid[r] =~= blank_row() by {
                assert forall|col: int| 0 <= col < COLS implies #[trigger] board@.grid[r][col]
                    == blank_row()[col] by {
                    assert(board.cells[r][col] == false);
                }
            }
            assert(board@.grid =~= blank_grid());
        }
        board
    }
}

impl Board {
    /// Brings a new piece of type `shape_type` in at the top, if it finds room.
    pub fn add_new_shape(&mut self, shape_type: ShapeType) -> (outcome: SpawnOutcome)
        ensures
            final(self)@ == old(self)@.spawned(shape_type),
            outcome == old(self)@.spawn_outcome(shape_type),
    {
        let shape = Shape::new(shape_type, Orientation::North);
        let spawn_col = (COLS - shape.shape_type.shape_size()) / 2;
        let position = Position::new(spawn_col as isize, 0);
        proof {
            crate::shape::lemma_piece_cells_distinct_in_box(shape);
        }
        let shape_cells = shape.cells_at(position);
        proof {
            lemma_all_free_is_fits(self@.grid, shape, position);
        }
        if self.is_valid_placement(&shape_cells) {
            proof {
                lemma_fits_lies(self@.grid, shape, position);
                lemma_on_board_in_range(shape, position, Move::Drop, Rotation::Clockwise);
            }
            self.shape = Some(shape);
            self.shape_position = Some(position);
            self.update_ghost_position(position);
            SpawnOutcome::Spawned
        } else {
            SpawnOutcome::FullBoard
        }
    }

    /// Moves the active piece one step, if it fits there.
    pub fn move_shape(&mut self, input: Move)
        requires
            old(self)@.can_move(input),
        ensures
            final(self)@ == old(self)@.moved(input),
    {
        let pos = self.shape_position.unwrap();
        if let MoveOutcome::Moved(new_pos) = self.move_shape_from_pos(input, pos) {
            proof {
                lemma_fits_lies(self@.grid, self.shape.unwrap(), new_pos);
                lemma_on_board_in_range(
                    self.shape.unwrap(),
                    new_pos,
                    Move::Drop,
                    Rotation::Clockwise,
                );
            }
            self.shape_position = Some(new_pos);
            self.update_ghost_position(new_pos);
        }
    }

    /// Lets the active piece fall as far as it can.
    pub fn hard_drop(&mut self)
        requires
            old(self)@.can_move(Move::Drop),
        ensures
            final(self)@ == old(self)@.hard_dropped(),
    {
        let pos = self.shape_position.unwrap();
        self.shape_position = Some(self.hard_drop_from_pos(pos));
        self.ghost_position = None;
    }

    /// Moves the active piece one row down, or reports that it has landed.
    pub fn drop_shape(&mut self) -> (outcome: DropOutcome)
        requires
            old(self)@.can_move(Move::Drop),
        ensures
            final(self)@ == old(self)@.moved(Move::Drop),
            outcome == old(self)@.drop_outcome(),
    {
        let pos = self.shape_position.unwrap();
        if let MoveOutcome::Moved(new_pos) = self.move_shape_from_pos(Move::Drop, pos) {
            proof {
                lemma_fits_lies(self@.grid, self.shape.unwrap(), new_pos);
                lemma_on_board_in_range(
                    self.shape.unwrap(),
                    new_pos,
                    Move::Drop,
                    Rotation::Clockwise,
                );
            }
            self.shape_position = Some(new_pos);
            self.update_ghost_position(new_pos);
            DropOutcome::Dropped
        } else {
            DropOutcome::Landed
        }
    }

    /// Settles the active piece into the grid.
    pub fn merge_shape(&mut self)
        requires
            old(self)@.piece_on_board(),
        ensures
            final(self)@ == old(self)@.merged(),
    {
        let shape = match self.shape {
            Some(shape) => shape,
            None => return ,
        };
        let pos = match self.shape_position {
            Some(pos) => pos,
            None => return ,
        };
        stamp_cells(&mut self.cells, shape, pos);
        self.shape = None;
        self.shape_position = None;
        self.ghost_position = None;
    }

    /// The settled cells together with the active piece.
    pub fn render_cells(&self) -> (shown: [[bool; COLS]; ROWS])
        requires
            self@.piece_on_board(),
        ensures
            grid_of(shown) == self@.rendered(),
    {
        let mut cells_to_render = self.cells;
        if let (Some(shape), Some(pos)) = (self.shape, self.shape_position) {
            stamp_cells(&mut cells_to_render, shape, pos);
        }
        cells_to_render
    }
}

} // verus!

verus! {

impl Board {
    /// Turns the active piece, trying sideways offsets 0, -1, 1, -2, 2 up to the piece's limit;
    /// leaves it as it was when none fits.
    pub fn rotate_shape(&mut self, input_rotation: Rotation)
        requires
            old(self)@.can_rotate(input_rotation),
        ensures
            final(self)@ == old(self)@.rotated(input_rotation),
    {
        let pos = self.shape_position.unwrap();
        let shape = self.shape.unwrap();
        let mut new_shape = shape;
        match input_rotation {
            Rotation::Clockwise => new_shape.rotate_clockwise(),
            Rotation::AntiClockwise => new_shape.rotate_anti_clockwise(),
        };
        assert(new_shape == turned_shape(shape, input_rotation));
        proof {
            crate::shape::lemma_piece_cells_distinct_in_box(new_shape);
        }
        let max_offset = shape.shape_type.shape_size() - 2;
        let step_count = 2 * max_offset + 1;
        let ghost g = self@.grid;
        let ghost n = kick_count(shape.shape_type);
        let mut i: usize = 0;
        while i < step_count
            invariant
                self@ == old(self)@,
                g == self@.grid,
                step_count == n,
                n == kick_count(shape.shape_type),
                n <= 5,
                0 <= i <= step_count,
                new_shape.cells().len() == 4,
                new_shape == turned_shape(shape, input_rotation),
                shape == old(self).shape.unwrap(),
                pos == old(self).shape_position.unwrap(),
                kicks_in_range(new_shape, pos, n),
                first_kick(g, new_shape, pos, n, 0) == first_kick(g, new_shape, pos, n, i as int),
            decreases step_count - i,
        {
            let step: isize = if i % 2 == 1 {
                -(((i + 1) / 2) as isize)
            } else {
                (i / 2) as isize
            };
            assert(step == kick(i as int));
            assert(kick_in_range(new_shape, pos, i as int));
            let mut new_pos = pos;
            new_pos.x += step;
            assert(new_pos == shifted(pos, kick(i as int)));
            let new_cells = new_shape.cells_at(new_pos);
            proof {
                lemma_all_free_is_fits(g, new_shape, new_pos);
            }
            if self.is_valid_placement(&new_cells) {
                proof {
                    lemma_fits_lies(g, new_shape, new_pos);
                    lemma_on_board_in_range(new_shape, new_pos, Move::Drop, Rotation::Clockwise);
                    assert(first_kick(g, new_shape, pos, n, i as int) == Some(kick(i as int)));
                }
                self.shape = Some(new_shape);
                self.shape_position = Some(new_pos);
                self.update_ghost_position(new_pos);
                return ;
            };
            i += 1;
        }
    }
}

/// Counting the settled cells of a row counts at most its length, and exactly its length when
/// the row is full.
pub proof fn lemma_count_filled(row: Seq<bool>)
    ensures
        count_filled(row) <= row.len(),
        (count_filled(row) == row.len()) == row_full(row),
    decreases row.len(),
{
    if row.len() > 0 {
        lemma_count_filled(row.drop_last());
        if row_full(row) {
            assert(row_full(row.drop_last()));
        }
        if row_full(row.drop_last()) && row.last() {
            assert forall|c: int| 0 <= c < row.len() implies #[trigger] row[c] by {
                if c < row.len() - 1 {
                    assert(row.drop_last()[c] == row[c]);
                }
            }
        }
    }
}

fn calc_row_sum(row: [bool; COLS]) -> (sum: usize)
    ensures
        sum == count_filled(row@),
{
    let mut sum: usize = 0;
    let mut c: usize = 0;
    while c < COLS
        invariant
            0 <= c <= COLS,
            sum == count_filled(row@.take(c as int)),
            sum <= c,
        decreases COLS - c,
    {
        assert(row@.take(c + 1).drop_last() =~= row@.take(c as int));
        if row[c] {
            sum += 1;
        }
        c += 1;
    }
    assert(row@.take(COLS as int) =~= row@);
    sum
}

} // verus!

verus! {

/// Each row of a grid is either counted as full or kept.
pub proof fn lemma_kept_len(g: Seq<Seq<bool>>)
    ensures
        full_row_count(g) + kept_rows(g).len() == g.len(),
    decreases g.len(),
{
    if g.len() > 0 {
        lemma_kept_len(g.drop_last());
    }
}

proof fn lemma_take_succ(g: Seq<Seq<bool>>, i: int)
    requires
        0 <= i < g.len(),
    ensures
        g.take(i + 1).drop_last() == g.take(i),
        g.take(i + 1).last() == g[i],
        full_row_count(g.take(i + 1)) == full_row_count(g.take(i)) + if row_full(g[i]) {
            1nat
        } else {
            0nat
        },
        kept_rows(g.take(i + 1)) == if row_full(g[i]) {
            kept_rows(g.take(i))
        } else {
            kept_rows(g.take(i)).push(g[i])
        },
{
    assert(g.take(i + 1).drop_last() =~= g.take(i));
}

impl Board {
    /// Clears every full row, letting the rows above fall; returns how many were cleared.
    pub fn check_rows(&mut self) -> (cleared_rows: u32)
        ensures
            final(self)@ == old(self)@.rows_checked(),
            cleared_rows == full_row_count(old(self)@.grid),
    {
        let ghost g0 = self@.grid;
        proof {
            lemma_grid_of(self.cells);
        }
        let mut cleared_rows: u32 = 0;
        let mut row_idx: usize = 0;
        while row_idx < ROWS
            invariant
                0 <= row_idx <= ROWS,
                self.shape == old(self).shape,
                self.shape_position == old(self).shape_position,
                self.ghost_position == old(self).ghost_position,
                g0 == old(self)@.grid,
                grid_shaped(g0),
                cleared_rows == full_row_count(g0.take(row_idx as int)),
                cleared_rows <= row_idx,
                self@.grid.take(row_idx as int) == blank_rows(cleared_rows as nat) + kept_rows(
                    g0.take(row_idx as int),
                ),
                forall|r: int| row_idx <= r < ROWS ==> #[trigger] self@.grid[r] == g0[r],
            decreases ROWS - row_idx,
        {
            let row_sum = calc_row_sum(self.cells[row_idx]);
            proof {
                lemma_count_filled(self.cells[row_idx as int]@);
                lemma_take_succ(g0, row_idx as int);
                lemma_kept_len(g0.take(row_idx as int));
                assert(self@.grid[row_idx as int] == self.cells[row_idx as int]@);
            }
            if row_sum == COLS {
                let ghost before = self.cells;
                let ghost gb = self@.grid;
                let mut k: usize = row_idx;
                while k > 0
                    invariant
                        0 <= k <= row_idx < ROWS,
                        self.shape == old(self).shape,
                        self.shape_position == old(self).shape_position,
                        self.ghost_position == old(self).ghost_position,
                        forall|t: int| 0 <= t <= k ==> #[trigger] self.cells[t] == before[t],
                        forall|t: int| k < t <= row_idx ==> #[trigger] self.cells[t] == before[t - 1],
                        forall|t: int| row_idx < t < ROWS ==> #[trigger] self.cells[t] == before[t],
                    decreases k,
                {
                    self.cells[k] = self.cells[k - 1];
                    k -= 1;
                }
                self.cells[0] = [false; COLS];
                proof {
                    let g1 = self@.grid;
                    let i = row_idx as int;
                    let n = cleared_rows as nat;
                    assert(g1[0] =~= blank_row());
                    assert forall|t: int| 1 <= t <= i implies #[trigger] g1[t] == gb[t - 1] by {
                        assert(self.cells[t] == before[t - 1]);
                    }
                    assert forall|t: int| i < t < ROWS implies #[trigger] g1[t] == gb[t] by {
                        assert(self.cells[t] == before[t]);
                    }
                    let lhs = g1.take(i + 1);
                    let rhs = blank_rows(n + 1) + kept_rows(g0.take(i + 1));
                    assert(gb.take(i) == blank_rows(n) + kept_rows(g0.take(i)));
                    assert forall|t: int| 0 <= t < i + 1 implies #[trigger] lhs[t] == rhs[t] by {
                        if t == 0 {
                        } else {
                            assert(lhs[t] == gb.take(i)[t - 1]);
                        }
                    }
                    assert(lhs =~= rhs);
                }
                cleared_rows += 1;
            } else {
                proof {
                    let i = row_idx as int;
                    let lhs = self@.grid.take(i + 1);
                    let rhs = blank_rows(cleared_rows as nat) + kept_rows(g0.take(i + 1));
                    assert(lhs =~= self@.grid.take(i).push(g0[i]));
                    assert(lhs =~= rhs);
                }
            }
            row_idx += 1;
        }
        proof {
            assert(g0.take(ROWS as int) =~= g0);
            assert(self@.grid.take(ROWS as int) =~= self@.grid);
        }
        cleared_rows
    }
}

} // verus!

verus! {

/// Whether the piece with its box corner at `pos` covers only existing board cells.
fn lies_on_board_check(shape: Shape, pos: Position) -> (lies: bool)
    ensures
        lies == lies_on_board(shape, pos),
{
    let c = shape.get_cells();
    proof {
        crate::shape::lemma_piece_cells_distinct_in_box(shape);
    }
    let mut i: usize = 0;
    while i < 4
        invariant
            0 <= i <= 4,
            c@ == shape.cells(),
            forall|k: int|
                0 <= k < 4 ==> 0 <= (#[trigger] shape.cells()[k]).x < 4 && 0 <= shape.cells()[k].y
                    < 4,
            forall|k: int|
                0 <= k < i ==> on_board(
                    (#[trigger] shape.cells()[k]).x + pos.x,
                    shape.cells()[k].y + pos.y,
                ),
        decreases 4 - i,
    {
        let cx = c[i].x;
        let cy = c[i].y;
        if !(pos.x >= -cx && pos.x < COLS as isize - cx && pos.y >= -cy && pos.y < ROWS as isize
            - cy) {
            return false;
        }
        i += 1;
    }
    true
}

impl Board {
    /// Whether the board is well formed: its active piece and its ghost lie on the board.
    pub fn is_well_formed(&self) -> (wf: bool)
        ensures
            wf == self@.wf(),
    {
        proof {
            lemma_grid_of(self.cells);
        }
        let piece_ok = match (self.shape, self.shape_position) {
            (Some(s), Some(p)) => lies_on_board_check(s, p),
            _ => true,
        };
        let ghost_ok = match (self.shape, self.ghost_position) {
            (Some(s), Some(g)) => lies_on_board_check(s, g),
            _ => true,
        };
        piece_ok && ghost_ok
    }

    /// The number of full rows.
    pub fn count_full_rows(&self) -> (count: usize)
        ensures
            count == full_row_count(self@.grid),
    {
        let ghost g = self@.grid;
        proof {
            lemma_grid_of(self.cells);
        }
        let mut count: usize = 0;
        let mut r: usize = 0;
        while r < ROWS
            invariant
                0 <= r <= ROWS,
                g == self@.grid,
                grid_shaped(g),
                count == full_row_count(g.take(r as int)),
                count <= r,
            decreases ROWS - r,
        {
            let row_sum = calc_row_sum(self.cells[r]);
            proof {
                lemma_count_filled(self.cells[r as int]@);
                lemma_take_succ(g, r as int);
                assert(g[r as int] == self.cells[r as int]@);
            }
            if row_sum == COLS {
                count += 1;
            }
            r += 1;
        }
        assert(g.take(ROWS as int) =~= g);
        count
    }
}

} // verus!

verus! {

/// Whether placing the piece with its box corner at `pos` stays within `isize`.
fn fits_at_check(shape: Shape, pos: Position) -> (ok: bool)
    ensures
        ok == shape.fits_at(pos),
{
    let c = shape.get_cells();
    proof {
        crate::shape::lemma_piece_cells_distinct_in_box(shape);
    }
    let mut i: usize = 0;
    while i < 4
        invariant
            0 <= i <= 4,
            c@ == shape.cells(),
            forall|k: int|
                0 <= k < 4 ==> 0 <= (#[trigger] shape.cells()[k]).x < 4 && 0 <= shape.cells()[k].y
                    < 4,
            forall|k: int| 0 <= k < i ==> (#[trigger] shape.cells()[k]).can_add(pos),
        decreases 4 - i,
    {
        if pos.x > isize::MAX - c[i].x || pos.y > isize::MAX - c[i].y {
            return false;
        }
        i += 1;
    }
    true
}

/// Whether the piece one step away from `pos` can be computed within `isize`.
fn step_in_range_check(shape: Shape, pos: Position, m: Move) -> (ok: bool)
    ensures
        ok == step_in_range(shape, pos, m),
{
    match m {
        Move::Left => {
            if pos.x == isize::MIN {
                return false;
            }
            fits_at_check(shape, Position { x: pos.x - 1, y: pos.y })
        },
        Move::Right => {
            if pos.x == isize::MAX {
                return false;
            }
            fits_at_check(shape, Position { x: pos.x + 1, y: pos.y })
        },
        Move::Drop => {
            if pos.y == isize::MAX {
                return false;
            }
            fits_at_check(shape, Position { x: pos.x, y: pos.y + 1 })
        },
    }
}

impl Board {
    /// Whether there is an active piece whose step in the direction of the move can be
    /// computed within `isize`.
    pub fn can_move(&self, m: Move) -> (ok: bool)
        ensures
            ok == self@.can_move(m),
    {
        match (self.shape, self.shape_position) {
            (Some(s), Some(p)) => step_in_range_check(s, p, m),
            _ => false,
        }
    }

    /// Whether there is an active piece whose turn, with every sideways offset, can be
    /// computed within `isize`.
    pub fn can_rotate(&self, r: Rotation) -> (ok: bool)
        ensures
            ok == self@.can_rotate(r),
    {
        let (shape, pos) = match (self.shape, self.shape_position) {
            (Some(s), Some(p)) => (s, p),
            _ => return false,
        };
        let mut new_shape = shape;
        match r {
            Rotation::Clockwise => new_shape.rotate_clockwise(),
            Rotation::AntiClockwise => new_shape.rotate_anti_clockwise(),
        };
        let step_count = 2 * (shape.shape_type.shape_size() - 2) + 1;
        let ghost n = kick_count(shape.shape_type);
        let mut i: usize = 0;
        while i < step_count
            invariant
                step_count == n,
                n == kick_count(shape.shape_type),
                n <= 5,
                0 <= i <= step_count,
                self.shape == Some(shape),
                self.shape_position == Some(pos),
                new_shape == turned_shape(shape, r),
                forall|k: int| 0 <= k < i ==> #[trigger] kick_in_range(new_shape, pos, k),
            decreases step_count - i,
        {
            let step: isize = if i % 2 == 1 {
                -(((i + 1) / 2) as isize)
            } else {
                (i / 2) as isize
            };
            assert(step == kick(i as int));
            if (step < 0 && pos.x < isize::MIN - step) || (step > 0 && pos.x > isize::MAX - step) {
                assert(!kick_in_range(new_shape, pos, i as int));
                assert(!self@.can_rotate(r));
                return false;
            }
            assert(isize::MIN <= pos.x + kick(i as int) <= isize::MAX);
            let candidate = Position { x: pos.x + step, y: pos.y };
            assert(candidate == shifted(pos, kick(i as int)));
            if !fits_at_check(new_shape, candidate) {
                assert(!kick_in_range(new_shape, pos, i as int));
                assert(!self@.can_rotate(r));
                return false;
            }
            assert(kick_in_range(new_shape, pos, i as int));
            i += 1;
        }
        assert(kicks_in_range(new_shape, pos, n));
        true
    }

    /// Whether the active piece, if any, lies on the board.
    pub fn piece_is_on_board(&self) -> (ok: bool)
        ensures
            ok == self@.piece_on_board(),
    {
        match (self.shape, self.shape_position) {
            (Some(s), Some(p)) => lies_on_board_check(s, p),
            _ => true,
        }
    }
}

} // verus!
