//! What every board operation keeps, and what the operations say about each other.
use vstd::prelude::*;

use crate::board::{
    blank_row, blank_rows, cleared, first_kick, fits, full_row_count, grid_shaped, kept_rows, kick,
    kick_count, landing, lemma_fits_lies, lemma_kept_len, lemma_landing, lemma_near_board, on_board,
    row_full,
    shifted, spawn_position, target, turned_shape, BoardModel, DropOutcome, Move, Rotation,
    SpawnOutcome,
};
use crate::shape::{Position, Shape, ShapeType};
use crate::{COLS, ROWS};

verus! {

impl BoardModel {
    /// Whether the active piece covers only free cells.
    pub open spec fn piece_fits(self) -> bool {
        self.active() ==> fits(self.grid, self.shape.unwrap(), self.shape_position.unwrap())
    }

    /// Whether the ghost shows where the active piece would land.
    pub open spec fn ghost_tracks_piece(self) -> bool {
        self.active() ==> self.ghost_position == Some(
            landing(self.grid, self.shape.unwrap(), self.shape_position.unwrap()),
        )
    }
}

/// A found sideways offset is one at which the turned piece fits.
pub proof fn lemma_first_kick_fits(g: Seq<Seq<bool>>, s: Shape, pos: Position, n: int, i: int)
    ensures
        first_kick(g, s, pos, n, i) matches Some(k) ==> fits(g, s, shifted(pos, k)),
    decreases n - i,
{
    if i < n && !fits(g, s, shifted(pos, kick(i))) {
        lemma_first_kick_fits(g, s, pos, n, i + 1);
    }
}

/// Every row that clearing keeps is a row of the grid.
pub proof fn lemma_kept_rows_from_grid(g: Seq<Seq<bool>>)
    ensures
        forall|j: int|
            0 <= j < kept_rows(g).len() ==> exists|r: int|
                0 <= r < g.len() && #[trigger] kept_rows(g)[j] == g[r] && !row_full(g[r]),
    decreases g.len(),
{
    if g.len() > 0 {
        let h = g.drop_last();
        lemma_kept_rows_from_grid(h);
        assert forall|j: int| 0 <= j < kept_rows(g).len() implies exists|r: int|
            0 <= r < g.len() && #[trigger] kept_rows(g)[j] == g[r] && !row_full(g[r]) by {
            if j < kept_rows(h).len() {
                let r = choose|r: int|
                    0 <= r < h.len() && #[trigger] kept_rows(h)[j] == h[r] && !row_full(h[r]);
                assert(g[r] == h[r]);
            } else {
                assert(kept_rows(g)[j] == g[g.len() - 1]);
            }
        }
    }
}

/// Clearing the rows of a board-shaped grid gives a board-shaped grid without a full row.
pub proof fn lemma_cleared_shape(g: Seq<Seq<bool>>)
    requires
        grid_shaped(g),
    ensures
        grid_shaped(cleared(g)),
        forall|r: int| 0 <= r < ROWS ==> !row_full(#[trigger] cleared(g)[r]),
{
    lemma_kept_len(g);
    lemma_kept_rows_from_grid(g);
    let n = full_row_count(g);
    let c = cleared(g);
    assert forall|r: int| 0 <= r < ROWS implies (#[trigger] c[r]).len() == COLS && !row_full(c[r]) by {
        if r < n {
            assert(c[r] == blank_row());
            assert(!blank_row()[0]);
        } else {
            assert(c[r] == kept_rows(g)[r - n]);
            let k = choose|k: int|
                0 <= k < g.len() && #[trigger] kept_rows(g)[r - n] == g[k] && !row_full(g[k]);
        }
    }
}

/// Every board operation keeps a board well formed: the active piece and its ghost stay on the
/// board, and the grid keeps its dimensions.
pub proof fn lemma_operations_keep_wf(b: BoardModel, t: ShapeType, m: Move, r: Rotation)
    requires
        b.wf(),
    ensures
        b.spawned(t).wf(),
        b.merged().wf(),
        b.rows_checked().wf(),
        b.active() ==> b.moved(m).wf(),
        b.active() ==> b.rotated(r).wf(),
        b.active() ==> b.hard_dropped().wf(),
{
    let s0 = Shape::new_spec(t, crate::shape::Orientation::North);
    if fits(b.grid, s0, spawn_position(t)) {
        lemma_fits_lies(b.grid, s0, spawn_position(t));
        lemma_landing(b.grid, s0, spawn_position(t));
    }
    if b.active() {
        let s = b.shape.unwrap();
        let p = b.shape_position.unwrap();
        lemma_landing(b.grid, s, p);
        let tm = target(p, m);
        if fits(b.grid, s, tm) {
            lemma_fits_lies(b.grid, s, tm);
            lemma_landing(b.grid, s, tm);
        }
        let ns = turned_shape(s, r);
        lemma_first_kick_fits(b.grid, ns, p, kick_count(s.shape_type), 0);
        if let Some(k) = first_kick(b.grid, ns, p, kick_count(s.shape_type), 0) {
            lemma_fits_lies(b.grid, ns, shifted(p, k));
            lemma_landing(b.grid, ns, shifted(p, k));
        }
    }
    lemma_cleared_shape(b.grid);
}

/// Once the active piece rests on free cells, no board operation makes it overlap a settled
/// cell, and each one that moves or brings a piece also puts its ghost where it would land.
pub proof fn lemma_operations_keep_piece_free(b: BoardModel, t: ShapeType, m: Move, r: Rotation)
    requires
        b.wf(),
        b.piece_fits(),
        b.ghost_tracks_piece(),
    ensures
        b.spawned(t).piece_fits(),
        b.spawned(t).ghost_tracks_piece(),
        b.merged().piece_fits(),
        b.merged().ghost_tracks_piece(),
        !b.active() ==> b.rows_checked().piece_fits(),
        !b.active() ==> b.rows_checked().ghost_tracks_piece(),
        b.active() ==> b.moved(m).piece_fits(),
        b.active() ==> b.moved(m).ghost_tracks_piece(),
        b.active() ==> b.rotated(r).piece_fits(),
        b.active() ==> b.rotated(r).ghost_tracks_piece(),
        b.active() ==> b.hard_dropped().piece_fits(),
{
    if b.active() {
        let s = b.shape.unwrap();
        let p = b.shape_position.unwrap();
        lemma_fits_lies(b.grid, s, p);
        lemma_landing(b.grid, s, p);
        let ns = turned_shape(s, r);
        lemma_first_kick_fits(b.grid, ns, p, kick_count(s.shape_type), 0);
    }
}

/// The ghost marks where a hard drop puts the piece.
pub proof fn lemma_hard_drop_reaches_ghost(b: BoardModel)
    requires
        b.active(),
        b.ghost_tracks_piece(),
    ensures
        b.hard_dropped().shape_position == b.ghost_position,
{
}

/// After a hard drop the piece cannot fall any further.
pub proof fn lemma_hard_drop_lands(b: BoardModel)
    requires
        b.active(),
        b.wf(),
    ensures
        b.hard_dropped().drop_outcome() == DropOutcome::Landed,
{
    lemma_landing(b.grid, b.shape.unwrap(), b.shape_position.unwrap());
}

/// A step left that succeeded is undone by a step right, and the other way round.
pub proof fn lemma_sideways_steps_cancel(b: BoardModel)
    requires
        b.active(),
        b.wf(),
        b.piece_fits(),
        b.ghost_tracks_piece(),
    ensures
        fits(b.grid, b.shape.unwrap(), target(b.shape_position.unwrap(), Move::Left)) ==> b.moved(
            Move::Left,
        ).moved(Move::Right) == b,
        fits(b.grid, b.shape.unwrap(), target(b.shape_position.unwrap(), Move::Right)) ==> b.moved(
            Move::Right,
        ).moved(Move::Left) == b,
{
    let s = b.shape.unwrap();
    let p = b.shape_position.unwrap();
    lemma_near_board(s, p);
    lemma_landing(b.grid, s, p);
    if fits(b.grid, s, target(p, Move::Left)) {
        assert(target(target(p, Move::Left), Move::Right) == p);
        assert(b.moved(Move::Left).moved(Move::Right) == b);
    }
    if fits(b.grid, s, target(p, Move::Right)) {
        assert(target(target(p, Move::Right), Move::Left) == p);
        assert(b.moved(Move::Right).moved(Move::Left) == b);
    }
}

/// Clearing rows leaves no full row, keeps the active piece, and a second clearing changes
/// nothing and clears no row.
pub proof fn lemma_clearing_is_idempotent(b: BoardModel)
    requires
        b.wf(),
    ensures
        forall|r: int| 0 <= r < ROWS ==> !row_full(#[trigger] b.rows_checked().grid[r]),
        full_row_count(b.rows_checked().grid) == 0,
        b.rows_checked().rows_checked() == b.rows_checked(),
{
    let g = cleared(b.grid);
    lemma_cleared_shape(b.grid);
    lemma_no_full_rows(g);
    assert(blank_rows(0) + kept_rows(g) =~= g);
}

/// A grid without a full row counts none and keeps every row.
pub proof fn lemma_no_full_rows(g: Seq<Seq<bool>>)
    requires
        forall|r: int| 0 <= r < g.len() ==> !row_full(#[trigger] g[r]),
    ensures
        full_row_count(g) == 0,
        kept_rows(g) == g,
    decreases g.len(),
{
    if g.len() > 0 {
        let h = g.drop_last();
        assert forall|r: int| 0 <= r < h.len() implies !row_full(#[trigger] h[r]) by {
            assert(h[r] == g[r]);
        }
        lemma_no_full_rows(h);
        assert(!row_full(g[g.len() - 1]));
        assert(h.push(g.last()) =~= g);
    }
}

} // verus!

verus! {

/// Merging settles exactly the cells that the board showed.
pub proof fn lemma_merge_settles_what_was_shown(b: BoardModel)
    ensures
        b.merged().grid == b.rendered(),
        !b.merged().active(),
{
}

} // verus!

verus! {

/// Whether the sideways offset `e` comes before `d` when a turn looks for room: smaller offsets
/// first, and of two offsets of the same size the one to the left first.
pub open spec fn offset_before(e: int, d: int) -> bool {
    let ae = if e < 0 {
        -e
    } else {
        e
    };
    let ad = if d < 0 {
        -d
    } else {
        d
    };
    ae < ad || (ae == ad && e < d)
}

/// The place of an offset in the order in which a turn tries them.
spec fn offset_index(d: int) -> int {
    if d == 0 {
        0
    } else if d < 0 {
        -2 * d - 1
    } else {
        2 * d
    }
}

proof fn lemma_offset_order(m: int)
    requires
        m >= 0,
    ensures
        forall|j: int| 0 <= j < 2 * m + 1 ==> -m <= #[trigger] kick(j) <= m,
        forall|j: int| 0 <= j < 2 * m + 1 ==> offset_index(#[trigger] kick(j)) == j,
        forall|d: int|
            -m <= d <= m ==> 0 <= #[trigger] offset_index(d) < 2 * m + 1 && kick(offset_index(d))
                == d,
        forall|e: int, d: int| #[trigger]
            offset_before(e, d) ==> #[trigger] offset_index(e) < offset_index(d),
{
}

proof fn lemma_first_kick_is_first(g: Seq<Seq<bool>>, s: Shape, pos: Position, n: int, i: int)
    requires
        0 <= i <= n,
    ensures
        first_kick(g, s, pos, n, i) matches Some(k) ==> exists|j: int|
            i <= j < n && k == kick(j) && fits(g, s, shifted(pos, kick(j))) && forall|l: int|
                i <= l < j ==> !fits(g, s, #[trigger] shifted(pos, kick(l))),
        first_kick(g, s, pos, n, i) is None ==> forall|l: int|
            i <= l < n ==> !fits(g, s, #[trigger] shifted(pos, kick(l))),
    decreases n - i,
{
    if i < n {
        lemma_first_kick_is_first(g, s, pos, n, i + 1);
        if !fits(g, s, shifted(pos, kick(i))) {
            if let Some(k) = first_kick(g, s, pos, n, i + 1) {
                let j = choose|j: int|
                    i + 1 <= j < n && k == kick(j) && fits(g, s, shifted(pos, kick(j))) && forall|
                        l: int,
                    |
                        i + 1 <= l < j ==> !fits(g, s, #[trigger] shifted(pos, kick(l)));
                assert forall|l: int| i <= l < j implies !fits(
                    g,
                    s,
                    #[trigger] shifted(pos, kick(l)),
                ) by {
                    if l == i {
                    } else {
                    }
                }
            }
        } else {
            assert(first_kick(g, s, pos, n, i) == Some(kick(i)));
        }
    }
}

/// A turn keeps the piece where it is when the turned piece fits there. Otherwise it moves the
/// turned piece sideways by the first offset, up to the size of its box less two, at which it
/// fits, trying smaller offsets first and the left one of two offsets of the same size first;
/// the ghost follows. When no such offset fits, nothing changes.
pub proof fn lemma_rotation_tries_offsets_in_order(b: BoardModel, r: Rotation)
    requires
        b.active(),
    ensures
        ({
            let s = b.shape.unwrap();
            let p = b.shape_position.unwrap();
            let ns = turned_shape(s, r);
            let m = s.shape_type.size() - 2;
            &&& fits(b.grid, ns, p) ==> b.rotated(r).shape_position == Some(p) && b.rotated(
                r,
            ).shape == Some(ns)
            &&& b.rotated(r) == b || exists|d: int|
                -m <= d <= m && b.rotated(r).shape == Some(ns) && b.rotated(r).shape_position
                    == Some(shifted(p, d)) && b.rotated(r).ghost_position == Some(
                    landing(b.grid, ns, shifted(p, d)),
                ) && b.rotated(r).grid == b.grid && fits(b.grid, ns, shifted(p, d)) && forall|
                    e: int,
                |
                    -m <= e <= m && offset_before(e, d) ==> !fits(
                        b.grid,
                        ns,
                        #[trigger] shifted(p, e),
                    )
            &&& (forall|d: int| -m <= d <= m ==> !fits(b.grid, ns, #[trigger] shifted(p, d)))
                ==> b.rotated(r) == b
        }),
{
    let s = b.shape.unwrap();
    let p = b.shape_position.unwrap();
    let ns = turned_shape(s, r);
    let m = s.shape_type.size() - 2;
    let n = kick_count(s.shape_type);
    assert(n == 2 * m + 1);
    lemma_offset_order(m);
    lemma_first_kick_is_first(b.grid, ns, p, n, 0);
    assert(kick(0) == 0);
    assert(shifted(p, 0) == p);
    match first_kick(b.grid, ns, p, n, 0) {
        Some(k) => {
            let j = choose|j: int|
                0 <= j < n && k == kick(j) && fits(b.grid, ns, shifted(p, kick(j))) && forall|
                    l: int,
                | 0 <= l < j ==> !fits(b.grid, ns, #[trigger] shifted(p, kick(l)));
            assert forall|e: int| -m <= e <= m && offset_before(e, k) implies !fits(
                b.grid,
                ns,
                #[trigger] shifted(p, e),
            ) by {
                assert(offset_index(e) < offset_index(kick(j)));
                assert(kick(offset_index(e)) == e);
            }
            if fits(b.grid, ns, p) {
                assert(offset_index(0) == 0);
                if k != 0 {
                    assert(offset_before(0, k));
                }
            }
        },
        None => {
            assert forall|d: int| -m <= d <= m implies !fits(b.grid, ns, #[trigger] shifted(p, d)) by {
                assert(kick(offset_index(d)) == d);
            }
        },
    }
    if forall|d: int| -m <= d <= m ==> !fits(b.grid, ns, #[trigger] shifted(p, d)) {
        if let Some(k) = first_kick(b.grid, ns, p, n, 0) {
            let j = choose|j: int|
                0 <= j < n && k == kick(j) && fits(b.grid, ns, shifted(p, kick(j))) && forall|
                    l: int,
                | 0 <= l < j ==> !fits(b.grid, ns, #[trigger] shifted(p, kick(l)));
            assert(-m <= kick(j) <= m);
        }
    }
}

/// A turn clockwise adds one quarter turn to the piece's orientation, and a turn anti-clockwise
/// takes one away; the piece's type stays.
pub proof fn lemma_turn_direction(s: Shape)
    ensures
        turned_shape(s, Rotation::Clockwise).shape_type == s.shape_type,
        turned_shape(s, Rotation::AntiClockwise).shape_type == s.shape_type,
        turned_shape(s, Rotation::Clockwise).orientation.quarter_turns() == (
        s.orientation.quarter_turns() + 1) % 4,
        turned_shape(s, Rotation::AntiClockwise).orientation.quarter_turns() == (
        s.orientation.quarter_turns() + 3) % 4,
{
}

/// A step left, right or down moves the active piece by exactly one column or row when it fits
/// there, and leaves the board as it was otherwise; the ghost follows the piece.
pub proof fn lemma_steps_move_one_cell(b: BoardModel)
    requires
        b.active(),
        b.wf(),
    ensures
        ({
            let s = b.shape.unwrap();
            let p = b.shape_position.unwrap();
            let left = Position { x: (p.x - 1) as isize, y: p.y };
            let right = Position { x: (p.x + 1) as isize, y: p.y };
            let down = Position { x: p.x, y: (p.y + 1) as isize };
            &&& left.x == p.x - 1 && right.x == p.x + 1 && down.y == p.y + 1
            &&& b.moved(Move::Left) == (if fits(b.grid, s, left) {
                BoardModel {
                    shape_position: Some(left),
                    ghost_position: Some(landing(b.grid, s, left)),
                    ..b
                }
            } else {
                b
            })
            &&& b.moved(Move::Right) == (if fits(b.grid, s, right) {
                BoardModel {
                    shape_position: Some(right),
                    ghost_position: Some(landing(b.grid, s, right)),
                    ..b
                }
            } else {
                b
            })
            &&& b.moved(Move::Drop) == (if fits(b.grid, s, down) {
                BoardModel {
                    shape_position: Some(down),
                    ghost_position: Some(landing(b.grid, s, down)),
                    ..b
                }
            } else {
                b
            })
        }),
{
    lemma_near_board(b.shape.unwrap(), b.shape_position.unwrap());
}

/// A new piece comes in facing north with its box on the top row, centred: the columns left of
/// its box and right of it differ by at most one. It comes in exactly when it fits there;
/// otherwise the board stays as it was.
pub proof fn lemma_spawn_is_centred(b: BoardModel, t: ShapeType)
    ensures
        ({
            let p = spawn_position(t);
            let s = Shape::new_spec(t, crate::shape::Orientation::North);
            &&& p.y == 0
            &&& p.x >= 0
            &&& 0 <= COLS - (p.x + t.size()) - p.x <= 1
            &&& (b.spawn_outcome(t) == SpawnOutcome::Spawned) == fits(b.grid, s, p)
            &&& b.spawn_outcome(t) == SpawnOutcome::Spawned ==> b.spawned(t).shape == Some(s)
                && b.spawned(t).shape_position == Some(p) && b.spawned(t).ghost_position == Some(
                landing(b.grid, s, p),
            ) && b.spawned(t).grid == b.grid
            &&& b.spawn_outcome(t) == SpawnOutcome::FullBoard ==> b.spawned(t) == b
        }),
{
}

} // verus!

verus! {

/// Merging settles exactly the board cells that the active piece covers, keeps every other cell,
/// and leaves no active piece and no ghost.
pub proof fn lemma_merge_sets_the_piece_cells(b: BoardModel)
    requires
        b.active(),
        b.wf(),
    ensures
        ({
            let s = b.shape.unwrap();
            let p = b.shape_position.unwrap();
            &&& forall|i: int|
                0 <= i < 4 ==> #[trigger] b.merged().grid[s.cells()[i].y + p.y][s.cells()[i].x
                    + p.x]
            &&& forall|r: int, c: int|
                0 <= r < ROWS && 0 <= c < COLS && !(exists|i: int|
                    0 <= i < 4 && s.cells()[i].x + p.x == c && s.cells()[i].y + p.y == r)
                    ==> #[trigger] b.merged().grid[r][c] == b.grid[r][c]
            &&& b.merged().shape is None && b.merged().shape_position is None
                && b.merged().ghost_position is None
        }),
{
    let s = b.shape.unwrap();
    let p = b.shape_position.unwrap();
    assert forall|i: int| 0 <= i < 4 implies #[trigger] b.merged().grid[s.cells()[i].y
        + p.y][s.cells()[i].x + p.x] by {
        assert(on_board(s.cells()[i].x + p.x, s.cells()[i].y + p.y));
        assert(crate::board::covers(s, p, s.cells()[i].x + p.x, s.cells()[i].y + p.y));
    }
}

} // verus!
