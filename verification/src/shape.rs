//! Pieces: their cells in each orientation, and how they turn.
use vstd::prelude::*;

verus! {

/// A cell coordinate: `x` grows to the right, `y` grows downwards.
#[derive(Copy, Clone, Debug, PartialEq, Eq, Structural)]
pub struct Position {
    pub x: isize,
    pub y: isize,
}

impl Position {
    /// The position at column `x`, row `y`.
    pub fn new(x: isize, y: isize) -> (p: Self)
        ensures
            p.x == x,
            p.y == y,
    {
        Position { x, y }
    }

    /// The sum of two positions, coordinate by coordinate.
    pub open spec fn plus(self, other: Position) -> Position {
        Position { x: (self.x + other.x) as isize, y: (self.y + other.y) as isize }
    }

    /// Whether the coordinate-wise sum fits in `isize`.
    pub open spec fn can_add(self, other: Position) -> bool {
        &&& isize::MIN <= self.x + other.x <= isize::MAX
        &&& isize::MIN <= self.y + other.y <= isize::MAX
    }
}

impl core::ops::Add for Position {
    type Output = Self;

    fn add(self, other: Self) -> (r: Self) {
        Position { x: self.x + other.x, y: self.y + other.y }
    }
}

impl vstd::std_specs::ops::AddSpecImpl for Position {
    open spec fn obeys_add_spec() -> bool {
        true
    }

    open spec fn add_req(self, rhs: Position) -> bool {
        self.can_add(rhs)
    }

    open spec fn add_spec(self, rhs: Position) -> Position {
        self.plus(rhs)
    }
}

} // verus!

verus! {

/// Builds a position from mathematical coordinates.
pub open spec fn at(x: int, y: int) -> Position {
    Position { x: x as isize, y: y as isize }
}

/// The seven pieces.
#[derive(Clone, Copy, PartialEq, Eq, Debug, Structural)]
pub enum ShapeType {
    I,
    O,
    T,
    S,
    Z,
    J,
    L,
}

impl ShapeType {
    /// The cells of the piece in its spawn orientation, inside its bounding box.
    pub open spec fn base_cells(self) -> Seq<Position> {
        match self {
            ShapeType::I => seq![at(2, 0), at(2, 1), at(2, 2), at(2, 3)],
            ShapeType::T => seq![at(0, 1), at(1, 1), at(2, 1), at(1, 0)],
            ShapeType::O => seq![at(0, 0), at(1, 0), at(0, 1), at(1, 1)],
            ShapeType::Z => seq![at(0, 0), at(1, 0), at(1, 1), at(2, 1)],
            ShapeType::S => seq![at(1, 0), at(2, 0), at(0, 1), at(1, 1)],
            ShapeType::J => seq![at(1, 0), at(1, 1), at(1, 2), at(0, 2)],
            ShapeType::L => seq![at(1, 0), at(1, 1), at(1, 2), at(2, 2)],
        }
    }

    /// The side of the square bounding box the piece turns in.
    pub open spec fn size(self) -> int {
        match self {
            ShapeType::O => 2,
            ShapeType::I => 4,
            _ => 3,
        }
    }

    /// The cells of the piece in its spawn orientation.
    pub fn shape_cells(&self) -> (cells: [Position; 4])
        ensures
            cells@ == self.base_cells(),
    {
        let cells = match self {
            ShapeType::I => [
                Position { x: 2, y: 0 },
                Position { x: 2, y: 1 },
                Position { x: 2, y: 2 },
                Position { x: 2, y: 3 },
            ],
            ShapeType::T => [
                Position { x: 0, y: 1 },
                Position { x: 1, y: 1 },
                Position { x: 2, y: 1 },
                Position { x: 1, y: 0 },
            ],
            ShapeType::O => [
                Position { x: 0, y: 0 },
                Position { x: 1, y: 0 },
                Position { x: 0, y: 1 },
                Position { x: 1, y: 1 },
            ],
            ShapeType::Z => [
                Position { x: 0, y: 0 },
                Position { x: 1, y: 0 },
                Position { x: 1, y: 1 },
                Position { x: 2, y: 1 },
            ],
            ShapeType::S => [
                Position { x: 1, y: 0 },
                Position { x: 2, y: 0 },
                Position { x: 0, y: 1 },
                Position { x: 1, y: 1 },
            ],
            ShapeType::J => [
                Position { x: 1, y: 0 },
                Position { x: 1, y: 1 },
                Position { x: 1, y: 2 },
                Position { x: 0, y: 2 },
            ],
            ShapeType::L => [
                Position { x: 1, y: 0 },
                Position { x: 1, y: 1 },
                Position { x: 1, y: 2 },
                Position { x: 2, y: 2 },
            ],
        };
        assert(cells@ =~= self.base_cells());
        cells
    }

    /// The side of the box the piece turns in.
    pub fn shape_size(&self) -> (size: usize)
        ensures
            size == self.size(),
    {
        match self {
            ShapeType::O => 2,
            ShapeType::I => 4,
            _ => 3,
        }
    }
}

} // verus!

verus! {

/// One quarter turn clockwise of a cell inside a square box of side `size`.
pub open spec fn turned(p: Position, size: int) -> Position {
    Position { x: (-p.y - 1 + size) as isize, y: p.x }
}

/// Whether turning `p` in a box of side `size` stays within `isize`.
pub open spec fn turn_fits(p: Position, size: int) -> bool {
    &&& 0 <= size <= isize::MAX
    &&& isize::MIN < p.y
    &&& isize::MIN <= -p.y - 1 + size <= isize::MAX
}

/// Every cell turned a quarter clockwise.
pub open spec fn turn_all(cells: Seq<Position>, size: int) -> Seq<Position> {
    cells.map_values(|p: Position| turned(p, size))
}

/// The cells turned `n` quarters clockwise.
pub open spec fn turn_n(cells: Seq<Position>, size: int, n: nat) -> Seq<Position>
    decreases n,
{
    if n == 0 {
        cells
    } else {
        turn_all(turn_n(cells, size, (n - 1) as nat), size)
    }
}

/// Whether `n` successive quarter turns of the cells all stay within `isize`.
pub open spec fn turns_fit(cells: Seq<Position>, size: int, n: nat) -> bool
    decreases n,
{
    if n == 0 {
        true
    } else {
        &&& forall|i: int| 0 <= i < cells.len() ==> turn_fits(#[trigger] cells[i], size)
        &&& turns_fit(turn_all(cells, size), size, (n - 1) as nat)
    }
}

/// Whether a cell lies in the square box `[0, size) x [0, size)`.
pub open spec fn in_box(p: Position, size: int) -> bool {
    0 <= p.x < size && 0 <= p.y < size
}

/// The direction a piece faces.
#[derive(Copy, Clone, PartialEq, Eq, Debug, Structural)]
pub enum Orientation {
    North,
    East,
    South,
    West,
}

impl Orientation {
    /// Quarter turns clockwise from `North`.
    pub open spec fn quarter_turns(self) -> nat {
        match self {
            Orientation::North => 0,
            Orientation::East => 1,
            Orientation::South => 2,
            Orientation::West => 3,
        }
    }

    /// The orientation one quarter turn clockwise.
    pub open spec fn clockwise(self) -> Orientation {
        match self {
            Orientation::North => Orientation::East,
            Orientation::East => Orientation::South,
            Orientation::South => Orientation::West,
            Orientation::West => Orientation::North,
        }
    }

    /// The orientation one quarter turn anti-clockwise.
    pub open spec fn anti_clockwise(self) -> Orientation {
        match self {
            Orientation::South => Orientation::East,
            Orientation::West => Orientation::South,
            Orientation::North => Orientation::West,
            Orientation::East => Orientation::North,
        }
    }
}

/// A piece together with the direction it faces.
#[derive(Copy, Clone, PartialEq, Eq, Debug, Structural)]
pub struct Shape {
    pub shape_type: ShapeType,
    pub orientation: Orientation,
}

impl Shape {
    /// The piece of the given type facing the given way.
    pub open spec fn new_spec(shape_type: ShapeType, orientation: Orientation) -> Shape {
        Shape { shape_type, orientation }
    }

    /// The cells of the piece in its bounding box, in its current orientation.
    pub open spec fn cells(self) -> Seq<Position> {
        turn_n(self.shape_type.base_cells(), self.shape_type.size(), self.orientation.quarter_turns())
    }

    /// Whether placing the piece with its box corner at `pos` stays within `isize`.
    pub open spec fn fits_at(self, pos: Position) -> bool {
        forall|i: int| 0 <= i < 4 ==> (#[trigger] self.cells()[i]).can_add(pos)
    }

    /// The board cells covered by the piece with its box corner at `pos`.
    pub open spec fn cells_at_spec(self, pos: Position) -> Seq<Position> {
        self.cells().map_values(|c: Position| c.plus(pos))
    }

    /// The piece of the given type facing the given way.
    pub fn new(shape_type: ShapeType, orientation: Orientation) -> (s: Self)
        ensures
            s.shape_type == shape_type,
            s.orientation == orientation,
    {
        Self { shape_type, orientation }
    }

    /// The cells of the piece in its box, in its current orientation.
    pub fn get_cells(&self) -> (cells: [Position; 4])
        ensures
            cells@ == self.cells(),
    {
        let shape_cells = self.shape_type.shape_cells();
        let shape_size = self.shape_type.shape_size();
        proof {
            lemma_base_turns_fit(self.shape_type, 0);
            lemma_base_turns_fit(self.shape_type, 1);
            lemma_base_turns_fit(self.shape_type, 2);
            reveal_with_fuel(turn_n, 4);
        }
        match self.orientation {
            Orientation::North => shape_cells,
            Orientation::East => rotate_shape(shape_cells, shape_size),
            Orientation::South => rotate_shape(rotate_shape(shape_cells, shape_size), shape_size),
            Orientation::West => rotate_shape(
                rotate_shape(rotate_shape(shape_cells, shape_size), shape_size),
                shape_size,
            ),
        }
    }

    /// The board cells covered by the piece with its box corner at `pos`.
    pub fn cells_at(&self, pos: Position) -> (cells: [Position; 4])
        requires
            self.fits_at(pos),
        ensures
            cells@ == self.cells_at_spec(pos),
    {
        let c = self.get_cells();
        let cells = [c[0] + pos, c[1] + pos, c[2] + pos, c[3] + pos];
        assert(cells@ =~= self.cells_at_spec(pos));
        cells
    }

    /// Turns the piece a quarter clockwise.
    pub fn rotate_clockwise(&mut self)
        ensures
            final(self).shape_type == old(self).shape_type,
            final(self).orientation == old(self).orientation.clockwise(),
    {
        self.orientation = match self.orientation {
            Orientation::North => Orientation::East,
            Orientation::East => Orientation::South,
            Orientation::South => Orientation::West,
            Orientation::West => Orientation::North,
        }
    }

    /// Turns the piece a quarter anti-clockwise.
    pub fn rotate_anti_clockwise(&mut self)
        ensures
            final(self).shape_type == old(self).shape_type,
            final(self).orientation == old(self).orientation.anti_clockwise(),
    {
        self.orientation = match self.orientation {
            Orientation::South => Orientation::East,
            Orientation::West => Orientation::South,
            Orientation::North => Orientation::West,
            Orientation::East => Orientation::North,
        }
    }
}

/// Turns every cell a quarter clockwise inside a box of side `shape_size`.
pub fn rotate_shape(positions: [Position; 4], shape_size: usize) -> (turned_cells: [Position; 4])
    requires
        forall|i: int| 0 <= i < 4 ==> turn_fits(#[trigger] positions@[i], shape_size as int),
    ensures
        turned_cells@ == turn_all(positions@, shape_size as int),
{
    let turned_cells = [
        turn_cell(positions[0], shape_size),
        turn_cell(positions[1], shape_size),
        turn_cell(positions[2], shape_size),
        turn_cell(positions[3], shape_size),
    ];
    assert(turned_cells@ =~= turn_all(positions@, shape_size as int));
    turned_cells
}

fn turn_cell(pos: Position, shape_size: usize) -> (p: Position)
    requires
        turn_fits(pos, shape_size as int),
    ensures
        p == turned(pos, shape_size as int),
{
    Position { x: -pos.y - 1 + shape_size as isize, y: pos.x }
}

/// Turning a cell of the box keeps it in the box.
pub proof fn lemma_turn_stays_in_box(p: Position, size: int)
    requires
        0 <= size <= 4,
        in_box(p, size),
    ensures
        turn_fits(p, size),
        in_box(turned(p, size), size),
{
}

/// Every quarter turn of a piece keeps its cells in its box.
pub proof fn lemma_turn_n_in_box(t: ShapeType, n: nat)
    ensures
        turn_n(t.base_cells(), t.size(), n).len() == 4,
        forall|i: int|
            0 <= i < 4 ==> in_box(#[trigger] turn_n(t.base_cells(), t.size(), n)[i], t.size()),
    decreases n,
{
    if n > 0 {
        lemma_turn_n_in_box(t, (n - 1) as nat);
        let prev = turn_n(t.base_cells(), t.size(), (n - 1) as nat);
        assert forall|i: int| 0 <= i < 4 implies in_box(
            #[trigger] turn_n(t.base_cells(), t.size(), n)[i],
            t.size(),
        ) by {
            lemma_turn_stays_in_box(prev[i], t.size());
        }
    }
}

proof fn lemma_base_turns_fit(t: ShapeType, n: nat)
    ensures
        forall|i: int|
            0 <= i < 4 ==> turn_fits(#[trigger] turn_n(t.base_cells(), t.size(), n)[i], t.size()),
{
    lemma_turn_n_in_box(t, n);
    assert forall|i: int| 0 <= i < 4 implies turn_fits(
        #[trigger] turn_n(t.base_cells(), t.size(), n)[i],
        t.size(),
    ) by {
        lemma_turn_stays_in_box(turn_n(t.base_cells(), t.size(), n)[i], t.size());
    }
}

} // verus!

verus! {

/// Four quarter turns bring any cells back where they were.
pub proof fn lemma_four_turns_identity(cells: Seq<Position>, size: int)
    requires
        turns_fit(cells, size, 4),
    ensures
        turn_n(cells, size, 4) == cells,
{
    reveal_with_fuel(turn_n, 5);
    reveal_with_fuel(turns_fit, 5);
    let c1 = turn_all(cells, size);
    let c2 = turn_all(c1, size);
    let c3 = turn_all(c2, size);
    let c4 = turn_all(c3, size);
    assert(turn_n(cells, size, 4) == c4);
    assert forall|i: int| 0 <= i < cells.len() implies #[trigger] c4[i] == cells[i] by {
        assert(turn_fits(cells[i], size));
        assert(turn_fits(c1[i], size));
        assert(turn_fits(c2[i], size));
        assert(turn_fits(c3[i], size));
    }
    assert(c4 =~= cells);
}

/// A clockwise turn and an anti-clockwise turn undo each other, in either order.
pub proof fn lemma_turns_cancel(s: Shape)
    ensures
        s.orientation.clockwise().anti_clockwise() == s.orientation,
        s.orientation.anti_clockwise().clockwise() == s.orientation,
{
}

/// Whether the four cells are pairwise distinct.
pub open spec fn distinct_four(c: Seq<Position>) -> bool {
    &&& c.len() == 4
    &&& c[0] != c[1] && c[0] != c[2] && c[0] != c[3]
    &&& c[1] != c[2] && c[1] != c[3] && c[2] != c[3]
}

/// Every piece, in every orientation, covers four distinct cells of its box.
pub proof fn lemma_piece_cells_distinct_in_box(s: Shape)
    ensures
        s.cells().len() == 4,
        forall|i: int| 0 <= i < 4 ==> in_box(#[trigger] s.cells()[i], s.shape_type.size()),
        forall|i: int, j: int| 0 <= i < j < 4 ==> s.cells()[i] != s.cells()[j],
{
    lemma_turn_n_in_box(s.shape_type, s.orientation.quarter_turns());
    reveal_with_fuel(turn_n, 4);
    match s.shape_type {
        ShapeType::I => {
            match s.orientation {
                Orientation::North => {
                    assert(distinct_four(Shape::new_spec(ShapeType::I, Orientation::North).cells()));
                },
                Orientation::East => {
                    assert(distinct_four(Shape::new_spec(ShapeType::I, Orientation::East).cells()));
                },
                Orientation::South => {
                    assert(distinct_four(Shape::new_spec(ShapeType::I, Orientation::South).cells()));
                },
                Orientation::West => {
                    assert(distinct_four(Shape::new_spec(ShapeType::I, Orientation::West).cells()));
                },
            }
        },
        ShapeType::O => {
            match s.orientation {
                Orientation::North => {
                    assert(distinct_four(Shape::new_spec(ShapeType::O, Orientation::North).cells()));
                },
                Orientation::East => {
                    assert(distinct_four(Shape::new_spec(ShapeType::O, Orientation::East).cells()));
                },
                Orientation::South => {
                    assert(distinct_four(Shape::new_spec(ShapeType::O, Orientation::South).cells()));
                },
                Orientation::West => {
                    assert(distinct_four(Shape::new_spec(ShapeType::O, Orientation::West).cells()));
                },
            }
        },
        ShapeType::T => {
            match s.orientation {
                Orientation::North => {
                    assert(distinct_four(Shape::new_spec(ShapeType::T, Orientation::North).cells()));
                },
                Orientation::East => {
                    assert(distinct_four(Shape::new_spec(ShapeType::T, Orientation::East).cells()));
                },
                Orientation::South => {
                    assert(distinct_four(Shape::new_spec(ShapeType::T, Orientation::South).cells()));
                },
                Orientation::West => {
                    assert(distinct_four(Shape::new_spec(ShapeType::T, Orientation::West).cells()));
                },
            }
        },
        ShapeType::S => {
            match s.orientation {
                Orientation::North => {
                    assert(distinct_four(Shape::new_spec(ShapeType::S, Orientation::North).cells()));
                },
                Orientation::East => {
                    assert(distinct_four(Shape::new_spec(ShapeType::S, Orientation::East).cells()));
                },
                Orientation::South => {
                    assert(distinct_four(Shape::new_spec(ShapeType::S, Orientation::South).cells()));
                },
                Orientation::West => {
                    assert(distinct_four(Shape::new_spec(ShapeType::S, Orientation::West).cells()));
                },
            }
        },
        ShapeType::Z => {
            match s.orientation {
                Orientation::North => {
                    assert(distinct_four(Shape::new_spec(ShapeType::Z, Orientation::North).cells()));
                },
                Orientation::East => {
                    assert(distinct_four(Shape::new_spec(ShapeType::Z, Orientation::East).cells()));
                },
                Orientation::South => {
                    assert(distinct_four(Shape::new_spec(ShapeType::Z, Orientation::South).cells()));
                },
                Orientation::West => {
                    assert(distinct_four(Shape::new_spec(ShapeType::Z, Orientation::West).cells()));
                },
            }
        },
        ShapeType::J => {
            match s.orientation {
                Orientation::North => {
                    assert(distinct_four(Shape::new_spec(ShapeType::J, Orientation::North).cells()));
                },
                Orientation::East => {
                    assert(distinct_four(Shape::new_spec(ShapeType::J, Orientation::East).cells()));
                },
                Orientation::South => {
                    assert(distinct_four(Shape::new_spec(ShapeType::J, Orientation::South).cells()));
                },
                Orientation::West => {
                    assert(distinct_four(Shape::new_spec(ShapeType::J, Orientation::West).cells()));
                },
            }
        },
        ShapeType::L => {
            match s.orientation {
                Orientation::North => {
                    assert(distinct_four(Shape::new_spec(ShapeType::L, Orientation::North).cells()));
                },
                Orientation::East => {
                    assert(distinct_four(Shape::new_spec(ShapeType::L, Orientation::East).cells()));
                },
                Orientation::South => {
                    assert(distinct_four(Shape::new_spec(ShapeType::L, Orientation::South).cells()));
                },
                Orientation::West => {
                    assert(distinct_four(Shape::new_spec(ShapeType::L, Orientation::West).cells()));
                },
            }
        },
    }
}

/// The square piece covers the same cells whichever way it faces.
pub proof fn lemma_square_piece_turn_invariant(o: Orientation)
    ensures
        Shape::new_spec(ShapeType::O, o).cells().to_set() == ShapeType::O.base_cells().to_set(),
{
    reveal_with_fuel(turn_n, 4);
    let c = Shape::new_spec(ShapeType::O, o).cells();
    let b = ShapeType::O.base_cells();
    assert(c.len() == 4);
    assert forall|p: Position| c.contains(p) <==> b.contains(p) by {
        if c.contains(p) {
            let i = choose|i: int| 0 <= i < c.len() && c[i] == p;
            assert(b[0] == c[i] || b[1] == c[i] || b[2] == c[i] || b[3] == c[i]);
        }
        if b.contains(p) {
            let i = choose|i: int| 0 <= i < b.len() && b[i] == p;
            assert(c[0] == b[i] || c[1] == b[i] || c[2] == b[i] || c[3] == b[i]);
        }
    }
    assert(c.to_set() =~= b.to_set());
}

} // verus!
