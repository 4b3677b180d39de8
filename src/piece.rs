//! The piece catalog, the pending transform, and the active piece with its
//! rotation and commit arithmetic.

use crate::grid::{col_of, lemma_cell_index, row_of, TileType, MAX_CELLS};
use vstd::prelude::*;

verus! {

/// Number of shapes in the catalog.
pub const SHAPE_COUNT: u32 = 7;

/// The seven catalog shapes.
#[derive(Clone, Copy, Debug, PartialEq, Eq, Structural)]
pub enum Shape {
    I,
    J,
    L,
    O,
    S,
    T,
    Z,
}

/// The shape at position `n` of the catalog, if there is one.
pub open spec fn shape_at(n: int) -> Option<Shape> {
    if n == 0 {
        Some(Shape::I)
    } else if n == 1 {
        Some(Shape::J)
    } else if n == 2 {
        Some(Shape::L)
    } else if n == 3 {
        Some(Shape::O)
    } else if n == 4 {
        Some(Shape::S)
    } else if n == 5 {
        Some(Shape::T)
    } else if n == 6 {
        Some(Shape::Z)
    } else {
        None
    }
}

/// Color of the blocks of a shape.
pub open spec fn shape_color(s: Shape) -> TileType {
    match s {
        Shape::I => TileType::Turquoise,
        Shape::J => TileType::Blue,
        Shape::L => TileType::Orange,
        Shape::O => TileType::Yellow,
        Shape::S => TileType::Green,
        Shape::T => TileType::Purple,
        Shape::Z => TileType::Red,
    }
}

/// Offsets `(dx, dy)` of a shape's four cells from its pivot; `dy` grows
/// downwards. Each shape holds `(0, 0)`: the pivot is one of its cells.
pub open spec fn shape_offsets(s: Shape) -> Seq<(int, int)> {
    match s {
        Shape::I => seq![(0, -1), (0, 0), (0, 1), (0, 2)],
        Shape::J => seq![(0, -1), (0, 0), (-1, 1), (0, 1)],
        Shape::L => seq![(0, -1), (0, 0), (0, 1), (1, 1)],
        Shape::O => seq![(0, -1), (1, -1), (0, 0), (1, 0)],
        Shape::S => seq![(0, -1), (1, -1), (0, 0), (-1, 0)],
        Shape::T => seq![(0, -1), (-1, 0), (0, 0), (1, 0)],
        Shape::Z => seq![(-1, 0), (0, 0), (0, 1), (1, 1)],
    }
}

/// Columns a new piece is moved right by, to stand in the middle.
pub open spec fn spawn_shift(width: int) -> int {
    (width - 2) / 2
}

/// Grid index of a new piece's pivot: column 1 (before centering), row 1,
/// or row 0 for the shape whose cells lie on rows 0 and 1 only.
pub open spec fn spawn_pivot(s: Shape, width: int) -> int {
    let row: int = if s == Shape::Z {
        0
    } else {
        1
    };
    row * width + 1 + spawn_shift(width)
}

/// Grid indices of a new piece's cells.
pub open spec fn spawn_cells(s: Shape, width: int) -> Seq<int> {
    shape_offsets(s).map_values(|o: (int, int)| spawn_pivot(s, width) + o.1 * width + o.0)
}

impl Shape {
    /// The shape at position `n` of the catalog (0 to 6).
    pub fn from_index(n: u32) -> (r: Option<Shape>)
        ensures
            r == shape_at(n as int),
            (r is Some) <==> n < SHAPE_COUNT,
    {
        match n {
            0 => Some(Shape::I),
            1 => Some(Shape::J),
            2 => Some(Shape::L),
            3 => Some(Shape::O),
            4 => Some(Shape::S),
            5 => Some(Shape::T),
            6 => Some(Shape::Z),
            _ => None,
        }
    }

    /// Color of the shape's blocks.
    pub fn tile_type(self) -> (r: TileType)
        ensures
            r == shape_color(self),
            r != TileType::Empty,
    {
        match self {
            Shape::I => TileType::Turquoise,
            Shape::J => TileType::Blue,
            Shape::L => TileType::Orange,
            Shape::O => TileType::Yellow,
            Shape::S => TileType::Green,
            Shape::T => TileType::Purple,
            Shape::Z => TileType::Red,
        }
    }
}

/// `(x, y)` turned by `degree` (one of -90, 0, 90) about the origin, with `y`
/// growing downwards: `x' = x cos - y sin`, `y' = x sin + y cos`.
pub open spec fn rotate_offset(x: int, y: int, degree: int) -> (int, int) {
    if degree == 90 {
        (-y, x)
    } else if degree == -90 {
        (y, -x)
    } else {
        (x, y)
    }
}

/// Where the cell at `index` lands when turned by `degree` about `pivot`: the
/// offset from the pivot is taken by row and column, turned, and added back.
pub open spec fn rotated_index(index: int, pivot: int, width: int, degree: int) -> int {
    let x = col_of(index, width) - col_of(pivot, width);
    let y = row_of(index, width) - row_of(pivot, width);
    let (rx, ry) = rotate_offset(x, y, degree);
    pivot + ry * width + rx
}

/// A rotation the pending transform can hold.
pub open spec fn valid_degree(degree: int) -> bool {
    degree == -90 || degree == 0 || degree == 90
}

/// A staged transform: a translation by `x` columns and `y` rows, and a
/// rotation by `rot_degree` degrees about the piece's pivot.
#[derive(Clone, Copy, Debug, PartialEq, Eq, Structural)]
pub struct TileChange {
    pub x: i32,
    pub y: i32,
    pub rot_degree: i32,
}

/// Where the cell at `index` lands under `change`: rotated about `pivot`,
/// then translated.
pub open spec fn virtual_index(index: int, pivot: int, width: int, change: TileChange) -> int {
    rotated_index(index, pivot, width, change.rot_degree as int) + change.x + change.y * width
}

impl TileChange {
    /// The identity transform.
    pub open spec fn identity() -> TileChange {
        TileChange { x: 0, y: 0, rot_degree: 0 }
    }

    pub open spec fn wf(self) -> bool {
        valid_degree(self.rot_degree as int)
    }

    /// The identity transform.
    pub fn new() -> (r: TileChange)
        ensures
            r == TileChange::identity(),
    {
        TileChange { x: 0, y: 0, rot_degree: 0 }
    }

    /// Back to the identity transform.
    pub fn reset(&mut self)
        ensures
            *final(self) == TileChange::identity(),
    {
        self.x = 0;
        self.y = 0;
        self.rot_degree = 0;
    }
}

/// What a piece is, as a mathematical value: its cells and pivot as grid
/// indices, its color, its pending transform and its rotate intent.
pub struct PieceState {
    pub cells: Seq<int>,
    pub center: int,
    pub color: TileType,
    pub change: TileChange,
    pub rotate: bool,
}

/// A new piece of shape `s` on a grid `width` columns wide.
pub open spec fn spawned(s: Shape, width: int) -> PieceState {
    PieceState {
        cells: spawn_cells(s, width),
        center: spawn_pivot(s, width),
        color: shape_color(s),
        change: TileChange::identity(),
        rotate: false,
    }
}

/// Where the pending transform would put each cell of `p`.
pub open spec fn virtual_cells(p: PieceState, width: int) -> Seq<int> {
    p.cells.map_values(|i: int| virtual_index(i, p.center, width, p.change))
}

/// `p` with its pending transform applied: every cell moved to its virtual
/// position, the pivot moved by the translation, the transform reset.
pub open spec fn committed(p: PieceState, width: int) -> PieceState {
    PieceState {
        cells: virtual_cells(p, width),
        center: p.center + p.change.x + p.change.y * width,
        change: TileChange::identity(),
        ..p
    }
}

/// The piece under control: four cells and a pivot, as grid indices, its
/// color, the transform staged for the next commit, and whether a rotation
/// was asked for.
#[derive(Clone, Copy, Debug)]
pub struct FallingTile {
    pub indexes: [usize; 4],
    pub uncommited_change: TileChange,
    pub center: usize,
    pub tile_type: TileType,
    pub rotate_this_frame: bool,
}

impl View for FallingTile {
    type V = PieceState;

    open spec fn view(&self) -> PieceState {
        PieceState {
            cells: self.indexes@.map_values(|i: usize| i as int),
            center: self.center as int,
            color: self.tile_type,
            change: self.uncommited_change,
            rotate: self.rotate_this_frame,
        }
    }
}

impl FallingTile {
    /// Indices are small enough for the transform arithmetic, and the
    /// pending rotation is a quarter turn or none.
    pub open spec fn wf(&self, width: int) -> bool {
        &&& 0 < width <= MAX_CELLS
        &&& self.center <= MAX_CELLS
        &&& forall|k: int| 0 <= k < 4 ==> self.indexes[k] <= MAX_CELLS
        &&& self.uncommited_change.wf()
    }

    /// A new piece of a random shape, centered at the top of a grid
    /// `board_width` columns wide.
    pub fn new(board_width: usize) -> (r: FallingTile)
        requires
            3 <= board_width,
            4 * board_width <= MAX_CELLS,
        ensures
            r.wf(board_width as int),
            exists|s: Shape| r@ == spawned(s, board_width as int),
            forall|k: int| 0 <= k < 4 ==> r.indexes[k] < 4 * board_width,
            r@.cells.contains(r@.center),
    {
        FallingTile::spawn(random_shape(), board_width)
    }

    /// A new piece of shape `shape`, centered at the top of a grid
    /// `board_width` columns wide.
    pub fn spawn(shape: Shape, board_width: usize) -> (r: FallingTile)
        requires
            3 <= board_width,
            4 * board_width <= MAX_CELLS,
        ensures
            r.wf(board_width as int),
            r@ == spawned(shape, board_width as int),
            forall|k: int| 0 <= k < 4 ==> r.indexes[k] < 4 * board_width,
            r@.cells.contains(r@.center),
    {
        let w = board_width;
        let shift = (w - 2) / 2;
        let (cells, center): ([usize; 4], usize) = match shape {
            Shape::I => ([1, w + 1, w * 2 + 1, w * 3 + 1], w + 1),
            Shape::J => ([1, w + 1, w * 2, w * 2 + 1], w + 1),
            Shape::L => ([1, w + 1, w * 2 + 1, w * 2 + 2], w + 1),
            Shape::O => ([1, 2, w + 1, w + 2], w + 1),
            Shape::S => ([1, 2, w + 1, w], w + 1),
            Shape::T => ([1, w, w + 1, w + 2], w + 1),
            Shape::Z => ([0, 1, w + 1, w + 2], 1),
        };
        let r = FallingTile {
            indexes: [cells[0] + shift, cells[1] + shift, cells[2] + shift, cells[3] + shift],
            uncommited_change: TileChange::new(),
            center: center + shift,
            tile_type: shape.tile_type(),
            rotate_this_frame: false,
        };
        proof {
            let wi = w as int;
            assert(spawn_pivot(shape, wi) == center + shift) by {
                if shape == Shape::Z {
                    assert(0 * wi == 0);
                } else {
                    assert(1 * wi == wi);
                }
            }
            assert(0 * wi == 0 && 1 * wi == wi && 2 * wi == wi * 2 && -1 * wi == -wi && 3 * wi == wi * 3);
            let sc = spawn_cells(shape, wi);
            assert(r.indexes@[0] == cells[0] + shift);
            assert(r.indexes@[1] == cells[1] + shift);
            assert(r.indexes@[2] == cells[2] + shift);
            assert(r.indexes@[3] == cells[3] + shift);
            let pk: int = if shape == Shape::O || shape == Shape::S || shape == Shape::T {
                2
            } else {
                1
            };
            assert(r@.cells[pk] == r@.center);
        }
        assert(r@.cells =~= spawn_cells(shape, w as int));
        r
    }

    /// Where the cell at position `index` lands when turned by `degree`
    /// about the pivot.
    pub fn rotate_specific(&self, index: usize, degree: i32, board_width: usize) -> (r: i64)
        requires
            self.wf(board_width as int),
            index < 4,
            valid_degree(degree as int),
        ensures
            r == rotated_index(self.indexes[index as int] as int, self.center as int, board_width as int, degree as int),
            -0x4000_0000_0000_0000 < r < 0x4000_0000_0000_0000,
    {
        let w = board_width as i64;
        let cell = self.indexes[index];
        let x = (cell % board_width) as i64 - (self.center % board_width) as i64;
        let y = (cell / board_width) as i64 - (self.center / board_width) as i64;
        proof {
            lemma_small_product(x as int, w as int);
            lemma_small_product(y as int, w as int);
            lemma_small_product(-x, w as int);
            lemma_small_product(-y, w as int);
        }
        let (rx, ry): (i64, i64) = if degree == 90 {
            (-y, x)
        } else if degree == -90 {
            (y, -x)
        } else {
            (x, y)
        };
        self.center as i64 + ry * w + rx
    }

    /// Where the cell at position `index` lands under the pending transform.
    pub fn as_virtual(&self, index: usize, board_width: usize) -> (r: i64)
        requires
            self.wf(board_width as int),
            index < 4,
        ensures
            r == virtual_index(self.indexes[index as int] as int, self.center as int, board_width as int, self.uncommited_change),
    {
        let rotated = self.rotate_specific(index, self.uncommited_change.rot_degree, board_width);
        let w = board_width as i64;
        let dy = self.uncommited_change.y as i64;
        proof {
            lemma_small_product(dy as int, w as int);
        }
        rotated + self.uncommited_change.x as i64 + dy * w
    }

    /// Adds `degree` to the pending rotation.
    pub fn rotate(&mut self, degree: i32)
        requires
            valid_degree(old(self).uncommited_change.rot_degree + degree),
        ensures
            final(self).uncommited_change.rot_degree == old(self).uncommited_change.rot_degree + degree,
            final(self).uncommited_change.x == old(self).uncommited_change.x,
            final(self).uncommited_change.y == old(self).uncommited_change.y,
            final(self).indexes == old(self).indexes,
            final(self).center == old(self).center,
            final(self).tile_type == old(self).tile_type,
            final(self).rotate_this_frame == old(self).rotate_this_frame,
    {
        self.uncommited_change.rot_degree = self.uncommited_change.rot_degree + degree;
    }

    /// Applies the pending transform: each cell moves to its virtual
    /// position, the pivot moves by the translation, and the transform is
    /// reset.
    pub fn commit_changes(&mut self, board_width: usize)
        requires
            old(self).wf(board_width as int),
            forall|k: int|
                0 <= k < 4 ==> 0 <= #[trigger] virtual_cells(old(self)@, board_width as int)[k] <= MAX_CELLS,
            0 <= committed(old(self)@, board_width as int).center <= MAX_CELLS,
        ensures
            final(self)@ == committed(old(self)@, board_width as int),
            final(self).wf(board_width as int),
    {
        let v0 = self.as_virtual(0, board_width);
        let v1 = self.as_virtual(1, board_width);
        let v2 = self.as_virtual(2, board_width);
        let v3 = self.as_virtual(3, board_width);
        proof {
            assert(v0 == virtual_cells(old(self)@, board_width as int)[0]);
            assert(v1 == virtual_cells(old(self)@, board_width as int)[1]);
            assert(v2 == virtual_cells(old(self)@, board_width as int)[2]);
            assert(v3 == virtual_cells(old(self)@, board_width as int)[3]);
            lemma_small_product(self.uncommited_change.y as int, board_width as int);
        }
        let velocity = self.uncommited_change.x as i64 + self.uncommited_change.y as i64 * board_width as i64;
        self.center = (self.center as i64 + velocity) as usize;
        self.indexes = [v0 as usize, v1 as usize, v2 as usize, v3 as usize];
        self.uncommited_change.reset();
        assert(self@.cells =~= virtual_cells(old(self)@, board_width as int));
    }
}

/// Turning by no degree leaves a cell where it is.
pub proof fn lemma_rotate_zero(index: int, pivot: int, width: int)
    requires
        0 <= index,
        0 <= pivot,
        0 < width,
    ensures
        rotated_index(index, pivot, width, 0) == index,
{
    vstd::arithmetic::div_mod::lemma_fundamental_div_mod(index, width);
    vstd::arithmetic::div_mod::lemma_fundamental_div_mod(pivot, width);
    let qi = index / width;
    let qp = pivot / width;
    assert((qi - qp) * width == width * qi - width * qp) by (nonlinear_arith);
}

/// The pivot stays where it is under any turn.
pub proof fn lemma_rotate_pivot(pivot: int, width: int, degree: int)
    ensures
        rotated_index(pivot, pivot, width, degree) == pivot,
{
    assert(0 * width == 0);
}

/// A turn of offset `o` by `degree`.
pub open spec fn turn(o: (int, int), degree: int) -> (int, int) {
    rotate_offset(o.0, o.1, degree)
}

/// Four quarter turns bring every offset back, and a quarter turn back undoes
/// a quarter turn: on each catalog shape's offsets, rotation is a group of
/// order four.
pub proof fn lemma_shape_four_turns(s: Shape)
    ensures
        forall|k: int|
            0 <= k < 4 ==> turn(turn(turn(turn(#[trigger] shape_offsets(s)[k], 90), 90), 90), 90)
                == shape_offsets(s)[k],
        forall|k: int|
            0 <= k < 4 ==> turn(turn(#[trigger] shape_offsets(s)[k], 90), -90) == shape_offsets(s)[k],
{
}

/// A quarter turn of the cell at `index` about `pivot` keeps it on the grid:
/// the turned offset, added to the pivot's row and column, names a row that
/// is not negative and a column inside the grid.
pub open spec fn turn_stays_on_grid(index: int, pivot: int, width: int, degree: int) -> bool {
    let x = col_of(index, width) - col_of(pivot, width);
    let y = row_of(index, width) - row_of(pivot, width);
    let (rx, ry) = rotate_offset(x, y, degree);
    0 <= col_of(pivot, width) + rx < width && 0 <= row_of(pivot, width) + ry
}

/// A turn that stays on the grid lands on the cell whose offset from the
/// pivot, by row and column, is the turned offset.
pub proof fn lemma_turn_offset(index: int, pivot: int, width: int, degree: int)
    requires
        0 < width,
        0 <= pivot,
        turn_stays_on_grid(index, pivot, width, degree),
    ensures
        ({
            let x = col_of(index, width) - col_of(pivot, width);
            let y = row_of(index, width) - row_of(pivot, width);
            let t = rotated_index(index, pivot, width, degree);
            &&& 0 <= t
            &&& (col_of(t, width) - col_of(pivot, width), row_of(t, width) - row_of(pivot, width))
                == rotate_offset(x, y, degree)
        }),
{
    let x = col_of(index, width) - col_of(pivot, width);
    let y = row_of(index, width) - row_of(pivot, width);
    let (rx, ry) = rotate_offset(x, y, degree);
    let pr = row_of(pivot, width);
    let pc = col_of(pivot, width);
    vstd::arithmetic::div_mod::lemma_fundamental_div_mod(pivot, width);
    assert(pivot + ry * width + rx == (pr + ry) * width + (pc + rx)) by (nonlinear_arith)
        requires
            pivot == width * pr + pc,
    ;
    lemma_cell_index(pr + ry, pc + rx, width);
    assert(0 <= (pr + ry) * width) by (nonlinear_arith)
        requires
            0 <= pr + ry,
            0 < width,
    ;
}

/// Turning a cell a quarter turn about the pivot four times brings it back
/// to its index, as long as no turn carries it off the grid.
pub proof fn lemma_four_quarter_turns(index: int, pivot: int, width: int)
    requires
        0 < width,
        0 <= index,
        0 <= pivot,
        turn_stays_on_grid(index, pivot, width, 90),
        turn_stays_on_grid(rotated_index(index, pivot, width, 90), pivot, width, 90),
        turn_stays_on_grid(
            rotated_index(rotated_index(index, pivot, width, 90), pivot, width, 90),
            pivot,
            width,
            90,
        ),
        turn_stays_on_grid(
            rotated_index(
                rotated_index(rotated_index(index, pivot, width, 90), pivot, width, 90),
                pivot,
                width,
                90,
            ),
            pivot,
            width,
            90,
        ),
    ensures
        rotated_index(
            rotated_index(
                rotated_index(rotated_index(index, pivot, width, 90), pivot, width, 90),
                pivot,
                width,
                90,
            ),
            pivot,
            width,
            90,
        ) == index,
{
    let i1 = rotated_index(index, pivot, width, 90);
    let i2 = rotated_index(i1, pivot, width, 90);
    let i3 = rotated_index(i2, pivot, width, 90);
    lemma_turn_offset(index, pivot, width, 90);
    lemma_turn_offset(i1, pivot, width, 90);
    lemma_turn_offset(i2, pivot, width, 90);
    lemma_turn_offset(i3, pivot, width, 90);
    lemma_rotate_zero(index, pivot, width);
}

/// The quarter turn about the pivot, with no translation.
pub open spec fn quarter_turn() -> TileChange {
    TileChange { x: 0, y: 0, rot_degree: 90 }
}

/// `p` turned a quarter turn about its pivot and committed.
pub open spec fn quarter_turned(p: PieceState, width: int) -> PieceState {
    committed(PieceState { change: quarter_turn(), ..p }, width)
}

/// Each of the four successive quarter turns of `p`'s cell `k` stays on the
/// grid.
pub open spec fn turns_stay_on_grid(p: PieceState, width: int, k: int) -> bool {
    let i1 = rotated_index(p.cells[k], p.center, width, 90);
    let i2 = rotated_index(i1, p.center, width, 90);
    let i3 = rotated_index(i2, p.center, width, 90);
    &&& turn_stays_on_grid(p.cells[k], p.center, width, 90)
    &&& turn_stays_on_grid(i1, p.center, width, 90)
    &&& turn_stays_on_grid(i2, p.center, width, 90)
    &&& turn_stays_on_grid(i3, p.center, width, 90)
}

/// Turning a piece a quarter turn four times, no turn carrying a cell off
/// the grid, brings every cell back to its index and keeps the pivot.
pub proof fn lemma_piece_four_turns(p: PieceState, width: int)
    requires
        0 < width,
        0 <= p.center,
        p.cells.len() == 4,
        forall|k: int| 0 <= k < 4 ==> 0 <= #[trigger] p.cells[k],
        forall|k: int| 0 <= k < 4 ==> #[trigger] turns_stay_on_grid(p, width, k),
    ensures
        quarter_turned(quarter_turned(quarter_turned(quarter_turned(p, width), width), width), width).cells
            == p.cells,
        quarter_turned(quarter_turned(quarter_turned(quarter_turned(p, width), width), width), width).center
            == p.center,
{
    let once = quarter_turned(p, width);
    let twice = quarter_turned(once, width);
    let thrice = quarter_turned(twice, width);
    let four = quarter_turned(thrice, width);
    assert(0 * width == 0);
    assert forall|k: int| 0 <= k < 4 implies four.cells[k] == p.cells[k] by {
        assert(turns_stay_on_grid(p, width, k));
        lemma_four_quarter_turns(p.cells[k], p.center, width);
    }
    assert(four.cells =~= p.cells);
}

/// Bound on a product of two indices of the transform arithmetic.
proof fn lemma_small_product(a: int, w: int)
    requires
        -0x8000_0000 <= a <= 0x8000_0000,
        0 < w <= MAX_CELLS,
    ensures
        -0x2000_0000_0000_0000 <= a * w <= 0x2000_0000_0000_0000,
{
    if a >= 0 {
        vstd::arithmetic::mul::lemma_mul_upper_bound(a, 0x8000_0000, w, 0x4000_0000);
        vstd::arithmetic::mul::lemma_mul_nonnegative(a, w);
    } else {
        vstd::arithmetic::mul::lemma_mul_upper_bound(-a, 0x8000_0000, w, 0x4000_0000);
        vstd::arithmetic::mul::lemma_mul_nonnegative(-a, w);
        vstd::arithmetic::mul::lemma_mul_unary_negation(a, w);
    }
}

/// A shape drawn at random from the catalog.
pub fn random_shape() -> (r: Shape) {
    let n = random_below(SHAPE_COUNT);
    Shape::from_index(n).unwrap()
}

/// Relies on rand's `thread_rng` and `Rng::gen_range`: a value drawn from
/// `[0, n)`; `gen_range` panics on an empty range, which `requires` rules out.
#[verifier::external_body]
fn random_below(n: u32) -> (r: u32)
    requires
        0 < n,
    ensures
        r < n,
{
    rand::Rng::gen_range(&mut rand::thread_rng(), 0, n)
}

} // verus!
