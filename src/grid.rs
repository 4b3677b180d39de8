//! The playfield: a fixed-size, row-major array of cells and the
//! line-clear engine that removes complete rows.

use vstd::prelude::*;

verus! {

/// Largest number of cells a grid may hold; keeps every index computation
/// of the piece arithmetic well inside 64-bit signed range.
pub const MAX_CELLS: usize = 0x3fff_ffff;

/// Points awarded for each cleared row.
pub const ROW_SCORE: i32 = 10;

/// Content of one cell: empty, or occupied by a block of one of the seven
/// piece colors.
#[derive(Clone, Copy, Debug, PartialEq, Eq, Structural)]
pub enum TileType {
    Empty,
    Turquoise,
    Blue,
    Orange,
    Yellow,
    Green,
    Purple,
    Red,
}

/// Row index of a cell index.
pub open spec fn row_of(index: int, width: int) -> int {
    index / width
}

/// Column index of a cell index.
pub open spec fn col_of(index: int, width: int) -> int {
    index % width
}

/// The cell at row `r`, column `c`.
pub open spec fn cell_at(cells: Seq<TileType>, width: nat, r: int, c: int) -> TileType {
    cells[r * width + c]
}

/// Every cell of row `r` is occupied.
pub open spec fn row_complete(cells: Seq<TileType>, width: nat, r: int) -> bool {
    forall|c: int| 0 <= c < width ==> #[trigger] cell_at(cells, width, r, c) != TileType::Empty
}

/// Row `r` removed: every row above it moves one row down and the top row
/// becomes empty; rows below `r` keep their content.
pub open spec fn remove_row(cells: Seq<TileType>, width: nat, r: int) -> Seq<TileType> {
    Seq::new(
        cells.len(),
        |i: int|
            if i < width {
                TileType::Empty
            } else if i < (r + 1) * width {
                cells[i - width]
            } else {
                cells[i]
            },
    )
}

/// Rows `from..height` scanned from top to bottom; each complete row found is
/// removed (rows above it move down) before the scan goes on with the next
/// row. Returns the resulting cells and the number of rows removed.
pub open spec fn compact_rows(cells: Seq<TileType>, width: nat, height: nat, from: nat) -> (Seq<
    TileType,
>, nat)
    decreases height - from,
{
    if from >= height {
        (cells, 0)
    } else if row_complete(cells, width, from as int) {
        let (rest, n) = compact_rows(remove_row(cells, width, from as int), width, height, from + 1);
        (rest, n + 1)
    } else {
        compact_rows(cells, width, height, from + 1)
    }
}

/// The whole grid after one line-clear pass, and the number of rows cleared.
pub open spec fn compacted(cells: Seq<TileType>, width: nat, height: nat) -> (Seq<TileType>, nat) {
    compact_rows(cells, width, height, 0)
}

/// A grid of `width * height` cells, indexed `row * width + col`.
pub struct Grid {
    width: usize,
    height: usize,
    cells: Vec<TileType>,
}

impl View for Grid {
    type V = Seq<TileType>;

    closed spec fn view(&self) -> Seq<TileType> {
        self.cells@
    }
}

impl Grid {
    pub closed spec fn spec_width(&self) -> usize {
        self.width
    }

    pub closed spec fn spec_height(&self) -> usize {
        self.height
    }

    /// Dimensions are positive, bounded, and the cell count matches them.
    pub closed spec fn wf(&self) -> bool {
        &&& self.width > 0
        &&& self.height > 0
        &&& self.width * self.height <= MAX_CELLS
        &&& self.cells@.len() == self.width * self.height
    }

    /// An all-empty grid of the given dimensions.
    pub fn new(width: usize, height: usize) -> (r: Grid)
        requires
            width > 0,
            height > 0,
            width * height <= MAX_CELLS,
        ensures
            r.wf(),
            r.spec_width() == width,
            r.spec_height() == height,
            r@ == Seq::new((width * height) as nat, |i: int| TileType::Empty),
    {
        let size = width * height;
        let mut cells: Vec<TileType> = Vec::new();
        let mut i: usize = 0;
        while i < size
            invariant
                i <= size,
                cells@ == Seq::new(i as nat, |k: int| TileType::Empty),
            decreases size - i,
        {
            cells.push(TileType::Empty);
            i = i + 1;
        }
        Grid { width, height, cells }
    }

    #[verifier::when_used_as_spec(spec_width)]
    pub fn width(&self) -> (r: usize)
        ensures
            r == self.spec_width(),
    {
        self.width
    }

    #[verifier::when_used_as_spec(spec_height)]
    pub fn height(&self) -> (r: usize)
        ensures
            r == self.spec_height(),
    {
        self.height
    }

    /// Number of cells, `width * height`.
    pub fn size(&self) -> (r: usize)
        requires
            self.wf(),
        ensures
            r == self@.len(),
            r == self.width() * self.height(),
    {
        self.cells.len()
    }

    /// Content of the cell at `index`.
    pub fn get(&self, index: usize) -> (r: TileType)
        requires
            index < self@.len(),
        ensures
            r == self@[index as int],
    {
        self.cells[index]
    }

    /// Overwrites the cell at `index`.
    pub fn set(&mut self, index: usize, tile: TileType)
        requires
            index < old(self)@.len(),
        ensures
            final(self)@ == old(self)@.update(index as int, tile),
            final(self).spec_width() == old(self).spec_width(),
            final(self).spec_height() == old(self).spec_height(),
            old(self).wf() ==> final(self).wf(),
    {
        self.cells[index] = tile;
    }

    /// Empties every cell.
    pub fn clear(&mut self)
        requires
            old(self).wf(),
        ensures
            final(self).wf(),
            final(self).spec_width() == old(self).spec_width(),
            final(self).spec_height() == old(self).spec_height(),
            final(self)@ == Seq::new(old(self)@.len(), |i: int| TileType::Empty),
    {
        let n = self.cells.len();
        let mut i: usize = 0;
        while i < n
            invariant
                self.wf(),
                self.width == old(self).width,
                self.height == old(self).height,
                n == self@.len(),
                i <= n,
                forall|k: int| 0 <= k < i ==> self@[k] == TileType::Empty,
            decreases n - i,
        {
            self.cells[i] = TileType::Empty;
            i = i + 1;
        }
        assert(self@ =~= Seq::new(old(self)@.len(), |i: int| TileType::Empty));
    }

    /// Whether every cell of row `row` is occupied.
    pub fn is_row_complete(&self, row: usize) -> (r: bool)
        requires
            self.wf(),
            row < self.height(),
        ensures
            r == row_complete(self@, self.width() as nat, row as int),
    {
        let w = self.width;
        proof {
            lemma_row_in_grid(row as int, w as int, self.height as int);
        }
        let start = row * w;
        let mut c: usize = 0;
        while c < w
            invariant
                self.wf(),
                w == self.width,
                start == row * w,
                start + w <= self@.len(),
                c <= w,
                forall|k: int| 0 <= k < c ==> #[trigger] cell_at(self@, w as nat, row as int, k) != TileType::Empty,
            decreases w - c,
        {
            if self.cells[start + c] == TileType::Empty {
                assert(cell_at(self@, w as nat, row as int, c as int) == TileType::Empty);
                return false;
            }
            c = c + 1;
        }
        true
    }

    /// Removes row `row`: the rows above it move one row down, the top row
    /// becomes empty.
    fn remove_row(&mut self, row: usize)
        requires
            old(self).wf(),
            row < old(self).height(),
        ensures
            final(self).wf(),
            final(self).spec_width() == old(self).spec_width(),
            final(self).spec_height() == old(self).spec_height(),
            final(self)@ == remove_row(old(self)@, old(self).width() as nat, row as int),
    {
        let w = self.width;
        proof {
            lemma_row_in_grid(row as int, w as int, self.height as int);
        }
        let end = row * w + w;
        let len = self.cells.len();
        let mut p: usize = end;
        while p > w
            invariant
                self.wf(),
                self.width == old(self).width,
                self.height == old(self).height,
                w == self.width,
                len == self@.len(),
                end == (row + 1) * w,
                end <= len,
                w <= p <= end,
                forall|i: int| 0 <= i < p ==> self@[i] == old(self)@[i],
                forall|i: int| p <= i < end ==> self@[i] == old(self)@[i - w],
                forall|i: int| end <= i < len ==> self@[i] == old(self)@[i],
            decreases p,
        {
            p = p - 1;
            let moved = self.cells[p - w];
            self.cells[p] = moved;
        }
        let mut c: usize = 0;
        while c < w
            invariant
                self.wf(),
                self.width == old(self).width,
                self.height == old(self).height,
                w == self.width,
                len == self@.len(),
                end == (row + 1) * w,
                w <= end <= len,
                c <= w,
                forall|i: int| 0 <= i < c ==> self@[i] == TileType::Empty,
                forall|i: int| c <= i < w ==> self@[i] == old(self)@[i],
                forall|i: int| w <= i < end ==> self@[i] == old(self)@[i - w],
                forall|i: int| end <= i < len ==> self@[i] == old(self)@[i],
            decreases w - c,
        {
            self.cells[c] = TileType::Empty;
            c = c + 1;
        }
        assert(self@ =~= remove_row(old(self)@, w as nat, row as int));
    }

    /// One line-clear pass: scans the rows from top to bottom and removes each
    /// complete row, moving the rows above it down. Returns the number of rows
    /// removed.
    pub fn clear_and_compact(&mut self) -> (cleared: usize)
        requires
            old(self).wf(),
        ensures
            final(self).wf(),
            final(self).spec_width() == old(self).spec_width(),
            final(self).spec_height() == old(self).spec_height(),
            final(self)@.len() == old(self)@.len(),
            (final(self)@, cleared as nat) == compacted(
                old(self)@,
                old(self).width() as nat,
                old(self).height() as nat,
            ),
            cleared <= old(self).height(),
    {
        let ghost w = self.width as nat;
        let ghost h = self.height as nat;
        let ghost goal = compacted(self@, w, h);
        let mut cleared: usize = 0;
        let mut i: usize = 0;
        while i < self.height
            invariant
                self.wf(),
                self.width == w,
                self.height == h,
                i <= h,
                cleared <= i,
                compact_rows(self@, w, h, i as nat).0 == goal.0,
                compact_rows(self@, w, h, i as nat).1 + cleared == goal.1,
            decreases h - i,
        {
            if self.is_row_complete(i) {
                self.remove_row(i);
                cleared = cleared + 1;
            }
            i = i + 1;
        }
        cleared
    }
}

/// Position `(r, c)` of the cell at `index`, as row and column.
pub proof fn lemma_cell_index(r: int, c: int, width: int)
    requires
        0 < width,
        0 <= c < width,
        0 <= r,
    ensures
        (r * width + c) / width == r,
        (r * width + c) % width == c,
        r * width + c - width == (r - 1) * width + c,
        r * width + c - 2 * width == (r - 2) * width + c,
{
    vstd::arithmetic::div_mod::lemma_fundamental_div_mod_converse(r * width + c, width, r, c);
    assert(r * width + c - width == (r - 1) * width + c) by (nonlinear_arith);
    assert(r * width + c - 2 * width == (r - 2) * width + c) by (nonlinear_arith);
}

/// Comparing a cell's index with a row boundary compares its row.
pub proof fn lemma_row_order(r: int, c: int, k: int, width: int)
    requires
        0 < width,
        0 <= c < width,
    ensures
        (r * width + c < k * width) <==> (r < k),
{
    if r < k {
        assert(r * width + c < k * width) by (nonlinear_arith)
            requires
                r < k,
                0 <= c < width,
        ;
    } else {
        assert(r * width + c >= k * width) by (nonlinear_arith)
            requires
                r >= k,
                0 <= c,
                0 < width,
        ;
    }
}

/// One cell after removing row `r`, by its row and column.
pub proof fn lemma_remove_row_cell(cells: Seq<TileType>, width: nat, height: nat, r: int, row: int, c: int)
    requires
        width > 0,
        cells.len() == width * height,
        0 <= r < height,
        0 <= row < height,
        0 <= c < width,
    ensures
        cell_at(remove_row(cells, width, r), width, row, c) == if row == 0 {
            TileType::Empty
        } else if row <= r {
            cell_at(cells, width, row - 1, c)
        } else {
            cell_at(cells, width, row, c)
        },
{
    lemma_cell_index(row, c, width as int);
    lemma_row_order(row, c, r + 1, width as int);
    lemma_row_order(row, c, 1, width as int);
    lemma_row_order(row, c, height as int, width as int);
    assert(0 <= row * width + c) by (nonlinear_arith)
        requires
            0 <= row,
            0 <= c,
    ;
    assert(height * width == width * height) by (nonlinear_arith);
}

/// Removing row `r` leaves the rows below it as they were.
pub proof fn lemma_remove_row_keeps_below(cells: Seq<TileType>, width: nat, height: nat, r: int, j: int)
    requires
        width > 0,
        cells.len() == width * height,
        0 <= r < j < height,
    ensures
        row_complete(remove_row(cells, width, r), width, j) == row_complete(cells, width, j),
{
    assert forall|c: int|
        #![trigger cell_at(remove_row(cells, width, r), width, j, c)]
        #![trigger cell_at(cells, width, j, c)]
        0 <= c < width implies cell_at(remove_row(cells, width, r), width, j, c) == cell_at(
            cells,
            width,
            j,
            c,
        ) by {
        lemma_remove_row_cell(cells, width, height, r, j, c);
    }
}

/// A scan over rows that are all incomplete changes nothing.
pub proof fn lemma_scan_incomplete(cells: Seq<TileType>, width: nat, height: nat, from: nat, to: nat)
    requires
        from <= to <= height,
        forall|j: int| from <= j < to ==> !row_complete(cells, width, j),
    ensures
        compact_rows(cells, width, height, from) == compact_rows(cells, width, height, to),
    decreases to - from,
{
    if from < to {
        lemma_scan_incomplete(cells, width, height, from + 1, to);
    }
}

/// Line-clear with exactly one complete row `r`: that row is removed, each
/// row above it moves one row down, the top row becomes empty, the rows below
/// stay as they were, and one row is counted.
pub proof fn lemma_clear_single_row(cells: Seq<TileType>, width: nat, height: nat, r: int)
    requires
        width > 0,
        cells.len() == width * height,
        0 <= r < height,
        row_complete(cells, width, r),
        forall|j: int| 0 <= j < height && j != r ==> !row_complete(cells, width, j),
    ensures
        compacted(cells, width, height).1 == 1,
        compacted(cells, width, height).0.len() == cells.len(),
        forall|row: int, c: int|
            0 <= row < height && 0 <= c < width ==> #[trigger] cell_at(
                compacted(cells, width, height).0,
                width,
                row,
                c,
            ) == if row == 0 {
                TileType::Empty
            } else if row <= r {
                cell_at(cells, width, row - 1, c)
            } else {
                cell_at(cells, width, row, c)
            },
{
    let removed = remove_row(cells, width, r);
    lemma_scan_incomplete(cells, width, height, 0, r as nat);
    assert forall|j: int| r + 1 <= j < height implies !row_complete(removed, width, j) by {
        lemma_remove_row_keeps_below(cells, width, height, r, j);
    }
    lemma_scan_incomplete(removed, width, height, (r + 1) as nat, height);
    assert(compacted(cells, width, height) == (removed, 1nat));
    assert forall|row: int, c: int| 0 <= row < height && 0 <= c < width implies #[trigger] cell_at(
        removed,
        width,
        row,
        c,
    ) == if row == 0 {
        TileType::Empty
    } else if row <= r {
        cell_at(cells, width, row - 1, c)
    } else {
        cell_at(cells, width, row, c)
    } by {
        lemma_remove_row_cell(cells, width, height, r, row, c);
    }
}

/// Line-clear with exactly two complete rows `r1 < r2`: both are removed, the
/// rows between them move one row down, the rows above `r1` move two rows
/// down, the two top rows become empty, and two rows are counted.
pub proof fn lemma_clear_two_rows(cells: Seq<TileType>, width: nat, height: nat, r1: int, r2: int)
    requires
        width > 0,
        cells.len() == width * height,
        0 <= r1 < r2 < height,
        row_complete(cells, width, r1),
        row_complete(cells, width, r2),
        forall|j: int| 0 <= j < height && j != r1 && j != r2 ==> !row_complete(cells, width, j),
    ensures
        compacted(cells, width, height).1 == 2,
        compacted(cells, width, height).0.len() == cells.len(),
        forall|row: int, c: int|
            0 <= row < height && 0 <= c < width ==> #[trigger] cell_at(
                compacted(cells, width, height).0,
                width,
                row,
                c,
            ) == if row < 2 {
                TileType::Empty
            } else if row <= r1 + 1 {
                cell_at(cells, width, row - 2, c)
            } else if row <= r2 {
                cell_at(cells, width, row - 1, c)
            } else {
                cell_at(cells, width, row, c)
            },
{
    let once = remove_row(cells, width, r1);
    let twice = remove_row(once, width, r2);
    lemma_scan_incomplete(cells, width, height, 0, r1 as nat);
    assert forall|j: int| r1 + 1 <= j < height implies row_complete(once, width, j) == row_complete(
        cells,
        width,
        j,
    ) by {
        lemma_remove_row_keeps_below(cells, width, height, r1, j);
    }
    lemma_scan_incomplete(once, width, height, (r1 + 1) as nat, r2 as nat);
    assert forall|j: int| r2 + 1 <= j < height implies !row_complete(twice, width, j) by {
        lemma_remove_row_keeps_below(once, width, height, r2, j);
    }
    lemma_scan_incomplete(twice, width, height, (r2 + 1) as nat, height);
    assert(compact_rows(once, width, height, r2 as nat) == (twice, 1nat));
    assert(compacted(cells, width, height) == (twice, 2nat));
    assert forall|row: int, c: int| 0 <= row < height && 0 <= c < width implies #[trigger] cell_at(
        twice,
        width,
        row,
        c,
    ) == if row < 2 {
        TileType::Empty
    } else if row <= r1 + 1 {
        cell_at(cells, width, row - 2, c)
    } else if row <= r2 {
        cell_at(cells, width, row - 1, c)
    } else {
        cell_at(cells, width, row, c)
    } by {
        lemma_remove_row_cell(once, width, height, r2, row, c);
        if row >= 1 {
            lemma_remove_row_cell(cells, width, height, r1, row - 1, c);
        }
        lemma_remove_row_cell(cells, width, height, r1, row, c);
    }
}

/// A row of the grid lies inside it.
pub proof fn lemma_row_in_grid(row: int, width: int, height: int)
    requires
        0 <= row < height,
        0 < width,
    ensures
        0 <= row * width,
        row * width + width <= width * height,
        (row + 1) * width == row * width + width,
{
    assert(row * width + width <= width * height) by (nonlinear_arith)
        requires
            0 <= row < height,
            0 < width,
    ;
    assert(0 <= row * width) by (nonlinear_arith)
        requires
            0 <= row,
            0 < width,
    ;
    assert((row + 1) * width == row * width + width) by (nonlinear_arith);
}

} // verus!
