//! The board: the locked terrain, the active piece, the collision oracle, the
//! step protocol (stage, test, commit or discard, lock), and the lifecycle
//! (line clear, spawn, game over).

use crate::grid::{col_of, compacted, Grid, TileType, MAX_CELLS, ROW_SCORE};
use crate::piece::{
    committed, lemma_rotate_pivot, lemma_rotate_zero, spawned, virtual_cells, FallingTile,
    PieceState, Shape, TileChange, random_shape, quarter_turn, quarter_turned,
};
use vstd::prelude::*;

verus! {

/// What a board is, as a mathematical value.
pub struct BoardState {
    pub width: nat,
    pub height: nat,
    pub score: int,
    /// Locked cells only; the active piece is not part of it.
    pub terrain: Seq<TileType>,
    pub piece: PieceState,
}

/// A cell moving from index `from` to index `to` collides when `to` lies
/// off the grid, when it would move more than half the width away from its
/// column (index arithmetic wrapping round a side of the grid), or when `to`
/// is occupied by locked terrain.
pub open spec fn collides(terrain: Seq<TileType>, width: int, from: int, to: int) -> bool {
    ||| to < 0
    ||| to >= terrain.len()
    ||| col_of(to, width) - col_of(from, width) > width / 2
    ||| col_of(from, width) - col_of(to, width) > width / 2
    ||| terrain[to] != TileType::Empty
}

/// Some cell of `p` collides under its pending transform.
pub open spec fn blocked(terrain: Seq<TileType>, width: int, p: PieceState) -> bool {
    exists|k: int|
        0 <= k < 4 && #[trigger] collides(terrain, width, p.cells[k], virtual_cells(p, width)[k])
}

/// `terrain` with the cells `cells` set to `color`.
pub open spec fn paint(terrain: Seq<TileType>, cells: Seq<int>, color: TileType) -> Seq<TileType> {
    Seq::new(terrain.len(), |i: int| if cells.contains(i) { color } else { terrain[i] })
}

/// An empty board of the given size with a new piece of shape `first`.
pub open spec fn fresh_state(width: nat, height: nat, first: Shape) -> BoardState {
    BoardState {
        width,
        height,
        score: 0,
        terrain: Seq::new(width * height, |i: int| TileType::Empty),
        piece: spawned(first, width as int),
    }
}

/// `p` with its pending transform replaced by `change`.
pub open spec fn with_change(p: PieceState, change: TileChange) -> PieceState {
    PieceState { change, ..p }
}

/// `s` with its terrain replaced.
pub open spec fn with_terrain(s: BoardState, terrain: Seq<TileType>) -> BoardState {
    BoardState { terrain, ..s }
}

/// `s` with a horizontal move by `x` columns asked for.
pub open spec fn intend_move(s: BoardState, x: i32) -> BoardState {
    BoardState { piece: with_change(s.piece, TileChange { x, ..s.piece.change }), ..s }
}

/// `s` with a quarter turn asked for.
pub open spec fn intend_rotate(s: BoardState) -> BoardState {
    BoardState { piece: PieceState { rotate: true, ..s.piece }, ..s }
}

/// Every cell as the renderer sees it: the terrain with the active piece
/// painted on it.
pub open spec fn rendered(s: BoardState) -> Seq<TileType> {
    paint(s.terrain, s.piece.cells, s.piece.color)
}

/// The transform the stride and rotation phases accept for `p`: the pending
/// horizontal move, dropped if some cell collides under it; then, if a turn
/// was asked for, a quarter turn added to it, dropped if some cell collides
/// under the two together.
pub open spec fn accepted_change(terrain: Seq<TileType>, width: int, p: PieceState) -> TileChange {
    let c1 = if blocked(terrain, width, p) {
        TileChange { x: 0, ..p.change }
    } else {
        p.change
    };
    let c2 = TileChange { rot_degree: 90, ..c1 };
    if p.rotate && !blocked(terrain, width, with_change(p, c2)) {
        c2
    } else {
        c1
    }
}

/// `s` after the stride and rotation phases: the accepted transform is
/// committed and the rotate intent is consumed.
pub open spec fn after_stride(s: BoardState) -> BoardState {
    let p = PieceState { rotate: false, ..s.piece };
    let change = accepted_change(s.terrain, s.width as int, s.piece);
    BoardState { piece: committed(with_change(p, change), s.width as int), ..s }
}

/// `s` once its piece has landed: the piece is locked into the terrain,
/// complete rows are cleared and scored, and a new piece of shape `next` is
/// put in. If that piece collides at once the game is lost and the board
/// starts afresh. The flag says whether it was lost.
pub open spec fn landed(s: BoardState, next: Shape) -> (BoardState, bool) {
    let locked = paint(s.terrain, s.piece.cells, s.piece.color);
    let cleared = compacted(locked, s.width, s.height);
    let fresh = spawned(next, s.width as int);
    if blocked(cleared.0, s.width as int, fresh) {
        (fresh_state(s.width, s.height, next), true)
    } else {
        (
            BoardState {
                score: s.score + ROW_SCORE * cleared.1,
                terrain: cleared.0,
                piece: fresh,
                ..s
            },
            false,
        )
    }
}

/// The one-row move down.
pub open spec fn fall_change() -> TileChange {
    TileChange { x: 0, y: 1, rot_degree: 0 }
}

/// `s` after the fall phase: the piece moves one row down if no cell
/// collides there, keeping its pending intents; otherwise it lands.
pub open spec fn fallen(s: BoardState, next: Shape) -> (BoardState, bool) {
    let down = with_change(s.piece, fall_change());
    if blocked(s.terrain, s.width as int, down) {
        landed(s, next)
    } else {
        (BoardState { piece: with_change(committed(down, s.width as int), s.piece.change), ..s }, false)
    }
}

/// `s` after one whole step: the stride and rotation phases, then the fall
/// phase, with `next` as the shape of a piece put in.
pub open spec fn stepped(s: BoardState, next: Shape) -> (BoardState, bool) {
    fallen(after_stride(s), next)
}

/// What holds of every board a caller can reach: the grid matches the
/// dimensions, the score is not negative, the piece's four cells lie on the
/// grid over no locked cell with its pivot among them, its color is a block
/// color, and only a horizontal move is pending.
pub open spec fn state_ok(s: BoardState) -> bool {
    &&& valid_dimensions(s.width as int, s.height as int)
    &&& s.terrain.len() == s.width * s.height
    &&& 0 <= s.score
    &&& s.piece.cells.len() == 4
    &&& forall|k: int|
        0 <= k < 4 ==> 0 <= #[trigger] s.piece.cells[k] < s.terrain.len() && s.terrain[s.piece.cells[k]]
            == TileType::Empty
    &&& s.piece.cells.contains(s.piece.center)
    &&& 0 <= s.piece.center
    &&& s.piece.color != TileType::Empty
    &&& -1 <= s.piece.change.x <= 1
    &&& s.piece.change.y == 0
    &&& s.piece.change.rot_degree == 0
}

/// The locked and active cells of a board.
pub struct Board {
    width: usize,
    height: usize,
    size: usize,
    score: i32,
    falling: FallingTile,
    tiles: Grid,
}

impl View for Board {
    type V = BoardState;

    closed spec fn view(&self) -> BoardState {
        BoardState {
            width: self.width as nat,
            height: self.height as nat,
            score: self.score as int,
            terrain: self.tiles@,
            piece: self.falling@,
        }
    }
}

/// Dimensions a board can have: room for a new piece, and few enough cells
/// for the index arithmetic.
pub open spec fn valid_dimensions(width: int, height: int) -> bool {
    3 <= width && 4 <= height && width * height <= MAX_CELLS
}

impl Board {
    /// The board's invariant: the grid matches the dimensions, the score is
    /// not negative, the piece's cells lie on the grid, over no locked cell,
    /// with its pivot among them, and only a horizontal move is pending.
    pub closed spec fn wf(&self) -> bool {
        &&& valid_dimensions(self.width as int, self.height as int)
        &&& self.consistent()
        &&& 0 <= self.score
        &&& self.falling.tile_type != TileType::Empty
        &&& -1 <= self.falling.uncommited_change.x <= 1
        &&& self.falling.uncommited_change.y == 0
        &&& self.falling.uncommited_change.rot_degree == 0
        &&& forall|k: int|
            0 <= k < 4 ==> #[trigger] self.falling.indexes[k] < self.size && self.tiles@[self.falling.indexes[k] as int]
                == TileType::Empty
        &&& self.falling@.cells.contains(self.falling@.center)
    }

    /// The grid, its dimensions and the piece agree with each other.
    closed spec fn consistent(&self) -> bool {
        &&& 0 < self.width
        &&& self.size == self.width * self.height
        &&& self.size <= MAX_CELLS
        &&& self.tiles.wf()
        &&& self.tiles@.len() == self.size
        &&& self.tiles.spec_width() == self.width
        &&& self.tiles.spec_height() == self.height
        &&& self.falling.wf(self.width as int)
    }

    /// The invariant, as a fact about the view.
    pub proof fn lemma_state_ok(&self)
        requires
            self.wf(),
        ensures
            state_ok(self@),
    {
        assert forall|k: int| 0 <= k < 4 implies 0 <= #[trigger] self@.piece.cells[k] < self@.terrain.len()
            && self@.terrain[self@.piece.cells[k]] == TileType::Empty by {
            assert(self.falling.indexes[k] < self.size);
        }
    }

    /// Every cell of the active piece, and every cell of the grid, lies in
    /// `[0, width * height)`.
    pub proof fn lemma_bounds(&self)
        requires
            self.wf(),
        ensures
            forall|k: int|
                0 <= k < 4 ==> 0 <= #[trigger] self@.piece.cells[k] < self@.width * self@.height,
            self@.terrain.len() == self@.width * self@.height,
            rendered(self@).len() == self@.width * self@.height,
    {
        self.lemma_state_ok();
    }

    /// The active piece never stands on a locked cell.
    pub proof fn lemma_no_overlap(&self)
        requires
            self.wf(),
        ensures
            forall|k: int| 0 <= k < 4 ==> self@.terrain[#[trigger] self@.piece.cells[k]] == TileType::Empty,
    {
        self.lemma_state_ok();
    }

    /// Room left in the score for one more line-clear pass.
    pub open spec fn score_room(&self) -> bool {
        self@.score + ROW_SCORE * self@.height <= i32::MAX
    }

    /// An empty board of `width` columns and `height` rows, with a new piece
    /// of shape `first`.
    pub fn with_piece(width: usize, height: usize, first: Shape) -> (r: Board)
        requires
            valid_dimensions(width as int, height as int),
        ensures
            r.wf(),
            r@ == fresh_state(width as nat, height as nat, first),
    {
        proof {
            lemma_four_rows(width as int, height as int);
        }
        let tiles = Grid::new(width, height);
        let falling = FallingTile::spawn(first, width);
        Board { width, height, size: width * height, score: 0, falling, tiles }
    }

    /// An empty board of `width` columns and `height` rows, with a new piece
    /// of a random shape.
    pub fn new(width: usize, height: usize) -> (r: Board)
        requires
            valid_dimensions(width as int, height as int),
        ensures
            r.wf(),
            exists|s: Shape| r@ == fresh_state(width as nat, height as nat, s),
    {
        proof {
            lemma_four_rows(width as int, height as int);
        }
        let tiles = Grid::new(width, height);
        let falling = FallingTile::new(width);
        let r = Board { width, height, size: width * height, score: 0, falling, tiles };
        let ghost first = choose|s: Shape| falling@ == spawned(s, width as int);
        assert(r@ == fresh_state(width as nat, height as nat, first));
        r
    }

    /// Clears every cell, zeroes the score, and puts in a new piece of shape
    /// `first`.
    pub fn reset_with(&mut self, first: Shape)
        requires
            old(self).wf(),
        ensures
            final(self).wf(),
            final(self)@ == fresh_state(old(self)@.width, old(self)@.height, first),
    {
        self.restart(first);
    }

    /// Clears every cell, zeroes the score, and puts in a new piece of a
    /// random shape.
    pub fn reset(&mut self)
        requires
            old(self).wf(),
        ensures
            final(self).wf(),
            exists|s: Shape| final(self)@ == fresh_state(old(self)@.width, old(self)@.height, s),
    {
        proof {
            lemma_four_rows(self.width as int, self.height as int);
        }
        self.tiles.clear();
        self.score = 0;
        self.falling = FallingTile::new(self.width);
        let ghost first = choose|s: Shape| self.falling@ == spawned(s, self.width as int);
        assert(self@ == fresh_state(old(self)@.width, old(self)@.height, first));
    }

    pub fn width(&self) -> (r: usize)
        ensures
            r == self@.width,
    {
        self.width
    }

    pub fn height(&self) -> (r: usize)
        ensures
            r == self@.height,
    {
        self.height
    }

    pub fn score(&self) -> (r: i32)
        ensures
            r == self@.score,
    {
        self.score
    }

    /// Number of cells, `width * height`.
    pub fn tiles_len(&self) -> (r: usize)
        requires
            self.wf(),
        ensures
            r == self@.width * self@.height,
            r == rendered(self@).len(),
    {
        self.size
    }

    /// The active piece.
    pub fn falling(&self) -> (r: FallingTile)
        ensures
            r@ == self@.piece,
    {
        self.falling
    }

    /// Every cell as the renderer sees it, row by row: the locked cells with
    /// the active piece painted over them.
    pub fn tiles(&self) -> (r: Vec<TileType>)
        requires
            self.wf(),
        ensures
            r@ == rendered(self@),
    {
        let mut out: Vec<TileType> = Vec::new();
        let mut i: usize = 0;
        while i < self.size
            invariant
                self.wf(),
                i <= self.size,
                out@ =~= rendered(self@).take(i as int),
            decreases self.size - i,
        {
            let t = if self.is_piece_cell(i) {
                self.falling.tile_type
            } else {
                self.tiles.get(i)
            };
            out.push(t);
            i = i + 1;
            assert(out@ =~= rendered(self@).take(i as int));
        }
        assert(rendered(self@).take(self.size as int) =~= rendered(self@));
        out
    }

    /// Whether `index` is one of the active piece's cells.
    fn is_piece_cell(&self, index: usize) -> (r: bool)
        ensures
            r == self@.piece.cells.contains(index as int),
    {
        let mut k: usize = 0;
        while k < 4
            invariant
                k <= 4,
                forall|j: int| 0 <= j < k ==> self.falling.indexes[j] != index,
            decreases 4 - k,
        {
            if self.falling.indexes[k] == index {
                assert(self@.piece.cells[k as int] == index);
                return true;
            }
            k = k + 1;
        }
        false
    }

    /// Locks `tile` into the cell at `index`, unless the index lies off the
    /// grid or under the active piece; says whether it did.
    pub fn set_tile(&mut self, index: usize, tile: TileType) -> (r: bool)
        requires
            old(self).wf(),
        ensures
            final(self).wf(),
            r == (index < old(self)@.width * old(self)@.height && !old(self)@.piece.cells.contains(
                index as int,
            )),
            final(self)@ == (if r {
                with_terrain(old(self)@, old(self)@.terrain.update(index as int, tile))
            } else {
                old(self)@
            }),
    {
        if index >= self.size || self.is_piece_cell(index) {
            return false;
        }
        self.tiles.set(index, tile);
        assert forall|k: int| 0 <= k < 4 implies #[trigger] self.falling.indexes[k] < self.size
            && self.tiles@[self.falling.indexes[k] as int] == TileType::Empty by {
            assert(self@.piece.cells[k] == self.falling.indexes[k]);
        }
        true
    }

    /// Asks for a move one column to the left on the next step.
    pub fn move_left(&mut self)
        requires
            old(self).wf(),
        ensures
            final(self).wf(),
            final(self)@ == intend_move(old(self)@, -1i32),
    {
        self.falling.uncommited_change.x = -1;
    }

    /// Asks for a move one column to the right on the next step.
    pub fn move_right(&mut self)
        requires
            old(self).wf(),
        ensures
            final(self).wf(),
            final(self)@ == intend_move(old(self)@, 1i32),
    {
        self.falling.uncommited_change.x = 1;
    }

    /// Same as `move_right`, under the name the web front end calls.
    pub fn move_rigth(&mut self)
        requires
            old(self).wf(),
        ensures
            final(self).wf(),
            final(self)@ == intend_move(old(self)@, 1i32),
    {
        self.move_right();
    }

    /// Asks for a quarter turn on the next step.
    pub fn rotate(&mut self)
        requires
            old(self).wf(),
        ensures
            final(self).wf(),
            final(self)@ == intend_rotate(old(self)@),
    {
        self.falling.rotate_this_frame = true;
    }

    /// The stride and rotation phases of a step: tests the pending
    /// horizontal move and drops it if it collides; then, if a turn was
    /// asked for, tests a quarter turn on top of it and drops the turn if it
    /// collides; then commits what is left.
    pub fn update_rotate_stride(&mut self)
        requires
            old(self).wf(),
        ensures
            final(self).wf(),
            final(self)@ == after_stride(old(self)@),
    {
        let ghost w = self.width as int;
        let ghost start = self@.piece;
        let ghost terrain = self@.terrain;
        proof {
            lemma_identity_clear(terrain, w, with_change(start, TileChange::identity()));
        }
        if self.piece_blocked() {
            self.falling.uncommited_change.x = 0;
        }
        let ghost strided = self@.piece;
        assert(!blocked(terrain, w, strided));
        if self.falling.rotate_this_frame {
            self.falling.rotate(90);
            if self.piece_blocked() {
                self.falling.rotate(-90);
                assert(self@.piece == strided);
            }
        }
        let ghost accepted = accepted_change(terrain, w, start);
        assert(with_change(start, accepted) == self@.piece);
        assert(!blocked(terrain, w, with_change(start, accepted)));
        self.falling.rotate_this_frame = false;
        proof {
            lemma_blocked_same_motion(terrain, w, with_change(start, accepted), self@.piece);
            lemma_commit_unblocked(terrain, w, self@.piece);
        }
        self.falling.commit_changes(self.width);
        proof {
            self.lemma_wf_from_view();
        }
    }

    /// The fall phase of a step, with `next` as the shape of the piece put
    /// in if this one lands. Returns whether the game was lost.
    pub fn fall_with(&mut self, next: Shape) -> (lost: bool)
        requires
            old(self).wf(),
            old(self).score_room(),
        ensures
            final(self).wf(),
            (final(self)@, lost) == fallen(old(self)@, next),
    {
        let ghost w = self.width as int;
        let intent = self.falling.uncommited_change;
        self.falling.uncommited_change = TileChange { x: 0, y: 1, rot_degree: 0 };
        if self.piece_blocked() {
            self.falling.uncommited_change = intent;
            self.land(next)
        } else {
            proof {
                lemma_commit_unblocked(self@.terrain, w, self@.piece);
            }
            self.falling.commit_changes(self.width);
            self.falling.uncommited_change = intent;
            proof {
                self.lemma_wf_from_view();
            }
            false
        }
    }

    /// The fall phase of a step; a piece put in has a random shape.
    pub fn update_fall(&mut self)
        requires
            old(self).wf(),
            old(self).score_room(),
        ensures
            final(self).wf(),
            exists|next: Shape| #[trigger] fallen(old(self)@, next).0 == final(self)@,
    {
        let next = random_shape();
        self.fall_with(next);
        assert(fallen(old(self)@, next).0 == self@);
    }

    /// One whole step, with `next` as the shape of the piece put in if this
    /// one lands: the stride and rotation phases, then the fall phase.
    /// Returns whether the game was lost.
    pub fn step_with(&mut self, next: Shape) -> (lost: bool)
        requires
            old(self).wf(),
            old(self).score_room(),
        ensures
            final(self).wf(),
            (final(self)@, lost) == stepped(old(self)@, next),
    {
        self.update_rotate_stride();
        self.fall_with(next)
    }

    /// One whole step; a piece put in has a random shape. Returns whether
    /// the game was lost.
    pub fn step(&mut self) -> (lost: bool)
        requires
            old(self).wf(),
            old(self).score_room(),
        ensures
            final(self).wf(),
            exists|next: Shape| #[trigger] stepped(old(self)@, next) == (final(self)@, lost),
    {
        let next = random_shape();
        self.step_with(next)
    }

    /// Locks the piece, clears and scores complete rows, and puts in a new
    /// piece of shape `next`, starting afresh if it collides at once.
    fn land(&mut self, next: Shape) -> (lost: bool)
        requires
            old(self).wf(),
            old(self).score_room(),
        ensures
            final(self).wf(),
            (final(self)@, lost) == landed(old(self)@, next),
    {
        proof {
            lemma_four_rows(self.width as int, self.height as int);
        }
        self.lock_piece();
        let cleared = self.tiles.clear_and_compact();
        self.score = self.score + ROW_SCORE * cleared as i32;
        self.falling = FallingTile::spawn(next, self.width);
        if self.piece_blocked() {
            self.restart(next);
            true
        } else {
            proof {
                let p = self@.piece;
                lemma_commit_unblocked(self@.terrain, self.width as int, p);
                assert forall|k: int| 0 <= k < 4 implies 0 <= #[trigger] p.cells[k] < self@.terrain.len()
                    && self@.terrain[p.cells[k]] == TileType::Empty by {
                    lemma_rotate_zero(p.cells[k], p.center, self.width as int);
                    assert(virtual_cells(p, self.width as int)[k] == p.cells[k]);
                }
                self.lemma_wf_from_view();
            }
            false
        }
    }

    /// Writes the piece's color into the terrain at each of its cells.
    fn lock_piece(&mut self)
        requires
            old(self).wf(),
        ensures
            final(self).consistent(),
            final(self).width == old(self).width,
            final(self).height == old(self).height,
            final(self).score == old(self).score,
            final(self).falling == old(self).falling,
            final(self)@.terrain == paint(old(self)@.terrain, old(self)@.piece.cells, old(self)@.piece.color),
    {
        let ghost cells = self@.piece.cells;
        let ghost color = self@.piece.color;
        let mut k: usize = 0;
        while k < 4
            invariant
                self.consistent(),
                self.width == old(self).width,
                self.height == old(self).height,
                self.score == old(self).score,
                self.falling == old(self).falling,
                cells == self@.piece.cells,
                color == self.falling.tile_type,
                k <= 4,
                forall|j: int| 0 <= j < 4 ==> #[trigger] cells[j] < self.size,
                self@.terrain == paint(old(self)@.terrain, cells.take(k as int), color),
            decreases 4 - k,
        {
            assert(cells[k as int] == self.falling.indexes[k as int]);
            self.tiles.set(self.falling.indexes[k], self.falling.tile_type);
            proof {
                let before = cells.take(k as int);
                let after = cells.take(k + 1);
                assert forall|i: int| 0 <= i < self@.terrain.len() implies self@.terrain[i] == paint(
                    old(self)@.terrain,
                    after,
                    color,
                )[i] by {
                    if i == cells[k as int] {
                        assert(after[k as int] == i);
                    } else {
                        if after.contains(i) {
                            let j = choose|j: int| 0 <= j < after.len() && after[j] == i;
                            assert(before[j] == i);
                        }
                        if before.contains(i) {
                            let j = choose|j: int| 0 <= j < before.len() && before[j] == i;
                            assert(after[j] == i);
                        }
                    }
                }
                assert(self@.terrain =~= paint(old(self)@.terrain, after, color));
            }
            k = k + 1;
        }
        assert(cells.take(4) =~= cells);
    }

    /// Clears every cell, zeroes the score, and puts in a new piece of shape
    /// `first`, whatever the piece and terrain were.
    fn restart(&mut self, first: Shape)
        requires
            valid_dimensions(old(self).width as int, old(self).height as int),
            old(self).consistent(),
        ensures
            final(self).wf(),
            final(self)@ == fresh_state(old(self)@.width, old(self)@.height, first),
    {
        proof {
            lemma_four_rows(self.width as int, self.height as int);
        }
        self.tiles.clear();
        self.score = 0;
        self.falling = FallingTile::spawn(first, self.width);
    }

    /// The invariant, read off the view for the parts that commits change.
    proof fn lemma_wf_from_view(&self)
        requires
            valid_dimensions(self.width as int, self.height as int),
            self.consistent(),
            0 <= self.score,
            self.falling.tile_type != TileType::Empty,
            -1 <= self.falling.uncommited_change.x <= 1,
            self.falling.uncommited_change.y == 0,
            self.falling.uncommited_change.rot_degree == 0,
            forall|k: int|
                0 <= k < 4 ==> 0 <= #[trigger] self@.piece.cells[k] < self@.terrain.len()
                    && self@.terrain[self@.piece.cells[k]] == TileType::Empty,
            self@.piece.cells.contains(self@.piece.center),
        ensures
            self.wf(),
    {
        assert forall|k: int| 0 <= k < 4 implies #[trigger] self.falling.indexes[k] < self.size
            && self.tiles@[self.falling.indexes[k] as int] == TileType::Empty by {
            assert(self@.piece.cells[k] == self.falling.indexes[k]);
        }
    }

    /// The collision oracle for cell `falling_index` of the active piece
    /// under its pending transform.
    fn is_colliding(&self, falling_index: usize) -> (r: bool)
        requires
            self.consistent(),
            falling_index < 4,
        ensures
            r == collides(
                self@.terrain,
                self.width as int,
                self@.piece.cells[falling_index as int],
                virtual_cells(self@.piece, self.width as int)[falling_index as int],
            ),
    {
        let v = self.falling.as_virtual(falling_index, self.width);
        if v < 0 || v >= self.size as i64 {
            return true;
        }
        let to = v as usize;
        let half = (self.width / 2) as i64;
        let virtual_col = (to % self.width) as i64;
        let current_col = (self.falling.indexes[falling_index] % self.width) as i64;
        if virtual_col - current_col > half || current_col - virtual_col > half {
            return true;
        }
        self.tiles.get(to) != TileType::Empty
    }

    /// Whether some cell of the active piece collides under its pending
    /// transform.
    fn piece_blocked(&self) -> (r: bool)
        requires
            self.consistent(),
        ensures
            r == blocked(self@.terrain, self.width as int, self@.piece),
    {
        let mut k: usize = 0;
        while k < 4
            invariant
                self.consistent(),
                k <= 4,
                forall|j: int|
                    0 <= j < k ==> !#[trigger] collides(
                        self@.terrain,
                        self.width as int,
                        self@.piece.cells[j],
                        virtual_cells(self@.piece, self.width as int)[j],
                    ),
            decreases 4 - k,
        {
            if self.is_colliding(k) {
                return true;
            }
            k = k + 1;
        }
        false
    }
}

/// A piece whose cells lie on free cells of the grid does not collide
/// under the identity transform.
proof fn lemma_identity_clear(terrain: Seq<TileType>, width: int, p: PieceState)
    requires
        0 < width,
        p.change == TileChange::identity(),
        0 <= p.center,
        p.cells.len() == 4,
        forall|k: int|
            0 <= k < 4 ==> 0 <= #[trigger] p.cells[k] < terrain.len() && terrain[p.cells[k]]
                == TileType::Empty,
    ensures
        !blocked(terrain, width, p),
{
    assert forall|k: int| 0 <= k < 4 implies !#[trigger] collides(
        terrain,
        width,
        p.cells[k],
        virtual_cells(p, width)[k],
    ) by {
        lemma_rotate_zero(p.cells[k], p.center, width);
    }
}

/// Whether a piece collides depends on its cells, pivot and transform only.
proof fn lemma_blocked_same_motion(terrain: Seq<TileType>, width: int, p: PieceState, q: PieceState)
    requires
        p.cells == q.cells,
        p.center == q.center,
        p.change == q.change,
    ensures
        blocked(terrain, width, p) == blocked(terrain, width, q),
{
    assert(virtual_cells(p, width) =~= virtual_cells(q, width));
}

/// Under a transform that collides nowhere, every cell lands on a free cell
/// of the grid, and the pivot, being one of the cells, lands on the grid.
proof fn lemma_commit_unblocked(terrain: Seq<TileType>, width: int, p: PieceState)
    requires
        0 < width,
        !blocked(terrain, width, p),
        p.cells.len() == 4,
        p.cells.contains(p.center),
    ensures
        forall|k: int|
            0 <= k < 4 ==> 0 <= #[trigger] virtual_cells(p, width)[k] < terrain.len() && terrain[virtual_cells(
                p,
                width,
            )[k]] == TileType::Empty,
        0 <= committed(p, width).center < terrain.len(),
        committed(p, width).cells.contains(committed(p, width).center),
        forall|k: int|
            0 <= k < 4 ==> 0 <= #[trigger] committed(p, width).cells[k] < terrain.len() && terrain[committed(
                p,
                width,
            ).cells[k]] == TileType::Empty,
{
    assert forall|k: int| 0 <= k < 4 implies 0 <= #[trigger] virtual_cells(p, width)[k] < terrain.len()
        && terrain[virtual_cells(p, width)[k]] == TileType::Empty by {
        assert(!collides(terrain, width, p.cells[k], virtual_cells(p, width)[k]));
    }
    let k0 = choose|k: int| 0 <= k < 4 && p.cells[k] == p.center;
    lemma_rotate_pivot(p.center, width, p.change.rot_degree as int);
    assert(virtual_cells(p, width)[k0] == committed(p, width).center);
    assert(committed(p, width).cells[k0] == committed(p, width).center);
}

/// The transform the stride and rotation phases accept collides nowhere,
/// moves at most one column, and turns by a quarter turn or not at all.
pub proof fn lemma_accepted_unblocked(s: BoardState)
    requires
        state_ok(s),
    ensures
        !blocked(s.terrain, s.width as int, with_change(s.piece, accepted_change(s.terrain, s.width as int, s.piece))),
        -1 <= accepted_change(s.terrain, s.width as int, s.piece).x <= 1,
        accepted_change(s.terrain, s.width as int, s.piece).y == 0,
        accepted_change(s.terrain, s.width as int, s.piece).rot_degree == 0
            || accepted_change(s.terrain, s.width as int, s.piece).rot_degree == 90,
{
    let w = s.width as int;
    let p = s.piece;
    lemma_identity_clear(s.terrain, w, with_change(p, TileChange::identity()));
    if !blocked(s.terrain, w, p) {
        assert(with_change(p, p.change) == p);
    }
}

/// A step applies its moves as one combined transform: the fall phase, run
/// on the piece that the stride and rotation phases committed, collides
/// exactly when the accepted horizontal move and turn together with the
/// move one row down collide on the piece as it was; when they do not, the
/// piece ends where that combined transform puts it, and nothing else
/// changes.
pub proof fn lemma_step_one_transform(s: BoardState, next: Shape)
    requires
        state_ok(s),
    ensures
        ({
            let w = s.width as int;
            let c = accepted_change(s.terrain, w, s.piece);
            let combined = with_change(s.piece, TileChange { y: 1, ..c });
            let moved = after_stride(s);
            &&& blocked(moved.terrain, w, with_change(moved.piece, fall_change())) == blocked(
                s.terrain,
                w,
                combined,
            )
            &&& !blocked(s.terrain, w, combined) ==> {
                &&& stepped(s, next).0.piece.cells == committed(combined, w).cells
                &&& stepped(s, next).0.piece.center == committed(combined, w).center
                &&& stepped(s, next).0.terrain == s.terrain
                &&& stepped(s, next).0.score == s.score
                &&& !stepped(s, next).1
            }
        }),
{
    let w = s.width as int;
    let p = s.piece;
    let c = accepted_change(s.terrain, w, p);
    let combined = with_change(p, TileChange { y: 1, ..c });
    let pr = with_change(PieceState { rotate: false, ..p }, c);
    let q = committed(pr, w);
    let down = with_change(q, fall_change());
    lemma_accepted_unblocked(s);
    lemma_blocked_same_motion(s.terrain, w, with_change(p, c), pr);
    lemma_commit_unblocked(s.terrain, w, pr);
    assert(0 * w == 0 && 1 * w == w);
    assert forall|k: int| 0 <= k < 4 implies #[trigger] virtual_cells(down, w)[k] == virtual_cells(combined, w)[k]
        && 0 <= q.cells[k] && q.cells[k] + w == virtual_cells(combined, w)[k] && collides(
        s.terrain,
        w,
        q.cells[k],
        virtual_cells(down, w)[k],
    ) == collides(s.terrain, w, p.cells[k], virtual_cells(combined, w)[k]) by {
        assert(!collides(s.terrain, w, pr.cells[k], virtual_cells(pr, w)[k]));
        assert(q.cells[k] == virtual_cells(pr, w)[k]);
        lemma_rotate_zero(q.cells[k], q.center, w);
        vstd::arithmetic::div_mod::lemma_mod_add_multiples_vanish(q.cells[k], w);
    }
    if blocked(s.terrain, w, combined) {
        let k = choose|k: int|
            0 <= k < 4 && #[trigger] collides(s.terrain, w, combined.cells[k], virtual_cells(combined, w)[k]);
        assert(collides(s.terrain, w, down.cells[k], virtual_cells(down, w)[k]));
    } else {
        if blocked(s.terrain, w, down) {
            let k = choose|k: int|
                0 <= k < 4 && #[trigger] collides(s.terrain, w, down.cells[k], virtual_cells(down, w)[k]);
            assert(collides(s.terrain, w, combined.cells[k], virtual_cells(combined, w)[k]));
        }
        assert(virtual_cells(down, w) =~= virtual_cells(combined, w));
    }
}

/// A board whose only intent is a turn, and whose turn collides nowhere,
/// turns its piece a quarter turn about its pivot in the stride and rotation
/// phases.
pub proof fn lemma_stride_turns(s: BoardState)
    requires
        state_ok(s),
        s.piece.change == TileChange::identity(),
        s.piece.rotate,
        !blocked(s.terrain, s.width as int, with_change(s.piece, quarter_turn())),
    ensures
        after_stride(s).piece.cells == quarter_turned(s.piece, s.width as int).cells,
        after_stride(s).piece.center == quarter_turned(s.piece, s.width as int).center,
        after_stride(s).terrain == s.terrain,
        after_stride(s).score == s.score,
{
}

/// A grid of valid dimensions has room for four rows of its width.
proof fn lemma_four_rows(width: int, height: int)
    requires
        valid_dimensions(width, height),
    ensures
        4 * width <= width * height,
{
    assert(4 * width <= width * height) by (nonlinear_arith)
        requires
            3 <= width,
            4 <= height,
    ;
}

} // verus!
