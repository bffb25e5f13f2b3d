use vstd::prelude::*;

use crate::enums::{BlockID, RotateCmd, ShiftCmd};

verus! {

/// Mathematical model of a piece: its occupied cells (in board coordinates),
/// the pivot it turns about, and its shape.
#[verifier::ext_equal]
pub struct Piece {
    pub cells: Seq<(int, int)>,
    pub pivot: (int, int),
    pub shape: BlockID,
}

/// Cell layout of each shape before it is placed on the board.
pub open spec fn template_cells(id: BlockID) -> Seq<(int, int)> {
    match id {
        BlockID::I => seq![(0, 0), (1, 0), (2, 0), (3, 0)],
        BlockID::J => seq![(0, 0), (0, -1), (1, 0), (2, 0)],
        BlockID::L => seq![(0, 0), (2, -1), (1, 0), (2, 0)],
        BlockID::O => seq![(0, 0), (0, -1), (1, 0), (1, -1)],
        BlockID::S => seq![(0, 0), (1, 0), (1, -1), (2, -1)],
        BlockID::T => seq![(0, 0), (1, 0), (1, -1), (2, 0)],
        BlockID::Z => seq![(0, -1), (1, -1), (1, 0), (2, 0)],
    }
}

pub open spec fn template_pivot(id: BlockID) -> (int, int) {
    match id {
        BlockID::O => (0, 0),
        _ => (1, 0),
    }
}

/// A shape in its layout before placement.
pub open spec fn template(id: BlockID) -> Piece {
    Piece { cells: template_cells(id), pivot: template_pivot(id), shape: id }
}

/// Number of columns a shape spans in its layout before placement.
pub open spec fn shape_width(id: BlockID) -> int {
    match id {
        BlockID::I => 4,
        BlockID::O => 2,
        _ => 3,
    }
}

/// The shape that the queue hands out at a cursor position.
pub open spec fn shape_at(k: int) -> BlockID {
    if k == 0 {
        BlockID::I
    } else if k == 1 {
        BlockID::J
    } else if k == 2 {
        BlockID::L
    } else if k == 3 {
        BlockID::O
    } else if k == 4 {
        BlockID::S
    } else if k == 5 {
        BlockID::T
    } else {
        BlockID::Z
    }
}

pub open spec fn move_cell(c: (int, int), dx: int, dy: int) -> (int, int) {
    (c.0 + dx, c.1 + dy)
}

/// Every cell and the pivot moved by `(dx, dy)`.
pub open spec fn translate(p: Piece, dx: int, dy: int) -> Piece {
    Piece {
        cells: p.cells.map_values(|c: (int, int)| move_cell(c, dx, dy)),
        pivot: move_cell(p.pivot, dx, dy),
        shape: p.shape,
    }
}

pub open spec fn shift_dx(cmd: ShiftCmd) -> int {
    match cmd {
        ShiftCmd::Left => -1,
        ShiftCmd::Right => 1,
    }
}

pub open spec fn shifted(p: Piece, cmd: ShiftCmd) -> Piece {
    translate(p, shift_dx(cmd), 0)
}

/// One row towards the floor.
pub open spec fn dropped(p: Piece) -> Piece {
    translate(p, 0, 1)
}

/// A quarter turn of cell `c` about `pivot`; rows grow downwards.
pub open spec fn turn(c: (int, int), pivot: (int, int), dir: RotateCmd) -> (int, int) {
    match dir {
        RotateCmd::Right => (pivot.0 + (c.1 - pivot.1), pivot.1 - (c.0 - pivot.0)),
        RotateCmd::Left => (pivot.0 - (c.1 - pivot.1), pivot.1 + (c.0 - pivot.0)),
    }
}

/// The piece turned about its pivot; the square is left as it is.
pub open spec fn rotated(p: Piece, dir: RotateCmd) -> Piece {
    if p.shape == BlockID::O {
        p
    } else {
        Piece {
            cells: p.cells.map_values(|c: (int, int)| turn(c, p.pivot, dir)),
            pivot: p.pivot,
            shape: p.shape,
        }
    }
}

/// Cells with `row` removed; those above it come down one row, those below stay.
pub open spec fn clear_cells(cells: Seq<(int, int)>, row: int) -> Seq<(int, int)>
    decreases cells.len(),
{
    if cells.len() == 0 {
        cells
    } else {
        let rest = clear_cells(cells.drop_last(), row);
        let c = cells.last();
        if c.1 == row {
            rest
        } else if c.1 < row {
            rest.push((c.0, c.1 + 1))
        } else {
            rest.push(c)
        }
    }
}

pub open spec fn cleared_row(p: Piece, row: int) -> Piece {
    Piece { cells: clear_cells(p.cells, row), pivot: p.pivot, shape: p.shape }
}

pub open spec fn max_x(cells: Seq<(int, int)>) -> int
    decreases cells.len(),
{
    if cells.len() <= 1 {
        cells[0].0
    } else {
        let m = max_x(cells.drop_last());
        if cells.last().0 > m {
            cells.last().0
        } else {
            m
        }
    }
}

pub open spec fn min_x(cells: Seq<(int, int)>) -> int
    decreases cells.len(),
{
    if cells.len() <= 1 {
        cells[0].0
    } else {
        let m = min_x(cells.drop_last());
        if cells.last().0 < m {
            cells.last().0
        } else {
            m
        }
    }
}

/// Number of columns from the leftmost to the rightmost cell.
pub open spec fn span(cells: Seq<(int, int)>) -> int {
    max_x(cells) - min_x(cells) + 1
}

pub open spec fn fits_i32(v: int) -> bool {
    i32::MIN <= v <= i32::MAX
}

/// Every cell and the pivot can be held in `i32` coordinates.
pub open spec fn piece_fits(p: Piece) -> bool {
    &&& fits_i32(p.pivot.0)
    &&& fits_i32(p.pivot.1)
    &&& forall|k: int|
        0 <= k < p.cells.len() ==> fits_i32((#[trigger] p.cells[k]).0) && fits_i32(p.cells[k].1)
}

/// A quarter turn of `p` in direction `dir` can be computed in `i32`: each
/// cell's offset from the pivot and its turned position fit.
pub open spec fn turn_fits(p: Piece, dir: RotateCmd) -> bool {
    forall|k: int|
        0 <= k < p.cells.len() ==> fits_i32((#[trigger] p.cells[k]).0 - p.pivot.0) && fits_i32(
            p.cells[k].1 - p.pivot.1,
        ) && fits_i32(turn(p.cells[k], p.pivot, dir).0) && fits_i32(turn(p.cells[k], p.pivot, dir).1)
}

/// Whether two pieces share a cell.
pub open spec fn overlap(a: Piece, b: Piece) -> bool {
    exists|j: int, k: int|
        0 <= j < a.cells.len() && 0 <= k < b.cells.len() && #[trigger] a.cells[j] == #[trigger] b.cells[k]
}


/// A board of `width` columns and `height` rows that the game supports: at
/// least four each way, with its walls and floor, `2 * height + width + 2`
/// cells, within `i32`.
pub open spec fn board_fits(width: int, height: int) -> bool {
    &&& 4 <= width
    &&& 4 <= height
    &&& 2 * height + width + 2 <= i32::MAX
}

/// The static boundary: walls in columns `0` and `width + 1` from row `0` down to
/// the floor, and the floor in row `height` under the playable columns `1..=width`.
pub open spec fn is_wall(c: (int, int), width: int, height: int) -> bool {
    ||| (c.0 == 0 || c.0 == width + 1) && 0 <= c.1 <= height
    ||| c.1 == height && 1 <= c.0 <= width
}

/// A cell a piece may not take, whatever its row: outside the playable columns
/// `1..=width`, or on or below the floor. Rows above the top are open.
pub open spec fn outside_field(c: (int, int), width: int, height: int) -> bool {
    c.0 < 1 || c.0 > width || c.1 >= height
}

/// Whether a cell of `p` lies outside the field.
pub open spec fn leaves_field(p: Piece, width: int, height: int) -> bool {
    exists|k: int| 0 <= k < p.cells.len() && outside_field(#[trigger] p.cells[k], width, height)
}

/// Whether `p` shares a cell with a settled piece.
pub open spec fn collides(settled: Seq<Piece>, p: Piece) -> bool {
    exists|i: int| 0 <= i < settled.len() && overlap(#[trigger] settled[i], p)
}

/// Whether a settled piece holds cell `c`.
pub open spec fn occupied(settled: Seq<Piece>, c: (int, int)) -> bool {
    exists|i: int| 0 <= i < settled.len() && #[trigger] settled[i].cells.contains(c)
}

/// Every playable column of `row` is occupied.
pub open spec fn row_full(settled: Seq<Piece>, row: int, width: int) -> bool {
    forall|x: int| 1 <= x <= width ==> #[trigger] occupied(settled, (x, row))
}

pub open spec fn clear_all(settled: Seq<Piece>, row: int) -> Seq<Piece> {
    settled.map_values(|p: Piece| cleared_row(p, row))
}

/// Scans the rows from `line` down to the floor, clearing each full one as it is
/// met; gives the pieces that remain and the number of rows cleared.
pub open spec fn clear_from(settled: Seq<Piece>, line: int, width: int, height: int) -> (Seq<Piece>, nat)
    decreases height - line,
{
    if line >= height {
        (settled, 0)
    } else if row_full(settled, line, width) {
        let (s, n) = clear_from(clear_all(settled, line), line + 1, width, height);
        (s, n + 1)
    } else {
        clear_from(settled, line + 1, width, height)
    }
}

/// The pieces that still hold a cell, in their order.
pub open spec fn drop_empty(settled: Seq<Piece>) -> Seq<Piece>
    decreases settled.len(),
{
    if settled.len() == 0 {
        settled
    } else {
        let rest = drop_empty(settled.drop_last());
        if settled.last().cells.len() == 0 {
            rest
        } else {
            rest.push(settled.last())
        }
    }
}

/// All full rows cleared in one pass, emptied pieces removed.
pub open spec fn clear_full_rows(settled: Seq<Piece>, width: int, height: int) -> (Seq<Piece>, nat) {
    let (s, n) = clear_from(settled, 0, width, height);
    if n > 0 {
        (drop_empty(s), n)
    } else {
        (s, 0)
    }
}

/// Shape `id` centred on a board `width` columns wide, in the top row.
pub open spec fn spawn(id: BlockID, width: int) -> Piece {
    translate(template(id), 1 + (width - shape_width(id)) / 2, 0)
}

/// A falling piece as the game keeps it: four cells around its pivot, the pivot
/// inside the playable area.
pub open spec fn piece_ok(p: Piece, width: int, height: int) -> bool {
    &&& p.cells.len() == 4
    &&& p.cells.no_duplicates()
    &&& p.cells.contains(p.pivot)
    &&& forall|k: int|
        0 <= k < p.cells.len() ==> -3 <= (#[trigger] p.cells[k]).0 - p.pivot.0 <= 3 && -3
            <= p.cells[k].1 - p.pivot.1 <= 3
    &&& 1 <= p.pivot.0 <= width
    &&& 0 <= p.pivot.1 < height
}

/// Mathematical model of a game.
#[verifier::ext_equal]
pub struct GameState {
    pub width: int,
    pub height: int,
    pub settled: Seq<Piece>,
    pub current: Piece,
    pub cursor: int,
}

impl GameState {
    pub open spec fn with_current(self, p: Piece) -> GameState {
        GameState {
            width: self.width,
            height: self.height,
            settled: self.settled,
            current: p,
            cursor: self.cursor,
        }
    }

    /// A fresh game: empty board, the first shape of the cycle falling.
    pub open spec fn initial(width: int, height: int) -> GameState {
        GameState {
            width,
            height,
            settled: seq![],
            current: spawn(shape_at(0), width),
            cursor: 1,
        }
    }

    /// The board's size is one the game supports.
    pub open spec fn sized(self) -> bool {
        &&& board_fits(self.width, self.height)
    }

    pub open spec fn wf(self) -> bool {
        &&& self.sized()
        &&& 0 <= self.cursor < 7
        &&& all_nonempty(self.settled)
        &&& piece_ok(self.current, self.width, self.height)
        &&& !leaves_field(self.current, self.width, self.height)
    }

    /// A piece may stand where it touches neither the boundary nor a settled piece.
    pub open spec fn legal(self, p: Piece) -> bool {
        !leaves_field(p, self.width, self.height) && !collides(self.settled, p)
    }

    /// The game is over once the falling piece overlaps the settled ones.
    pub open spec fn is_over(self) -> bool {
        collides(self.settled, self.current)
    }

    pub open spec fn shift(self, cmd: ShiftCmd) -> GameState {
        if !self.is_over() && self.legal(shifted(self.current, cmd)) {
            self.with_current(shifted(self.current, cmd))
        } else {
            self
        }
    }

    pub open spec fn rotate(self, cmd: RotateCmd) -> GameState {
        if !self.is_over() && self.legal(rotated(self.current, cmd)) {
            self.with_current(rotated(self.current, cmd))
        } else {
            self
        }
    }

    /// The falling piece joins the settled ones, full rows are cleared and the
    /// next shape of the cycle appears; also gives the number of rows cleared.
    pub open spec fn settle(self) -> (GameState, nat) {
        let (s, n) = clear_full_rows(self.settled.push(self.current), self.width, self.height);
        (
            GameState {
                width: self.width,
                height: self.height,
                settled: s,
                current: spawn(shape_at(self.cursor), self.width),
                cursor: (self.cursor + 1) % 7,
            },
            n,
        )
    }

    /// Up to `n` gravity steps, stopping at the first settle.
    pub open spec fn fall(self, n: nat) -> (GameState, Option<nat>)
        decreases n,
    {
        if n == 0 {
            (self, None)
        } else if self.legal(dropped(self.current)) {
            self.with_current(dropped(self.current)).fall((n - 1) as nat)
        } else {
            let (g, k) = self.settle();
            (g, Some(k))
        }
    }

    /// `fall`, unless the game is over.
    pub open spec fn drop_steps(self, n: nat) -> (GameState, Option<nat>) {
        if self.is_over() {
            (self, None)
        } else {
            self.fall(n)
        }
    }
}


/// Every move of a piece kept by the game can be computed in `i32`.
pub proof fn lemma_piece_ok_fits(p: Piece, width: int, height: int)
    requires
        piece_ok(p, width, height),
        board_fits(width, height),
    ensures
        piece_fits(shifted(p, ShiftCmd::Left)),
        piece_fits(shifted(p, ShiftCmd::Right)),
        piece_fits(dropped(p)),
        turn_fits(p, RotateCmd::Left),
        turn_fits(p, RotateCmd::Right),
{
}

/// The layouts before placement: four cells spanning `shape_width` columns,
/// and placed anywhere on a board that fits, they fit in `i32`.
pub proof fn lemma_template_fits(id: BlockID, width: int)
    requires
        4 <= width <= i32::MAX - 4,
    ensures
        template(id).cells.len() == 4,
        span(template(id).cells) == shape_width(id),
        piece_fits(template(id)),
        piece_fits(translate(template(id), 1 + (width - shape_width(id)) / 2, 0)),
{
    let c = template(id).cells;
    reveal_with_fuel(max_x, 5);
    reveal_with_fuel(min_x, 5);
    assert(c.drop_last().drop_last().drop_last() =~= seq![c[0]]);
    assert(c.drop_last().drop_last() =~= seq![c[0], c[1]]);
    assert(c.drop_last() =~= seq![c[0], c[1], c[2]]);
}

/// A freshly spawned piece is one the game can keep.
pub proof fn lemma_spawn_ok(id: BlockID, width: int, height: int)
    requires
        4 <= width,
        1 <= height,
    ensures
        piece_ok(spawn(id, width), width, height),
        !leaves_field(spawn(id, width), width, height),
{
    let p = spawn(id, width);
    let k: int = match id {
        BlockID::I => 1,
        BlockID::J => 2,
        BlockID::L => 2,
        BlockID::O => 0,
        BlockID::S => 1,
        BlockID::T => 1,
        BlockID::Z => 2,
    };
    assert(p.cells[k] == p.pivot);
}

/// A translated piece that clears the boundary is still one the game can keep.
pub proof fn lemma_translate_ok(p: Piece, dx: int, dy: int, width: int, height: int)
    requires
        piece_ok(p, width, height),
        (dx == -1 || dx == 1) && dy == 0 || dx == 0 && dy == 1,
        !leaves_field(translate(p, dx, dy), width, height),
    ensures
        piece_ok(translate(p, dx, dy), width, height),
{
    let q = translate(p, dx, dy);
    let k = choose|k: int| 0 <= k < p.cells.len() && p.cells[k] == p.pivot;
    assert(q.cells[k] == q.pivot);
    assert(!outside_field(q.cells[k], width, height));
}

/// A quarter turn keeps a piece one the game can keep.
pub proof fn lemma_rotate_ok(p: Piece, dir: RotateCmd, width: int, height: int)
    requires
        piece_ok(p, width, height),
    ensures
        piece_ok(rotated(p, dir), width, height),
{
    if p.shape != BlockID::O {
        let q = rotated(p, dir);
        let k = choose|k: int| 0 <= k < p.cells.len() && p.cells[k] == p.pivot;
        assert(q.cells[k] == q.pivot);
    }
}

/// Gravity never changes the size of the board.
pub proof fn lemma_fall_keeps_size(g: GameState, n: nat)
    ensures
        g.fall(n).0.width == g.width,
        g.fall(n).0.height == g.height,
    decreases n,
{
    if n > 0 && g.legal(dropped(g.current)) {
        lemma_fall_keeps_size(g.with_current(dropped(g.current)), (n - 1) as nat);
    }
}

/// Every piece holds a cell.
pub open spec fn all_nonempty(s: Seq<Piece>) -> bool {
    forall|i: int| 0 <= i < s.len() ==> #[trigger] s[i].cells.len() > 0
}

proof fn lemma_drop_empty_nonempty(s: Seq<Piece>)
    ensures
        all_nonempty(drop_empty(s)),
    decreases s.len(),
{
    if s.len() > 0 {
        lemma_drop_empty_nonempty(s.drop_last());
        let d = drop_empty(s.drop_last());
        if s.last().cells.len() != 0 {
            assert forall|i: int| 0 <= i < d.len() + 1 implies #[trigger] d.push(s.last())[i].cells.len() > 0 by {
                if i < d.len() {
                    assert(d.push(s.last())[i] == d[i]);
                }
            }
        }
    }
}

proof fn lemma_clear_from_unchanged(s: Seq<Piece>, line: int, width: int, height: int)
    ensures
        clear_from(s, line, width, height).1 == 0 ==> clear_from(s, line, width, height).0 == s,
    decreases height - line,
{
    if line < height && !row_full(s, line, width) {
        lemma_clear_from_unchanged(s, line + 1, width, height);
    }
}

/// Clearing the full rows leaves no piece without a cell.
pub proof fn lemma_cleared_nonempty(s: Seq<Piece>, width: int, height: int)
    requires
        all_nonempty(s),
    ensures
        all_nonempty(clear_full_rows(s, width, height).0),
{
    lemma_clear_from_unchanged(s, 0, width, height);
    lemma_drop_empty_nonempty(clear_from(s, 0, width, height).0);
}

} // verus!
