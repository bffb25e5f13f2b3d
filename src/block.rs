use vstd::prelude::*;

use crate::coord::{pos, Coord};
use crate::enums::{BlockID, RotateCmd, ShiftCmd};
use crate::model::{
    clear_cells, cleared_row, dropped, max_x, min_x, move_cell, overlap, rotated, shape_at,
    shifted, span, template, translate, turn, piece_fits, turn_fits, Piece,
};
use crate::rules::rule_nextblock;

verus! {

/// The positions of a sequence of coordinates.
pub open spec fn positions(s: Seq<Coord>) -> Seq<(int, int)> {
    s.map_values(|c: Coord| pos(c))
}

/// A tetromino, falling or settled: its cells, the pivot it turns about, and its shape.
pub struct Block {
    coords: Vec<Coord>,
    center: Coord,
    id: BlockID,
}

impl Block {
    /// What the block stands for.
    pub closed spec fn model(&self) -> Piece {
        Piece { cells: positions(self.coords@), pivot: pos(self.center), shape: self.id }
    }

    /// The shape `id` in its layout before placement.
    pub fn new(id: BlockID) -> (r: Block)
        ensures
            r.model() == template(id),
    {
        let (coords, center) = match id {
            BlockID::I => (vec![Coord(0, 0), Coord(1, 0), Coord(2, 0), Coord(3, 0)], Coord(1, 0)),
            BlockID::J => (vec![Coord(0, 0), Coord(0, -1), Coord(1, 0), Coord(2, 0)], Coord(1, 0)),
            BlockID::L => (vec![Coord(0, 0), Coord(2, -1), Coord(1, 0), Coord(2, 0)], Coord(1, 0)),
            BlockID::O => (vec![Coord(0, 0), Coord(0, -1), Coord(1, 0), Coord(1, -1)], Coord(0, 0)),
            BlockID::S => (vec![Coord(0, 0), Coord(1, 0), Coord(1, -1), Coord(2, -1)], Coord(1, 0)),
            BlockID::T => (vec![Coord(0, 0), Coord(1, 0), Coord(1, -1), Coord(2, 0)], Coord(1, 0)),
            BlockID::Z => (vec![Coord(0, -1), Coord(1, -1), Coord(1, 0), Coord(2, 0)], Coord(1, 0)),
        };
        let r = Block { coords, center, id };
        assert(r.model().cells =~= template(id).cells);
        r
    }

    /// The block moved by `rhs`.
    pub fn add(&self, rhs: Coord) -> (r: Block)
        requires
            piece_fits(translate(self.model(), rhs.0 as int, rhs.1 as int)),
        ensures
            r.model() == translate(self.model(), rhs.0 as int, rhs.1 as int),
    {
        let ghost m = self.model();
        let mut coords: Vec<Coord> = Vec::new();
        let mut i: usize = 0;
        while i < self.coords.len()
            invariant
                m == self.model(),
                piece_fits(translate(m, rhs.0 as int, rhs.1 as int)),
                i <= self.coords.len(),
                coords@.len() == i,
                forall|k: int|
                    0 <= k < i ==> pos(#[trigger] coords@[k]) == move_cell(
                        m.cells[k],
                        rhs.0 as int,
                        rhs.1 as int,
                    ),
            decreases self.coords.len() - i,
        {
            let c = self.coords[i];
            assert(m.cells[i as int] == pos(c));
            assert(translate(m, rhs.0 as int, rhs.1 as int).cells[i as int] == move_cell(m.cells[i as int], rhs.0 as int, rhs.1 as int));
            coords.push(Coord(c.0 + rhs.0, c.1 + rhs.1));
            i = i + 1;
        }
        let r = Block { coords, center: Coord(self.center.0 + rhs.0, self.center.1 + rhs.1), id: self.id };
        assert(r.model().cells =~= translate(m, rhs.0 as int, rhs.1 as int).cells);
        r
    }

    /// The same block, held in a new value.
    pub fn copied(&self) -> (r: Block)
        ensures
            r.model() == self.model(),
    {
        let mut coords: Vec<Coord> = Vec::new();
        let mut i: usize = 0;
        while i < self.coords.len()
            invariant
                i <= self.coords.len(),
                coords@ == self.coords@.take(i as int),
            decreases self.coords.len() - i,
        {
            coords.push(self.coords[i]);
            i = i + 1;
            assert(coords@ =~= self.coords@.take(i as int));
        }
        assert(coords@ =~= self.coords@);
        Block { coords, center: self.center, id: self.id }
    }

    /// Whether the two blocks share a cell.
    pub fn is_collision(&self, other: &Block) -> (r: bool)
        ensures
            r == overlap(self.model(), other.model()),
    {
        let ghost a = self.model();
        let ghost b = other.model();
        let mut j: usize = 0;
        while j < self.coords.len()
            invariant
                a == self.model(),
                b == other.model(),
                j <= self.coords.len(),
                forall|jj: int, k: int|
                    0 <= jj < j && 0 <= k < b.cells.len() ==> a.cells[jj] != b.cells[k],
            decreases self.coords.len() - j,
        {
            let mut k: usize = 0;
            while k < other.coords.len()
                invariant
                    a == self.model(),
                    b == other.model(),
                    j < self.coords.len(),
                    k <= other.coords.len(),
                    forall|jj: int, kk: int|
                        0 <= jj < j && 0 <= kk < b.cells.len() ==> a.cells[jj] != b.cells[kk],
                    forall|kk: int| 0 <= kk < k ==> a.cells[j as int] != b.cells[kk],
                decreases other.coords.len() - k,
            {
                if self.coords[j] == other.coords[k] {
                    assert(a.cells[j as int] == b.cells[k as int]);
                    return true;
                }
                k = k + 1;
            }
            j = j + 1;
        }
        false
    }

    /// The cells of the block.
    pub fn config(&self) -> (r: &Vec<Coord>)
        ensures
            positions(r@) == self.model().cells,
    {
        &self.coords
    }

    /// The block one row nearer the floor.
    pub fn drop_one(&self) -> (r: Block)
        requires
            piece_fits(dropped(self.model())),
        ensures
            r.model() == dropped(self.model()),
    {
        self.add(Coord(0, 1))
    }

    /// The block moved one column to the side `cmd` names.
    pub fn shifted_version(&self, cmd: &ShiftCmd) -> (r: Block)
        requires
            piece_fits(shifted(self.model(), *cmd)),
        ensures
            r.model() == shifted(self.model(), *cmd),
    {
        match cmd {
            ShiftCmd::Left => self.add(Coord(-1, 0)),
            ShiftCmd::Right => self.add(Coord(1, 0)),
        }
    }

    /// The block turned a quarter about its pivot; the square comes back as it is.
    pub fn rotated_version(&self, cmd: &RotateCmd) -> (r: Block)
        requires
            turn_fits(self.model(), *cmd),
        ensures
            r.model() == rotated(self.model(), *cmd),
    {
        if let BlockID::O = self.id {
            return self.copied();
        }
        let ghost m = self.model();
        let cx = self.center.0;
        let cy = self.center.1;
        let mut coords: Vec<Coord> = Vec::new();
        let mut i: usize = 0;
        while i < self.coords.len()
            invariant
                m == self.model(),
                turn_fits(m, *cmd),
                m.pivot == (cx as int, cy as int),
                i <= self.coords.len(),
                coords@.len() == i,
                forall|k: int| 0 <= k < i ==> pos(#[trigger] coords@[k]) == turn(m.cells[k], m.pivot, *cmd),
            decreases self.coords.len() - i,
        {
            let c = self.coords[i];
            assert(m.cells[i as int] == pos(c));
            let n = match cmd {
                RotateCmd::Right => Coord(cx + (c.1 - cy), cy - (c.0 - cx)),
                RotateCmd::Left => Coord(cx - (c.1 - cy), cy + (c.0 - cx)),
            };
            coords.push(n);
            i = i + 1;
        }
        let r = Block { coords, center: self.center, id: self.id };
        assert(r.model().cells =~= rotated(m, *cmd).cells);
        r
    }

    /// Removes the cells on `line` and brings those above it down one row.
    pub fn clear_line(&mut self, line: usize)
        requires
            line <= i32::MAX,
        ensures
            final(self).model() == cleared_row(old(self).model(), line as int),
    {
        let row = line as i32;
        let ghost cells = self.model().cells;
        let mut coords: Vec<Coord> = Vec::new();
        let mut i: usize = 0;
        while i < self.coords.len()
            invariant
                cells == positions(self.coords@),
                row == line,
                i <= self.coords.len(),
                positions(coords@) == clear_cells(cells.take(i as int), row as int),
            decreases self.coords.len() - i,
        {
            let c = self.coords[i];
            assert(cells.take(i + 1).drop_last() =~= cells.take(i as int));
            assert(cells.take(i + 1).last() == pos(c));
            if c.1 == row {
            } else if c.1 < row {
                coords.push(Coord(c.0, c.1 + 1));
            } else {
                coords.push(c);
            }
            assert(positions(coords@) =~= clear_cells(cells.take(i + 1), row as int));
            i = i + 1;
        }
        assert(cells.take(i as int) =~= cells);
        self.coords = coords;
    }

    /// Whether every cell of the block has been cleared.
    pub fn is_fully_cleared(&self) -> (r: bool)
        ensures
            r == (self.model().cells.len() == 0),
    {
        self.coords.len() == 0
    }

    /// The shape of the block.
    pub fn id(&self) -> (r: &BlockID)
        ensures
            *r == self.model().shape,
    {
        &self.id
    }

    /// Number of columns from the leftmost to the rightmost cell.
    pub fn width(&self) -> (r: i32)
        requires
            self.model().cells.len() > 0,
            span(self.model().cells) <= i32::MAX,
        ensures
            r == span(self.model().cells),
    {
        let ghost cells = self.model().cells;
        let mut x_min = self.coords[0].0;
        let mut x_max = self.coords[0].0;
        let mut i: usize = 1;
        assert(cells.take(1).len() == 1);
        while i < self.coords.len()
            invariant
                cells == self.model().cells,
                1 <= i <= self.coords.len(),
                x_min == min_x(cells.take(i as int)),
                x_max == max_x(cells.take(i as int)),
                x_min <= x_max,
            decreases self.coords.len() - i,
        {
            let c = self.coords[i];
            assert(cells.take(i + 1).drop_last() =~= cells.take(i as int));
            assert(cells[i as int] == pos(c));
            if c.0 < x_min {
                x_min = c.0;
            }
            if c.0 > x_max {
                x_max = c.0;
            }
            i = i + 1;
        }
        assert(cells.take(i as int) =~= cells);
        x_max - x_min + 1
    }
}

impl Clone for Block {
    fn clone(&self) -> (r: Block)
        ensures
            r.model() == self.model(),
    {
        self.copied()
    }
}

/// The queue of upcoming shapes. Its rule is a table over the seven shape
/// positions: after the shape at position `i` comes the one at `rule[i]`; a
/// position of seven or more ends the sequence.
pub struct BlockGenerator {
    idx: usize,
    rule: Vec<usize>,
}

impl BlockGenerator {
    /// Position of the next shape.
    pub closed spec fn cursor(&self) -> int {
        self.idx as int
    }

    /// The table that moves the cursor on.
    pub closed spec fn rule(&self) -> Seq<usize> {
        self.rule@
    }

    /// The rule covers the seven shape positions.
    pub open spec fn has_table(&self) -> bool {
        self.rule().len() == 7
    }

    /// A queue that never runs out: the cursor stands on a shape and the rule
    /// always leads to another.
    pub open spec fn wf(&self) -> bool {
        &&& self.has_table()
        &&& 0 <= self.cursor() < 7
        &&& forall|i: int| 0 <= i < 7 ==> #[trigger] self.rule()[i] < 7
    }

    /// The rule is the cycle through the seven shapes in order.
    pub open spec fn cyclic(&self) -> bool {
        &&& self.has_table()
        &&& forall|i: int| 0 <= i < 7 ==> #[trigger] self.rule()[i] == (i + 1) % 7
    }

    /// A queue that cycles through the seven shapes, starting with the first.
    pub fn new() -> (r: BlockGenerator)
        ensures
            r.wf(),
            r.cyclic(),
            r.cursor() == 0,
    {
        let mut rule: Vec<usize> = Vec::new();
        let mut i: usize = 0;
        while i < 7
            invariant
                i <= 7,
                rule@.len() == i,
                forall|j: int| 0 <= j < i ==> #[trigger] rule@[j] == (j + 1) % 7,
            decreases 7 - i,
        {
            rule.push(rule_nextblock(i));
            i = i + 1;
        }
        BlockGenerator { idx: 0, rule }
    }

    /// A queue that starts with the first shape and moves on by `rule`.
    pub fn with_rule(rule: Vec<usize>) -> (r: BlockGenerator)
        requires
            rule@.len() == 7,
        ensures
            r.has_table(),
            r.rule() == rule@,
            r.cursor() == 0,
    {
        BlockGenerator { idx: 0, rule }
    }

    /// The block the next call of `next` hands out, the queue left as it is.
    pub fn peek_next(&self) -> (r: Option<Block>)
        ensures
            0 <= self.cursor() < 7 ==> r is Some && r->0.model() == template(shape_at(self.cursor())),
            self.cursor() >= 7 ==> r is None,
    {
        match self.idx {
            0 => Some(Block::new(BlockID::I)),
            1 => Some(Block::new(BlockID::J)),
            2 => Some(Block::new(BlockID::L)),
            3 => Some(Block::new(BlockID::O)),
            4 => Some(Block::new(BlockID::S)),
            5 => Some(Block::new(BlockID::T)),
            6 => Some(Block::new(BlockID::Z)),
            _ => None,
        }
    }

    /// Hands out the next block and moves the cursor on by the rule; `None`
    /// once the sequence has ended.
    pub fn next(&mut self) -> (r: Option<Block>)
        requires
            old(self).has_table(),
        ensures
            final(self).rule() == old(self).rule(),
            old(self).cursor() < 7 ==> r is Some && r->0.model() == template(shape_at(old(self).cursor()))
                && final(self).cursor() == old(self).rule()[old(self).cursor()],
            old(self).cursor() >= 7 ==> r is None && final(self).cursor() == old(self).cursor(),
    {
        let ele = self.peek_next();
        if self.idx < 7 {
            self.idx = self.rule[self.idx];
        }
        ele
    }
}

} // verus!
