use vstd::prelude::*;

use crate::block::{positions, Block, BlockGenerator};
use crate::coord::{pos, Coord};
use crate::enums::{GameStatus, RotateCmd, ShiftCmd};
use crate::model::{
    clear_all, clear_from, clear_full_rows, collides, drop_empty, leaves_field, is_wall, outside_field,
    lemma_cleared_nonempty, lemma_piece_ok_fits, lemma_rotate_ok, lemma_spawn_ok, lemma_template_fits,
    lemma_translate_ok, occupied, overlap, row_full, shape_at, spawn, template,
    board_fits, GameState, Piece,
};

verus! {

/// The models of a sequence of blocks.
pub open spec fn models(s: Seq<Block>) -> Seq<Piece> {
    s.map_values(|b: Block| b.model())
}

/// A count as the model states it.
pub open spec fn count_of(r: Option<usize>) -> Option<nat> {
    match r {
        Some(k) => Some(k as nat),
        None => None,
    }
}

/// Whether `s` holds the cell at column `x`, row `y`.
pub open spec fn holds(s: Seq<Coord>, x: int, y: int) -> bool {
    exists|k: int| 0 <= k < s.len() && pos(#[trigger] s[k]) == (x, y)
}

proof fn lemma_holds_push(s: Seq<Coord>, c: Coord)
    ensures
        forall|x: int, y: int| #[trigger] holds(s.push(c), x, y) <==> holds(s, x, y) || pos(c) == (x, y),
{
    assert forall|x: int, y: int| #[trigger] holds(s.push(c), x, y) <==> holds(s, x, y) || pos(c) == (x, y) by {
        if holds(s, x, y) {
            let k = choose|k: int| 0 <= k < s.len() && pos(s[k]) == (x, y);
            assert(s.push(c)[k] == s[k]);
        }
        if pos(c) == (x, y) {
            assert(s.push(c)[s.len() as int] == c);
        }
        if holds(s.push(c), x, y) {
            let k = choose|k: int| 0 <= k < s.len() + 1 && pos(s.push(c)[k]) == (x, y);
            if k < s.len() {
                assert(s.push(c)[k] == s[k]);
            }
        }
    }
}

/// A game: the board with its settled blocks, the falling block and the queue.
pub struct Tetris {
    width: i32,
    height: i32,
    state: Vec<Block>,
    current_block: Block,
    block_generator: BlockGenerator,
}

impl View for Tetris {
    type V = GameState;

    closed spec fn view(&self) -> GameState {
        GameState {
            width: self.width as int,
            height: self.height as int,
            settled: models(self.state@),
            current: self.current_block.model(),
            cursor: self.block_generator.cursor(),
        }
    }
}

/// Shape `block` moved from its layout to the middle of the top row.
fn center_block(block: &Block, width: i32) -> (r: Block)
    requires
        block.model() == template(block.model().shape),
        4 <= width <= i32::MAX - 4,
    ensures
        r.model() == spawn(block.model().shape, width as int),
{
    proof {
        lemma_template_fits(block.model().shape, width as int);
    }
    let block_width = block.width();
    block.add(Coord(1 + (width - block_width) / 2, 0))
}

impl Tetris {
    /// The queue cycles through the seven shapes in order.
    pub closed spec fn queue_cyclic(&self) -> bool {
        self.block_generator.cyclic()
    }

    /// The game keeps the invariant of its model, with the cyclic queue.
    pub open spec fn wf(&self) -> bool {
        self@.wf() && self.queue_cyclic()
    }

    /// A game on an empty board `width` columns wide and `height` rows tall.
    pub fn new(width: i32, height: i32) -> (r: Tetris)
        requires
            board_fits(width as int, height as int),
        ensures
            r.wf(),
            r@ == GameState::initial(width as int, height as int),
    {
        let mut gen = BlockGenerator::new();
        let first_block = gen.next().unwrap();
        let first_block = center_block(&first_block, width);
        proof {
            lemma_spawn_ok(shape_at(0), width as int, height as int);
        }
        let r = Tetris { width, height, state: Vec::new(), current_block: first_block, block_generator: gen };
        assert(r@.settled =~= Seq::<Piece>::empty());
        r
    }

    /// Whether cell `c` lies outside the playable columns, or on or below the floor.
    fn is_outside_cell(&self, c: Coord) -> (r: bool)
        ensures
            r == outside_field(pos(c), self@.width, self@.height),
    {
        c.0 < 1 || c.0 > self.width || c.1 >= self.height
    }

    /// Whether a cell of `block` lies outside the field.
    fn block_outside_bounds(&self, block: &Block) -> (r: bool)
        ensures
            r == leaves_field(block.model(), self@.width, self@.height),
    {
        let coords = block.config();
        let ghost cells = block.model().cells;
        let mut i: usize = 0;
        while i < coords.len()
            invariant
                positions(coords@) == cells,
                cells == block.model().cells,
                i <= coords.len(),
                forall|k: int| 0 <= k < i ==> !outside_field(#[trigger] cells[k], self@.width, self@.height),
            decreases coords.len() - i,
        {
            if self.is_outside_cell(coords[i]) {
                assert(outside_field(cells[i as int], self@.width, self@.height));
                return true;
            }
            i = i + 1;
        }
        false
    }

    /// Whether `block` shares a cell with a settled block.
    fn block_collision(&self, block: &Block) -> (r: bool)
        ensures
            r == collides(self@.settled, block.model()),
    {
        let mut i: usize = 0;
        while i < self.state.len()
            invariant
                i <= self.state.len(),
                forall|j: int| 0 <= j < i ==> !overlap(#[trigger] self@.settled[j], block.model()),
            decreases self.state.len() - i,
        {
            if self.state[i].is_collision(block) {
                assert(overlap(self@.settled[i as int], block.model()));
                return true;
            }
            i = i + 1;
        }
        false
    }

    /// Moves the falling block one column aside where it is free to go.
    pub fn shift_block_if_feasible(&mut self, cmd: &ShiftCmd)
        requires
            old(self).wf(),
        ensures
            final(self).wf(),
            final(self)@ == old(self)@.shift(*cmd),
    {
        if self.block_collision(&self.current_block) {
            return;
        }
        proof {
            lemma_piece_ok_fits(self@.current, self@.width, self@.height);
        }
        let shifted_block = self.current_block.shifted_version(cmd);
        if !self.block_outside_bounds(&shifted_block) && !self.block_collision(&shifted_block) {
            proof {
                let dx: int = match *cmd {
                    ShiftCmd::Left => -1,
                    ShiftCmd::Right => 1,
                };
                lemma_translate_ok(self@.current, dx, 0, self@.width, self@.height);
            }
            self.current_block = shifted_block;
            assert(self@ =~= old(self)@.shift(*cmd));
        }
    }

    /// Turns the falling block a quarter where it is free to turn; no kicks are tried.
    pub fn rotate_block_if_feasible(&mut self, cmd: &RotateCmd)
        requires
            old(self).wf(),
        ensures
            final(self).wf(),
            final(self)@ == old(self)@.rotate(*cmd),
    {
        if self.block_collision(&self.current_block) {
            return;
        }
        proof {
            lemma_piece_ok_fits(self@.current, self@.width, self@.height);
            lemma_rotate_ok(self@.current, *cmd, self@.width, self@.height);
        }
        let rotated_block = self.current_block.rotated_version(cmd);
        if !self.block_outside_bounds(&rotated_block) && !self.block_collision(&rotated_block) {
            self.current_block = rotated_block;
            assert(self@ =~= old(self)@.rotate(*cmd));
        }
    }

    /// Whether a settled block holds cell `c`.
    fn is_occupied(&self, c: Coord) -> (r: bool)
        ensures
            r == occupied(self@.settled, pos(c)),
    {
        let ghost settled = self@.settled;
        let mut i: usize = 0;
        while i < self.state.len()
            invariant
                settled == self@.settled,
                i <= self.state.len(),
                forall|j: int, k: int|
                    0 <= j < i && 0 <= k < settled[j].cells.len() ==> #[trigger] settled[j].cells[k]
                        != pos(c),
            decreases self.state.len() - i,
        {
            let coords = self.state[i].config();
            let mut k: usize = 0;
            while k < coords.len()
                invariant
                    settled == self@.settled,
                    i < self.state.len(),
                    positions(coords@) == settled[i as int].cells,
                    k <= coords.len(),
                    forall|j: int, kk: int|
                        0 <= j < i && 0 <= kk < settled[j].cells.len() ==> #[trigger] settled[j].cells[kk]
                            != pos(c),
                    forall|kk: int| 0 <= kk < k ==> settled[i as int].cells[kk] != pos(c),
                decreases coords.len() - k,
            {
                if coords[k] == c {
                    assert(settled[i as int].cells[k as int] == pos(c));
                    assert(settled[i as int].cells.contains(pos(c)));
                    return true;
                }
                k = k + 1;
            }
            i = i + 1;
        }
        false
    }

    /// Whether every playable column of `line` is occupied.
    fn is_line_full(&self, line: usize) -> (r: bool)
        requires
            self@.sized(),
            line < self@.height,
        ensures
            r == row_full(self@.settled, line as int, self@.width),
    {
        let row = line as i32;
        let mut x: i32 = 1;
        while x <= self.width
            invariant
                self@.sized(),
                row == line,
                1 <= x <= self.width + 1,
                forall|xx: int| 1 <= xx < x ==> #[trigger] occupied(self@.settled, (xx, row as int)),
            decreases self.width + 1 - x,
        {
            if !self.is_occupied(Coord(x, row)) {
                return false;
            }
            x = x + 1;
        }
        true
    }

    /// Clears `line` in every settled block.
    fn clear_line(&mut self, line: usize)
        requires
            line < old(self)@.height,
        ensures
            final(self).block_generator == old(self).block_generator,
            final(self)@ == (GameState { settled: clear_all(old(self)@.settled, line as int), ..old(self)@ }),
    {
        let mut rest: Vec<Block> = Vec::new();
        std::mem::swap(&mut self.state, &mut rest);
        let ghost orig = models(rest@);
        let mut done: Vec<Block> = Vec::new();
        while rest.len() > 0
            invariant
                line < self.height,
                done@.len() + rest@.len() == orig.len(),
                models(rest@) == orig.skip(done@.len() as int),
                models(done@) == clear_all(orig.take(done@.len() as int), line as int),
            decreases rest.len(),
        {
            let ghost d = done@.len() as int;
            let ghost r0 = rest@;
            let mut b = rest.remove(0);
            assert(models(r0)[0] == b.model());
            assert(orig.skip(d)[0] == orig[d]);
            assert(b.model() == orig[d]);
            b.clear_line(line);
            let ghost d0 = done@;
            let ghost bm = b.model();
            done.push(b);
            assert forall|j: int| 0 <= j < rest@.len() implies #[trigger] models(rest@)[j] == orig.skip(d + 1)[j] by {
                assert(rest@[j] == r0[j + 1]);
                assert(models(r0)[j + 1] == orig.skip(d)[j + 1]);
            }
            assert(models(rest@) =~= orig.skip(d + 1));
            assert forall|j: int| 0 <= j < done@.len() implies #[trigger] models(done@)[j] == clear_all(orig.take(d + 1), line as int)[j] by {
                if j < d {
                    assert(done@[j] == d0[j]);
                    assert(models(d0)[j] == clear_all(orig.take(d), line as int)[j]);
                } else {
                    assert(done@[j].model() == bm);
                }
            }
            assert(models(done@) =~= clear_all(orig.take(d + 1), line as int));
        }
        assert(orig.take(done@.len() as int) =~= orig);
        self.state = done;
        assert(self@ =~= (GameState { settled: clear_all(old(self)@.settled, line as int), ..old(self)@ }));
    }

    /// Clears every full row in one pass from the top row down, drops the blocks
    /// left without cells, and gives the number of rows cleared.
    fn clear_filled_lines(&mut self) -> (r: usize)
        requires
            old(self)@.sized(),
        ensures
            final(self).block_generator == old(self).block_generator,
            final(self)@ == (GameState {
                settled: clear_full_rows(old(self)@.settled, old(self)@.width, old(self)@.height).0,
                ..old(self)@
            }),
            r as nat == clear_full_rows(old(self)@.settled, old(self)@.width, old(self)@.height).1,
    {
        let ghost g0 = self@;
        let ghost target = clear_from(g0.settled, 0, g0.width, g0.height);
        let mut num_cleared: usize = 0;
        let mut line: usize = 0;
        while line < self.height as usize
            invariant
                self@.sized(),
                self.block_generator == old(self).block_generator,
                self@ == (GameState { settled: self@.settled, ..g0 }),
                0 <= line <= self.height,
                num_cleared <= line,
                clear_from(self@.settled, line as int, g0.width, g0.height).0 == target.0,
                clear_from(self@.settled, line as int, g0.width, g0.height).1 + num_cleared == target.1,
            decreases self.height - line,
        {
            if self.is_line_full(line) {
                num_cleared = num_cleared + 1;
                self.clear_line(line);
            }
            line = line + 1;
        }
        if num_cleared > 0 {
            let mut rest: Vec<Block> = Vec::new();
            std::mem::swap(&mut self.state, &mut rest);
            let ghost orig = models(rest@);
            let ghost n = orig.len();
            let mut kept: Vec<Block> = Vec::new();
            while rest.len() > 0
                invariant
                    n == orig.len(),
                    rest@.len() <= n,
                    models(rest@) == orig.skip(n - rest@.len()),
                    models(kept@) == drop_empty(orig.take(n - rest@.len())),
                decreases rest.len(),
            {
                let ghost d = n - rest@.len();
                let ghost r0 = rest@;
                let b = rest.remove(0);
                assert(models(r0)[0] == b.model());
                assert(orig.skip(d)[0] == orig[d]);
                assert(b.model() == orig[d]);
                assert(orig.take(d + 1).drop_last() =~= orig.take(d));
                if !b.is_fully_cleared() {
                    kept.push(b);
                }
                assert forall|j: int| 0 <= j < rest@.len() implies #[trigger] models(rest@)[j] == orig.skip(d + 1)[j] by {
                    assert(rest@[j] == r0[j + 1]);
                    assert(models(r0)[j + 1] == orig.skip(d)[j + 1]);
                }
                assert(models(rest@) =~= orig.skip(d + 1));
                assert(models(kept@) =~= drop_empty(orig.take(d + 1)));
            }
            assert(orig.take(n as int) =~= orig);
            self.state = kept;
        }
        assert(self@ =~= (GameState {
            settled: clear_full_rows(g0.settled, g0.width, g0.height).0,
            ..g0
        }));
        num_cleared
    }

    /// Up to `n` gravity steps: the block falls a row while it is free to, and
    /// settles at the first row where it is not; gives the rows cleared by that settle.
    fn drop_n(&mut self, n: i32) -> (r: Option<usize>)
        requires
            old(self).wf(),
            n >= 0,
        ensures
            final(self).wf(),
            final(self)@ == old(self)@.fall(n as nat).0,
            count_of(r) == old(self)@.fall(n as nat).1,
    {
        let mut i: i32 = 0;
        while i < n
            invariant
                self.wf(),
                0 <= i <= n,
                old(self)@.fall(n as nat) == self@.fall((n - i) as nat),
            decreases n - i,
        {
            proof {
                lemma_piece_ok_fits(self@.current, self@.width, self@.height);
            }
            let dropped_block = self.current_block.drop_one();
            if self.block_outside_bounds(&dropped_block) || self.block_collision(&dropped_block) {
                let ghost g = self@;
                if let Some(next_block) = self.block_generator.next() {
                    proof {
                        lemma_spawn_ok(next_block.model().shape, self@.width, self@.height);
                    }
                    let mut block_to_add = center_block(&next_block, self.width);
                    std::mem::swap(&mut self.current_block, &mut block_to_add);
                    self.state.push(block_to_add);
                    assert(self@ =~= (GameState { settled: g.settled.push(g.current), ..g.settle().0 }));
                    let num_cleared = self.clear_filled_lines();
                    proof {
                        lemma_cleared_nonempty(g.settled.push(g.current), g.width, g.height);
                    }
                    assert(self@ =~= g.settle().0);
                    return Some(num_cleared);
                }
            } else {
                proof {
                    lemma_translate_ok(self@.current, 0, 1, self@.width, self@.height);
                }
                self.current_block = dropped_block;
            }
            i = i + 1;
        }
        None
    }

    /// One gravity step; gives the rows cleared where the block settled.
    /// Once the game is over nothing changes.
    pub fn tick(&mut self) -> (r: Option<usize>)
        requires
            old(self).wf(),
        ensures
            final(self).wf(),
            final(self)@ == old(self)@.drop_steps(1).0,
            count_of(r) == old(self)@.drop_steps(1).1,
    {
        if self.block_collision(&self.current_block) {
            return None;
        }
        self.drop_n(1)
    }

    /// Drops the block until it settles, at most `height + 2` rows; gives the rows
    /// cleared by that settle. Once the game is over nothing changes.
    pub fn hard_drop(&mut self) -> (r: Option<usize>)
        requires
            old(self).wf(),
        ensures
            final(self).wf(),
            final(self)@ == old(self)@.drop_steps((old(self)@.height + 2) as nat).0,
            count_of(r) == old(self)@.drop_steps((old(self)@.height + 2) as nat).1,
    {
        if self.block_collision(&self.current_block) {
            return None;
        }
        self.drop_n(self.height + 2)
    }

    /// The falling block.
    pub fn current_block(&self) -> (r: &Block)
        ensures
            r.model() == self@.current,
    {
        &self.current_block
    }

    /// The block that the queue hands out next, as laid out before placement.
    pub fn peek_next_block(&self) -> (r: Option<Block>)
        requires
            self.wf(),
        ensures
            r is Some,
            r->0.model() == template(shape_at(self@.cursor)),
    {
        self.block_generator.peek_next()
    }

    /// The settled blocks.
    pub fn state_config(&self) -> (r: &Vec<Block>)
        ensures
            models(r@) == self@.settled,
    {
        &self.state
    }

    /// The boundary cells: both walls and the floor.
    pub fn boundary_config(&self) -> (r: Vec<Coord>)
        requires
            self.wf(),
        ensures
            forall|c: Coord| r@.contains(c) <==> is_wall(pos(c), self@.width, self@.height),
            r@.no_duplicates(),
            r@.len() == 2 * self@.height + self@.width + 2,
    {
        let ghost w = self@.width;
        let ghost h = self@.height;
        let mut cells: Vec<Coord> = Vec::new();
        let mut i: i32 = 0;
        while i <= self.height
            invariant
                self.wf(),
                w == self@.width,
                h == self@.height,
                0 <= i <= self.height + 1,
                cells@.len() == 2 * i,
                cells@.no_duplicates(),
                forall|k: int| 0 <= k < cells@.len() ==> (#[trigger] cells@[k]).1 < i,
                forall|k: int| 0 <= k < cells@.len() ==> (#[trigger] cells@[k]).0 == 0 || cells@[k].0 == w + 1,
                forall|k: int| 0 <= k < cells@.len() ==> is_wall(pos(#[trigger] cells@[k]), w, h),
                forall|y: int| 0 <= y < i ==> #[trigger] holds(cells@, 0, y),
                forall|y: int| 0 <= y < i ==> #[trigger] holds(cells@, w + 1, y),
            decreases self.height + 1 - i,
        {
            let ghost s0 = cells@;
            cells.push(Coord(0, i));
            cells.push(Coord(self.width + 1, i));
            proof {
                lemma_holds_push(s0, Coord(0, i));
                lemma_holds_push(s0.push(Coord(0, i)), Coord((self.width + 1) as i32, i));
                assert forall|a: int, b: int|
                    0 <= a < cells@.len() && 0 <= b < cells@.len() && a != b implies cells@[a] != cells@[b] by {
                    if a < s0.len() && b < s0.len() {
                        assert(cells@[a] == s0[a] && cells@[b] == s0[b]);
                    } else if a < s0.len() {
                        assert(cells@[a] == s0[a]);
                    } else if b < s0.len() {
                        assert(cells@[b] == s0[b]);
                    }
                }
            }
            i = i + 1;
        }
        let mut x: i32 = 1;
        while x <= self.width
            invariant
                self.wf(),
                w == self@.width,
                h == self@.height,
                1 <= x <= self.width + 1,
                cells@.len() == 2 * (h + 1) + x - 1,
                cells@.no_duplicates(),
                forall|k: int|
                    0 <= k < cells@.len() ==> (#[trigger] cells@[k]).0 == 0 || cells@[k].0 == w + 1 || cells@[k].0
                        < x,
                forall|k: int| 0 <= k < cells@.len() ==> is_wall(pos(#[trigger] cells@[k]), w, h),
                forall|y: int| 0 <= y <= h ==> #[trigger] holds(cells@, 0, y),
                forall|y: int| 0 <= y <= h ==> #[trigger] holds(cells@, w + 1, y),
                forall|xx: int| 1 <= xx < x ==> #[trigger] holds(cells@, xx, h),
            decreases self.width + 1 - x,
        {
            let ghost s0 = cells@;
            cells.push(Coord(x, self.height));
            proof {
                lemma_holds_push(s0, Coord(x, self.height));
                assert forall|a: int, b: int|
                    0 <= a < cells@.len() && 0 <= b < cells@.len() && a != b implies cells@[a] != cells@[b] by {
                    if a < s0.len() && b < s0.len() {
                        assert(cells@[a] == s0[a] && cells@[b] == s0[b]);
                    } else if a < s0.len() {
                        assert(cells@[a] == s0[a]);
                    } else if b < s0.len() {
                        assert(cells@[b] == s0[b]);
                    }
                }
            }
            x = x + 1;
        }
        proof {
            assert forall|c: Coord| #[trigger] cells@.contains(c) <==> is_wall(pos(c), w, h) by {
                if is_wall(pos(c), w, h) {
                    assert(holds(cells@, c.0 as int, c.1 as int));
                    let k = choose|k: int| 0 <= k < cells@.len() && pos(cells@[k]) == (c.0 as int, c.1 as int);
                    assert(cells@[k] == c);
                }
                if cells@.contains(c) {
                    let k = choose|k: int| 0 <= k < cells@.len() && cells@[k] == c;
                    assert(is_wall(pos(cells@[k]), w, h));
                }
            }
        }
        cells
    }

    /// `GameOver` once the falling block overlaps a settled one, else `Okay`.
    pub fn status(&self) -> (r: GameStatus)
        ensures
            r == (if self@.is_over() { GameStatus::GameOver } else { GameStatus::Okay }),
    {
        if self.block_collision(&self.current_block) {
            GameStatus::GameOver
        } else {
            GameStatus::Okay
        }
    }
}

} // verus!
