use vstd::prelude::*;

use crate::enums::{BlockID, RotateCmd, ShiftCmd};
use crate::model::{
    clear_all, clear_cells, clear_from, collides, drop_empty, dropped, leaves_field,
    lemma_translate_ok, occupied, outside_field, rotated, row_full, shape_at, shifted, spawn,
    template, translate, turn, GameState, Piece,
};

verus! {

/// The piece after `n` quarter turns in direction `dir`.
pub open spec fn turned(p: Piece, dir: RotateCmd, n: nat) -> Piece
    decreases n,
{
    if n == 0 {
        p
    } else {
        rotated(turned(p, dir, (n - 1) as nat), dir)
    }
}

/// A quarter turn keeps the number of cells and keeps them distinct.
pub proof fn lemma_rotated_distinct(p: Piece, dir: RotateCmd)
    requires
        p.cells.no_duplicates(),
    ensures
        rotated(p, dir).cells.len() == p.cells.len(),
        rotated(p, dir).cells.no_duplicates(),
        rotated(p, dir).pivot == p.pivot,
        rotated(p, dir).shape == p.shape,
{
    let q = rotated(p, dir);
    assert forall|i: int, j: int|
        0 <= i < q.cells.len() && 0 <= j < q.cells.len() && i != j implies q.cells[i] != q.cells[j] by {
        if p.shape != BlockID::O {
            assert(q.cells[i] == turn(p.cells[i], p.pivot, dir));
            assert(q.cells[j] == turn(p.cells[j], p.pivot, dir));
        }
    }
}

/// Every shape, in each of its rotation states, has exactly four distinct cells.
pub proof fn shape_has_four_distinct_cells(id: BlockID, dir: RotateCmd, n: nat)
    ensures
        turned(template(id), dir, n).cells.len() == 4,
        turned(template(id), dir, n).cells.no_duplicates(),
    decreases n,
{
    if n == 0 {
        let c = template(id).cells;
        assert(c.len() == 4);
        assert(c[0] != c[1] && c[0] != c[2] && c[0] != c[3] && c[1] != c[2] && c[1] != c[3] && c[2] != c[3]);
    } else {
        shape_has_four_distinct_cells(id, dir, (n - 1) as nat);
        lemma_rotated_distinct(turned(template(id), dir, (n - 1) as nat), dir);
    }
}

/// Four quarter turns to the right give the piece back, and a turn to the right
/// undone by a turn to the left gives it back at once.
pub proof fn rotation_closure(p: Piece)
    ensures
        turned(p, RotateCmd::Right, 4) == p,
        rotated(rotated(p, RotateCmd::Right), RotateCmd::Left) == p,
        rotated(rotated(p, RotateCmd::Left), RotateCmd::Right) == p,
{
    reveal_with_fuel(turned, 5);
    if p.shape != BlockID::O {
        assert(turned(p, RotateCmd::Right, 4).cells =~= p.cells);
        assert(rotated(rotated(p, RotateCmd::Right), RotateCmd::Left).cells =~= p.cells);
        assert(rotated(rotated(p, RotateCmd::Left), RotateCmd::Right).cells =~= p.cells);
    }
    assert(turned(p, RotateCmd::Right, 4) =~= p);
    assert(rotated(rotated(p, RotateCmd::Right), RotateCmd::Left) =~= p);
    assert(rotated(rotated(p, RotateCmd::Left), RotateCmd::Right) =~= p);
}

/// The square comes back unchanged from any number of turns in either direction.
pub proof fn square_turns_in_place(p: Piece, dir: RotateCmd, n: nat)
    requires
        p.shape == BlockID::O,
    ensures
        turned(p, dir, n) == p,
    decreases n,
{
    if n > 0 {
        square_turns_in_place(p, dir, (n - 1) as nat);
    }
}

/// One move of a piece.
pub enum PieceMove {
    Shift(ShiftCmd),
    Turn(RotateCmd),
    Drop,
}

/// The piece after the moves `ms`, first to last.
pub open spec fn apply_moves(p: Piece, ms: Seq<PieceMove>) -> Piece
    decreases ms.len(),
{
    if ms.len() == 0 {
        p
    } else {
        let q = apply_moves(p, ms.drop_last());
        match ms.last() {
            PieceMove::Shift(cmd) => shifted(q, cmd),
            PieceMove::Turn(dir) => rotated(q, dir),
            PieceMove::Drop => dropped(q),
        }
    }
}

/// Every shape keeps exactly four distinct cells through any sequence of shifts,
/// turns and drops.
pub proof fn moves_keep_four_distinct_cells(id: BlockID, ms: Seq<PieceMove>)
    ensures
        apply_moves(template(id), ms).cells.len() == 4,
        apply_moves(template(id), ms).cells.no_duplicates(),
    decreases ms.len(),
{
    if ms.len() == 0 {
        shape_has_four_distinct_cells(id, RotateCmd::Right, 0);
    } else {
        moves_keep_four_distinct_cells(id, ms.drop_last());
        let q = apply_moves(template(id), ms.drop_last());
        match ms.last() {
            PieceMove::Shift(cmd) => {
                let t = shifted(q, cmd);
                assert forall|i: int, j: int|
                    0 <= i < t.cells.len() && 0 <= j < t.cells.len() && i != j implies t.cells[i] != t.cells[j] by {
                    assert(q.cells[i] != q.cells[j]);
                }
            },
            PieceMove::Turn(dir) => {
                lemma_rotated_distinct(q, dir);
            },
            PieceMove::Drop => {
                let t = dropped(q);
                assert forall|i: int, j: int|
                    0 <= i < t.cells.len() && 0 <= j < t.cells.len() && i != j implies t.cells[i] != t.cells[j] by {
                    assert(q.cells[i] != q.cells[j]);
                }
            },
        }
    }
}

/// A falling piece with a cell in the leftmost column stays where it is when
/// shifted to the left, whatever the row of that cell.
pub proof fn left_wall_blocks_shift(g: GameState, k: int)
    requires
        0 <= k < g.current.cells.len(),
        g.current.cells[k].0 == 1,
    ensures
        g.shift(ShiftCmd::Left) == g,
{
    let q = shifted(g.current, ShiftCmd::Left);
    assert(outside_field(q.cells[k], g.width, g.height));
    assert(leaves_field(q, g.width, g.height));
}

/// The queue's cursor after `n` draws from position `c`, each draw moving it
/// on as `BlockGenerator::next` does.
pub open spec fn advanced(c: int, n: nat) -> int
    decreases n,
{
    if n == 0 {
        c
    } else {
        (advanced(c, (n - 1) as nat) + 1) % 7
    }
}

/// The shape handed out by the draw after `i` earlier ones from cursor position `c`.
pub open spec fn draw(c: int, i: nat) -> BlockID {
    shape_at(advanced(c, i))
}

proof fn lemma_advanced(c: int, n: nat)
    requires
        0 <= c < 7,
    ensures
        advanced(c, n) == (c + n) % 7,
    decreases n,
{
    if n > 0 {
        lemma_advanced(c, (n - 1) as nat);
    }
}

/// Any seven consecutive draws from the queue hand out each of the seven shapes
/// exactly once, leave the cursor where it started, and so repeat with period seven.
pub proof fn seven_draws_cover_each_shape(c: int, id: BlockID)
    requires
        0 <= c < 7,
    ensures
        exists|i: nat| i < 7 && draw(c, i) == id,
        forall|i: nat, j: nat| i < 7 && j < 7 && #[trigger] draw(c, i) == id && #[trigger] draw(c, j) == id ==> i == j,
        advanced(c, 7) == c,
        forall|i: nat| #[trigger] draw(c, i + 7) == draw(c, i),
{
    assert forall|i: nat| #[trigger] draw(c, i + 7) == draw(c, i) by {
        lemma_advanced(c, i);
        lemma_advanced(c, i + 7);
    }
    assert forall|i: nat| i < 7 implies #[trigger] advanced(c, i) == (c + i) % 7 by {
        lemma_advanced(c, i);
    }
    lemma_advanced(c, 7);
    let k: int = match id {
        BlockID::I => 0,
        BlockID::J => 1,
        BlockID::L => 2,
        BlockID::O => 3,
        BlockID::S => 4,
        BlockID::T => 5,
        BlockID::Z => 6,
    };
    let i: nat = (if k >= c { k - c } else { k + 7 - c }) as nat;
    assert(draw(c, i) == id);
}

/// Once the game is over no command changes it; right after a settle the game is
/// over exactly when the new piece overlaps the settled ones.
pub proof fn game_over_is_final(g: GameState, s: ShiftCmd, r: RotateCmd, n: nat)
    ensures
        g.is_over() ==> g.shift(s) == g,
        g.is_over() ==> g.rotate(r) == g,
        g.is_over() ==> g.drop_steps(n) == (g, None::<nat>),
        g.settle().0.is_over() == collides(g.settle().0.settled, spawn(shape_at(g.cursor), g.width)),
{
}


/// Where the falling piece comes to rest within `n` gravity steps: the state
/// just before it settles, or after the `n` steps if it has not.
pub open spec fn resting(g: GameState, n: nat) -> GameState
    decreases n,
{
    if n > 0 && g.legal(dropped(g.current)) {
        resting(g.with_current(dropped(g.current)), (n - 1) as nat)
    } else {
        g
    }
}

/// Gravity moves the piece only onto free cells: in a game that goes on, where
/// the piece rests it touches neither a wall nor a settled piece, and a settle
/// merges exactly that piece.
pub proof fn gravity_tests_before_commit(g: GameState, n: nat)
    requires
        g.wf(),
        !g.is_over(),
    ensures
        resting(g, n).legal(resting(g, n).current),
        resting(g, n).settled == g.settled,
        g.fall(n).1 is None ==> g.fall(n).0 == resting(g, n),
        g.fall(n).1 is Some ==> g.fall(n) == (resting(g, n).settle().0, Some(resting(g, n).settle().1)),
    decreases n,
{
    if n > 0 && g.legal(dropped(g.current)) {
        lemma_translate_ok(g.current, 0, 1, g.width, g.height);
        gravity_tests_before_commit(g.with_current(dropped(g.current)), (n - 1) as nat);
    }
}

/// From a game that goes on, a hard drop settles the piece: within
/// `height + 2` gravity steps it meets the floor or a settled piece.
pub proof fn hard_drop_settles_once(g: GameState)
    requires
        g.wf(),
        !g.is_over(),
    ensures
        g.drop_steps((g.height + 2) as nat).1 is Some,
{
    lemma_fall_settles(g, (g.height + 2) as nat);
}

proof fn lemma_fall_settles(g: GameState, n: nat)
    requires
        g.wf(),
        n > g.height - 1 - g.current.pivot.1,
    ensures
        g.fall(n).1 is Some,
    decreases n,
{
    if g.legal(dropped(g.current)) {
        lemma_translate_ok(g.current, 0, 1, g.width, g.height);
        lemma_fall_settles(g.with_current(dropped(g.current)), (n - 1) as nat);
    }
}

proof fn lemma_push_contains(s: Seq<(int, int)>, x: (int, int), y: (int, int))
    ensures
        s.push(x).contains(y) <==> s.contains(y) || x == y,
{
    if s.contains(y) {
        let k = choose|k: int| 0 <= k < s.len() && s[k] == y;
        assert(s.push(x)[k] == y);
    }
    if x == y {
        assert(s.push(x)[s.len() as int] == y);
    }
}

/// Clearing `row`: its cells are gone, every cell above it (a smaller row
/// index) comes down exactly one row, and the cells below it stay in place.
pub proof fn clear_row_moves_cells(cells: Seq<(int, int)>, row: int)
    ensures
        forall|c: (int, int)|
            #[trigger] clear_cells(cells, row).contains(c) <==> if c.1 > row {
                cells.contains(c)
            } else {
                cells.contains((c.0, c.1 - 1))
            },
    decreases cells.len(),
{
    if cells.len() > 0 {
        let rest = cells.drop_last();
        let last = cells.last();
        clear_row_moves_cells(rest, row);
        assert(cells =~= rest.push(last));
        assert forall|c: (int, int)|
            #[trigger] clear_cells(cells, row).contains(c) <==> if c.1 > row {
                cells.contains(c)
            } else {
                cells.contains((c.0, c.1 - 1))
            } by {
            let r0 = clear_cells(rest, row);
            assert(clear_cells(cells, row) == if last.1 == row {
                r0
            } else if last.1 < row {
                r0.push((last.0, last.1 + 1))
            } else {
                r0.push(last)
            });
            assert(r0.contains(c) <==> if c.1 > row {
                rest.contains(c)
            } else {
                rest.contains((c.0, c.1 - 1))
            });
            lemma_push_contains(rest, last, c);
            lemma_push_contains(rest, last, (c.0, c.1 - 1));
            if last.1 < row {
                lemma_push_contains(clear_cells(rest, row), (last.0, last.1 + 1), c);
            } else if last.1 > row {
                lemma_push_contains(clear_cells(rest, row), last, c);
            }
        }
    }
}

/// Rows below a cleared row keep their occupancy.
proof fn lemma_rows_below_kept(s: Seq<Piece>, row: int, c: (int, int))
    requires
        c.1 > row,
    ensures
        occupied(clear_all(s, row), c) == occupied(s, c),
{
    if occupied(s, c) {
        let i = choose|i: int| 0 <= i < s.len() && #[trigger] s[i].cells.contains(c);
        clear_row_moves_cells(s[i].cells, row);
        assert(clear_all(s, row)[i].cells.contains(c));
    }
    if occupied(clear_all(s, row), c) {
        let i = choose|i: int| 0 <= i < s.len() && #[trigger] clear_all(s, row)[i].cells.contains(c);
        clear_row_moves_cells(s[i].cells, row);
        assert(s[i].cells.contains(c));
    }
}

/// Rows at or above a cleared row take the occupancy of the row above them.
proof fn lemma_rows_above_lowered(s: Seq<Piece>, row: int, c: (int, int))
    requires
        c.1 <= row,
    ensures
        occupied(clear_all(s, row), c) == occupied(s, (c.0, c.1 - 1)),
{
    let up = (c.0, c.1 - 1);
    if occupied(s, up) {
        let i = choose|i: int| 0 <= i < s.len() && #[trigger] s[i].cells.contains(up);
        clear_row_moves_cells(s[i].cells, row);
        assert(clear_all(s, row)[i].cells.contains(c));
    }
    if occupied(clear_all(s, row), c) {
        let i = choose|i: int| 0 <= i < s.len() && #[trigger] clear_all(s, row)[i].cells.contains(c);
        clear_row_moves_cells(s[i].cells, row);
        assert(s[i].cells.contains(up));
    }
}

proof fn lemma_row_full_below_kept(s: Seq<Piece>, row: int, line: int, width: int)
    requires
        line > row,
    ensures
        row_full(clear_all(s, row), line, width) == row_full(s, line, width),
{
    if row_full(s, line, width) {
        assert forall|x: int| 1 <= x <= width implies #[trigger] occupied(clear_all(s, row), (x, line)) by {
            lemma_rows_below_kept(s, row, (x, line));
        }
    }
    if row_full(clear_all(s, row), line, width) {
        assert forall|x: int| 1 <= x <= width implies #[trigger] occupied(s, (x, line)) by {
            lemma_rows_below_kept(s, row, (x, line));
            assert(occupied(clear_all(s, row), (x, line)));
        }
    }
}

/// Number of full rows from `line` down to the floor.
pub open spec fn full_rows(s: Seq<Piece>, line: int, width: int, height: int) -> nat
    decreases height - line,
{
    if line >= height {
        0
    } else {
        (if row_full(s, line, width) { 1nat } else { 0nat }) + full_rows(s, line + 1, width, height)
    }
}

proof fn lemma_full_rows_below_kept(s: Seq<Piece>, row: int, line: int, width: int, height: int)
    requires
        line > row,
    ensures
        full_rows(clear_all(s, row), line, width, height) == full_rows(s, line, width, height),
    decreases height - line,
{
    if line < height {
        lemma_row_full_below_kept(s, row, line, width);
        lemma_full_rows_below_kept(s, row, line + 1, width, height);
    }
}

proof fn lemma_clear_from_count(s: Seq<Piece>, line: int, width: int, height: int)
    ensures
        clear_from(s, line, width, height).1 == full_rows(s, line, width, height),
    decreases height - line,
{
    if line < height {
        if row_full(s, line, width) {
            lemma_clear_from_count(clear_all(s, line), line + 1, width, height);
            lemma_full_rows_below_kept(s, line, line + 1, width, height);
        } else {
            lemma_clear_from_count(s, line + 1, width, height);
        }
    }
}

/// However many rows a settle completes, one pass clears all of them and
/// reports exactly that number.
pub proof fn settle_clears_every_full_row(g: GameState)
    ensures
        g.settle().1 == full_rows(g.settled.push(g.current), 0, g.width, g.height),
{
    lemma_clear_from_count(g.settled.push(g.current), 0, g.width, g.height);
}

proof fn lemma_clear_from_skip(s: Seq<Piece>, line: int, width: int, height: int)
    requires
        forall|l: int| line <= l < height ==> !#[trigger] row_full(s, l, width),
    ensures
        clear_from(s, line, width, height) == (s, 0nat),
    decreases height - line,
{
    if line < height {
        lemma_clear_from_skip(s, line + 1, width, height);
    }
}

proof fn lemma_clear_from_to(s: Seq<Piece>, line: int, row: int, width: int, height: int)
    requires
        line <= row,
        forall|l: int| line <= l < row ==> !#[trigger] row_full(s, l, width),
    ensures
        clear_from(s, line, width, height) == clear_from(s, row, width, height),
    decreases row - line,
{
    if line < row {
        lemma_clear_from_to(s, line + 1, row, width, height);
    }
}

/// A settle that completes exactly one row, `r`, reports one cleared row and
/// leaves the pieces with `r` cleared from each of them (see
/// `clear_row_moves_cells` for where every cell goes).
pub proof fn settle_clears_single_row(g: GameState, r: int)
    requires
        0 <= r < g.height,
        row_full(g.settled.push(g.current), r, g.width),
        forall|l: int|
            0 <= l < g.height && l != r ==> !#[trigger] row_full(g.settled.push(g.current), l, g.width),
    ensures
        g.settle().1 == 1,
        g.settle().0.settled == drop_empty(clear_all(g.settled.push(g.current), r)),
{
    let m = g.settled.push(g.current);
    lemma_clear_from_to(m, 0, r, g.width, g.height);
    assert forall|l: int| r + 1 <= l < g.height implies !#[trigger] row_full(clear_all(m, r), l, g.width) by {
        lemma_row_full_below_kept(m, r, l, g.width);
    }
    lemma_clear_from_skip(clear_all(m, r), r + 1, g.width, g.height);
}


/// How many rows a cell of row `y` comes down while the rows from `line` to the
/// floor are scanned: one for each full row below it.
pub open spec fn shift_of(s: Seq<Piece>, y: int, line: int, width: int, height: int) -> nat
    decreases height - line,
{
    if line >= height {
        0
    } else {
        (if row_full(s, line, width) && line > y { 1nat } else { 0nat }) + shift_of(
            s,
            y,
            line + 1,
            width,
            height,
        )
    }
}

/// Cell `c` after the scan from `line`: it comes from a cell `(c.0, y)` outside
/// the full rows, lowered by the number of full rows below it.
pub open spec fn compacted(s: Seq<Piece>, c: (int, int), line: int, width: int, height: int) -> bool {
    exists|y: int|
        #[trigger] occupied(s, (c.0, y)) && !(line <= y < height && row_full(s, y, width)) && c.1 == y
            + shift_of(s, y, line, width, height)
}

proof fn lemma_shift_below_kept(s: Seq<Piece>, row: int, y: int, line: int, width: int, height: int)
    requires
        line > row,
    ensures
        shift_of(clear_all(s, row), y, line, width, height) == shift_of(s, y, line, width, height),
    decreases height - line,
{
    if line < height {
        lemma_row_full_below_kept(s, row, line, width);
        lemma_shift_below_kept(s, row, y, line + 1, width, height);
    }
}

proof fn lemma_shift_all(s: Seq<Piece>, y: int, line: int, width: int, height: int)
    requires
        y < line,
    ensures
        shift_of(s, y, line, width, height) == full_rows(s, line, width, height),
    decreases height - line,
{
    if line < height {
        lemma_shift_all(s, y, line + 1, width, height);
    }
}

proof fn lemma_clear_from_cells(s: Seq<Piece>, line: int, width: int, height: int)
    ensures
        forall|c: (int, int)|
            #[trigger] occupied(clear_from(s, line, width, height).0, c) <==> compacted(
                s,
                c,
                line,
                width,
                height,
            ),
    decreases height - line,
{
    if line >= height {
        assert forall|c: (int, int)|
            #[trigger] occupied(clear_from(s, line, width, height).0, c) <==> compacted(
                s,
                c,
                line,
                width,
                height,
            ) by {
            if occupied(s, c) {
                assert(occupied(s, (c.0, c.1)));
            }
            if compacted(s, c, line, width, height) {
                let y = choose|y: int|
                    #[trigger] occupied(s, (c.0, y)) && !(line <= y < height && row_full(s, y, width))
                        && c.1 == y + shift_of(s, y, line, width, height);
                assert(c == (c.0, y));
            }
        }
    } else if !row_full(s, line, width) {
        lemma_clear_from_cells(s, line + 1, width, height);
        assert(clear_from(s, line, width, height).0 == clear_from(s, line + 1, width, height).0);
        assert forall|c: (int, int)|
            #[trigger] occupied(clear_from(s, line, width, height).0, c) <==> compacted(
                s,
                c,
                line,
                width,
                height,
            ) by {
            assert(occupied(clear_from(s, line + 1, width, height).0, c) <==> compacted(
                s,
                c,
                line + 1,
                width,
                height,
            ));
            if compacted(s, c, line, width, height) {
                let y = choose|y: int|
                    #[trigger] occupied(s, (c.0, y)) && !(line <= y < height && row_full(s, y, width))
                        && c.1 == y + shift_of(s, y, line, width, height);
                assert(shift_of(s, y, line, width, height) == shift_of(s, y, line + 1, width, height));
                assert(occupied(s, (c.0, y)));
                assert(compacted(s, c, line + 1, width, height));
            }
            if compacted(s, c, line + 1, width, height) {
                let y = choose|y: int|
                    #[trigger] occupied(s, (c.0, y)) && !(line + 1 <= y < height && row_full(s, y, width))
                        && c.1 == y + shift_of(s, y, line + 1, width, height);
                assert(shift_of(s, y, line, width, height) == shift_of(s, y, line + 1, width, height));
                assert(occupied(s, (c.0, y)));
                assert(compacted(s, c, line, width, height));
            }
        }
    } else {
        let s1 = clear_all(s, line);
        lemma_clear_from_cells(s1, line + 1, width, height);
        assert(clear_from(s, line, width, height).0 == clear_from(s1, line + 1, width, height).0);
        assert forall|c: (int, int)|
            #[trigger] occupied(clear_from(s, line, width, height).0, c) <==> compacted(
                s,
                c,
                line,
                width,
                height,
            ) by {
            assert(occupied(clear_from(s1, line + 1, width, height).0, c) <==> compacted(
                s1,
                c,
                line + 1,
                width,
                height,
            ));
            if compacted(s1, c, line + 1, width, height) {
                let y1 = choose|y1: int|
                    #[trigger] occupied(s1, (c.0, y1)) && !(line + 1 <= y1 < height && row_full(s1, y1, width))
                        && c.1 == y1 + shift_of(s1, y1, line + 1, width, height);
                lemma_shift_below_kept(s, line, y1, line + 1, width, height);
                if y1 > line {
                    lemma_rows_below_kept(s, line, (c.0, y1));
                    lemma_row_full_below_kept(s, line, y1, width);
                    assert(shift_of(s, y1, line, width, height) == shift_of(s, y1, line + 1, width, height));
                    assert(occupied(s, (c.0, y1)));
                    assert(compacted(s, c, line, width, height));
                } else {
                    let y = y1 - 1;
                    lemma_rows_above_lowered(s, line, (c.0, y1));
                    lemma_shift_all(s, y, line + 1, width, height);
                    lemma_shift_all(s, y1, line + 1, width, height);
                    assert(shift_of(s, y, line, width, height) == 1 + shift_of(s, y, line + 1, width, height));
                    assert(occupied(s, (c.0, y)));
                    assert(compacted(s, c, line, width, height));
                }
            }
            if compacted(s, c, line, width, height) {
                let y = choose|y: int|
                    #[trigger] occupied(s, (c.0, y)) && !(line <= y < height && row_full(s, y, width))
                        && c.1 == y + shift_of(s, y, line, width, height);
                if y > line {
                    lemma_rows_below_kept(s, line, (c.0, y));
                    lemma_row_full_below_kept(s, line, y, width);
                    lemma_shift_below_kept(s, line, y, line + 1, width, height);
                    assert(shift_of(s, y, line, width, height) == shift_of(s, y, line + 1, width, height));
                    assert(occupied(s1, (c.0, y)));
                    assert(compacted(s1, c, line + 1, width, height));
                } else {
                    let y1 = y + 1;
                    lemma_rows_above_lowered(s, line, (c.0, y1));
                    lemma_shift_below_kept(s, line, y1, line + 1, width, height);
                    lemma_shift_all(s, y, line + 1, width, height);
                    lemma_shift_all(s, y1, line + 1, width, height);
                    assert(shift_of(s, y, line, width, height) == 1 + shift_of(s, y, line + 1, width, height));
                    assert(occupied(s1, (c.0, y1)));
                    assert(compacted(s1, c, line + 1, width, height));
                }
            }
        }
    }
}

proof fn lemma_drop_empty_occupied(s: Seq<Piece>, c: (int, int))
    ensures
        occupied(drop_empty(s), c) == occupied(s, c),
    decreases s.len(),
{
    if s.len() > 0 {
        let rest = s.drop_last();
        lemma_drop_empty_occupied(rest, c);
        let d = drop_empty(rest);
        if occupied(s, c) {
            let i = choose|i: int| 0 <= i < s.len() && #[trigger] s[i].cells.contains(c);
            if i < s.len() - 1 {
                assert(rest[i] == s[i]);
                assert(occupied(rest, c));
                let j = choose|j: int| 0 <= j < d.len() && #[trigger] d[j].cells.contains(c);
                if s.last().cells.len() != 0 {
                    assert(drop_empty(s)[j] == d[j]);
                }
            } else {
                assert(s.last().cells.len() != 0);
                assert(drop_empty(s)[d.len() as int] == s.last());
            }
        }
        if occupied(drop_empty(s), c) {
            let j = choose|j: int| 0 <= j < drop_empty(s).len() && #[trigger] drop_empty(s)[j].cells.contains(c);
            if j < d.len() {
                assert(drop_empty(s)[j] == d[j]);
                assert(occupied(d, c));
                let i = choose|i: int| 0 <= i < rest.len() && #[trigger] rest[i].cells.contains(c);
                assert(s[i] == rest[i]);
            } else {
                assert(drop_empty(s)[j] == s.last());
                assert(s[s.len() - 1] == s.last());
            }
        }
    }
}

/// However many rows a settle completes, one pass removes them all: a cell
/// stays on the board exactly when it comes from a cell of the merged board
/// outside the full rows, lowered by the number of full rows below it.
pub proof fn settle_compacts_in_one_pass(g: GameState, c: (int, int))
    ensures
        occupied(g.settle().0.settled, c) == compacted(g.settled.push(g.current), c, 0, g.width, g.height),
{
    let m = g.settled.push(g.current);
    lemma_clear_from_cells(m, 0, g.width, g.height);
    lemma_drop_empty_occupied(clear_from(m, 0, g.width, g.height).0, c);
}


proof fn lemma_rest_on_empty_board(g: GameState, n: nat)
    requires
        g.wf(),
        g.settled.len() == 0,
        n > g.height - 1 - g.current.pivot.1,
    ensures
        exists|d: int| d >= 0 && resting(g, n).current == #[trigger] translate(g.current, 0, d),
        exists|k: int|
            0 <= k < resting(g, n).current.cells.len() && (#[trigger] resting(g, n).current.cells[k]).1
                == g.height - 1,
    decreases n,
{
    if g.legal(dropped(g.current)) {
        let g1 = g.with_current(dropped(g.current));
        lemma_translate_ok(g.current, 0, 1, g.width, g.height);
        lemma_rest_on_empty_board(g1, (n - 1) as nat);
        let d1 = choose|d: int| d >= 0 && resting(g1, (n - 1) as nat).current == #[trigger] translate(g1.current, 0, d);
        assert(translate(g1.current, 0, d1) =~= translate(g.current, 0, d1 + 1));
    } else {
        assert(translate(g.current, 0, 0) =~= g.current);
        assert(!collides(g.settled, dropped(g.current)));
        assert(leaves_field(dropped(g.current), g.width, g.height));
        let k = choose|k: int|
            0 <= k < dropped(g.current).cells.len() && outside_field(
                #[trigger] dropped(g.current).cells[k],
                g.width,
                g.height,
            );
        assert(!outside_field(g.current.cells[k], g.width, g.height));
    }
}

/// On an empty board a hard drop settles the piece exactly once, moved straight
/// down until its lowest cell stands on the bottom row.
pub proof fn hard_drop_lands_on_floor(g: GameState)
    requires
        g.wf(),
        g.settled.len() == 0,
    ensures
        g.drop_steps((g.height + 2) as nat).1 is Some,
        g.drop_steps((g.height + 2) as nat).0 == resting(g, (g.height + 2) as nat).settle().0,
        exists|d: int|
            d >= 0 && resting(g, (g.height + 2) as nat).current == #[trigger] translate(g.current, 0, d),
        exists|k: int|
            0 <= k < resting(g, (g.height + 2) as nat).current.cells.len() && (#[trigger] resting(
                g,
                (g.height + 2) as nat,
            ).current.cells[k]).1 == g.height - 1,
{
    assert(!g.is_over());
    hard_drop_settles_once(g);
    gravity_tests_before_commit(g, (g.height + 2) as nat);
    lemma_rest_on_empty_board(g, (g.height + 2) as nat);
}

} // verus!
