use vstd::prelude::*;

verus! {

/// Points for clearing `n` rows with one settle.
pub open spec fn score_for(n: int) -> int {
    if n == 1 {
        1
    } else if n == 2 {
        3
    } else if n == 3 {
        7
    } else if n == 4 {
        13
    } else {
        0
    }
}

/// How much the score grows when `x` rows are cleared at once.
pub fn rule_score(x: usize) -> (r: usize)
    ensures
        r == score_for(x as int),
{
    match x {
        1 => 1,
        2 => 3,
        3 => 7,
        4 => 13,
        _ => 0,
    }
}

/// The cursor position that follows `x` in the cyclic order of the seven shapes.
pub fn rule_nextblock(x: usize) -> (r: usize)
    ensures
        r == (x + 1) % 7,
{
    if x < 7 {
        (x + 1) % 7
    } else {
        ((x % 7) + 1) % 7
    }
}

/// Line `i` of a four-line block whose lowest line stands at `idx`: `lines[i - idx]`
/// where `i` falls among the block's lines, else an empty line.
pub fn rule_line_at_index(idx: usize, lines: &Vec<u16>, i: usize) -> (r: u16)
    requires
        idx <= i < idx + 4 ==> i - idx < lines@.len(),
    ensures
        r == (if idx <= i < idx + 4 { lines@[i - idx] } else { 0 }),
{
    if i >= idx && i - idx < 4 {
        lines[i - idx]
    } else {
        0
    }
}

} // verus!
