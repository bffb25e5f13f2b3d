use tetris::block::{Block, BlockGenerator};
use tetris::coord::Coord;
use tetris::enums::{BlockID, GameStatus, RotateCmd, ShiftCmd};
use tetris::rules::{rule_line_at_index, rule_nextblock, rule_score};
use tetris::scoreboard::Scoreboard;
use tetris::tetris::Tetris;
use tetris::timer::TickTimer;

const ALL: [BlockID; 7] = [
    BlockID::I,
    BlockID::J,
    BlockID::L,
    BlockID::O,
    BlockID::S,
    BlockID::T,
    BlockID::Z,
];

fn cells(b: &Block) -> Vec<(i32, i32)> {
    let mut v: Vec<(i32, i32)> = b.config().iter().map(|c| (c.0, c.1)).collect();
    v.sort();
    v
}

fn settled_cells(g: &Tetris) -> Vec<(i32, i32)> {
    let mut v: Vec<(i32, i32)> = Vec::new();
    for b in g.state_config() {
        v.extend(cells(b));
    }
    v.sort();
    v
}

#[test]
fn every_rotation_state_has_four_distinct_cells() {
    for id in ALL {
        for dir in [RotateCmd::Left, RotateCmd::Right] {
            let mut b = Block::new(id);
            for _ in 0..4 {
                let mut c = cells(&b);
                assert_eq!(c.len(), 4);
                c.dedup();
                assert_eq!(c.len(), 4);
                b = b.rotated_version(&dir);
            }
        }
    }
}

#[test]
fn four_right_turns_restore_the_piece() {
    for id in ALL {
        let b = Block::new(id);
        let mut r = Block::new(id);
        for _ in 0..4 {
            r = r.rotated_version(&RotateCmd::Right);
        }
        assert_eq!(cells(&r), cells(&b));
    }
}

#[test]
fn right_then_left_turn_restores_the_piece() {
    for id in ALL {
        let b = Block::new(id);
        let r = b.rotated_version(&RotateCmd::Right).rotated_version(&RotateCmd::Left);
        assert_eq!(cells(&r), cells(&b));
    }
}

#[test]
fn right_turn_of_t_follows_the_pivot_formula() {
    let t = Block::new(BlockID::T);
    let r = t.rotated_version(&RotateCmd::Right);
    // pivot (1, 0): (dx, dy) goes to (dy, -dx)
    assert_eq!(cells(&r), vec![(0, 0), (1, -1), (1, 0), (1, 1)]);
    let l = t.rotated_version(&RotateCmd::Left);
    assert_eq!(cells(&l), vec![(1, -1), (1, 0), (1, 1), (2, 0)]);
}

#[test]
fn square_rotation_is_a_no_op() {
    let o = Block::new(BlockID::O);
    let mut r = Block::new(BlockID::O);
    for dir in [RotateCmd::Left, RotateCmd::Right, RotateCmd::Right, RotateCmd::Left, RotateCmd::Right] {
        r = r.rotated_version(&dir);
        assert_eq!(cells(&r), cells(&o));
    }
}

#[test]
fn shift_and_drop_translate_every_cell() {
    let j = Block::new(BlockID::J);
    assert_eq!(cells(&j.shifted_version(&ShiftCmd::Left)), vec![(-1, -1), (-1, 0), (0, 0), (1, 0)]);
    assert_eq!(cells(&j.shifted_version(&ShiftCmd::Right)), vec![(1, -1), (1, 0), (2, 0), (3, 0)]);
    assert_eq!(cells(&j.drop_one()), vec![(0, 0), (0, 1), (1, 1), (2, 1)]);
    assert_eq!(cells(&j.add(Coord(3, 5))), vec![(3, 4), (3, 5), (4, 5), (5, 5)]);
}

#[test]
fn block_width_spans_its_columns() {
    assert_eq!(Block::new(BlockID::I).width(), 4);
    assert_eq!(Block::new(BlockID::J).width(), 3);
    assert_eq!(Block::new(BlockID::O).width(), 2);
    assert_eq!(Block::new(BlockID::Z).width(), 3);
    assert_eq!(Block::new(BlockID::I).rotated_version(&RotateCmd::Right).width(), 1);
}

#[test]
fn clear_line_removes_the_row_and_lowers_the_rows_above() {
    let mut b = Block::new(BlockID::J).add(Coord(0, 5));
    // cells (0,4), (0,5), (1,5), (2,5)
    b.clear_line(5);
    assert_eq!(cells(&b), vec![(0, 5)]);
    assert!(!b.is_fully_cleared());
    b.clear_line(3);
    assert_eq!(cells(&b), vec![(0, 5)]);
    b.clear_line(5);
    assert!(b.is_fully_cleared());
}

#[test]
fn blocks_collide_only_when_they_share_a_cell() {
    let a = Block::new(BlockID::O);
    assert!(a.is_collision(&Block::new(BlockID::I)));
    assert!(!a.is_collision(&Block::new(BlockID::I).drop_one()));
    assert_eq!(*a.id(), BlockID::O);
}

#[test]
fn queue_hands_out_each_shape_once_per_seven_draws() {
    let mut gen = BlockGenerator::new();
    for _round in 0..3 {
        let mut seen: Vec<BlockID> = Vec::new();
        for _ in 0..7 {
            let peeked = gen.peek_next().unwrap();
            let b = gen.next().unwrap();
            assert_eq!(*peeked.id(), *b.id());
            assert!(!seen.contains(b.id()));
            seen.push(*b.id());
        }
        assert_eq!(seen, ALL.to_vec());
    }
}

#[test]
fn new_game_spawns_centred_first_shape() {
    let g = Tetris::new(10, 20);
    assert_eq!(*g.current_block().id(), BlockID::I);
    assert_eq!(cells(g.current_block()), vec![(4, 0), (5, 0), (6, 0), (7, 0)]);
    assert_eq!(*g.peek_next_block().unwrap().id(), BlockID::J);
    assert_eq!(g.status(), GameStatus::Okay);
    assert!(g.state_config().is_empty());
}

#[test]
fn shift_against_left_wall_leaves_piece_unchanged() {
    let mut g = Tetris::new(10, 20);
    for _ in 0..3 {
        g.shift_block_if_feasible(&ShiftCmd::Left);
    }
    let before = cells(g.current_block());
    assert_eq!(before, vec![(1, 0), (2, 0), (3, 0), (4, 0)]);
    g.shift_block_if_feasible(&ShiftCmd::Left);
    assert_eq!(cells(g.current_block()), before);
}

#[test]
fn shift_against_right_wall_leaves_piece_unchanged() {
    let mut g = Tetris::new(10, 20);
    for _ in 0..10 {
        g.shift_block_if_feasible(&ShiftCmd::Right);
    }
    assert_eq!(cells(g.current_block()), vec![(7, 0), (8, 0), (9, 0), (10, 0)]);
}

#[test]
fn rotation_into_the_wall_is_rejected() {
    let mut g = Tetris::new(10, 20);
    g.rotate_block_if_feasible(&RotateCmd::Right);
    // the I piece stands upright in column 5
    assert_eq!(cells(g.current_block()), vec![(5, -2), (5, -1), (5, 0), (5, 1)]);
    for _ in 0..6 {
        g.shift_block_if_feasible(&ShiftCmd::Left);
    }
    assert_eq!(cells(g.current_block()), vec![(1, -2), (1, -1), (1, 0), (1, 1)]);
    // turning back would put cells in columns 0 and -1
    g.rotate_block_if_feasible(&RotateCmd::Left);
    assert_eq!(cells(g.current_block()), vec![(1, -2), (1, -1), (1, 0), (1, 1)]);
}

#[test]
fn tick_moves_the_piece_one_row_down() {
    let mut g = Tetris::new(10, 20);
    assert_eq!(g.tick(), None);
    assert_eq!(cells(g.current_block()), vec![(4, 1), (5, 1), (6, 1), (7, 1)]);
}

#[test]
fn ticks_settle_the_piece_at_the_floor() {
    let mut g = Tetris::new(10, 20);
    for _ in 0..19 {
        assert_eq!(g.tick(), None);
    }
    assert_eq!(g.tick(), Some(0));
    assert_eq!(settled_cells(&g), vec![(4, 19), (5, 19), (6, 19), (7, 19)]);
    assert_eq!(*g.current_block().id(), BlockID::J);
}

#[test]
fn hard_drop_on_empty_board_settles_exactly_once() {
    let mut g = Tetris::new(10, 20);
    assert_eq!(g.hard_drop(), Some(0));
    assert_eq!(g.state_config().len(), 1);
    assert_eq!(settled_cells(&g), vec![(4, 19), (5, 19), (6, 19), (7, 19)]);
    assert_eq!(*g.current_block().id(), BlockID::J);
    assert_eq!(cells(g.current_block()), vec![(4, -1), (4, 0), (5, 0), (6, 0)]);
    assert_eq!(g.status(), GameStatus::Okay);
}

#[test]
fn square_hard_drop_lands_centred_on_the_floor() {
    let mut g = Tetris::new(10, 20);
    for _ in 0..3 {
        g.shift_block_if_feasible(&ShiftCmd::Left);
    }
    assert_eq!(g.hard_drop(), Some(0));
    for _ in 0..4 {
        g.shift_block_if_feasible(&ShiftCmd::Right);
    }
    assert_eq!(g.hard_drop(), Some(0));
    for _ in 0..4 {
        g.shift_block_if_feasible(&ShiftCmd::Right);
    }
    assert_eq!(g.hard_drop(), Some(0));
    assert_eq!(*g.current_block().id(), BlockID::O);
    assert_eq!(cells(g.current_block()), vec![(5, -1), (5, 0), (6, -1), (6, 0)]);
    assert_eq!(g.hard_drop(), Some(0));
    let last = g.state_config().last().unwrap();
    assert_eq!(*last.id(), BlockID::O);
    // columns 4 and 5 counted from zero, the two bottom rows
    assert_eq!(cells(last), vec![(5, 18), (5, 19), (6, 18), (6, 19)]);
    assert_eq!(g.status(), GameStatus::Okay);
    assert_eq!(*g.current_block().id(), BlockID::S);
}

#[test]
fn settle_completing_one_row_clears_it() {
    let mut g = Tetris::new(4, 8);
    assert_eq!(g.hard_drop(), Some(1));
    assert!(g.state_config().is_empty());
}

fn play(g: &mut Tetris, turns: usize, shift: i32) -> Option<usize> {
    for _ in 0..turns {
        g.rotate_block_if_feasible(&RotateCmd::Right);
    }
    for _ in 0..shift.abs() {
        g.shift_block_if_feasible(if shift < 0 { &ShiftCmd::Left } else { &ShiftCmd::Right });
    }
    g.hard_drop()
}

#[test]
fn settle_completing_two_rows_clears_both_at_once() {
    let mut g = Tetris::new(4, 8);
    assert_eq!(play(&mut g, 1, -3), Some(0));
    assert_eq!(settled_cells(&g), vec![(1, 4), (1, 5), (1, 6), (1, 7)]);
    assert_eq!(play(&mut g, 1, 1), Some(0));
    assert_eq!(play(&mut g, 1, 0), Some(0));
    assert_eq!(
        settled_cells(&g),
        vec![(1, 3), (1, 4), (1, 5), (1, 6), (1, 7), (2, 3), (2, 4), (2, 5), (2, 7), (3, 5), (3, 6), (3, 7)]
    );
    assert_eq!(play(&mut g, 0, 1), Some(2));
    // rows 4 and 6 were full: row 5 comes down to 6, row 3 to 5, row 7 stays
    assert_eq!(
        settled_cells(&g),
        vec![(1, 5), (1, 6), (1, 7), (2, 5), (2, 7), (3, 5), (3, 6), (3, 7)]
    );
}

#[test]
fn game_over_when_spawn_cells_are_taken_and_play_stops() {
    let mut g = Tetris::new(4, 4);
    assert_eq!(g.hard_drop(), Some(1));
    assert_eq!(g.hard_drop(), Some(0));
    assert_eq!(g.status(), GameStatus::Okay);
    assert_eq!(g.hard_drop(), Some(0));
    assert_eq!(g.status(), GameStatus::GameOver);
    let piece = cells(g.current_block());
    let board = settled_cells(&g);
    g.shift_block_if_feasible(&ShiftCmd::Left);
    g.shift_block_if_feasible(&ShiftCmd::Right);
    g.rotate_block_if_feasible(&RotateCmd::Left);
    assert_eq!(g.tick(), None);
    assert_eq!(g.hard_drop(), None);
    assert_eq!(cells(g.current_block()), piece);
    assert_eq!(settled_cells(&g), board);
    assert_eq!(g.status(), GameStatus::GameOver);
}

#[test]
fn boundary_holds_both_walls_and_the_floor() {
    let g = Tetris::new(10, 20);
    let mut b: Vec<(i32, i32)> = g.boundary_config().iter().map(|c| (c.0, c.1)).collect();
    assert_eq!(b.len(), 52);
    b.sort();
    b.dedup();
    assert_eq!(b.len(), 2 * 21 + 10);
    assert!(b.contains(&(0, 0)));
    assert!(b.contains(&(11, 20)));
    assert!(b.contains(&(5, 20)));
    assert!(!b.contains(&(0, -1)));
    assert!(!b.contains(&(5, 19)));
}

#[test]
fn score_rule_table() {
    assert_eq!(rule_score(0), 0);
    assert_eq!(rule_score(1), 1);
    assert_eq!(rule_score(2), 3);
    assert_eq!(rule_score(3), 7);
    assert_eq!(rule_score(4), 13);
    assert_eq!(rule_score(5), 0);
}

#[test]
fn next_block_rule_cycles_through_seven() {
    assert_eq!(rule_nextblock(0), 1);
    assert_eq!(rule_nextblock(5), 6);
    assert_eq!(rule_nextblock(6), 0);
}

#[test]
fn line_at_index_reads_the_block_lines() {
    let lines: Vec<u16> = vec![0x0001, 0x0002, 0x0004, 0x0008];
    assert_eq!(rule_line_at_index(3, &lines, 2), 0);
    assert_eq!(rule_line_at_index(3, &lines, 3), 0x0001);
    assert_eq!(rule_line_at_index(3, &lines, 6), 0x0008);
    assert_eq!(rule_line_at_index(3, &lines, 7), 0);
}

#[test]
fn scoreboard_adds_points_per_settle() {
    let mut s = Scoreboard::new();
    assert_eq!(s.get_score(), 0);
    s.update_score(0);
    s.update_score(1);
    s.update_score(2);
    s.update_score(3);
    s.update_score(4);
    assert_eq!(s.get_score(), 24);
}

#[test]
fn timer_period_halves_at_each_level() {
    let mut t = TickTimer::new(1024, 32, 500, 0);
    let a = t.time_until_tick_at(0);
    t.update_period_from_score(499);
    assert_eq!(t.time_until_tick_at(0), a);
    t.update_period_from_score(500);
    assert_eq!(a - t.time_until_tick_at(0), 512);
    t.update_period_from_score(1000);
    assert_eq!(a - t.time_until_tick_at(0), 768);
    let b = t.time_until_tick_at(0);
    assert_eq!(t.time_until_tick_at(100), b - 100);
}

#[test]
fn timer_period_stops_above_its_minimum() {
    let mut t = TickTimer::new(128, 32, 10, 0);
    let a = t.time_until_tick_at(0);
    t.update_period_from_score(10);
    t.update_period_from_score(20);
    // 128 -> 64; 64 / 2 is not above 32, so it stays
    assert_eq!(a - t.time_until_tick_at(0), 64);
    t.reset_tick_at(1000);
    assert_eq!(t.time_until_tick_at(1000), 64);
}

#[test]
fn coord_add_translates() {
    assert_eq!(Coord(2, -3).add(Coord(-5, 4)), Coord(-3, 1));
}

#[test]
fn falling_piece_stops_on_settled_cells() {
    let mut g = Tetris::new(10, 20);
    assert_eq!(g.hard_drop(), Some(0));
    assert_eq!(g.hard_drop(), Some(0));
    // the J piece rests on the I piece instead of entering its cells
    assert_eq!(
        settled_cells(&g),
        vec![(4, 17), (4, 18), (4, 19), (5, 18), (5, 19), (6, 18), (6, 19), (7, 19)]
    );
}

#[test]
fn single_row_clear_lowers_only_the_cells_above() {
    let mut g = Tetris::new(4, 8);
    assert_eq!(play(&mut g, 1, -3), Some(0));
    assert_eq!(play(&mut g, 0, -3), Some(0));
    assert_eq!(
        settled_cells(&g),
        vec![(1, 2), (1, 3), (1, 4), (1, 5), (1, 6), (1, 7), (2, 3), (3, 3)]
    );
    assert_eq!(play(&mut g, 0, 1), Some(1));
    // row 2 was full: (4, 1) comes down to (4, 2); rows 3 to 7 stay
    assert_eq!(
        settled_cells(&g),
        vec![(1, 3), (1, 4), (1, 5), (1, 6), (1, 7), (2, 3), (3, 3), (4, 2)]
    );
}

#[test]
fn cells_above_the_top_row_stay_within_the_playable_columns() {
    let mut g = Tetris::new(10, 20);
    for _ in 0..4 {
        assert_eq!(g.hard_drop(), Some(0));
    }
    assert_eq!(*g.current_block().id(), BlockID::S);
    g.rotate_block_if_feasible(&RotateCmd::Right);
    for _ in 0..6 {
        g.shift_block_if_feasible(&ShiftCmd::Right);
    }
    let s = cells(g.current_block());
    assert_eq!(s, vec![(9, -1), (9, 0), (10, 0), (10, 1)]);
    // a left turn would put a cell at (11, -1), right of the field
    g.rotate_block_if_feasible(&RotateCmd::Left);
    assert_eq!(cells(g.current_block()), s);

    assert_eq!(g.hard_drop(), Some(0));
    assert_eq!(g.hard_drop(), Some(0));
    assert_eq!(*g.current_block().id(), BlockID::Z);
    for _ in 0..6 {
        g.shift_block_if_feasible(&ShiftCmd::Left);
    }
    let z = cells(g.current_block());
    // the only cell in column 1 is in row -1, above the field
    assert_eq!(z, vec![(1, -1), (2, -1), (2, 0), (3, 0)]);
    g.shift_block_if_feasible(&ShiftCmd::Left);
    assert_eq!(cells(g.current_block()), z);
}

#[test]
fn queue_follows_a_given_rule() {
    // after each shape comes L; from L comes L again
    let mut gen = BlockGenerator::with_rule(vec![2, 2, 2, 2, 2, 2, 2]);
    assert_eq!(*gen.next().unwrap().id(), BlockID::I);
    assert_eq!(*gen.peek_next().unwrap().id(), BlockID::L);
    assert_eq!(*gen.next().unwrap().id(), BlockID::L);
    assert_eq!(*gen.next().unwrap().id(), BlockID::L);
}

#[test]
fn queue_rule_can_end_the_sequence() {
    let mut gen = BlockGenerator::with_rule(vec![3, 7, 7, 7, 7, 7, 7]);
    assert_eq!(*gen.next().unwrap().id(), BlockID::I);
    assert_eq!(*gen.next().unwrap().id(), BlockID::O);
    assert!(gen.peek_next().is_none());
    assert!(gen.next().is_none());
    assert!(gen.next().is_none());
}

#[test]
fn clone_keeps_shape_and_cells() {
    let b = Block::new(BlockID::S).add(Coord(3, 7)).rotated_version(&RotateCmd::Left);
    let c = b.clone();
    assert_eq!(*c.id(), BlockID::S);
    assert_eq!(cells(&c), cells(&b));
}

#[test]
fn wide_board_centres_the_first_piece() {
    let g = Tetris::new(1_000_001, 4);
    assert_eq!(cells(g.current_block()), vec![(499_999, 0), (500_000, 0), (500_001, 0), (500_002, 0)]);
}
