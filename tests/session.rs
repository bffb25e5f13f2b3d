use tetris::app::TetrisApp;
use tetris::enums::{GameStatus, RotateCmd, ShiftCmd};

fn current(app: &TetrisApp) -> Vec<(i32, i32)> {
    let mut v: Vec<(i32, i32)> = app.game().current_block().config().iter().map(|c| (c.0, c.1)).collect();
    v.sort();
    v
}

#[test]
fn session_starts_at_zero_points() {
    let app = TetrisApp::new(10, 20, 0);
    assert_eq!(app.get_score(), 0);
    assert_eq!(app.status(), GameStatus::Okay);
    assert_eq!(current(&app), vec![(4, 0), (5, 0), (6, 0), (7, 0)]);
}

#[test]
fn hard_drop_clearing_a_row_scores_a_point() {
    let mut app = TetrisApp::new(4, 8, 0);
    app.hard_drop();
    assert_eq!(app.get_score(), 1);
    assert!(app.game().state_config().is_empty());
}

#[test]
fn tick_falls_only_when_due() {
    let mut app = TetrisApp::new(10, 20, 0);
    app.tick(i64::MIN);
    assert_eq!(current(&app), vec![(4, 0), (5, 0), (6, 0), (7, 0)]);
    app.tick(i64::MAX);
    assert_eq!(current(&app), vec![(4, 1), (5, 1), (6, 1), (7, 1)]);
    // the tick time moved to i64::MAX, so the next tick is not due yet
    app.tick(i64::MAX - 1);
    assert_eq!(current(&app), vec![(4, 1), (5, 1), (6, 1), (7, 1)]);
}

#[test]
fn commands_move_the_falling_block() {
    let mut app = TetrisApp::new(10, 20, 0);
    app.shift(&ShiftCmd::Right);
    assert_eq!(current(&app), vec![(5, 0), (6, 0), (7, 0), (8, 0)]);
    app.rotate(&RotateCmd::Right);
    assert_eq!(current(&app), vec![(6, -2), (6, -1), (6, 0), (6, 1)]);
}

#[test]
fn reset_starts_a_fresh_game() {
    let mut app = TetrisApp::new(4, 8, 0);
    app.hard_drop();
    app.hard_drop();
    app.reset(5);
    assert_eq!(app.get_score(), 0);
    assert!(app.game().state_config().is_empty());
    assert_eq!(current(&app), vec![(1, 0), (2, 0), (3, 0), (4, 0)]);
}

#[test]
fn time_until_tick_counts_from_the_last_tick() {
    let mut app = TetrisApp::new(10, 20, 1000);
    assert_eq!(app.time_until_tick(1000), 1024);
    assert_eq!(app.time_until_tick(3000), -976);
    app.tick(3000);
    assert_eq!(app.time_until_tick(3000), 1024);
    app.reset(7000);
    assert_eq!(app.time_until_tick(7000), 1024);
}
