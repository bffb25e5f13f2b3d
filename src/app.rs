use vstd::prelude::*;

use crate::enums::{GameStatus, RotateCmd, ShiftCmd};
use crate::model::{board_fits, lemma_fall_keeps_size, GameState};
use crate::rules::{rule_score, score_for};
use crate::scoreboard::Scoreboard;
use crate::tetris::Tetris;
use crate::timer::TickTimer;

verus! {

/// Tick period at the start of a game, in milliseconds.
pub const START_PERIOD: i64 = 1024;

/// The period never halves to this or below.
pub const MIN_PERIOD: i64 = 32;

/// Score between two speed levels.
pub const LVL_UP: i64 = 500;

/// A play session: the game, its score, and the timer that paces gravity.
/// Times are milliseconds since the Unix epoch, read by the caller.
pub struct TetrisApp {
    scoreboard: Scoreboard,
    timer: TickTimer,
    game: Tetris,
    width: i32,
    height: i32,
}

impl TetrisApp {
    pub closed spec fn wf(&self) -> bool {
        &&& self.game.wf()
        &&& self.game@.width == self.width
        &&& self.game@.height == self.height
    }

    /// The game being played.
    pub closed spec fn state(&self) -> GameState {
        self.game@
    }

    pub closed spec fn points(&self) -> int {
        self.scoreboard.points()
    }

    pub closed spec fn timer(&self) -> TickTimer {
        self.timer
    }

    /// A fresh session: fresh game, no points, the starting period, last tick at `now`.
    pub open spec fn fresh(&self, width: int, height: int, now: int) -> bool {
        &&& self.state() == GameState::initial(width, height)
        &&& self.points() == 0
        &&& self.timer().period_ms() == START_PERIOD
        &&& self.timer().min_period_ms() == MIN_PERIOD
        &&& self.timer().next_level() == LVL_UP
        &&& self.timer().level_step() == LVL_UP
        &&& self.timer().last_tick() == now
    }

    /// A fresh session on a board `width` columns wide and `height` rows tall.
    pub fn new(width: i32, height: i32, now: i64) -> (r: TetrisApp)
        requires
            board_fits(width as int, height as int),
        ensures
            r.wf(),
            r.fresh(width as int, height as int, now as int),
    {
        let timer = TickTimer::new(START_PERIOD, MIN_PERIOD, LVL_UP, now);
        let scoreboard = Scoreboard::new();
        let game = Tetris::new(width, height);
        TetrisApp { scoreboard, timer, game, width, height }
    }

    /// Starts over at `now` with a fresh game of the same size.
    pub fn reset(&mut self, now: i64)
        requires
            old(self).wf(),
        ensures
            final(self).wf(),
            final(self).fresh(old(self).state().width, old(self).state().height, now as int),
    {
        self.timer = TickTimer::new(START_PERIOD, MIN_PERIOD, LVL_UP, now);
        self.scoreboard = Scoreboard::new();
        self.game = Tetris::new(self.width, self.height);
    }

    /// Whether the score and the timer can take a settle that cleared `n` rows.
    pub open spec fn can_count(&self, n: int) -> bool {
        &&& n <= 4
        &&& self.points() + score_for(n) <= usize::MAX
        &&& self.points() + score_for(n) >= self.timer().next_level() ==> i64::MIN
            <= self.timer().next_level() + self.timer().level_step() <= i64::MAX
    }

    /// Points and timer of `next` after the result `cleared` of a gravity step
    /// from `self`: a settle that the score can take adds its points and reports
    /// the new score to the timer; otherwise both stay. The time of the last tick
    /// is not part of it.
    pub open spec fn counted(self, next: TetrisApp, cleared: Option<nat>) -> bool {
        match cleared {
            Some(n) => if self.can_count(n as int) {
                &&& next.points() == self.points() + score_for(n as int)
                &&& self.timer().levels_up(next.timer(), next.points())
            } else {
                &&& next.points() == self.points()
                &&& self.timer().same_levels(next.timer())
            },
            None => {
                &&& next.points() == self.points()
                &&& self.timer().same_levels(next.timer())
            },
        }
    }

    /// Adds the points for `num_lines_cleared` rows and speeds the timer up when
    /// the score reaches the next level.
    fn update_score_and_tickrate(&mut self, num_lines_cleared: usize)
        requires
            old(self).can_count(num_lines_cleared as int),
        ensures
            final(self).points() == old(self).points() + score_for(num_lines_cleared as int),
            old(self).timer().levels_up(final(self).timer(), final(self).points()),
            final(self).timer().last_tick() == old(self).timer().last_tick(),
            final(self).game == old(self).game,
            final(self).width == old(self).width,
            final(self).height == old(self).height,
    {
        self.scoreboard.update_score(num_lines_cleared);
        self.timer.update_period_from_score(self.scoreboard.get_score());
    }

    /// Counts a gravity step that gave `cleared`.
    fn count_settle(&mut self, cleared: Option<usize>)
        ensures
            old(self).counted(
                *final(self),
                match cleared {
                    Some(n) => Some(n as nat),
                    None => None,
                },
            ),
            final(self).timer().last_tick() == old(self).timer().last_tick(),
            final(self).game == old(self).game,
            final(self).width == old(self).width,
            final(self).height == old(self).height,
    {
        if let Some(n) = cleared {
            if n <= 4 {
                let add = rule_score(n);
                let score = self.scoreboard.get_score();
                if score <= usize::MAX - add {
                    let next = self.timer.next_level_exec() as i128;
                    let step = self.timer.level_step_exec() as i128;
                    if (score + add) as i128 >= next {
                        if next + step <= i64::MAX as i128 && next + step >= i64::MIN as i128 {
                            self.update_score_and_tickrate(n);
                        }
                    } else {
                        self.update_score_and_tickrate(n);
                    }
                }
            }
        }
    }

    /// What a tick at time `now` does to `self`, giving `next`: where the tick
    /// is due, one gravity step, its count, and `now` as the time of the last
    /// tick; otherwise nothing.
    pub open spec fn ticks_at(self, next: TetrisApp, now: int) -> bool {
        if self.timer().due_in(now) <= 0 {
            &&& next.state() == self.state().drop_steps(1).0
            &&& self.counted(next, self.state().drop_steps(1).1)
            &&& next.timer().last_tick() == now
        } else {
            &&& next.state() == self.state()
            &&& next.points() == self.points()
            &&& self.timer().same_as(next.timer())
        }
    }

    /// One gravity step if it is due at time `now`; a settle adds its points,
    /// and the tick time moves to `now`.
    pub fn tick(&mut self, now: i64)
        requires
            old(self).wf(),
        ensures
            final(self).wf(),
            old(self).ticks_at(*final(self), now as int),
    {
        proof {
            lemma_fall_keeps_size(self.state(), 1);
        }
        if self.timer.time_until_tick_at(now) <= 0 {
            let cleared = self.game.tick();
            self.count_settle(cleared);
            self.timer.reset_tick_at(now);
        }
    }

    /// Drops the falling block until it settles and counts the rows it clears.
    pub fn hard_drop(&mut self)
        requires
            old(self).wf(),
        ensures
            final(self).wf(),
            final(self).state() == old(self).state().drop_steps((old(self).state().height + 2) as nat).0,
            old(self).counted(*final(self), old(self).state().drop_steps((old(self).state().height + 2) as nat).1),
            final(self).timer().last_tick() == old(self).timer().last_tick(),
    {
        proof {
            lemma_fall_keeps_size(self.state(), (self.state().height + 2) as nat);
        }
        let cleared = self.game.hard_drop();
        self.count_settle(cleared);
    }

    /// Moves the falling block one column aside where it is free to go.
    pub fn shift(&mut self, cmd: &ShiftCmd)
        requires
            old(self).wf(),
        ensures
            final(self).wf(),
            final(self).state() == old(self).state().shift(*cmd),
            final(self).points() == old(self).points(),
            final(self).timer() == old(self).timer(),
    {
        self.game.shift_block_if_feasible(cmd);
    }

    /// Turns the falling block a quarter where it is free to turn.
    pub fn rotate(&mut self, cmd: &RotateCmd)
        requires
            old(self).wf(),
        ensures
            final(self).wf(),
            final(self).state() == old(self).state().rotate(*cmd),
            final(self).points() == old(self).points(),
            final(self).timer() == old(self).timer(),
    {
        self.game.rotate_block_if_feasible(cmd);
    }

    /// The game being played, for display.
    pub fn game(&self) -> (r: &Tetris)
        ensures
            r@ == self.state(),
    {
        &self.game
    }

    pub fn status(&self) -> (r: GameStatus)
        ensures
            r == (if self.state().is_over() { GameStatus::GameOver } else { GameStatus::Okay }),
    {
        self.game.status()
    }

    pub fn get_score(&self) -> (r: usize)
        ensures
            r == self.points(),
    {
        self.scoreboard.get_score()
    }

    /// Milliseconds from `now` until the next tick is due.
    pub fn time_until_tick(&self, now: i64) -> (r: i64)
        ensures
            r == self.timer().due_in(now as int),
    {
        self.timer.time_until_tick_at(now)
    }
}

} // verus!
