use vstd::prelude::*;

verus! {

/// Rust's division by two, which rounds towards zero.
pub open spec fn half(p: int) -> int {
    if p >= 0 {
        p / 2
    } else {
        -((-p) / 2)
    }
}

/// `v` brought into the range of `i64`.
pub open spec fn clamp_i64(v: int) -> int {
    if v < i64::MIN {
        i64::MIN as int
    } else if v > i64::MAX {
        i64::MAX as int
    } else {
        v
    }
}

/// The tick period and the score at which it next halves.
struct TickPeriod {
    min_period: i64,
    period: i64,
    next_lvl: i64,
    lvl_up: i64,
}

impl TickPeriod {
    fn new(period: i64, min_period: i64, lvl_up: i64) -> (r: TickPeriod)
        ensures
            r.period == period,
            r.min_period == min_period,
            r.lvl_up == lvl_up,
            r.next_lvl == lvl_up,
    {
        TickPeriod { period, min_period, lvl_up, next_lvl: lvl_up }
    }

    /// Halves the period unless that would bring it to the minimum or below.
    fn decrease_period(&mut self)
        ensures
            final(self).period == (if half(old(self).period as int) > old(self).min_period {
                half(old(self).period as int)
            } else {
                old(self).period as int
            }),
            final(self).min_period == old(self).min_period,
            final(self).next_lvl == old(self).next_lvl,
            final(self).lvl_up == old(self).lvl_up,
    {
        let halved = self.period / 2;
        if halved > self.min_period {
            self.period = halved;
        }
    }

    fn update_period_from_score(&mut self, score: usize)
        requires
            score >= old(self).next_lvl ==> i64::MIN <= old(self).next_lvl + old(self).lvl_up <= i64::MAX,
        ensures
            score >= old(self).next_lvl ==> final(self).next_lvl == old(self).next_lvl + old(self).lvl_up
                && final(self).period == (if half(old(self).period as int) > old(self).min_period {
                half(old(self).period as int)
            } else {
                old(self).period as int
            }),
            score < old(self).next_lvl ==> *final(self) == *old(self),
            final(self).min_period == old(self).min_period,
            final(self).lvl_up == old(self).lvl_up,
    {
        if score as i128 >= self.next_lvl as i128 {
            self.next_lvl = self.next_lvl + self.lvl_up;
            self.decrease_period();
        }
    }
}

/// Paces the gravity ticks: a period that shortens as the score grows, and the
/// time of the last tick.
pub struct TickTimer {
    period: TickPeriod,
    time: i64,
}

impl TickTimer {
    /// The current period, in milliseconds.
    pub closed spec fn period_ms(&self) -> int {
        self.period.period as int
    }

    /// The shortest period the timer keeps.
    pub closed spec fn min_period_ms(&self) -> int {
        self.period.min_period as int
    }

    /// The score at which the period next halves.
    pub closed spec fn next_level(&self) -> int {
        self.period.next_lvl as int
    }

    /// How much the next level's score lies above the last.
    pub closed spec fn level_step(&self) -> int {
        self.period.lvl_up as int
    }

    /// The time of the last tick, in milliseconds since the Unix epoch.
    pub closed spec fn last_tick(&self) -> int {
        self.time as int
    }

    pub fn next_level_exec(&self) -> (r: i64)
        ensures
            r == self.next_level(),
    {
        self.period.next_lvl
    }

    pub fn level_step_exec(&self) -> (r: i64)
        ensures
            r == self.level_step(),
    {
        self.period.lvl_up
    }

    /// Milliseconds from `now` until the next tick is due, held within `i64`.
    pub open spec fn due_in(&self, now: int) -> int {
        clamp_i64(self.last_tick() + self.period_ms() - now)
    }

    /// A timer whose last tick is at `now` (milliseconds since the Unix epoch).
    pub fn new(period: i64, min_period: i64, lvl_up: i64, now: i64) -> (r: TickTimer)
        ensures
            r.period_ms() == period,
            r.min_period_ms() == min_period,
            r.level_step() == lvl_up,
            r.next_level() == lvl_up,
            r.last_tick() == now,
    {
        TickTimer { period: TickPeriod::new(period, min_period, lvl_up), time: now }
    }

    /// `next` is this timer after a score of `score` was reported: at the next
    /// level the level moves on by one step and the period halves unless that
    /// would bring it to the minimum or below; otherwise nothing changes. The
    /// time of the last tick is not part of it.
    pub open spec fn levels_up(self, next: TickTimer, score: int) -> bool {
        &&& next.min_period_ms() == self.min_period_ms()
        &&& next.level_step() == self.level_step()
        &&& if score >= self.next_level() {
            &&& next.next_level() == self.next_level() + self.level_step()
            &&& next.period_ms() == if half(self.period_ms()) > self.min_period_ms() {
                half(self.period_ms())
            } else {
                self.period_ms()
            }
        } else {
            &&& next.next_level() == self.next_level()
            &&& next.period_ms() == self.period_ms()
        }
    }

    /// The same period, minimum, level and step; the time of the last tick may differ.
    pub open spec fn same_levels(self, other: TickTimer) -> bool {
        &&& other.period_ms() == self.period_ms()
        &&& other.min_period_ms() == self.min_period_ms()
        &&& other.next_level() == self.next_level()
        &&& other.level_step() == self.level_step()
    }

    /// The same settings and time of the last tick.
    pub open spec fn same_as(self, other: TickTimer) -> bool {
        self.same_levels(other) && other.last_tick() == self.last_tick()
    }

    /// Halves the period (down to just above its minimum) each time the score
    /// reaches the next level.
    pub fn update_period_from_score(&mut self, score: usize)
        requires
            score >= old(self).next_level() ==> i64::MIN <= old(self).next_level()
                + old(self).level_step() <= i64::MAX,
        ensures
            old(self).levels_up(*final(self), score as int),
            final(self).last_tick() == old(self).last_tick(),
    {
        self.period.update_period_from_score(score);
    }

    /// Milliseconds from `now` until the next tick is due (negative once it is
    /// overdue), held within `i64`.
    pub fn time_until_tick_at(&self, now: i64) -> (r: i64)
        ensures
            r == self.due_in(now as int),
    {
        let v: i128 = self.time as i128 + self.period.period as i128 - now as i128;
        if v < i64::MIN as i128 {
            i64::MIN
        } else if v > i64::MAX as i128 {
            i64::MAX
        } else {
            v as i64
        }
    }

    /// Marks `now` as the time of the last tick.
    pub fn reset_tick_at(&mut self, now: i64)
        ensures
            final(self).last_tick() == now,
            final(self).period_ms() == old(self).period_ms(),
            final(self).min_period_ms() == old(self).min_period_ms(),
            final(self).next_level() == old(self).next_level(),
            final(self).level_step() == old(self).level_step(),
    {
        self.time = now;
    }
}

} // verus!
