use vstd::prelude::*;

use crate::rules::{rule_score, score_for};

verus! {

/// The points gathered in a game.
pub struct Scoreboard {
    score: usize,
}

impl Scoreboard {
    pub closed spec fn points(&self) -> int {
        self.score as int
    }

    /// A scoreboard at zero.
    pub fn new() -> (r: Scoreboard)
        ensures
            r.points() == 0,
    {
        Scoreboard { score: 0 }
    }

    /// Adds the points for clearing `lines_cleared` rows at once (at most four).
    pub fn update_score(&mut self, lines_cleared: usize)
        requires
            lines_cleared <= 4,
            old(self).points() + score_for(lines_cleared as int) <= usize::MAX,
        ensures
            final(self).points() == old(self).points() + score_for(lines_cleared as int),
    {
        self.score = self.score + rule_score(lines_cleared);
    }

    pub fn get_score(&self) -> (r: usize)
        ensures
            r == self.points(),
    {
        self.score
    }
}

} // verus!
