use vstd::prelude::*;

verus! {

/// The player's score.
#[derive(Clone, Copy, PartialEq, Eq, Structural, Debug)]
pub struct Score {
    pub score: u32,
}

impl Score {
    pub fn new() -> (r: Score)
        ensures
            r.score == 0,
    {
        Score { score: 0 }
    }

    /// Adds `points`, stopping at the largest representable score.
    pub fn award(&mut self, points: u32)
        ensures
            final(self).score == if old(self).score + points > u32::MAX {
                u32::MAX as int
            } else {
                old(self).score + points
            },
    {
        if points > u32::MAX - self.score {
            self.score = u32::MAX;
        } else {
            self.score = self.score + points;
        }
    }
}

impl Default for Score {
    fn default() -> (r: Score)
        ensures
            r.score == 0,
    {
        Score::new()
    }
}

} // verus!
