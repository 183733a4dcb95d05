//! The score of a round in progress, and whether it is won or lost.

use vstd::prelude::*;
use crate::game::GameEvent;
use crate::grid::{Bonus, Level};

verus! {

/// The round being played: which level, what was delivered and lost, and
/// the bonuses left to place.
#[derive(Debug, Clone)]
pub struct GameInProgress {
    pub level: usize,
    pub score: u32,
    pub lost_hobbits: u32,
    pub bonus: Vec<Bonus>,
}

/// How a round stands.
#[derive(Debug, Clone, Copy, PartialEq, Eq, Structural)]
pub enum Outcome {
    Playing,
    Won,
    Lost,
}

/// `n` plus one, held at the largest value.
pub open spec fn bumped(n: u32) -> u32 {
    if n < u32::MAX {
        (n + 1) as u32
    } else {
        n
    }
}

/// The score and losses after the first `k` events: a delivery scores, and
/// an agent lost to another or to a hazard counts as lost.
pub open spec fn tally(score: u32, lost: u32, events: Seq<GameEvent>, k: nat) -> (u32, u32)
    decreases k,
{
    if k == 0 {
        (score, lost)
    } else {
        let (s, l) = tally(score, lost, events, (k - 1) as nat);
        match events[k - 1] {
            GameEvent::Delivered(_) => (bumped(s), l),
            GameEvent::AgentLost(_) => (s, bumped(l)),
            GameEvent::AgentDestroyedByHazard(_) => (s, bumped(l)),
            GameEvent::ReachedGoal(_) => (s, l),
        }
    }
}

impl GameInProgress {
    /// A fresh round of `level` with the level's bonuses.
    pub fn new(level: usize, bonus: Vec<Bonus>) -> (r: GameInProgress)
        ensures
            r.level == level,
            r.score == 0,
            r.lost_hobbits == 0,
            r.bonus == bonus,
    {
        GameInProgress { level, score: 0, lost_hobbits: 0, bonus }
    }

    /// Counts the events of a tick.
    pub fn update_progress(&mut self, events: &Vec<GameEvent>)
        ensures
            (final(self).score, final(self).lost_hobbits) == tally(
                old(self).score,
                old(self).lost_hobbits,
                events@,
                events@.len(),
            ),
            final(self).level == old(self).level,
            final(self).bonus == old(self).bonus,
    {
        let mut i: usize = 0;
        while i < events.len()
            invariant
                i <= events@.len(),
                (self.score, self.lost_hobbits) == tally(
                    old(self).score,
                    old(self).lost_hobbits,
                    events@,
                    i as nat,
                ),
                self.level == old(self).level,
                self.bonus == old(self).bonus,
            decreases events@.len() - i,
        {
            match events[i] {
                GameEvent::Delivered(_) => {
                    if self.score < u32::MAX {
                        self.score = self.score + 1;
                    }
                },
                GameEvent::AgentLost(_) | GameEvent::AgentDestroyedByHazard(_) => {
                    if self.lost_hobbits < u32::MAX {
                        self.lost_hobbits = self.lost_hobbits + 1;
                    }
                },
                GameEvent::ReachedGoal(_) => {},
            }
            i = i + 1;
        }
    }

    /// Won once the level's treasures are all home; lost once as many agents
    /// as the level allows are lost; else still playing.
    pub fn check_conditions(&self, level: &Level) -> (r: Outcome)
        ensures
            r == if self.score == level.treasures {
                Outcome::Won
            } else if level.losts == Some(self.lost_hobbits) {
                Outcome::Lost
            } else {
                Outcome::Playing
            },
    {
        if self.score == level.treasures {
            Outcome::Won
        } else {
            match level.losts {
                Some(l) => if l == self.lost_hobbits {
                    Outcome::Lost
                } else {
                    Outcome::Playing
                },
                None => Outcome::Playing,
            }
        }
    }
}

} // verus!
