//! Pinball: the plunger, the balls, the bumpers' lights and the missions that they make.
use vstd::prelude::*;

verus! {

/// Number of bumpers on the table.
pub const BUMPER_COUNT: usize = 7;

/// Number of ranks, from Cadet to Fleet Admiral.
pub const RANK_COUNT: usize = 9;

/// The rank names, lowest first.
pub fn rank_name(rank: usize) -> (name: &'static str)
    requires
        rank < RANK_COUNT,
    ensures
        name@ == (if rank == 0 {
            "Cadet"@
        } else if rank == 1 {
            "Ensign"@
        } else if rank == 2 {
            "Lieutenant"@
        } else if rank == 3 {
            "Captain"@
        } else if rank == 4 {
            "Lt Commander"@
        } else if rank == 5 {
            "Commander"@
        } else if rank == 6 {
            "Commodore"@
        } else if rank == 7 {
            "Admiral"@
        } else {
            "Fleet Admiral"@
        }),
{
    match rank {
        0 => "Cadet",
        1 => "Ensign",
        2 => "Lieutenant",
        3 => "Captain",
        4 => "Lt Commander",
        5 => "Commander",
        6 => "Commodore",
        7 => "Admiral",
        _ => "Fleet Admiral",
    }
}

/// The scoring state of the table; the ball's flight is kept elsewhere.
pub struct Table {
    pub score: u32,
    /// Balls left, this one included.
    pub balls: u8,
    /// Points multiplier, 1 to 9.
    pub multiplier: u8,
    /// Index of the player's rank.
    pub rank: usize,
    /// Whether the ball is in play.
    pub launched: bool,
    pub paused: bool,
    pub over: bool,
    /// Plunger charge: 0 when not charging, up to 10.
    pub plunger_power: u8,
    /// Which bumpers are lit.
    pub lit: Vec<bool>,
    /// Ticks left of each bumper's flash.
    pub hit_timer: Vec<u8>,
    /// Whether a mission has been completed.
    pub mission_done: bool,
}

impl Table {
    /// What holds of every table: seven bumpers, a multiplier from 1 to 9, a rank that
    /// exists, a plunger charge of at most 10, and balls left unless the game is over.
    pub open spec fn inv(self) -> bool {
        &&& self.lit@.len() == BUMPER_COUNT
        &&& self.hit_timer@.len() == BUMPER_COUNT
        &&& 1 <= self.multiplier <= 9
        &&& self.rank < RANK_COUNT
        &&& self.plunger_power <= 10
        &&& !self.over ==> self.balls >= 1
    }

    /// A new table: three balls, multiplier 1, the lowest rank, no bumper lit, the ball on
    /// the plunger.
    pub fn new() -> (t: Table)
        ensures
            t.inv(),
            t.score == 0,
            t.balls == 3,
            t.multiplier == 1,
            t.rank == 0,
            !t.launched && !t.paused && !t.over && !t.mission_done,
            t.plunger_power == 0,
            forall|i: int| 0 <= i < BUMPER_COUNT ==> !#[trigger] t.lit@[i] && t.hit_timer@[i] == 0,
    {
        let mut lit: Vec<bool> = Vec::new();
        let mut hit_timer: Vec<u8> = Vec::new();
        let mut i: usize = 0;
        while i < BUMPER_COUNT
            invariant
                i <= BUMPER_COUNT,
                lit@.len() == i,
                hit_timer@.len() == i,
                forall|k: int| 0 <= k < i ==> !#[trigger] lit@[k] && hit_timer@[k] == 0,
            decreases BUMPER_COUNT - i,
        {
            lit.push(false);
            hit_timer.push(0);
            i += 1;
        }
        Table {
            score: 0,
            balls: 3,
            multiplier: 1,
            rank: 0,
            launched: false,
            paused: false,
            over: false,
            plunger_power: 0,
            lit,
            hit_timer,
            mission_done: false,
        }
    }

    /// The mission line shown on the table.
    pub fn mission_text(&self) -> (text: &'static str)
        ensures
            text@ == (if self.mission_done {
                "MISSION COMPLETE! Light all bumpers"@
            } else {
                "MISSION: Light all bumpers"@
            }),
    {
        if self.mission_done {
            "MISSION COMPLETE! Light all bumpers"
        } else {
            "MISSION: Light all bumpers"
        }
    }

    /// Pulls the plunger two steps further, to at most 10, while the ball waits on it.
    pub fn launch(&mut self)
        requires
            old(self).inv(),
        ensures
            final(self).inv(),
            !old(self).launched && !old(self).over ==> final(self).plunger_power == if old(
                self,
            ).plunger_power + 2 > 10 {
                10
            } else {
                old(self).plunger_power + 2
            },
            old(self).launched || old(self).over ==> final(self).plunger_power == old(
                self,
            ).plunger_power,
            *final(self) == (Table { plunger_power: final(self).plunger_power, ..*old(self) }),
    {
        if !self.launched && !self.over {
            let pulled = self.plunger_power + 2;
            self.plunger_power = if pulled > 10 {
                10
            } else {
                pulled
            };
        }
    }

    /// Lets the plunger go: where the ball waits on a pulled plunger it goes into play and
    /// the plunger's charge, given back, sets its speed.
    pub fn release_plunger(&mut self) -> (power: Option<u8>)
        requires
            old(self).inv(),
        ensures
            final(self).inv(),
            !old(self).launched && !old(self).over && old(self).plunger_power > 0 ==> {
                &&& power == Some(old(self).plunger_power)
                &&& *final(self) == (Table { launched: true, plunger_power: 0, ..*old(self) })
            },
            !(!old(self).launched && !old(self).over && old(self).plunger_power > 0) ==> {
                &&& power is None
                &&& *final(self) == *old(self)
            },
    {
        if !self.launched && !self.over && self.plunger_power > 0 {
            let power = self.plunger_power;
            self.launched = true;
            self.plunger_power = 0;
            Some(power)
        } else {
            None
        }
    }

    /// Puts a new ball on the plunger.
    pub fn reset_ball(&mut self)
        requires
            old(self).inv(),
        ensures
            final(self).inv(),
            *final(self) == (Table { launched: false, plunger_power: 0, ..*old(self) }),
    {
        self.launched = false;
        self.plunger_power = 0;
    }

    /// The ball drained: one ball fewer; the game is over with none left, else a new ball
    /// waits on the plunger.
    pub fn drain(&mut self)
        requires
            old(self).inv(),
            !old(self).over,
        ensures
            final(self).inv(),
            final(self).balls == old(self).balls - 1,
            final(self).balls == 0 ==> *final(self) == (Table {
                balls: 0,
                over: true,
                ..*old(self)
            }),
            final(self).balls > 0 ==> *final(self) == (Table {
                balls: final(self).balls,
                launched: false,
                plunger_power: 0,
                ..*old(self)
            }),
    {
        self.balls -= 1;
        if self.balls == 0 {
            self.over = true;
        } else {
            self.reset_ball();
        }
    }

    /// The ball struck bumper `i`: it flashes for six ticks, lights up, and scores 500
    /// times the multiplier.
    pub fn bumper_hit(&mut self, i: usize)
        requires
            old(self).inv(),
            i < BUMPER_COUNT,
            old(self).score + 500 * old(self).multiplier <= u32::MAX,
        ensures
            final(self).inv(),
            final(self).hit_timer@ == old(self).hit_timer@.update(i as int, 6),
            final(self).lit@ == old(self).lit@.update(i as int, true),
            final(self).score == old(self).score + 500 * old(self).multiplier,
            *final(self) == (Table {
                hit_timer: final(self).hit_timer,
                lit: final(self).lit,
                score: final(self).score,
                ..*old(self)
            }),
    {
        self.hit_timer.set(i, 6);
        self.lit.set(i, true);
        self.score += 500 * self.multiplier as u32;
    }

    /// Each bumper's flash fades by a tick.
    pub fn decay_flashes(&mut self)
        requires
            old(self).inv(),
        ensures
            final(self).inv(),
            forall|i: int|
                0 <= i < BUMPER_COUNT ==> #[trigger] final(self).hit_timer@[i] == if old(
                    self,
                ).hit_timer@[i] > 0 {
                    old(self).hit_timer@[i] - 1
                } else {
                    0
                },
            final(self).lit@ == old(self).lit@,
            *final(self) == (Table {
                hit_timer: final(self).hit_timer,
                lit: final(self).lit,
                ..*old(self)
            }),
    {
        let mut i: usize = 0;
        while i < BUMPER_COUNT
            invariant
                i <= BUMPER_COUNT,
                self.inv(),
                self.lit@ == old(self).lit@,
                *self == (Table { hit_timer: self.hit_timer, lit: self.lit, ..*old(self) }),
                forall|k: int|
                    0 <= k < BUMPER_COUNT ==> #[trigger] self.hit_timer@[k] == if k < i {
                        if old(self).hit_timer@[k] > 0 {
                            old(self).hit_timer@[k] - 1
                        } else {
                            0
                        }
                    } else {
                        old(self).hit_timer@[k] as int
                    },
            decreases BUMPER_COUNT - i,
        {
            let t = self.hit_timer[i];
            if t > 0 {
                self.hit_timer.set(i, t - 1);
            }
            i += 1;
        }
    }

    /// Completes the mission once every bumper is lit: 5000 points times the multiplier,
    /// the multiplier up by one to at most 9, the rank up by one to at most the highest,
    /// every light off again.
    pub fn check_mission_complete(&mut self)
        requires
            old(self).inv(),
            (forall|i: int| 0 <= i < BUMPER_COUNT ==> #[trigger] old(self).lit@[i]) ==> old(
                self,
            ).score + 5000 * old(self).multiplier <= u32::MAX,
        ensures
            final(self).inv(),
            (forall|i: int| 0 <= i < BUMPER_COUNT ==> #[trigger] old(self).lit@[i]) ==> {
                &&& final(self).score == old(self).score + 5000 * old(self).multiplier
                &&& final(self).multiplier == if old(self).multiplier + 1 > 9 {
                    9
                } else {
                    old(self).multiplier + 1
                }
                &&& final(self).rank == if old(self).rank < RANK_COUNT - 1 {
                    old(self).rank + 1
                } else {
                    old(self).rank as int
                }
                &&& forall|i: int| 0 <= i < BUMPER_COUNT ==> !#[trigger] final(self).lit@[i]
                &&& final(self).mission_done
            },
            !(forall|i: int| 0 <= i < BUMPER_COUNT ==> #[trigger] old(self).lit@[i]) ==> {
                &&& final(self).score == old(self).score
                &&& final(self).multiplier == old(self).multiplier
                &&& final(self).rank == old(self).rank
                &&& final(self).lit@ == old(self).lit@
                &&& final(self).mission_done == old(self).mission_done
            },
            *final(self) == (Table {
                score: final(self).score,
                multiplier: final(self).multiplier,
                rank: final(self).rank,
                lit: final(self).lit,
                mission_done: final(self).mission_done,
                ..*old(self)
            }),
    {
        let mut all = true;
        let mut i: usize = 0;
        #[verifier::loop_isolation(false)]
        while i < BUMPER_COUNT
            invariant
                i <= BUMPER_COUNT,
                self.lit@.len() == BUMPER_COUNT,
                all == forall|k: int| 0 <= k < i ==> #[trigger] self.lit@[k],
            decreases BUMPER_COUNT - i,
        {
            if !self.lit[i] {
                all = false;
            }
            i += 1;
        }
        if all {
            self.score += 5000 * self.multiplier as u32;
            let more = self.multiplier + 1;
            self.multiplier = if more > 9 {
                9
            } else {
                more
            };
            if self.rank < RANK_COUNT - 1 {
                self.rank += 1;
            }
            let ghost t = *self;
            let mut k: usize = 0;
            #[verifier::loop_isolation(false)]
            while k < BUMPER_COUNT
                invariant
                    k <= BUMPER_COUNT,
                    self.lit@.len() == BUMPER_COUNT,
                    *self == (Table { lit: self.lit, ..t }),
                    forall|j: int| 0 <= j < k ==> !#[trigger] self.lit@[j],
                decreases BUMPER_COUNT - k,
            {
                self.lit.set(k, false);
                k += 1;
            }
            self.mission_done = true;
        }
    }
}

} // verus!
