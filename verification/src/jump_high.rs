//! Dog Jump: the platform generator and the charge-and-jump controls.
use vstd::prelude::*;

use crate::keys::Key;
use crate::rng::{lcg_high, lcg_spec, lcg_step};

verus! {

/// Steps the generator state and draws its high bits.
pub fn pseudo_rand(state: &mut u64) -> (v: u64)
    ensures
        *final(state) == lcg_spec(*old(state)),
        v == lcg_high(*final(state)),
        v < 0x8000_0000,
{
    *state = lcg_step(*state);
    proof {
        crate::rng::lemma_lcg_high_bound(*state);
    }
    *state >> 33
}

/// The width of a new platform: 4 to 8 cells, from one draw.
pub fn rand_platform_width(state: &mut u64) -> (w: u16)
    ensures
        *final(state) == lcg_spec(*old(state)),
        w == lcg_high(*final(state)) % 5 + 4,
        4 <= w <= 8,
{
    (pseudo_rand(state) % 5 + 4) as u16
}

/// The left column of a new platform of `plat_width` on a screen `area_width` wide: one
/// draw modulo the room left; column 0, with no draw, where there is no room.
pub fn rand_platform_x(state: &mut u64, area_width: u16, plat_width: u16) -> (x: u16)
    ensures
        area_width <= plat_width ==> x == 0 && *final(state) == *old(state),
        area_width > plat_width ==> {
            &&& *final(state) == lcg_spec(*old(state))
            &&& x == lcg_high(*final(state)) % ((area_width - plat_width) as u64)
            &&& x < area_width - plat_width
        },
{
    let max_x = area_width.saturating_sub(plat_width) as u64;
    if max_x == 0 {
        return 0;
    }
    (pseudo_rand(state) % max_x) as u16
}

/// Where the dog is in its jump.
#[derive(Clone, Copy, Debug, PartialEq, Eq, Structural)]
pub enum State {
    Grounded,
    Charging,
    Airborne,
}

/// The controls of the dog: its jump state, the pause, the key-repeat counters that tell
/// a held space bar from a released one, and the aim (-1 left, 0 up, 1 right).
#[derive(Clone, Copy, Debug, PartialEq, Eq, Structural)]
pub struct Controls {
    pub state: State,
    pub paused: bool,
    /// Space presses seen since charging began.
    pub space_count: u32,
    /// Ticks since the last space press while charging.
    pub ticks_since_space: u32,
    pub dir: i8,
}

impl Controls {
    /// The controls of a dog standing on the ground, aiming up.
    pub fn new() -> (c: Controls)
        ensures
            c == (Controls {
                state: State::Grounded,
                paused: false,
                space_count: 0,
                ticks_since_space: 0,
                dir: 0,
            }),
    {
        Controls { state: State::Grounded, paused: false, space_count: 0, ticks_since_space: 0, dir: 0 }
    }

    /// Pauses or resumes; pausing while charging drops the charge and puts the dog back
    /// on the ground. Tells whether the charge is dropped.
    pub fn toggle_pause(&mut self) -> (drop_charge: bool)
        ensures
            old(self).paused ==> *final(self) == (Controls { paused: false, ..*old(self) })
                && !drop_charge,
            !old(self).paused ==> {
                &&& drop_charge == (old(self).state == State::Charging)
                &&& *final(self) == (Controls {
                    paused: true,
                    state: if drop_charge {
                        State::Grounded
                    } else {
                        old(self).state
                    },
                    ..*old(self)
                })
            },
    {
        if self.paused {
            self.paused = false;
            false
        } else {
            let drop_charge = self.state == State::Charging;
            if drop_charge {
                self.state = State::Grounded;
            }
            self.paused = true;
            drop_charge
        }
    }

    /// Ticks without a space press that mean the space bar was let go: 4 once key repeat
    /// has set in (two presses or more), 18 before it.
    pub fn release_threshold(&self) -> (t: u32)
        ensures
            t == if self.space_count >= 2 {
                4u32
            } else {
                18u32
            },
    {
        if self.space_count >= 2 {
            4
        } else {
            18
        }
    }

    /// Counts a tick of charging; tells whether the space bar counts as released, so that
    /// the dog jumps.
    pub fn charge_tick(&mut self) -> (release: bool)
        requires
            old(self).ticks_since_space < u32::MAX,
        ensures
            *final(self) == (Controls {
                ticks_since_space: (old(self).ticks_since_space + 1) as u32,
                ..*old(self)
            }),
            release == (final(self).ticks_since_space >= if old(self).space_count >= 2 {
                4u32
            } else {
                18u32
            }),
    {
        self.ticks_since_space += 1;
        self.ticks_since_space >= self.release_threshold()
    }

    /// Answers the space bar: on the ground it starts a charge (from nothing, the counters
    /// cleared, the aim kept); while charging it counts as held; in the air, or while
    /// paused, it does nothing. Tells whether a charge started.
    pub fn press_space(&mut self) -> (started: bool)
        requires
            old(self).space_count < u32::MAX,
        ensures
            started == (!old(self).paused && old(self).state == State::Grounded),
            started ==> *final(self) == (Controls {
                state: State::Charging,
                space_count: 0,
                ticks_since_space: 0,
                ..*old(self)
            }),
            !old(self).paused && old(self).state == State::Charging ==> *final(self) == (Controls {
                space_count: (old(self).space_count + 1) as u32,
                ticks_since_space: 0,
                ..*old(self)
            }),
            old(self).paused || old(self).state == State::Airborne ==> *final(self) == *old(self),
    {
        if self.paused {
            return false;
        }
        match self.state {
            State::Grounded => {
                self.state = State::Charging;
                self.space_count = 0;
                self.ticks_since_space = 0;
                true
            },
            State::Charging => {
                self.space_count += 1;
                self.ticks_since_space = 0;
                false
            },
            State::Airborne => false,
        }
    }

    /// Answers an arrow: aims left or right while on the ground or charging and not paused.
    pub fn press_arrow(&mut self, key: Key)
        ensures
            (key == Key::Left || key == Key::Right) && !old(self).paused && (old(self).state
                == State::Charging || old(self).state == State::Grounded) ==> *final(self) == (
            Controls { dir: if key == Key::Left {
                -1i8
            } else {
                1i8
            }, ..*old(self) }),
            !((key == Key::Left || key == Key::Right) && !old(self).paused && (old(self).state
                == State::Charging || old(self).state == State::Grounded)) ==> *final(self)
                == *old(self),
    {
        if !self.paused && (self.state == State::Charging || self.state == State::Grounded) {
            if key == Key::Left {
                self.dir = -1;
            } else if key == Key::Right {
                self.dir = 1;
            }
        }
    }

    /// The dog leaves the ground with the charge gathered.
    pub fn take_off(&mut self)
        requires
            old(self).state == State::Charging,
        ensures
            *final(self) == (Controls { state: State::Airborne, ..*old(self) }),
    {
        self.state = State::Airborne;
    }

    /// The dog lands on a platform: back on the ground, aiming up.
    pub fn land(&mut self)
        ensures
            *final(self) == (Controls { state: State::Grounded, dir: 0, ..*old(self) }),
    {
        self.state = State::Grounded;
        self.dir = 0;
    }
}

} // verus!
