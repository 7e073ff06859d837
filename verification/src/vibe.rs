//! Vibe clicker: vibes earned by tapping and by upgrades bought with them.
//! The price of an upgrade grows by a real factor per copy owned; the caller computes
//! it and hands it over.
use vstd::prelude::*;

use crate::keys::{Flow, Key};

verus! {

/// Number of kinds of upgrade.
pub const UPGRADE_COUNT: usize = 5;

/// Vibes per second that one copy of upgrade `i` yields.
pub open spec fn rate_of(i: int) -> int {
    if i == 0 {
        1
    } else if i == 1 {
        5
    } else if i == 2 {
        20
    } else if i == 3 {
        100
    } else {
        500
    }
}

/// Vibes per second that one copy of upgrade `i` yields.
pub fn upgrade_rate(i: usize) -> (r: u64)
    requires
        i < UPGRADE_COUNT,
    ensures
        r == rate_of(i as int),
{
    match i {
        0 => 1,
        1 => 5,
        2 => 20,
        3 => 100,
        _ => 500,
    }
}

/// The price of the first copy of upgrade `i`.
pub fn upgrade_base_cost(i: usize) -> (c: u64)
    requires
        i < UPGRADE_COUNT,
    ensures
        c == (if i == 0 {
            15u64
        } else if i == 1 {
            100
        } else if i == 2 {
            500
        } else if i == 3 {
            3000
        } else {
            15000
        }),
{
    match i {
        0 => 15,
        1 => 100,
        2 => 500,
        3 => 3000,
        _ => 15000,
    }
}

/// The name of upgrade `i`.
pub fn upgrade_name(i: usize) -> (n: &'static str)
    requires
        i < UPGRADE_COUNT,
    ensures
        n@ == (if i == 0 {
            "Auto-paw"@
        } else if i == 1 {
            "Vibe buddy"@
        } else if i == 2 {
            "Hype engine"@
        } else if i == 3 {
            "Vibe reactor"@
        } else {
            "Galaxy brain"@
        }),
{
    match i {
        0 => "Auto-paw",
        1 => "Vibe buddy",
        2 => "Hype engine",
        3 => "Vibe reactor",
        _ => "Galaxy brain",
    }
}

/// The emoji of upgrade `i`.
pub fn upgrade_emoji(i: usize) -> (e: &'static str)
    requires
        i < UPGRADE_COUNT,
    ensures
        e@ == (if i == 0 {
            "🐾"@
        } else if i == 1 {
            "🐱"@
        } else if i == 2 {
            "🚀"@
        } else if i == 3 {
            "⚡"@
        } else {
            "🌌"@
        }),
{
    match i {
        0 => "🐾",
        1 => "🐱",
        2 => "🚀",
        3 => "⚡",
        _ => "🌌",
    }
}

/// The rate label of upgrade `i`.
pub fn upgrade_desc(i: usize) -> (d: &'static str)
    requires
        i < UPGRADE_COUNT,
    ensures
        d@ == (if i == 0 {
            " 1/s"@
        } else if i == 1 {
            " 5/s"@
        } else if i == 2 {
            "20/s"@
        } else if i == 3 {
            "100/s"@
        } else {
            "500/s"@
        }),
{
    match i {
        0 => " 1/s",
        1 => " 5/s",
        2 => "20/s",
        3 => "100/s",
        _ => "500/s",
    }
}

/// Vibes per second that the first `n` kinds of upgrade yield, with `counts[i]` copies
/// of kind `i`.
pub open spec fn rate_upto(counts: Seq<u32>, n: int) -> int
    decreases n,
{
    if n <= 0 {
        0
    } else {
        rate_upto(counts, n - 1) + rate_of(n - 1) * counts[n - 1]
    }
}

/// Vibes per second that all the upgrades owned yield.
pub open spec fn total_rate(counts: Seq<u32>) -> int {
    rate_upto(counts, counts.len() as int)
}

/// The rate of the first `n` kinds is at most `n` terms of 500 times the largest `u32`.
proof fn lemma_rate_upto_bound(counts: Seq<u32>, n: int)
    requires
        0 <= n <= counts.len(),
    ensures
        0 <= rate_upto(counts, n) <= 500 * n * 0xffff_ffff,
    decreases n,
{
    if n > 0 {
        lemma_rate_upto_bound(counts, n - 1);
        let c = counts[n - 1] as int;
        assert(0 <= rate_of(n - 1) * c <= 500 * 0xffff_ffff) by (nonlinear_arith)
            requires
                0 <= c <= 0xffff_ffff,
                1 <= rate_of(n - 1) <= 500,
        ;
    }
}

/// Raising the count of upgrade `i` by one raises the rate of the first `n` kinds by the
/// rate of one copy of `i`, where `i` is among them.
proof fn lemma_rate_upto_update(counts: Seq<u32>, i: int, n: int)
    requires
        0 <= i < counts.len(),
        0 <= n <= counts.len(),
        counts[i] < u32::MAX,
    ensures
        rate_upto(counts.update(i, (counts[i] + 1) as u32), n) == rate_upto(counts, n) + if i < n {
            rate_of(i)
        } else {
            0
        },
    decreases n,
{
    if n > 0 {
        lemma_rate_upto_update(counts, i, n - 1);
        let c = counts[n - 1] as int;
        if n - 1 == i {
            assert(rate_of(i) * (c + 1) == rate_of(i) * c + rate_of(i)) by (nonlinear_arith);
        }
    }
}

/// Buying one more copy of an upgrade raises the rate by exactly that upgrade's rate.
pub proof fn law_buy_raises_rate(counts: Seq<u32>, i: int)
    requires
        counts.len() == UPGRADE_COUNT,
        0 <= i < UPGRADE_COUNT,
        counts[i] < u32::MAX,
    ensures
        total_rate(counts.update(i, (counts[i] + 1) as u32)) == total_rate(counts) + rate_of(i),
{
    lemma_rate_upto_update(counts, i, counts.len() as int);
}

/// The clicker's state.
pub struct Shop {
    pub vibes: u64,
    pub taps: u64,
    /// Copies owned of each kind of upgrade.
    pub counts: Vec<u32>,
    /// The upgrade that the cursor is on.
    pub selected: usize,
}

impl Shop {
    /// What holds of every shop: five kinds of upgrade, the cursor on one of them.
    pub open spec fn inv(self) -> bool {
        &&& self.counts@.len() == UPGRADE_COUNT
        &&& self.selected < UPGRADE_COUNT
    }

    /// A new shop: no vibes, no taps, no upgrades, the cursor on the first.
    pub fn new() -> (s: Shop)
        ensures
            s.inv(),
            s.vibes == 0 && s.taps == 0 && s.selected == 0,
            forall|i: int| 0 <= i < UPGRADE_COUNT ==> #[trigger] s.counts@[i] == 0,
            total_rate(s.counts@) == 0,
    {
        let counts: Vec<u32> = vec![0, 0, 0, 0, 0];
        let s = Shop { vibes: 0, taps: 0, counts, selected: 0 };
        assert(rate_upto(s.counts@, 0) == 0);
        assert(rate_upto(s.counts@, 1) == 0);
        assert(rate_upto(s.counts@, 2) == 0);
        assert(rate_upto(s.counts@, 3) == 0);
        assert(rate_upto(s.counts@, 4) == 0);
        s
    }

    /// Vibes per second: the sum over the upgrades of rate times copies owned.
    pub fn rate(&self) -> (r: u64)
        requires
            self.inv(),
        ensures
            r == total_rate(self.counts@),
    {
        let mut sum: u64 = 0;
        let mut i: usize = 0;
        while i < UPGRADE_COUNT
            invariant
                self.inv(),
                i <= UPGRADE_COUNT,
                sum == rate_upto(self.counts@, i as int),
            decreases UPGRADE_COUNT - i,
        {
            proof {
                lemma_rate_upto_bound(self.counts@, i as int + 1);
            }
            let c = self.counts[i] as u64;
            let r = upgrade_rate(i);
            assert(r * c <= 500 * 0xffff_ffff) by (nonlinear_arith)
                requires
                    r <= 500,
                    c <= 0xffff_ffff,
            ;
            sum = sum + r * c;
            i += 1;
        }
        sum
    }

    /// A tap: one vibe more, one tap more.
    pub fn tap(&mut self)
        requires
            old(self).vibes < u64::MAX,
            old(self).taps < u64::MAX,
        ensures
            final(self).vibes == old(self).vibes + 1,
            final(self).taps == old(self).taps + 1,
            final(self).counts@ == old(self).counts@,
            final(self).selected == old(self).selected,
    {
        self.vibes = self.vibes + 1;
        self.taps = self.taps + 1;
    }

    /// Vibes that the upgrades earned since the last tick.
    pub fn earn(&mut self, earned: u64)
        requires
            old(self).vibes + earned <= u64::MAX,
        ensures
            final(self).vibes == old(self).vibes + earned,
            final(self).taps == old(self).taps,
            final(self).counts@ == old(self).counts@,
            final(self).selected == old(self).selected,
    {
        self.vibes = self.vibes + earned;
    }

    /// Whether `cost` vibes can be paid.
    pub fn affordable(&self, cost: u64) -> (b: bool)
        ensures
            b == (self.vibes >= cost),
    {
        self.vibes >= cost
    }

    /// Buys a copy of the selected upgrade at `cost`, if the vibes suffice. Returns
    /// whether it was bought.
    pub fn buy(&mut self, cost: u64) -> (bought: bool)
        requires
            old(self).inv(),
            old(self).vibes >= cost ==> old(self).counts@[old(self).selected as int] < u32::MAX,
        ensures
            final(self).inv(),
            bought == (old(self).vibes >= cost),
            bought ==> final(self).vibes == old(self).vibes - cost && final(self).counts@
                == old(self).counts@.update(
                old(self).selected as int,
                (old(self).counts@[old(self).selected as int] + 1) as u32,
            ),
            !bought ==> final(self).vibes == old(self).vibes && final(self).counts@
                == old(self).counts@,
            final(self).taps == old(self).taps,
            final(self).selected == old(self).selected,
    {
        if self.vibes >= cost {
            self.vibes = self.vibes - cost;
            let i = self.selected;
            let n = self.counts[i];
            self.counts.set(i, n + 1);
            true
        } else {
            false
        }
    }

    /// Moves the cursor up one upgrade, if it is not on the first.
    pub fn select_prev(&mut self)
        requires
            old(self).inv(),
        ensures
            final(self).inv(),
            final(self).selected == if old(self).selected > 0 {
                old(self).selected - 1
            } else {
                0
            },
            final(self).vibes == old(self).vibes,
            final(self).taps == old(self).taps,
            final(self).counts@ == old(self).counts@,
    {
        if self.selected > 0 {
            self.selected -= 1;
        }
    }

    /// Moves the cursor down one upgrade, if it is not on the last.
    pub fn select_next(&mut self)
        requires
            old(self).inv(),
        ensures
            final(self).inv(),
            final(self).selected == if old(self).selected + 1 < UPGRADE_COUNT {
                old(self).selected + 1
            } else {
                old(self).selected as int
            },
            final(self).vibes == old(self).vibes,
            final(self).taps == old(self).taps,
            final(self).counts@ == old(self).counts@,
    {
        if self.selected + 1 < self.counts.len() {
            self.selected += 1;
        }
    }

    /// A key press: q or Esc quits, space taps, up or k and down or j move the cursor,
    /// Enter buys the selected upgrade at `cost`, its current price.
    pub fn handle_key(&mut self, key: Key, cost: u64) -> (flow: Flow)
        requires
            old(self).inv(),
            key == Key::Char(' ') ==> old(self).vibes < u64::MAX && old(self).taps < u64::MAX,
            key == Key::Enter && old(self).vibes >= cost ==> old(self).counts@[old(
                self,
            ).selected as int] < u32::MAX,
        ensures
            final(self).inv(),
            flow == (if key == Key::Char('q') || key == Key::Esc {
                Flow::Quit
            } else {
                Flow::Continue
            }),
            key == Key::Char(' ') ==> final(self).vibes == old(self).vibes + 1 && final(self).taps
                == old(self).taps + 1 && final(self).counts@ == old(self).counts@
                && final(self).selected == old(self).selected,
            (key == Key::Up || key == Key::Char('k')) ==> final(self).selected == (if old(
                self,
            ).selected > 0 {
                old(self).selected - 1
            } else {
                0
            }) && final(self).vibes == old(self).vibes && final(self).taps == old(self).taps
                && final(self).counts@ == old(self).counts@,
            (key == Key::Down || key == Key::Char('j')) ==> final(self).selected == (if old(
                self,
            ).selected + 1 < UPGRADE_COUNT {
                old(self).selected + 1
            } else {
                old(self).selected as int
            }) && final(self).vibes == old(self).vibes && final(self).taps == old(self).taps
                && final(self).counts@ == old(self).counts@,
            key == Key::Enter ==> final(self).selected == old(self).selected && final(self).taps
                == old(self).taps && if old(self).vibes >= cost {
                final(self).vibes == old(self).vibes - cost && final(self).counts@
                    == old(self).counts@.update(
                    old(self).selected as int,
                    (old(self).counts@[old(self).selected as int] + 1) as u32,
                )
            } else {
                final(self).vibes == old(self).vibes && final(self).counts@ == old(self).counts@
            },
            !(key == Key::Char(' ') || key == Key::Up || key == Key::Char('k') || key == Key::Down
                || key == Key::Char('j') || key == Key::Enter) ==> final(self).vibes == old(
                self,
            ).vibes && final(self).taps == old(self).taps && final(self).counts@ == old(
                self,
            ).counts@ && final(self).selected == old(self).selected,
    {
        match key {
            Key::Char('q') | Key::Esc => Flow::Quit,
            Key::Char(' ') => {
                self.tap();
                Flow::Continue
            },
            Key::Up | Key::Char('k') => {
                self.select_prev();
                Flow::Continue
            },
            Key::Down | Key::Char('j') => {
                self.select_next();
                Flow::Continue
            },
            Key::Enter => {
                self.buy(cost);
                Flow::Continue
            },
            _ => Flow::Continue,
        }
    }
}

} // verus!
