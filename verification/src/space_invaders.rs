//! Space Invaders: the fleet, its fire, the shields and the player's ship.
use vstd::prelude::*;

use crate::keys::{Flow, Key};
use crate::rng::{clock_seed_subsec, lcg_high, lcg_spec, lcg_step};

verus! {

/// Aliens per row of the fleet.
pub const ALIEN_COLS: usize = 5;

/// Rows of the fleet.
pub const ALIEN_ROWS: usize = 3;

/// Columns between the centres of neighbouring aliens.
pub const ALIEN_STEP_X: i32 = 6;

/// Rows between the rows of the fleet.
pub const ALIEN_STEP_Y: i32 = 3;

/// Number of shields.
pub const SHIELD_COUNT: usize = 3;

/// Width of a shield in cells.
pub const SHIELD_W: usize = 6;

/// Height of a shield in cells.
pub const SHIELD_H: usize = 2;

/// Points for an alien of a fleet row: 30 on top, 20 in the middle, 10 below.
pub open spec fn alien_points(row: int) -> int {
    if row == 0 {
        30
    } else if row == 1 {
        20
    } else {
        10
    }
}

/// Half of `v`, rounded toward zero, as integer division does.
pub open spec fn trunc_half(v: int) -> int {
    if v >= 0 {
        v / 2
    } else {
        -((-v) / 2)
    }
}

/// A burst where an alien was shot; it fades over `ticks` ticks.
#[derive(Clone, Copy, Debug, PartialEq, Eq, Structural)]
pub struct Explosion {
    pub x: i32,
    pub y: i32,
    pub ticks: u8,
}

/// The game as plain values: the fleet as rows of flags, shields as hit points per cell,
/// explosions as (x, y, ticks), bullets as (x, y).
#[verifier::ext_equal]
pub struct Snap {
    pub cols: int,
    pub rows: int,
    pub alive: Seq<Seq<bool>>,
    pub fleet_x: int,
    pub fleet_y: int,
    pub fleet_dx: int,
    pub move_accum: int,
    pub move_interval: int,
    pub explosions: Seq<(int, int, int)>,
    pub player_bullet: Option<(int, int)>,
    pub alien_bullets: Seq<(int, int)>,
    pub alien_fire_accum: int,
    pub player_x: int,
    pub shields: Seq<Seq<Seq<int>>>,
    pub score: int,
    pub lives: int,
    pub level: int,
    pub paused: bool,
    pub game_over: bool,
    pub cleared: bool,
    pub rng: u64,
}

/// Whether some alien of fleet row `r` lives.
pub open spec fn row_any(alive: Seq<Seq<bool>>, r: int) -> bool {
    alive[r][0] || alive[r][1] || alive[r][2] || alive[r][3] || alive[r][4]
}

/// The lowest fleet row with a living alien.
pub open spec fn lowest_row(alive: Seq<Seq<bool>>) -> Option<int> {
    if row_any(alive, 2) {
        Some(2)
    } else if row_any(alive, 1) {
        Some(1)
    } else if row_any(alive, 0) {
        Some(0)
    } else {
        None
    }
}

/// The number of living aliens among the first `n` in row-major order.
pub open spec fn count_alive(alive: Seq<Seq<bool>>, n: int) -> int
    decreases n,
{
    if n <= 0 {
        0
    } else {
        count_alive(alive, n - 1) + if alive[(n - 1) / 5][(n - 1) % 5] {
            1int
        } else {
            0
        }
    }
}

/// The least and greatest column of a living alien among the first `n` in row-major order;
/// (5, 0) when there is none.
pub open spec fn extent(alive: Seq<Seq<bool>>, n: int) -> (int, int)
    decreases n,
{
    if n <= 0 {
        (5, 0)
    } else {
        let (mn, mx) = extent(alive, n - 1);
        let c = (n - 1) % 5;
        if alive[(n - 1) / 5][c] {
            (if c < mn {
                c
            } else {
                mn
            }, if c > mx {
                c
            } else {
                mx
            })
        } else {
            (mn, mx)
        }
    }
}

/// The lowest living alien of column `c`.
pub open spec fn bottom_in_col(alive: Seq<Seq<bool>>, c: int) -> Option<int> {
    if alive[2][c] {
        Some(2)
    } else if alive[1][c] {
        Some(1)
    } else if alive[0][c] {
        Some(0)
    } else {
        None
    }
}

/// The aliens that may fire: the lowest living one of each of the first `c` columns,
/// column by column.
pub open spec fn shooters(alive: Seq<Seq<bool>>, c: int) -> Seq<(int, int)>
    decreases c,
{
    if c <= 0 {
        Seq::empty()
    } else {
        let rest = shooters(alive, c - 1);
        match bottom_in_col(alive, c - 1) {
            Some(r) => rest.push((r, c - 1)),
            None => rest,
        }
    }
}

/// The explosions one tick older, those that faded out dropped.
pub open spec fn aged(e: Seq<(int, int, int)>) -> Seq<(int, int, int)>
    decreases e.len(),
{
    if e.len() == 0 {
        e
    } else {
        let rest = aged(e.drop_last());
        let last = e.last();
        let t = if last.2 > 0 {
            last.2 - 1
        } else {
            0
        };
        if t > 0 {
            rest.push((last.0, last.1, t))
        } else {
            rest
        }
    }
}

impl Snap {
    /// Where the alien of fleet row `r`, column `c` stands.
    pub open spec fn alien_pos(self, r: int, c: int) -> (int, int) {
        (self.fleet_x + c * 6, self.fleet_y + r * 3)
    }

    /// The row of the player's ship.
    pub open spec fn player_y(self) -> int {
        self.rows - 3
    }

    /// The left column of shield `k`: the three shields, four columns apart, centred.
    pub open spec fn shield_x(self, k: int) -> int {
        trunc_half(self.cols - 26) + k * 10
    }

    /// The top row of the shields.
    pub open spec fn shield_y(self) -> int {
        self.rows - 7
    }

    /// The first shield cell, trying shields in order, that (`bx`, `by`) lies on and that
    /// has hit points left, from shield `k` on: (shield, row, column).
    pub open spec fn shield_hit(self, bx: int, by: int, k: int) -> Option<(int, int, int)>
        decreases 3 - k,
    {
        if k >= 3 || k < 0 {
            None
        } else {
            let rx = bx - self.shield_x(k);
            let ry = by - self.shield_y();
            if 0 <= rx < 6 && 0 <= ry < 2 && self.shields[k][ry][rx] > 0 {
                Some((k, ry, rx))
            } else {
                self.shield_hit(bx, by, k + 1)
            }
        }
    }

    /// Whether finding the shield cell under (`bx`, `by`), trying shields in order from
    /// `k` until one with hit points left is found, keeps every offset from a shield's
    /// corner within `i32`.
    pub open spec fn probe_fits(self, bx: int, by: int, k: int) -> bool
        decreases 3 - k,
    {
        if k >= 3 || k < 0 {
            true
        } else {
            let rx = bx - self.shield_x(k);
            let ry = by - self.shield_y();
            &&& i32::MIN <= rx <= i32::MAX
            &&& i32::MIN <= ry <= i32::MAX
            &&& ((0 <= rx < 6 && 0 <= ry < 2 && self.shields[k][ry][rx] > 0) || self.probe_fits(
                bx,
                by,
                k + 1,
            ))
        }
    }

    /// The game with one hit point taken from shield cell `h`.
    pub open spec fn damaged(self, h: (int, int, int)) -> Snap {
        Snap {
            shields: self.shields.update(
                h.0,
                self.shields[h.0].update(h.1, self.shields[h.0][h.1].update(h.2, self.shields[h.0][h.1][h.2] - 1)),
            ),
            ..self
        }
    }

    /// The first living alien, in row-major order from index `n` on, that a player bullet
    /// at (`bx`, `y`) hits: within a column of its centre, on its row or the one below.
    pub open spec fn alien_hit(self, bx: int, y: int, n: int) -> Option<(int, int)>
        decreases 15 - n,
    {
        if n >= 15 || n < 0 {
            None
        } else {
            let r = n / 5;
            let c = n % 5;
            let (ax, ay) = self.alien_pos(r, c);
            if self.alive[r][c] && ax - 1 <= bx <= ax + 1 && ay <= y <= ay + 1 {
                Some((r, c))
            } else {
                self.alien_hit(bx, y, n + 1)
            }
        }
    }

    /// The fleet after one tick: every `move_interval` ticks it steps sideways, or, where
    /// its outermost living aliens reach the edge in its direction, it steps down and turns.
    #[verifier::opaque]
    pub open spec fn fleet_step(self) -> Snap {
        let acc = self.move_accum + 1;
        if acc >= self.move_interval {
            let (mn, mx) = extent(self.alive, 15);
            if mn <= mx {
                let left = self.fleet_x + mn * 6;
                let right = self.fleet_x + mx * 6;
                let hit_right = self.fleet_dx > 0 && right >= self.cols - 2;
                let hit_left = self.fleet_dx < 0 && left <= 1;
                if hit_right || hit_left {
                    Snap {
                        move_accum: 0,
                        fleet_y: self.fleet_y + 1,
                        fleet_dx: -self.fleet_dx,
                        ..self
                    }
                } else {
                    Snap { move_accum: 0, fleet_x: self.fleet_x + self.fleet_dx, ..self }
                }
            } else {
                Snap { move_accum: 0, ..self }
            }
        } else {
            Snap { move_accum: acc, ..self }
        }
    }

    /// Whether the lowest living row has come down to the ship's row.
    pub open spec fn landed(self) -> bool {
        match lowest_row(self.alive) {
            Some(lr) => self.fleet_y + lr * 3 >= self.player_y(),
            None => false,
        }
    }

    /// The player's bullet after one tick: it rises a row; it is spent above the second
    /// row or on a shield cell with hit points left (taking one); on a living alien it
    /// kills it for its points, leaves an explosion, and the fleet speeds up with fewer
    /// aliens left; killing the last one clears the level and ends the tick (`true`).
    #[verifier::opaque]
    pub open spec fn bullet_step(self) -> (Snap, bool) {
        match self.player_bullet {
            None => (self, false),
            Some(b) => {
                let bx = b.0;
                let nby = b.1 - 1;
                if nby < 1 {
                    (Snap { player_bullet: None, ..self }, false)
                } else {
                    match self.shield_hit(bx, nby, 0) {
                        Some(h) => (Snap { player_bullet: None, ..self.damaged(h) }, false),
                        None => match self.alien_hit(bx, nby, 0) {
                            None => (Snap { player_bullet: Some((bx, nby)), ..self }, false),
                            Some(rc) => {
                                let alive2 = self.alive.update(
                                    rc.0,
                                    self.alive[rc.0].update(rc.1, false),
                                );
                                let pos = self.alien_pos(rc.0, rc.1);
                                let cnt = count_alive(alive2, 15);
                                let s2 = Snap {
                                    alive: alive2,
                                    score: self.score + alien_points(rc.0),
                                    explosions: self.explosions.push((pos.0, pos.1, 8)),
                                    move_interval: 1 + cnt / 3,
                                    player_bullet: None,
                                    ..self
                                };
                                if cnt == 0 {
                                    (Snap { cleared: true, ..s2 }, true)
                                } else {
                                    (s2, false)
                                }
                            },
                        },
                    }
                }
            },
        }
    }

    /// Ticks between alien shots on this level: 25, two fewer per level, never under 6.
    pub open spec fn fire_interval(self) -> int {
        if 25 - 2 * self.level < 6 {
            6
        } else {
            25 - 2 * self.level
        }
    }

    /// The fleet's fire after one tick: every fire interval the lowest alien of a random
    /// column among those with living aliens fires a bullet just below itself.
    #[verifier::opaque]
    pub open spec fn fire_step(self) -> Snap {
        let acc = self.alien_fire_accum + 1;
        if acc >= self.fire_interval() {
            let cand = shooters(self.alive, 5);
            if cand.len() > 0 {
                let r1 = lcg_spec(self.rng);
                let i = lcg_high(r1) % (cand.len() as u64);
                let rc = cand[i as int];
                let pos = self.alien_pos(rc.0, rc.1);
                Snap {
                    alien_fire_accum: 0,
                    rng: r1,
                    alien_bullets: self.alien_bullets.push((pos.0, pos.1 + 1)),
                    ..self
                }
            } else {
                Snap { alien_fire_accum: 0, ..self }
            }
        } else {
            Snap { alien_fire_accum: acc, ..self }
        }
    }

    /// The alien bullets after one tick, `done` moved already and `rest` to go: each falls a
    /// row; it is gone past the bottom or on a shield cell with hit points left (taking one);
    /// one that reaches the ship takes a life and clears all bullets, the player's too; the
    /// last life lost ends the game at once, the other bullets left where they are.
    #[verifier::opaque]
    pub open spec fn fly(self, done: Seq<(int, int)>, rest: Seq<(int, int)>) -> Snap
        decreases rest.len(),
    {
        if rest.len() == 0 {
            Snap { alien_bullets: done, ..self }
        } else {
            let b = rest[0];
            let nby = b.1 + 1;
            if nby >= self.rows {
                self.fly(done, rest.drop_first())
            } else {
                match self.shield_hit(b.0, nby, 0) {
                    Some(h) => self.damaged(h).fly(done, rest.drop_first()),
                    None => if nby == self.player_y() && self.player_x - 2 <= b.0 <= self.player_x
                        + 2 {
                        let lives = if self.lives > 0 {
                            self.lives - 1
                        } else {
                            0
                        };
                        if lives == 0 {
                            Snap {
                                lives: 0,
                                game_over: true,
                                alien_bullets: done + rest.drop_first(),
                                ..self
                            }
                        } else {
                            Snap {
                                lives: lives,
                                player_bullet: None,
                                alien_bullets: Seq::empty(),
                                ..self
                            }
                        }
                    } else {
                        self.fly(done.push((b.0, nby)), rest.drop_first())
                    },
                }
            }
        }
    }

    /// The game after one tick: nothing while paused, over or cleared; otherwise the
    /// explosions age, the fleet moves, a fleet down at the ship ends the game, the player's
    /// bullet moves, the fleet fires, and its bullets move.
    pub open spec fn tick_result(self) -> Snap {
        if self.paused || self.game_over || self.cleared {
            self
        } else {
            let s1 = Snap { explosions: aged(self.explosions), ..self }.fleet_step();
            if s1.landed() {
                Snap { game_over: true, ..s1 }
            } else {
                let (s2, stop) = s1.bullet_step();
                if stop {
                    s2
                } else {
                    let s3 = s2.fire_step();
                    s3.fly(Seq::empty(), s3.alien_bullets)
                }
            }
        }
    }
}


/// No living alien among the first `n` exactly when the count is zero.
pub proof fn lemma_count_zero(alive: Seq<Seq<bool>>, n: int)
    requires
        0 <= n,
    ensures
        count_alive(alive, n) >= 0,
        count_alive(alive, n) <= n,
        (count_alive(alive, n) == 0) == (forall|m: int| 0 <= m < n ==> !#[trigger] alive[m / 5][m % 5]),
    decreases n,
{
    if n > 0 {
        lemma_count_zero(alive, n - 1);
        if count_alive(alive, n) == 0 {
            assert forall|m: int| 0 <= m < n implies !#[trigger] alive[m / 5][m % 5] by {
                if m < n - 1 {
                }
            }
        }
    }
}

/// A fleet with a living alien has a lowest living row.
pub proof fn lemma_lowest_row(alive: Seq<Seq<bool>>)
    ensures
        (lowest_row(alive) is None) == (count_alive(alive, 15) == 0),
{
    lemma_count_zero(alive, 15);
    if lowest_row(alive) is None {
        assert forall|m: int| 0 <= m < 15 implies !#[trigger] alive[m / 5][m % 5] by {
            assert(0 <= m / 5 < 3 && 0 <= m % 5 < 5);
        }
    } else {
        let r = lowest_row(alive)->0;
        let c: int = if alive[r][0] {
            0
        } else if alive[r][1] {
            1
        } else if alive[r][2] {
            2
        } else if alive[r][3] {
            3
        } else {
            4
        };
        assert((5 * r + c) / 5 == r && (5 * r + c) % 5 == c);
        assert(alive[(5 * r + c) / 5][(5 * r + c) % 5]);
    }
}

/// The extent of the fleet lies within its columns.
pub proof fn lemma_extent_bounds(alive: Seq<Seq<bool>>, n: int)
    ensures
        0 <= extent(alive, n).0 <= 5,
        0 <= extent(alive, n).1 <= 4,
    decreases n,
{
    if n > 0 {
        lemma_extent_bounds(alive, n - 1);
    }
}

/// The bullets a game holds do not change how the bullets in flight move.
pub proof fn lemma_fly_ignores_bullets(s: Snap, b: Seq<(int, int)>, done: Seq<(int, int)>, rest: Seq<(int, int)>)
    ensures
        (Snap { alien_bullets: b, ..s }).fly(done, rest) == s.fly(done, rest),
    decreases rest.len(),
{
    reveal(Snap::fly);
    let t = Snap { alien_bullets: b, ..s };
    if rest.len() > 0 {
        let bb = rest[0];
        let nby = bb.1 + 1;
        if nby >= s.rows {
            lemma_fly_ignores_bullets(s, b, done, rest.drop_first());
        } else {
            assert(t.shield_hit(bb.0, nby, 0) == s.shield_hit(bb.0, nby, 0)) by {
                lemma_shield_hit_ignores_bullets(s, b, bb.0, nby, 0);
            }
            match s.shield_hit(bb.0, nby, 0) {
                Some(h) => {
                    assert(t.damaged(h) == Snap { alien_bullets: b, ..s.damaged(h) });
                    lemma_fly_ignores_bullets(s.damaged(h), b, done, rest.drop_first());
                },
                None => {
                    lemma_fly_ignores_bullets(s, b, done.push((bb.0, nby)), rest.drop_first());
                },
            }
        }
    }
    assert(t.fly(done, rest) =~~= s.fly(done, rest));
}

/// The bullets a game holds do not change which shield cell a bullet hits.
pub proof fn lemma_shield_hit_ignores_bullets(s: Snap, b: Seq<(int, int)>, bx: int, by: int, k: int)
    ensures
        (Snap { alien_bullets: b, ..s }).shield_hit(bx, by, k) == s.shield_hit(bx, by, k),
    decreases 3 - k,
{
    if 0 <= k < 3 {
        lemma_shield_hit_ignores_bullets(s, b, bx, by, k + 1);
    }
}

/// The flight of the alien bullets keeps the score.
pub proof fn lemma_fly_keeps_score(s: Snap, done: Seq<(int, int)>, rest: Seq<(int, int)>)
    ensures
        s.fly(done, rest).score == s.score,
    decreases rest.len(),
{
    reveal(Snap::fly);
    if rest.len() > 0 {
        let b = rest[0];
        let nby = b.1 + 1;
        if nby >= s.rows {
            lemma_fly_keeps_score(s, done, rest.drop_first());
        } else {
            match s.shield_hit(b.0, nby, 0) {
                Some(h) => lemma_fly_keeps_score(s.damaged(h), done, rest.drop_first()),
                None => lemma_fly_keeps_score(s, done.push((b.0, nby)), rest.drop_first()),
            }
        }
    }
}

/// In a tick where the fleet does not land, the score comes out of the ship's bullet.
pub proof fn lemma_tick_score(s0: Snap, s1: Snap)
    requires
        !(s0.paused || s0.game_over || s0.cleared),
        s1 == (Snap { explosions: aged(s0.explosions), ..s0 }).fleet_step(),
        !s1.landed(),
    ensures
        s0.tick_result().score == s1.bullet_step().0.score,
{
    reveal(Snap::fire_step);
    let s2 = s1.bullet_step().0;
    let s3 = s2.fire_step();
    lemma_fly_keeps_score(s3, Seq::empty(), s3.alien_bullets);
}

/// A tick scores at most one alien: 30 points at most.
pub proof fn law_tick_adds_at_most_30(s: Snap)
    ensures
        s.tick_result().score <= s.score + 30,
{
    reveal(Snap::fleet_step);
    reveal(Snap::bullet_step);
    if !(s.paused || s.game_over || s.cleared) {
        let s1 = Snap { explosions: aged(s.explosions), ..s }.fleet_step();
        assert(s1.score == s.score);
        if !s1.landed() {
            lemma_tick_score(s, s1);
        }
    }
}

/// A tick in which the ship's bullet clears the level ends there.
pub proof fn lemma_tick_stop(s0: Snap, s1: Snap, s2: Snap)
    requires
        !(s0.paused || s0.game_over || s0.cleared),
        s1 == (Snap { explosions: aged(s0.explosions), ..s0 }).fleet_step(),
        !s1.landed(),
        (s2, true) == s1.bullet_step(),
    ensures
        s2 == s0.tick_result(),
{
}

/// A tick in which the level goes on ends with the fleet's fire and its bullets' flight.
pub proof fn lemma_tick_go(s0: Snap, s1: Snap, s2: Snap, s3: Snap, s4: Snap)
    requires
        !(s0.paused || s0.game_over || s0.cleared),
        s1 == (Snap { explosions: aged(s0.explosions), ..s0 }).fleet_step(),
        !s1.landed(),
        (s2, false) == s1.bullet_step(),
        s3 == s2.fire_step(),
        s4 == s3.fly(Seq::empty(), s3.alien_bullets),
    ensures
        s4 == s0.tick_result(),
{
}

/// Whether the shields have their shape: three shields of two rows of six cells.
pub open spec fn shaped(sh: Seq<Seq<Seq<int>>>) -> bool {
    &&& sh.len() == 3
    &&& forall|k: int| 0 <= k < 3 ==> (#[trigger] sh[k]).len() == 2
    &&& forall|k: int, r: int| 0 <= k < 3 && 0 <= r < 2 ==> (#[trigger] sh[k][r]).len() == 6
}

/// Whether no cell of shields `b` holds more hit points than the same cell of `a`.
pub open spec fn worn(a: Seq<Seq<Seq<int>>>, b: Seq<Seq<Seq<int>>>) -> bool {
    forall|k: int, r: int, c: int|
        0 <= k < 3 && 0 <= r < 2 && 0 <= c < 6 ==> #[trigger] b[k][r][c] <= a[k][r][c]
}

/// On a terminal of at most `u16` cells each way, a point well within `i32` can always be
/// looked up among the shields.
pub proof fn lemma_small_probe_fits(s: Snap, bx: int, by: int, k: int)
    requires
        small(bx),
        small(by),
        0 <= s.cols <= 65535,
        0 <= s.rows <= 65535,
    ensures
        s.probe_fits(bx, by, k),
    decreases 3 - k,
{
    if 0 <= k < 3 {
        lemma_small_probe_fits(s, bx, by, k + 1);
    }
}

/// A shield cell that a bullet hits is a cell of the shields with hit points left.
pub proof fn lemma_shield_hit_cell(s: Snap, bx: int, by: int, k: int)
    ensures
        match s.shield_hit(bx, by, k) {
            Some(h) => 0 <= h.0 < 3 && 0 <= h.1 < 2 && 0 <= h.2 < 6 && s.shields[h.0][h.1][h.2] > 0,
            None => true,
        },
    decreases 3 - k,
{
    if 0 <= k < 3 {
        lemma_shield_hit_cell(s, bx, by, k + 1);
    }
}

/// Taking a hit point from a shield cell keeps the shields' shape and mends nothing.
pub proof fn lemma_damaged_worn(s: Snap, h: (int, int, int))
    requires
        shaped(s.shields),
        0 <= h.0 < 3 && 0 <= h.1 < 2 && 0 <= h.2 < 6,
    ensures
        shaped(s.damaged(h).shields),
        worn(s.shields, s.damaged(h).shields),
{
    let d = s.damaged(h).shields;
    assert forall|k: int, r: int, c: int| 0 <= k < 3 && 0 <= r < 2 && 0 <= c < 6 implies #[trigger] d[k][r][c] <= s.shields[k][r][c] by {
        if k == h.0 && r == h.1 && c == h.2 {
        } else if k == h.0 && r == h.1 {
        } else if k == h.0 {
        }
    }
}

/// The flight of the alien bullets keeps the score, never gives back a life and mends no
/// shield.
pub proof fn lemma_fly_worn(s: Snap, done: Seq<(int, int)>, rest: Seq<(int, int)>)
    requires
        shaped(s.shields),
        s.lives >= 0,
    ensures
        shaped(s.fly(done, rest).shields),
        worn(s.shields, s.fly(done, rest).shields),
        s.fly(done, rest).score == s.score,
        s.fly(done, rest).lives <= s.lives,
    decreases rest.len(),
{
    reveal(Snap::fly);
    if rest.len() > 0 {
        let b = rest[0];
        let nby = b.1 + 1;
        if nby >= s.rows {
            lemma_fly_worn(s, done, rest.drop_first());
        } else {
            lemma_shield_hit_cell(s, b.0, nby, 0);
            match s.shield_hit(b.0, nby, 0) {
                Some(h) => {
                    lemma_damaged_worn(s, h);
                    lemma_fly_worn(s.damaged(h), done, rest.drop_first());
                },
                None => {
                    lemma_fly_worn(s, done.push((b.0, nby)), rest.drop_first());
                },
            }
        }
    }
}

/// A tick never lowers the score, never gives back a life, and never mends a shield.
pub proof fn law_tick_never_undoes(s: Snap)
    requires
        shaped(s.shields),
        s.lives >= 0,
    ensures
        s.tick_result().score >= s.score,
        s.tick_result().lives <= s.lives,
        shaped(s.tick_result().shields),
        worn(s.shields, s.tick_result().shields),
{
    reveal(Snap::fleet_step);
    reveal(Snap::bullet_step);
    reveal(Snap::fire_step);
    if !(s.paused || s.game_over || s.cleared) {
        let s1 = Snap { explosions: aged(s.explosions), ..s }.fleet_step();
        assert(s1.shields == s.shields && s1.score == s.score && s1.lives == s.lives);
        if !s1.landed() {
            let (s2, stop) = s1.bullet_step();
            match s1.player_bullet {
                Some(b) => {
                    lemma_shield_hit_cell(s1, b.0, b.1 - 1, 0);
                    match s1.shield_hit(b.0, b.1 - 1, 0) {
                        Some(h) => lemma_damaged_worn(s1, h),
                        None => {},
                    }
                },
                None => {},
            }
            assert(shaped(s2.shields) && worn(s.shields, s2.shields));
            assert(s2.score >= s.score && s2.lives == s.lives);
            if !stop {
                let s3 = s2.fire_step();
                assert(s3.shields == s2.shields && s3.score == s2.score && s3.lives == s2.lives);
                lemma_fly_worn(s3, Seq::empty(), s3.alien_bullets);
            }
        }
    }
}

/// Whether the alien at index `k` of the fleet, counted row by row, lives.
pub open spec fn alive_at(alive: Seq<Seq<bool>>, k: int) -> bool {
    alive[k / 5][k % 5]
}

/// The columns that `extent` gives are those of the leftmost and the rightmost living
/// alien among the first `n`, and (5, 0) where none of them lives.
proof fn lemma_extent_meaning(alive: Seq<Seq<bool>>, n: int)
    requires
        0 <= n <= 15,
    ensures
        forall|k: int|
            0 <= k < n && #[trigger] alive_at(alive, k) ==> extent(alive, n).0 <= k % 5 <= extent(
                alive,
                n,
            ).1,
        (exists|k: int| 0 <= k < n && #[trigger] alive_at(alive, k)) ==> {
            &&& exists|k: int| 0 <= k < n && #[trigger] alive_at(alive, k) && k % 5 == extent(alive, n).0
            &&& exists|k: int| 0 <= k < n && #[trigger] alive_at(alive, k) && k % 5 == extent(alive, n).1
        },
        !(exists|k: int| 0 <= k < n && #[trigger] alive_at(alive, k)) ==> extent(alive, n) == (5int, 0int),
    decreases n,
{
    if n > 0 {
        let m = n - 1;
        lemma_extent_meaning(alive, m);
        lemma_extent_bounds(alive, m);
        let (mn, mx) = extent(alive, m);
        if alive_at(alive, m) {
            assert(alive[m / 5][m % 5]);
            if exists|k: int| 0 <= k < m && #[trigger] alive_at(alive, k) {
                let k1 = choose|k: int| 0 <= k < m && #[trigger] alive_at(alive, k) && k % 5 == mn;
                let k2 = choose|k: int| 0 <= k < m && #[trigger] alive_at(alive, k) && k % 5 == mx;
                if m % 5 < mn {
                    assert(alive_at(alive, m) && m % 5 == extent(alive, n).0);
                } else {
                    assert(alive_at(alive, k1) && k1 % 5 == extent(alive, n).0);
                }
                if m % 5 > mx {
                    assert(alive_at(alive, m) && m % 5 == extent(alive, n).1);
                } else {
                    assert(alive_at(alive, k2) && k2 % 5 == extent(alive, n).1);
                }
            } else {
                assert(alive_at(alive, m) && m % 5 == extent(alive, n).0);
                assert(alive_at(alive, m) && m % 5 == extent(alive, n).1);
            }
        } else {
            if exists|k: int| 0 <= k < n && #[trigger] alive_at(alive, k) {
                let k0 = choose|k: int| 0 <= k < n && #[trigger] alive_at(alive, k);
                assert(k0 < m);
            }
        }
    }
}

/// The alien of fleet row `r`, column `c` is the one at index `5 * r + c`.
proof fn lemma_alive_index(alive: Seq<Seq<bool>>, r: int, c: int)
    requires
        0 <= r < 3,
        0 <= c < 5,
    ensures
        alive_at(alive, 5 * r + c) == alive[r][c],
        (5 * r + c) % 5 == c,
        0 <= 5 * r + c < 15,
{
    assert((5 * r + c) / 5 == r && (5 * r + c) % 5 == c);
}

/// The fleet turns at the edges exactly when it has to. When it steps, a fleet marching
/// left steps down a row and turns when one of its living aliens stands at column 1 or
/// further left, and else moves one column on; a fleet marching right does the same
/// when one of its living aliens stands two columns from the right edge or beyond. Only
/// the fleet's place, direction and pace counter change.
pub proof fn law_fleet_turns_at_the_edges(s: Snap)
    requires
        s.move_accum + 1 >= s.move_interval,
        s.fleet_dx != 0,
        exists|r: int, c: int| 0 <= r < 3 && 0 <= c < 5 && #[trigger] s.alive[r][c],
    ensures
        ({
            let edge = if s.fleet_dx < 0 {
                exists|r: int, c: int|
                    0 <= r < 3 && 0 <= c < 5 && #[trigger] s.alive[r][c] && s.fleet_x + c * 6 <= 1
            } else {
                exists|r: int, c: int|
                    0 <= r < 3 && 0 <= c < 5 && #[trigger] s.alive[r][c] && s.fleet_x + c * 6
                        >= s.cols - 2
            };
            &&& edge ==> s.fleet_step() == (Snap {
                move_accum: 0,
                fleet_y: s.fleet_y + 1,
                fleet_dx: -s.fleet_dx,
                ..s
            })
            &&& !edge ==> s.fleet_step() == (Snap {
                move_accum: 0,
                fleet_x: s.fleet_x + s.fleet_dx,
                ..s
            })
        }),
{
    reveal(Snap::fleet_step);
    let a = s.alive;
    lemma_extent_meaning(a, 15);
    lemma_extent_bounds(a, 15);
    let (mn, mx) = extent(a, 15);
    let (r0, c0) = choose|r: int, c: int| 0 <= r < 3 && 0 <= c < 5 && #[trigger] s.alive[r][c];
    lemma_alive_index(a, r0, c0);
    assert(mn <= mx);
    let k1 = choose|k: int| 0 <= k < 15 && #[trigger] alive_at(a, k) && k % 5 == mn;
    let k2 = choose|k: int| 0 <= k < 15 && #[trigger] alive_at(a, k) && k % 5 == mx;
    lemma_alive_index(a, k1 / 5, k1 % 5);
    lemma_alive_index(a, k2 / 5, k2 % 5);
    assert(a[k1 / 5][mn]);
    assert(a[k2 / 5][mx]);
    assert forall|r: int, c: int| 0 <= r < 3 && 0 <= c < 5 && #[trigger] a[r][c] implies mn <= c <= mx by {
        lemma_alive_index(a, r, c);
    }
    if s.fleet_dx < 0 {
        if s.fleet_x + mn * 6 <= 1 {
            assert(a[k1 / 5][mn] && s.fleet_x + mn * 6 <= 1);
        }
    } else {
        if s.fleet_x + mx * 6 >= s.cols - 2 {
            assert(a[k2 / 5][mx] && s.fleet_x + mx * 6 >= s.cols - 2);
        }
    }
}

/// Whether a bullet at (`bx`, `y`) lies in the hit box of the alien of fleet row `r`,
/// column `c`: within a column of its centre, on its row or the row below.
pub open spec fn in_hit_box(s: Snap, bx: int, y: int, r: int, c: int) -> bool {
    &&& s.fleet_x + c * 6 - 1 <= bx <= s.fleet_x + c * 6 + 1
    &&& s.fleet_y + r * 3 <= y <= s.fleet_y + r * 3 + 1
}

/// What the search for the hit alien from index `n` on finds: a living alien at index
/// `n` or later in whose hit box the bullet lies, or none where no such alien is left.
proof fn lemma_alien_hit_from(s: Snap, bx: int, y: int, n: int)
    requires
        0 <= n <= 15,
    ensures
        match s.alien_hit(bx, y, n) {
            Some(rc) => {
                &&& 0 <= rc.0 < 3 && 0 <= rc.1 < 5
                &&& s.alive[rc.0][rc.1]
                &&& in_hit_box(s, bx, y, rc.0, rc.1)
            },
            None => forall|k: int|
                n <= k < 15 ==> !(#[trigger] alive_at(s.alive, k) && in_hit_box(s, bx, y, k / 5, k % 5)),
        },
    decreases 15 - n,
{
    if n < 15 {
        lemma_alien_hit_from(s, bx, y, n + 1);
        assert(0 <= n / 5 < 3 && 0 <= n % 5 < 5);
        match s.alien_hit(bx, y, n) {
            Some(rc) => {},
            None => {
                assert forall|k: int|
                    n <= k < 15 implies !(#[trigger] alive_at(s.alive, k) && in_hit_box(s, bx, y, k / 5, k % 5)) by {
                    if k == n {
                    }
                }
            },
        }
    }
}

/// A ship's bullet at (`bx`, `y`) hits an alien exactly when it lies within a column of a
/// living alien's centre, on that alien's row or the row below; the alien it hits is a
/// living one for which that holds.
pub proof fn law_bullet_hit_box(s: Snap, bx: int, y: int)
    ensures
        (s.alien_hit(bx, y, 0) is Some) == (exists|r: int, c: int|
            0 <= r < 3 && 0 <= c < 5 && #[trigger] s.alive[r][c] && s.fleet_x + c * 6 - 1 <= bx
                <= s.fleet_x + c * 6 + 1 && s.fleet_y + r * 3 <= y <= s.fleet_y + r * 3 + 1),
        match s.alien_hit(bx, y, 0) {
            Some(rc) => {
                &&& 0 <= rc.0 < 3 && 0 <= rc.1 < 5
                &&& s.alive[rc.0][rc.1]
                &&& s.fleet_x + rc.1 * 6 - 1 <= bx <= s.fleet_x + rc.1 * 6 + 1
                &&& s.fleet_y + rc.0 * 3 <= y <= s.fleet_y + rc.0 * 3 + 1
            },
            None => true,
        },
{
    lemma_alien_hit_from(s, bx, y, 0);
    match s.alien_hit(bx, y, 0) {
        Some(rc) => {
            assert(s.alive[rc.0][rc.1]);
        },
        None => {
            assert forall|r: int, c: int| 0 <= r < 3 && 0 <= c < 5 && #[trigger] s.alive[r][c] implies !(
            s.fleet_x + c * 6 - 1 <= bx <= s.fleet_x + c * 6 + 1 && s.fleet_y + r * 3 <= y <= s.fleet_y
                + r * 3 + 1) by {
                lemma_alive_index(s.alive, r, c);
                assert((5 * r + c) / 5 == r);
                assert(!(alive_at(s.alive, 5 * r + c) && in_hit_box(s, bx, y, (5 * r + c) / 5, (5 * r + c) % 5)));
            }
        },
    }
}

/// Whether a coordinate stays well within `i32`.
pub open spec fn small(v: int) -> bool {
    -100_000 <= v <= 100_000
}

/// The state of a game of Space Invaders.
pub struct Game {
    /// Terminal width.
    pub cols: u16,
    /// Terminal height.
    pub rows: u16,
    /// Which aliens of the fleet live, by row and column.
    pub alive: [[bool; ALIEN_COLS]; ALIEN_ROWS],
    /// Centre column of the fleet's left column.
    pub fleet_x: i32,
    /// Row of the fleet's top row.
    pub fleet_y: i32,
    /// The fleet's direction: 1 right, -1 left.
    pub fleet_dx: i32,
    pub move_accum: u32,
    /// Ticks between two fleet steps.
    pub move_interval: u32,
    pub explosions: Vec<Explosion>,
    pub player_bullet: Option<(i32, i32)>,
    pub alien_bullets: Vec<(i32, i32)>,
    pub alien_fire_accum: u32,
    /// Centre column of the ship.
    pub player_x: i32,
    /// Hit points, 0 to 4, of each cell of each shield.
    pub shields: [[[u8; SHIELD_W]; SHIELD_H]; SHIELD_COUNT],
    pub score: u32,
    pub lives: u32,
    pub level: u32,
    pub paused: bool,
    pub game_over: bool,
    /// Whether the whole fleet is shot down and the next level waits.
    pub cleared: bool,
    /// State of the fleet's fire.
    pub rng: u64,
}

/// The ship's column after a move to column `x` on a screen `cols` wide: kept between
/// column 2 and three columns from the right edge, the right bound winning on a narrow
/// screen.
pub open spec fn ship_x(x: int, cols: int) -> int {
    let m = if x < 2 {
        2
    } else {
        x
    };
    if m > cols - 3 {
        cols - 3
    } else {
        m
    }
}

/// A bullet as plain values.
pub open spec fn pt(b: (i32, i32)) -> (int, int) {
    (b.0 as int, b.1 as int)
}

/// An explosion as plain values.
pub open spec fn burst(e: Explosion) -> (int, int, int) {
    (e.x as int, e.y as int, e.ticks as int)
}

impl Game {
    /// The game as plain values.
    pub open spec fn snap(self) -> Snap {
        Snap {
            cols: self.cols as int,
            rows: self.rows as int,
            alive: Seq::new(3, |r: int| self.alive[r]@),
            fleet_x: self.fleet_x as int,
            fleet_y: self.fleet_y as int,
            fleet_dx: self.fleet_dx as int,
            move_accum: self.move_accum as int,
            move_interval: self.move_interval as int,
            explosions: self.explosions@.map_values(|e: Explosion| burst(e)),
            player_bullet: match self.player_bullet {
                Some(b) => Some(pt(b)),
                None => None,
            },
            alien_bullets: self.alien_bullets@.map_values(|b: (i32, i32)| pt(b)),
            alien_fire_accum: self.alien_fire_accum as int,
            player_x: self.player_x as int,
            shields: Seq::new(
                3,
                |k: int| Seq::new(2, |ry: int| Seq::new(6, |rx: int| self.shields[k][ry][rx] as int)),
            ),
            score: self.score as int,
            lives: self.lives as int,
            level: self.level as int,
            paused: self.paused,
            game_over: self.game_over,
            cleared: self.cleared,
            rng: self.rng,
        }
    }

    /// What holds of every game, keeping the arithmetic within range: the fleet moves
    /// one column at a time and stays near the screen, it is above the ship while the
    /// game runs, the counters stay small, positions stay well within `i32`, and a fleet
    /// with no living alien is a cleared level.
    pub open spec fn inv(self) -> bool {
        &&& self.fleet_dx == 1 || self.fleet_dx == -1
        &&& -30 <= self.fleet_x <= 65535
        &&& 3 <= self.fleet_y <= 65535
        &&& !self.game_over && !self.cleared ==> self.fleet_y <= 65532
        &&& 1 <= self.move_interval <= 10
        &&& self.move_accum <= 10
        &&& self.alien_fire_accum <= 25
        &&& -3 <= self.player_x <= 65535
        &&& 1 <= self.level <= 0x7fff_ffff
        &&& count_alive(self.snap().alive, 15) == 0 ==> self.cleared
        &&& match self.player_bullet {
            Some(b) => small(b.0 as int) && small(b.1 as int),
            None => true,
        }
        &&& forall|i: int|
            0 <= i < self.alien_bullets@.len() ==> small((#[trigger] self.alien_bullets@[i]).0 as int)
                && small(self.alien_bullets@[i].1 as int)
        &&& forall|i: int|
            0 <= i < self.explosions@.len() ==> small((#[trigger] self.explosions@[i]).x as int)
                && small(self.explosions@[i].y as int)
    }

    /// Whether this is a game as it starts on a `cols` by `rows` terminal: a full fleet
    /// centred three rows down heading right at the slowest pace, the ship in the middle,
    /// full shields, no shots or explosions, no score, three lives, level 1, running.
    pub open spec fn starts(self, cols: u16, rows: u16) -> bool {
        &&& self.cols == cols && self.rows == rows
        &&& self.fleet_x == trunc_half(cols - 24)
        &&& self.fleet_y == 3
        &&& self.fleet_dx == 1
        &&& self.move_accum == 0
        &&& self.move_interval == 10
        &&& self.explosions@.len() == 0
        &&& self.player_bullet is None
        &&& self.alien_bullets@.len() == 0
        &&& self.alien_fire_accum == 0
        &&& self.player_x == cols / 2
        &&& forall|r: int, c: int| 0 <= r < 3 && 0 <= c < 5 ==> #[trigger] self.alive[r][c]
        &&& forall|k: int, ry: int, rx: int|
            0 <= k < 3 && 0 <= ry < 2 && 0 <= rx < 6 ==> #[trigger] self.shields[k][ry][rx] == 4
        &&& self.score == 0
        &&& self.lives == 3
        &&& self.level == 1
        &&& !self.paused && !self.game_over && !self.cleared
    }

    /// The number of living aliens.
    pub fn alive_count(&self) -> (n: usize)
        ensures
            n == count_alive(self.snap().alive, 15),
            n <= 15,
    {
        let ghost a = self.snap().alive;
        let mut n: usize = 0;
        let mut r: usize = 0;
        while r < ALIEN_ROWS
            invariant
                r <= 3,
                a == self.snap().alive,
                n == count_alive(a, 5 * r),
                n <= 5 * r,
            decreases 3 - r,
        {
            let mut c: usize = 0;
            while c < ALIEN_COLS
                invariant
                    r < 3,
                    c <= 5,
                    a == self.snap().alive,
                    n == count_alive(a, 5 * r + c),
                    n <= 5 * r + c,
                decreases 5 - c,
            {
                assert((5 * r + c) / 5 == r && (5 * r + c) % 5 == c);
                assert(a[r as int][c as int] == self.alive[r as int][c as int]);
                if self.alive[r][c] {
                    n += 1;
                }
                c += 1;
            }
            r += 1;
        }
        n
    }

    /// Where the alien of fleet row `row`, column `col` stands.
    pub fn alien_pos(&self, row: usize, col: usize) -> (p: (i32, i32))
        requires
            self.inv(),
            row < ALIEN_ROWS,
            col < ALIEN_COLS,
        ensures
            pt(p) == self.snap().alien_pos(row as int, col as int),
    {
        let x = self.fleet_x + col as i32 * ALIEN_STEP_X;
        let y = self.fleet_y + row as i32 * ALIEN_STEP_Y;
        (x, y)
    }

    /// The row of the ship.
    pub fn player_y(&self) -> (y: i32)
        ensures
            y == self.snap().player_y(),
    {
        self.rows as i32 - 3
    }

    /// The left column of shield `s`.
    pub fn shield_x(&self, s: usize) -> (x: i32)
        requires
            s < SHIELD_COUNT,
        ensures
            x == self.snap().shield_x(s as int),
    {
        let total: i32 = 3 * 6 + 2 * 4;
        let start = (self.cols as i32 - total) / 2;
        start + s as i32 * 10
    }

    /// The top row of the shields.
    pub fn shield_y(&self) -> (y: i32)
        ensures
            y == self.snap().shield_y(),
    {
        self.rows as i32 - 7
    }

    /// Takes a hit point from the first shield cell, trying shields in order, that
    /// (`bx`, `by`) lies on and that has hit points left; tells whether there was one.
    pub fn damage_shield(&mut self, bx: i32, by: i32) -> (hit: bool)
        requires
            old(self).snap().probe_fits(bx as int, by as int, 0),
        ensures
            match old(self).snap().shield_hit(bx as int, by as int, 0) {
                Some(h) => hit && final(self).snap() == old(self).snap().damaged(h),
                None => !hit && *final(self) == *old(self),
            },
            *final(self) == (Game { shields: final(self).shields, ..*old(self) }),
    {
        let ghost s0 = self.snap();
        let sy = self.shield_y();
        let mut s: usize = 0;
        while s < SHIELD_COUNT
            invariant
                s <= 3,
                *self == *old(self),
                s0 == self.snap(),
                sy == s0.shield_y(),
                s0.probe_fits(bx as int, by as int, s as int),
                s0.shield_hit(bx as int, by as int, 0) == s0.shield_hit(bx as int, by as int, s as int),
            decreases 3 - s,
        {
            let sx = self.shield_x(s);
            let rx = bx - sx;
            let ry = by - sy;
            if rx >= 0 && ry >= 0 && (rx as usize) < SHIELD_W && (ry as usize) < SHIELD_H {
                let hp = self.shields[s][ry as usize][rx as usize];
                assert(s0.shields[s as int][ry as int][rx as int] == hp);
                if hp > 0 {
                    self.shields[s][ry as usize][rx as usize] = hp - 1;
                    proof {
                        let h = (s as int, ry as int, rx as int);
                        assert(s0.shield_hit(bx as int, by as int, s as int) == Some(h));
                        assert(self.snap().shields =~~= s0.damaged(h).shields);
                        assert(self.snap() =~~= s0.damaged(h));
                    }
                    return true;
                }
            }
            s += 1;
        }
        false
    }

    /// A new game on a `cols` by `rows` terminal whose fleet fire starts from `seed`: a
    /// full fleet centred three rows down heading right, the ship in the middle, full
    /// shields, three lives, level 1.
    pub fn with_seed(cols: u16, rows: u16, seed: u64) -> (g: Self)
        ensures
            g.inv(),
            g.starts(cols, rows),
            g.rng == seed,
    {
        let fleet_w = (ALIEN_COLS as i32 - 1) * ALIEN_STEP_X;
        let fleet_x = (cols as i32 - fleet_w) / 2;
        let g = Game {
            cols,
            rows,
            alive: [[true; 5]; 3],
            fleet_x,
            fleet_y: 3,
            fleet_dx: 1,
            move_accum: 0,
            move_interval: 10,
            explosions: Vec::new(),
            player_bullet: None,
            alien_bullets: Vec::new(),
            alien_fire_accum: 0,
            player_x: cols as i32 / 2,
            shields: [[[4u8; 6]; 2]; 3],
            score: 0,
            lives: 3,
            level: 1,
            paused: false,
            game_over: false,
            cleared: false,
            rng: seed,
        };
        proof {
            lemma_count_zero(g.snap().alive, 15);
            assert(g.snap().alive[0][0]);
        }
        g
    }

    /// A new game on a `cols` by `rows` terminal, seeded from the clock.
    pub fn new(cols: u16, rows: u16) -> (g: Self)
        ensures
            g.inv(),
            g.starts(cols, rows),
            g.rng < 1_000_000_000,
    {
        Self::with_seed(cols, rows, clock_seed_subsec())
    }

    /// Steps the generator and draws its high bits.
    pub fn lcg_next(&mut self) -> (v: u64)
        ensures
            final(self).rng == lcg_spec(old(self).rng),
            v == lcg_high(final(self).rng),
            v < 0x8000_0000,
            *final(self) == (Game { rng: final(self).rng, ..*old(self) }),
    {
        self.rng = lcg_step(self.rng);
        proof {
            crate::rng::lemma_lcg_high_bound(self.rng);
        }
        self.rng >> 33
    }

    /// `after` is `before` at the start of its next level: the level one higher, a full
    /// fleet back at the top centred and heading right, faster by one tick per level down
    /// to two, no bullets or explosions, not cleared; score, lives, shields, the ship, the
    /// pause, the game's end, the fire's pace and its generator, and the screen as they
    /// were.
    pub open spec fn leveled(before: Self, after: Self) -> bool {
        &&& after.level == before.level + 1
        &&& forall|r: int, c: int| 0 <= r < 3 && 0 <= c < 5 ==> #[trigger] after.alive[r][c]
        &&& after.fleet_x == trunc_half(before.cols - 24)
        &&& after.fleet_y == 3
        &&& after.fleet_dx == 1
        &&& after.move_interval == if 10 - before.level < 2 {
            2
        } else {
            10 - before.level
        }
        &&& after.move_accum == 0
        &&& after.player_bullet is None
        &&& after.alien_bullets@.len() == 0
        &&& after.explosions@.len() == 0
        &&& !after.cleared
        &&& after.score == before.score
        &&& after.lives == before.lives
        &&& after.shields == before.shields
        &&& after.player_x == before.player_x
        &&& after.game_over == before.game_over
        &&& after.paused == before.paused
        &&& after.alien_fire_accum == before.alien_fire_accum
        &&& after.rng == before.rng
        &&& after.cols == before.cols && after.rows == before.rows
    }

    /// Starts the next level: a full fleet back at the top heading right, faster by one
    /// tick per level down to two, no bullets or explosions; score, lives, shields and the
    /// ship stay.
    pub fn next_level(&mut self)
        requires
            old(self).inv(),
            old(self).level < 0x7fff_ffff,
        ensures
            final(self).inv(),
            Self::leveled(*old(self), *final(self)),
    {
        self.level += 1;
        self.alive = [[true; 5]; 3];
        let fleet_w = (ALIEN_COLS as i32 - 1) * ALIEN_STEP_X;
        self.fleet_x = (self.cols as i32 - fleet_w) / 2;
        self.fleet_y = 3;
        self.fleet_dx = 1;
        let slower = 10u32.saturating_sub(self.level - 1);
        self.move_interval = if slower < 2 {
            2
        } else {
            slower
        };
        self.move_accum = 0;
        self.player_bullet = None;
        self.alien_bullets.clear();
        self.explosions.clear();
        self.cleared = false;
        proof {
            lemma_count_zero(self.snap().alive, 15);
            assert(self.snap().alive[0][0]);
        }
    }

    /// Fires the ship's bullet from just above it, unless one is in flight.
    pub fn shoot(&mut self)
        requires
            old(self).inv(),
        ensures
            final(self).inv(),
            old(self).player_bullet is Some ==> *final(self) == *old(self),
            old(self).player_bullet is None ==> *final(self) == (Game {
                player_bullet: Some((old(self).player_x, (old(self).rows - 4) as i32)),
                ..*old(self)
            }),
    {
        if self.player_bullet.is_none() {
            let py = self.player_y();
            self.player_bullet = Some((self.player_x, py - 1));
        }
    }

    /// Moves the ship by `dx` columns, kept between column 2 and three columns from the
    /// right edge (the right bound winning on a narrow screen).
    pub fn move_player(&mut self, dx: i32)
        requires
            old(self).inv(),
            i32::MIN <= old(self).player_x + dx <= i32::MAX,
        ensures
            final(self).inv(),
            final(self).player_x == ship_x(old(self).player_x + dx, old(self).cols as int),
            *final(self) == (Game { player_x: final(self).player_x, ..*old(self) }),
    {
        let moved = self.player_x + dx;
        let m = if moved < 2 {
            2
        } else {
            moved
        };
        let hi = self.cols as i32 - 3;
        self.player_x = if m > hi {
            hi
        } else {
            m
        };
    }


    /// Ages the explosions by a tick and drops those that faded out.
    fn age_explosions(&mut self)
        requires
            old(self).inv(),
        ensures
            final(self).snap() == (Snap { explosions: aged(old(self).snap().explosions), ..old(self).snap() }),
            *final(self) == (Game { explosions: final(self).explosions, ..*old(self) }),
            final(self).inv(),
    {
        let ghost e0 = self.snap().explosions;
        let mut kept: Vec<Explosion> = Vec::new();
        let n = self.explosions.len();
        let mut i: usize = 0;
        while i < n
            invariant
                i <= n,
                n == self.explosions@.len(),
                e0 == self.explosions@.map_values(|e: Explosion| burst(e)),
                kept@.map_values(|e: Explosion| burst(e)) == aged(e0.subrange(0, i as int)),
                forall|j: int| 0 <= j < kept@.len() ==> exists|k: int| 0 <= k < i && #[trigger] kept@[j].x == self.explosions@[k].x && kept@[j].y == self.explosions@[k].y,
            decreases n - i,
        {
            let e = self.explosions[i];
            let t = e.ticks.saturating_sub(1);
            proof {
                assert(e0.subrange(0, i + 1).drop_last() =~= e0.subrange(0, i as int));
                assert(e0.subrange(0, i + 1).last() == burst(e));
            }
            if t > 0 {
                let ghost before = kept@;
                kept.push(Explosion { x: e.x, y: e.y, ticks: t });
                proof {
                    assert(kept@.map_values(|e: Explosion| burst(e)) =~= before.map_values(|e: Explosion| burst(e)).push((e.x as int, e.y as int, t as int)));
                    assert forall|j: int| 0 <= j < kept@.len() implies exists|k: int| 0 <= k < i + 1 && #[trigger] kept@[j].x == self.explosions@[k].x && kept@[j].y == self.explosions@[k].y by {
                        if j == kept@.len() - 1 {
                            assert(kept@[j].x == self.explosions@[i as int].x);
                        } else {
                            assert(kept@[j] == before[j]);
                        }
                    }
                }
            }
            i += 1;
        }
        proof {
            assert(e0.subrange(0, n as int) =~= e0);
        }
        self.explosions = kept;
        proof {
            assert(self.snap() =~= (Snap { explosions: aged(e0), ..old(self).snap() }));
            assert forall|j: int| 0 <= j < self.explosions@.len() implies small((#[trigger] self.explosions@[j]).x as int) && small(self.explosions@[j].y as int) by {
                let k = choose|k: int| 0 <= k < n && self.explosions@[j].x == old(self).explosions@[k].x && self.explosions@[j].y == old(self).explosions@[k].y;
                assert(small(old(self).explosions@[k].x as int));
            }
        }
    }

    /// The least and greatest column of a living alien; (5, 0) when none lives.
    fn fleet_extent(&self) -> (e: (usize, usize))
        ensures
            e.0 == extent(self.snap().alive, 15).0,
            e.1 == extent(self.snap().alive, 15).1,
    {
        let ghost a = self.snap().alive;
        let mut min_col: usize = ALIEN_COLS;
        let mut max_col: usize = 0;
        let mut r: usize = 0;
        while r < ALIEN_ROWS
            invariant
                r <= 3,
                a == self.snap().alive,
                (min_col as int, max_col as int) == extent(a, 5 * r),
            decreases 3 - r,
        {
            let mut c: usize = 0;
            while c < ALIEN_COLS
                invariant
                    r < 3,
                    c <= 5,
                    a == self.snap().alive,
                    (min_col as int, max_col as int) == extent(a, 5 * r + c),
                decreases 5 - c,
            {
                assert((5 * r + c) / 5 == r && (5 * r + c) % 5 == c);
                assert(a[r as int][c as int] == self.alive[r as int][c as int]);
                if self.alive[r][c] {
                    if c < min_col {
                        min_col = c;
                    }
                    if c > max_col {
                        max_col = c;
                    }
                }
                c += 1;
            }
            r += 1;
        }
        (min_col, max_col)
    }

    /// Moves the fleet by a tick.
    fn move_fleet(&mut self)
        requires
            old(self).inv(),
            !old(self).game_over,
            !old(self).cleared,
        ensures
            final(self).snap() == old(self).snap().fleet_step(),
            *final(self) == (Game {
                move_accum: final(self).move_accum,
                fleet_x: final(self).fleet_x,
                fleet_y: final(self).fleet_y,
                fleet_dx: final(self).fleet_dx,
                ..*old(self)
            }),
            final(self).fleet_dx == 1 || final(self).fleet_dx == -1,
            -30 <= final(self).fleet_x <= 65535,
            3 <= final(self).fleet_y <= 65533,
            final(self).move_accum <= 10,
    {
        self.move_accum += 1;
        if self.move_accum >= self.move_interval {
            self.move_accum = 0;
            let (min_col, max_col) = self.fleet_extent();
            proof {
                lemma_extent_bounds(self.snap().alive, 15);
            }
            if min_col <= max_col {
                let left = self.fleet_x + min_col as i32 * ALIEN_STEP_X;
                let right = self.fleet_x + max_col as i32 * ALIEN_STEP_X;
                let hit_right = self.fleet_dx > 0 && right >= self.cols as i32 - 2;
                let hit_left = self.fleet_dx < 0 && left <= 1;
                if hit_right || hit_left {
                    self.fleet_y += 1;
                    self.fleet_dx = -self.fleet_dx;
                } else {
                    self.fleet_x += self.fleet_dx;
                }
            }
        }
        proof {
            reveal(Snap::fleet_step);
        }
        assert(self.snap() =~~= old(self).snap().fleet_step());
    }

    /// Whether some alien of fleet row `r` lives.
    fn row_alive(&self, r: usize) -> (b: bool)
        requires
            r < ALIEN_ROWS,
        ensures
            b == row_any(self.snap().alive, r as int),
    {
        self.alive[r][0] || self.alive[r][1] || self.alive[r][2] || self.alive[r][3] || self.alive[r][4]
    }

    /// Whether the lowest living row has come down to the ship's row.
    fn fleet_landed(&self) -> (b: bool)
        requires
            3 <= self.fleet_y <= 65533,
        ensures
            b == self.snap().landed(),
    {
        let lowest: Option<usize> = if self.row_alive(2) {
            Some(2)
        } else if self.row_alive(1) {
            Some(1)
        } else if self.row_alive(0) {
            Some(0)
        } else {
            None
        };
        match lowest {
            Some(lr) => {
                let ly = self.fleet_y + lr as i32 * ALIEN_STEP_Y;
                ly >= self.player_y()
            },
            None => false,
        }
    }


    /// The first living alien, in row-major order, that a player bullet at (`bx`, `y`)
    /// hits.
    fn find_alien_hit(&self, bx: i32, y: i32) -> (hit: Option<(usize, usize)>)
        requires
            self.inv(),
            small(bx as int),
            small(y as int),
        ensures
            match self.snap().alien_hit(bx as int, y as int, 0) {
                Some(rc) => hit == Some((rc.0 as usize, rc.1 as usize)) && 0 <= rc.0 < 3 && 0 <= rc.1 < 5,
                None => hit is None,
            },
    {
        let ghost sn = self.snap();
        let mut r: usize = 0;
        while r < ALIEN_ROWS
            invariant
                r <= 3,
                sn == self.snap(),
                self.inv(),
                small(bx as int),
                small(y as int),
                sn.alien_hit(bx as int, y as int, 0) == sn.alien_hit(bx as int, y as int, 5 * r),
            decreases 3 - r,
        {
            let mut c: usize = 0;
            while c < ALIEN_COLS
                invariant
                    r < 3,
                    c <= 5,
                    sn == self.snap(),
                    self.inv(),
                    small(bx as int),
                    small(y as int),
                    sn.alien_hit(bx as int, y as int, 0) == sn.alien_hit(bx as int, y as int, 5 * r + c),
                decreases 5 - c,
            {
                assert((5 * r + c) / 5 == r && (5 * r + c) % 5 == c);
                if self.alive[r][c] {
                    let (ax, ay) = self.alien_pos(r, c);
                    if bx >= ax - 1 && bx <= ax + 1 && y >= ay && y <= ay + 1 {
                        return Some((r, c));
                    }
                }
                c += 1;
            }
            r += 1;
        }
        None
    }

    /// Moves the ship's bullet by a tick; tells whether the level was cleared.
    #[verifier::rlimit(40)]
    fn move_player_bullet(&mut self) -> (stop: bool)
        requires
            old(self).inv(),
            !old(self).game_over,
            !old(self).cleared,
            old(self).snap().bullet_step().0.score <= u32::MAX,
        ensures
            (final(self).snap(), stop) == old(self).snap().bullet_step(),
            final(self).inv(),
            final(self).score <= old(self).score + 30,
            final(self).game_over == old(self).game_over,
            final(self).cols == old(self).cols && final(self).rows == old(self).rows,
    {
        let ghost s0 = self.snap();
        proof {
            reveal(Snap::bullet_step);
        }
        if let Some((bx, by)) = self.player_bullet {
            let nby = by - 1;
            if nby < 1 {
                self.player_bullet = None;
                assert(self.snap() =~~= (Snap { player_bullet: None, ..s0 }));
                return false;
            }
            proof {
                lemma_small_probe_fits(self.snap(), bx as int, nby as int, 0);
            }
            if self.damage_shield(bx, nby) {
                self.player_bullet = None;
                proof {
                    let h = s0.shield_hit(bx as int, nby as int, 0)->0;
                    assert(self.snap() =~~= (Snap { player_bullet: None, ..s0.damaged(h) }));
                }
                return false;
            }
            match self.find_alien_hit(bx, nby) {
                Some((r, c)) => {
                    let (ax, ay) = self.alien_pos(r, c);
                    self.alive[r][c] = false;
                    let pts: u32 = if r == 0 {
                        30
                    } else if r == 1 {
                        20
                    } else {
                        10
                    };
                    assert(s0.bullet_step().0.score == s0.score + pts);
                    self.score += pts;
                    self.explosions.push(Explosion { x: ax, y: ay, ticks: 8 });
                    let cnt = self.alive_count();
                    let faster = 1 + cnt as u32 / 3;
                    self.move_interval = if faster < 1 {
                        1
                    } else {
                        faster
                    };
                    self.player_bullet = None;
                    proof {
                        lemma_count_zero(self.snap().alive, 15);
                        assert(self.snap().alive =~~= s0.alive.update(r as int, s0.alive[r as int].update(c as int, false)));
                        assert(self.snap().explosions =~= s0.explosions.push((ax as int, ay as int, 8)));
                    }
                    if self.alive_count() == 0 {
                        self.cleared = true;
                        assert(self.snap() =~~= s0.bullet_step().0);
                        return true;
                    }
                    assert(self.snap() =~~= s0.bullet_step().0);
                },
                None => {
                    self.player_bullet = Some((bx, nby));
                    assert(self.snap() =~~= s0.bullet_step().0);
                },
            }
        }
        false
    }

    /// Lets the fleet fire by a tick.
    #[verifier::rlimit(40)]
    fn alien_fire(&mut self)
        requires
            old(self).inv(),
        ensures
            final(self).snap() == old(self).snap().fire_step(),
            final(self).inv(),
            final(self).score == old(self).score,
            final(self).game_over == old(self).game_over,
            final(self).cleared == old(self).cleared,
            final(self).cols == old(self).cols && final(self).rows == old(self).rows,
    {
        let ghost s0 = self.snap();
        proof {
            reveal(Snap::fire_step);
        }
        let fewer = 25u32.saturating_sub(self.level * 2);
        let fire_interval = if fewer < 6 {
            6
        } else {
            fewer
        };
        assert(fire_interval == s0.fire_interval());
        self.alien_fire_accum += 1;
        if self.alien_fire_accum >= fire_interval {
            self.alien_fire_accum = 0;
            let mut candidates: Vec<(usize, usize)> = Vec::new();
            let mut c: usize = 0;
            while c < ALIEN_COLS
                invariant
                    c <= 5,
                    self.snap().alive == s0.alive,
                    candidates@.len() == shooters(s0.alive, c as int).len(),
                    forall|i: int| 0 <= i < candidates@.len() ==> (#[trigger] candidates@[i]).0 == shooters(s0.alive, c as int)[i].0 && candidates@[i].1 == shooters(s0.alive, c as int)[i].1 && candidates@[i].0 < 3 && candidates@[i].1 < 5,
                decreases 5 - c,
            {
                let mut r: usize = ALIEN_ROWS;
                while r > 0
                    invariant_except_break
                        forall|rr: int| r <= rr < 3 ==> !s0.alive[rr][c as int],
                        candidates@.len() == shooters(s0.alive, c as int).len(),
                        forall|i: int| 0 <= i < candidates@.len() ==> (#[trigger] candidates@[i]).0 == shooters(s0.alive, c as int)[i].0 && candidates@[i].1 == shooters(s0.alive, c as int)[i].1 && candidates@[i].0 < 3 && candidates@[i].1 < 5,
                    invariant
                        r <= 3,
                        c < 5,
                        self.snap().alive == s0.alive,
                    ensures
                        candidates@.len() == shooters(s0.alive, c + 1).len(),
                        forall|i: int| 0 <= i < candidates@.len() ==> (#[trigger] candidates@[i]).0 == shooters(s0.alive, c + 1)[i].0 && candidates@[i].1 == shooters(s0.alive, c + 1)[i].1 && candidates@[i].0 < 3 && candidates@[i].1 < 5,
                    decreases r,
                {
                    r -= 1;
                    assert(s0.alive[r as int][c as int] == self.alive[r as int][c as int]);
                    if self.alive[r][c] {
                        candidates.push((r, c));
                        break;
                    }
                }
                c += 1;
            }
            if candidates.len() > 0 {
                let i = (self.lcg_next() as usize) % candidates.len();
                let (r, c) = candidates[i];
                let (ax, ay) = self.alien_pos(r, c);
                self.alien_bullets.push((ax, ay + 1));
                assert(self.snap().alien_bullets =~= s0.alien_bullets.push((ax as int, ay + 1)));
            }
        }
        assert(self.snap() =~~= s0.fire_step());
    }

    /// Moves the fleet's bullets by a tick.
    #[verifier::rlimit(60)]
    fn move_alien_bullets(&mut self)
        requires
            old(self).inv(),
        ensures
            final(self).snap() == old(self).snap().fly(Seq::empty(), old(self).snap().alien_bullets),
            final(self).inv(),
            final(self).score == old(self).score,
            final(self).cleared == old(self).cleared,
            final(self).cols == old(self).cols && final(self).rows == old(self).rows,
    {
        let ghost s0 = self.snap();
        let ghost target = s0.fly(Seq::empty(), s0.alien_bullets);
        proof {
            reveal(Snap::fly);
        }
        let rows = self.rows as i32;
        let player_y = self.player_y();
        let player_x = self.player_x;
        let mut i: usize = 0;
        proof {
            reveal(Snap::fly);
            assert(s0.alien_bullets.subrange(0, 0) =~= Seq::<(int, int)>::empty());
            assert(s0.alien_bullets.subrange(0, s0.alien_bullets.len() as int) =~= s0.alien_bullets);
        }
        while i < self.alien_bullets.len()
            invariant
                i <= self.alien_bullets@.len(),
                self.inv(),
                s0 == old(self).snap(),
                target == s0.fly(Seq::empty(), s0.alien_bullets),
                self.rows == s0.rows && self.cols == s0.cols,
                rows == self.rows,
                player_y == self.snap().player_y(),
                player_x == self.player_x,
                self.score == s0.score,
                self.cleared == s0.cleared,
                !self.game_over ==> !s0.game_over,
                self.game_over == s0.game_over,
                self.snap().fly(
                    self.snap().alien_bullets.subrange(0, i as int),
                    self.snap().alien_bullets.subrange(i as int, self.alien_bullets@.len() as int),
                ) == target,
            decreases self.alien_bullets@.len() - i,
        {
            let ghost sn = self.snap();
            let ghost done = sn.alien_bullets.subrange(0, i as int);
            let ghost rest = sn.alien_bullets.subrange(i as int, self.alien_bullets@.len() as int);
            let (bx, by) = self.alien_bullets[i];
            assert(rest[0] == (bx as int, by as int));
            let nby = by + 1;
            if nby >= rows {
                self.alien_bullets.remove(i);
                proof {
            reveal(Snap::fly);
                    assert(self.snap().alien_bullets =~= done + rest.drop_first());
                    assert(self.snap().alien_bullets.subrange(0, i as int) =~= done);
                    assert(self.snap().alien_bullets.subrange(i as int, self.alien_bullets@.len() as int) =~= rest.drop_first());
                    assert(self.snap() =~~= Snap { alien_bullets: self.snap().alien_bullets, ..sn });
                    assert(sn.fly(done, rest) == sn.fly(done, rest.drop_first()));
                    lemma_fly_ignores_bullets(sn, self.snap().alien_bullets, done, rest.drop_first());
                }
                continue;
            }
            proof {
                lemma_small_probe_fits(self.snap(), bx as int, nby as int, 0);
            }
            if self.damage_shield(bx, nby) {
                self.alien_bullets.remove(i);
                proof {
            reveal(Snap::fly);
                    let h = sn.shield_hit(bx as int, nby as int, 0)->0;
                    assert(self.snap().alien_bullets =~= done + rest.drop_first());
                    assert(self.snap().alien_bullets.subrange(0, i as int) =~= done);
                    assert(self.snap().alien_bullets.subrange(i as int, self.alien_bullets@.len() as int) =~= rest.drop_first());
                    assert(self.snap() =~~= Snap { alien_bullets: self.snap().alien_bullets, ..sn.damaged(h) });
                    assert(sn.fly(done, rest) == sn.damaged(h).fly(done, rest.drop_first()));
                    lemma_fly_ignores_bullets(sn.damaged(h), self.snap().alien_bullets, done, rest.drop_first());
                }
                continue;
            }
            if nby == player_y && bx >= player_x - 2 && bx <= player_x + 2 {
                self.alien_bullets.remove(i);
                self.lives = self.lives.saturating_sub(1);
                if self.lives == 0 {
                    self.game_over = true;
                    proof {
            reveal(Snap::fly);
                        assert(self.snap().alien_bullets =~= done + rest.drop_first());
                        assert(self.snap() =~~= target);
                    }
                    return;
                }
                self.player_bullet = None;
                self.alien_bullets.clear();
                proof {
            reveal(Snap::fly);
                    assert(self.snap() =~~= target);
                }
                return;
            }
            self.alien_bullets.set(i, (bx, nby));
            proof {
            reveal(Snap::fly);
                assert(self.snap().alien_bullets.subrange(0, i + 1) =~= done.push((bx as int, nby as int)));
                assert(self.snap().alien_bullets.subrange(i + 1, self.alien_bullets@.len() as int) =~= rest.drop_first());
                assert(self.snap() =~~= Snap { alien_bullets: self.snap().alien_bullets, ..sn });
                assert(sn.fly(done, rest) == sn.fly(done.push((bx as int, nby as int)), rest.drop_first()));
                lemma_fly_ignores_bullets(sn, self.snap().alien_bullets, done.push((bx as int, nby as int)), rest.drop_first());
            }
            i += 1;
        }
        proof {
            reveal(Snap::fly);
            let sn = self.snap();
            assert(sn.alien_bullets.subrange(0, i as int) =~= sn.alien_bullets);
            assert(sn.alien_bullets.subrange(i as int, i as int) =~= Seq::<(int, int)>::empty());
            assert(sn =~~= target);
        }
    }


    /// Plays a tick: nothing while paused, over or cleared; otherwise the explosions age,
    /// the fleet moves, a fleet down at the ship ends the game, the ship's bullet moves,
    /// the fleet fires and its bullets move.
    pub fn tick(&mut self)
        requires
            old(self).inv(),
            old(self).snap().tick_result().score <= u32::MAX,
        ensures
            final(self).inv(),
            final(self).snap() == old(self).snap().tick_result(),
    {
        if self.paused || self.game_over || self.cleared {
            return;
        }
        let ghost s0 = self.snap();
        self.age_explosions();
        self.move_fleet();
        assert(self.snap() == (Snap { explosions: aged(s0.explosions), ..s0 }).fleet_step());
        if self.fleet_landed() {
            self.game_over = true;
            assert(self.snap() =~~= s0.tick_result());
            return;
        }
        proof {
            lemma_lowest_row(self.snap().alive);
        }
        let ghost s1 = self.snap();
        assert(!s1.landed());
        assert(s1 == (Snap { explosions: aged(s0.explosions), ..s0 }).fleet_step());
        proof {
            lemma_tick_score(s0, s1);
        }
        if self.move_player_bullet() {
            proof {
                lemma_tick_stop(s0, s1, self.snap());
            }
            return;
        }
        let ghost s2 = self.snap();
        self.alien_fire();
        let ghost s3 = self.snap();
        self.move_alien_bullets();
        proof {
            lemma_tick_go(s0, s1, s2, s3, self.snap());
        }
    }

    /// Takes on a new terminal size.
    pub fn resize(&mut self, cols: u16, rows: u16)
        requires
            old(self).inv(),
        ensures
            final(self).inv(),
            *final(self) == (Game { cols, rows, ..*old(self) }),
    {
        self.cols = cols;
        self.rows = rows;
    }

    /// Answers a key press: `q` or Esc quits, `r` starts a new game on a `cols` by `rows`
    /// terminal, `p` pauses or resumes, the arrows move the ship two columns, space or
    /// Enter starts the next level once the fleet is cleared, else space fires.
    pub fn handle_key(&mut self, key: Key, cols: u16, rows: u16) -> (flow: Flow)
        requires
            old(self).inv(),
            old(self).cleared && (key == Key::Char(' ') || key == Key::Enter) ==> old(self).level
                < 0x7fff_ffff,
        ensures
            final(self).inv(),
            (flow == Flow::Quit) == (key == Key::Char('q') || key == Key::Esc),
            flow == Flow::Quit ==> *final(self) == *old(self),
            key == Key::Char('r') ==> final(self).starts(cols, rows),
            key == Key::Char('p') ==> *final(self) == (Game {
                paused: !old(self).paused,
                ..*old(self)
            }),
            key == Key::Left ==> *final(self) == (Game {
                player_x: ship_x(old(self).player_x - 2, old(self).cols as int) as i32,
                ..*old(self)
            }),
            key == Key::Right ==> *final(self) == (Game {
                player_x: ship_x(old(self).player_x + 2, old(self).cols as int) as i32,
                ..*old(self)
            }),
            (key == Key::Char(' ') || key == Key::Enter) && old(self).cleared ==> Self::leveled(
                *old(self),
                *final(self),
            ),
            key == Key::Char(' ') && !old(self).cleared ==> {
                &&& old(self).player_bullet is Some ==> *final(self) == *old(self)
                &&& old(self).player_bullet is None ==> final(self).player_bullet == Some(
                    (old(self).player_x, (old(self).rows - 4) as i32),
                )
            },
            key == Key::Enter && !old(self).cleared ==> *final(self) == *old(self),
            !(key == Key::Char('q') || key == Key::Esc || key == Key::Char('r') || key == Key::Char(
                'p',
            ) || key == Key::Left || key == Key::Right || key == Key::Char(' ') || key
                == Key::Enter) ==> *final(self) == *old(self),
    {
        match key {
            Key::Char('q') | Key::Esc => {
                return Flow::Quit;
            },
            Key::Char('r') => {
                *self = Game::new(cols, rows);
            },
            Key::Char('p') => {
                self.paused = !self.paused;
            },
            Key::Left => self.move_player(-2),
            Key::Right => self.move_player(2),
            Key::Char(' ') | Key::Enter => {
                if self.cleared {
                    self.next_level();
                } else if key == Key::Char(' ') {
                    self.shoot();
                }
            },
            _ => {},
        }
        Flow::Continue
    }

}

} // verus!
