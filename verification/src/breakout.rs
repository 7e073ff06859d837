//! Breakout: the wall of bricks, the lives, the score and the power-ups that bricks drop.
//! The ball's and the paddle's positions are kept by the caller.
use vstd::prelude::*;

use crate::rng::{clock_seed_subsec, lcg_high, lcg_spec, lcg_step};
use crate::tint::Tint;

verus! {

/// Rows of bricks.
pub const BRICK_ROWS: usize = 5;

/// Bricks in a row.
pub const BRICK_COLS: usize = 8;

/// Width of a brick in cells.
pub const BRICK_W: u16 = 6;

/// Height of a brick in cells.
pub const BRICK_H: u16 = 2;

/// Width of the wall of bricks in cells.
pub const WALL_W: u16 = 48;

/// Height of the wall of bricks in cells.
pub const WALL_H: u16 = 10;

/// Paddle width without a power-up.
pub const PAD_W_NORMAL: u16 = 9;

/// Paddle width while the wide power-up lasts.
pub const PAD_W_WIDE: u16 = 15;

/// Ticks that the wide power-up lasts.
pub const WIDE_TICKS: u32 = 300;

/// Hit points of a fresh brick.
pub const BRICK_HP: u8 = 2;

/// The wall of bricks: the hit points left of each, row by row.
pub type Wall = [[u8; BRICK_COLS]; BRICK_ROWS];

/// The colour of the bricks of a row.
pub fn brick_color(row: usize) -> (c: Tint)
    ensures
        c == (if row == 0 {
            Tint::Rgb(220, 60, 60)
        } else if row == 1 {
            Tint::Rgb(220, 140, 60)
        } else if row == 2 {
            Tint::Rgb(220, 220, 60)
        } else if row == 3 {
            Tint::Rgb(60, 200, 60)
        } else {
            Tint::Rgb(60, 140, 220)
        }),
{
    match row {
        0 => Tint::Rgb(220, 60, 60),
        1 => Tint::Rgb(220, 140, 60),
        2 => Tint::Rgb(220, 220, 60),
        3 => Tint::Rgb(60, 200, 60),
        _ => Tint::Rgb(60, 140, 220),
    }
}

/// What a falling power-up does when the paddle catches it.
#[derive(Clone, Copy, Debug, PartialEq, Eq, Structural)]
pub enum PowerupKind {
    /// One more life.
    Life,
    /// A wider paddle for a while.
    Wide,
    /// Every brick with one hit point left breaks.
    Clear,
}

/// What the ball did to the wall where it stands.
#[derive(Clone, Copy, Debug, PartialEq, Eq, Structural)]
pub enum Strike {
    /// No brick there, or none left standing.
    Miss,
    /// A brick lost a hit point.
    Hit,
    /// A brick broke and let a power-up fall.
    HitDrop(PowerupKind),
}

/// How a tick ended for the court.
#[derive(Clone, Copy, Debug, PartialEq, Eq)]
pub enum TickEnd {
    /// The ball fell past the paddle; whether play goes on with a new ball.
    Lost(bool),
    /// The ball stayed in play: the brick under it (row, column) where it stands in the
    /// wall, what it did there, and whether the next level began.
    Played(Option<(usize, usize)>, Strike, bool),
}

/// Whether no brick would stand once the ball met `cell`: every brick is broken but,
/// at most, the one there, which has a single hit point left.
pub open spec fn clears(w: Wall, cell: Option<(usize, usize)>) -> bool {
    forall|r: int, c: int|
        0 <= r < BRICK_ROWS && 0 <= c < BRICK_COLS ==> #[trigger] w[r][c] == 0 || (cell == Some(
            (r as usize, c as usize),
        ) && w[r][c] == 1)
}

/// The power-up that a draw of the generator picks: its value modulo 3.
pub open spec fn kind_of(draw: u64) -> PowerupKind {
    if draw % 3 == 0 {
        PowerupKind::Life
    } else if draw % 3 == 1 {
        PowerupKind::Wide
    } else {
        PowerupKind::Clear
    }
}

/// A fresh wall: every brick at full strength.
pub open spec fn fresh_wall(w: Wall) -> bool {
    forall|r: int, c: int| 0 <= r < BRICK_ROWS && 0 <= c < BRICK_COLS ==> #[trigger] w[r][c] == BRICK_HP
}

/// Whether no brick is left standing.
pub open spec fn cleared(w: Wall) -> bool {
    forall|r: int, c: int| 0 <= r < BRICK_ROWS && 0 <= c < BRICK_COLS ==> #[trigger] w[r][c] == 0
}

/// The wall after the clear power-up: bricks with one hit point left are gone,
/// the others stay as they were.
pub open spec fn wall_after_clear(before: Wall, after: Wall) -> bool {
    forall|r: int, c: int|
        0 <= r < BRICK_ROWS && 0 <= c < BRICK_COLS ==> #[trigger] after[r][c] == if before[r][c] == 1 {
            0
        } else {
            before[r][c]
        }
}

/// The wall with one brick weakened by a hit point, the others unchanged.
pub open spec fn wall_after_hit(before: Wall, after: Wall, row: int, col: int) -> bool {
    forall|r: int, c: int|
        0 <= r < BRICK_ROWS && 0 <= c < BRICK_COLS ==> #[trigger] after[r][c] == if r == row && c
            == col {
            before[r][c] - 1
        } else {
            before[r][c] as int
        }
}

/// The clear power-up caught twice breaks nothing the second time: no brick with one
/// hit point is left after the first.
pub proof fn law_clear_twice(w0: Wall, w1: Wall, w2: Wall)
    requires
        wall_after_clear(w0, w1),
        wall_after_clear(w1, w2),
    ensures
        forall|r: int, c: int| 0 <= r < BRICK_ROWS && 0 <= c < BRICK_COLS ==> #[trigger] w1[r][c] != 1,
        forall|r: int, c: int| 0 <= r < BRICK_ROWS && 0 <= c < BRICK_COLS ==> #[trigger] w2[r][c] == w1[r][c],
{
    assert forall|r: int, c: int| 0 <= r < BRICK_ROWS && 0 <= c < BRICK_COLS implies #[trigger] w1[r][c] != 1 by {
        assert(w1[r][c] == if w0[r][c] == 1 { 0 } else { w0[r][c] });
    }
}

/// A fresh wall is never a cleared one, so a new level always has bricks to break.
pub proof fn law_fresh_wall_not_cleared(w: Wall)
    requires
        fresh_wall(w),
    ensures
        !cleared(w),
{
    assert(w[0][0] == BRICK_HP);
}

/// Where the wall's left edge stands on a screen `cols` wide: centred, at 0 when the
/// screen is narrower than the wall.
pub open spec fn origin_x(cols: u16) -> u16 {
    (if cols >= WALL_W {
        cols - WALL_W
    } else {
        0
    }) as u16 / 2
}

/// The state of a game of breakout but for the ball and the paddle's place.
pub struct Court {
    pub cols: u16,
    pub rows: u16,
    pub bricks: Wall,
    pub pad_w: u16,
    pub lives: i32,
    pub score: u32,
    pub level: u32,
    pub paused: bool,
    pub game_over: bool,
    /// Ticks left of the wide power-up.
    pub wide_ticks: u32,
    pub rng: u64,
    pub brick_origin_x: u16,
    pub brick_origin_y: u16,
}

impl Court {
    /// What holds of every court: no brick stronger than a fresh one, the paddle wide
    /// exactly while the wide power-up lasts, a level of at least 1, the wall centred
    /// below the status line, and the game over exactly when no life is left.
    pub open spec fn inv(self) -> bool {
        &&& forall|r: int, c: int|
            0 <= r < BRICK_ROWS && 0 <= c < BRICK_COLS ==> #[trigger] self.bricks[r][c] <= BRICK_HP
        &&& self.wide_ticks <= WIDE_TICKS
        &&& self.pad_w == if self.wide_ticks > 0 {
            PAD_W_WIDE
        } else {
            PAD_W_NORMAL
        }
        &&& self.level >= 1
        &&& self.brick_origin_x == origin_x(self.cols)
        &&& self.brick_origin_y == 2
        &&& self.game_over == (self.lives <= 0)
    }

    /// The brick (row, column) under the cell (`x`, `y`), where the cell lies inside the
    /// wall.
    pub open spec fn cell_of(self, x: u16, y: u16) -> Option<(usize, usize)> {
        if self.brick_origin_x <= x < self.brick_origin_x + WALL_W && self.brick_origin_y <= y
            < self.brick_origin_y + WALL_H {
            Some(
                (
                    ((y - self.brick_origin_y) / (BRICK_H as int)) as usize,
                    ((x - self.brick_origin_x) / (BRICK_W as int)) as usize,
                ),
            )
        } else {
            None
        }
    }

    /// A court for a screen of `cols` by `rows` cells whose generator starts at `seed`:
    /// a fresh wall, three lives, no score, level 1, a normal paddle.
    pub fn with_seed(cols: u16, rows: u16, seed: u64) -> (g: Court)
        ensures
            g.inv(),
            g.cols == cols && g.rows == rows,
            fresh_wall(g.bricks),
            g.pad_w == PAD_W_NORMAL,
            g.lives == 3,
            g.score == 0,
            g.level == 1,
            !g.paused && !g.game_over,
            g.wide_ticks == 0,
            g.rng == seed,
    {
        let mut g = Court {
            cols,
            rows,
            bricks: [[BRICK_HP; BRICK_COLS]; BRICK_ROWS],
            pad_w: PAD_W_NORMAL,
            lives: 3,
            score: 0,
            level: 1,
            paused: false,
            game_over: false,
            wide_ticks: 0,
            rng: seed,
            brick_origin_x: 0,
            brick_origin_y: 0,
        };
        g.compute_brick_origin();
        g
    }

    /// A court seeded from the sub-second part of the clock.
    pub fn new(cols: u16, rows: u16) -> (g: Court)
        ensures
            g.inv(),
            g.cols == cols && g.rows == rows,
            fresh_wall(g.bricks),
            g.pad_w == PAD_W_NORMAL,
            g.lives == 3,
            g.score == 0,
            g.level == 1,
            !g.paused && !g.game_over,
            g.wide_ticks == 0,
            g.rng < 1_000_000_000,
    {
        let seed = clock_seed_subsec();
        Self::with_seed(cols, rows, seed)
    }

    /// Places the wall: centred across the screen, two rows down, below the status line.
    pub fn compute_brick_origin(&mut self)
        ensures
            final(self).brick_origin_x == origin_x(old(self).cols),
            final(self).brick_origin_y == 2,
            (Court { brick_origin_x: old(self).brick_origin_x, brick_origin_y: old(self).brick_origin_y, ..*final(self) }) == *old(self),
    {
        let total_w: u16 = WALL_W;
        self.brick_origin_x = self.cols.saturating_sub(total_w) / 2;
        self.brick_origin_y = 2;
    }

    /// Draws from the generator: one step of the LCG, then its high bits.
    pub fn lcg_next(&mut self) -> (r: u64)
        ensures
            final(self).rng == lcg_spec(old(self).rng),
            r == lcg_high(final(self).rng),
            (Court { rng: old(self).rng, ..*final(self) }) == *old(self),
    {
        self.rng = lcg_step(self.rng);
        self.rng >> 33
    }

    /// Whether every brick is broken.
    pub fn bricks_all_cleared(&self) -> (b: bool)
        ensures
            b == cleared(self.bricks),
    {
        let mut r: usize = 0;
        while r < BRICK_ROWS
            invariant
                r <= BRICK_ROWS,
                forall|i: int, j: int| 0 <= i < r && 0 <= j < BRICK_COLS ==> #[trigger] self.bricks[i][j] == 0,
            decreases BRICK_ROWS - r,
        {
            let mut c: usize = 0;
            while c < BRICK_COLS
                invariant
                    r < BRICK_ROWS,
                    c <= BRICK_COLS,
                    forall|i: int, j: int| 0 <= i < r && 0 <= j < BRICK_COLS ==> #[trigger] self.bricks[i][j] == 0,
                    forall|j: int| 0 <= j < c ==> #[trigger] self.bricks[r as int][j] == 0,
                decreases BRICK_COLS - c,
            {
                if self.bricks[r][c] != 0 {
                    return false;
                }
                c += 1;
            }
            r += 1;
        }
        true
    }

    /// The next level: a fresh wall, the wide power-up gone, the paddle back to normal.
    /// The ball's new speed is set by the caller.
    pub fn next_level(&mut self)
        requires
            old(self).inv(),
            old(self).level < u32::MAX,
        ensures
            final(self).inv(),
            final(self).level == old(self).level + 1,
            fresh_wall(final(self).bricks),
            final(self).wide_ticks == 0,
            final(self).pad_w == PAD_W_NORMAL,
            (Court { level: old(self).level, bricks: old(self).bricks, wide_ticks: old(self).wide_ticks, pad_w: old(self).pad_w, ..*final(self) }) == *old(self),
    {
        self.level = self.level + 1;
        self.bricks = [[BRICK_HP; BRICK_COLS]; BRICK_ROWS];
        self.wide_ticks = 0;
        self.pad_w = PAD_W_NORMAL;
    }

    /// One tick of the wide power-up's timer: when it runs out the paddle is normal again.
    pub fn tick_wide_timer(&mut self)
        requires
            old(self).inv(),
        ensures
            final(self).inv(),
            final(self).wide_ticks == if old(self).wide_ticks > 0 {
                old(self).wide_ticks - 1
            } else {
                0
            },
            (Court { wide_ticks: old(self).wide_ticks, pad_w: old(self).pad_w, ..*final(self) }) == *old(self),
    {
        if self.wide_ticks > 0 {
            self.wide_ticks -= 1;
            if self.wide_ticks == 0 {
                self.pad_w = PAD_W_NORMAL;
            }
        }
    }

    /// The paddle caught a power-up: a life more, a wide paddle for 300 ticks, or every
    /// brick with one hit point left broken.
    pub fn apply_powerup(&mut self, kind: PowerupKind)
        requires
            old(self).inv(),
            kind == PowerupKind::Life ==> old(self).lives < i32::MAX && !old(self).game_over,
        ensures
            final(self).inv(),
            kind == PowerupKind::Life ==> final(self).lives == old(self).lives + 1 && (Court { lives: old(self).lives, ..*final(self) }) == *old(self),
            kind == PowerupKind::Wide ==> (Court { pad_w: PAD_W_WIDE, wide_ticks: WIDE_TICKS, ..*old(self) }) == *final(self),
            kind == PowerupKind::Clear ==> wall_after_clear(old(self).bricks, final(self).bricks)
                && (Court { bricks: old(self).bricks, ..*final(self) }) == *old(self),
    {
        match kind {
            PowerupKind::Life => {
                self.lives = self.lives + 1;
            },
            PowerupKind::Wide => {
                self.pad_w = PAD_W_WIDE;
                self.wide_ticks = WIDE_TICKS;
            },
            PowerupKind::Clear => {
                self.clear_weak_bricks();
            },
        }
    }

    /// Breaks every brick that has one hit point left.
    fn clear_weak_bricks(&mut self)
        requires
            old(self).inv(),
        ensures
            final(self).inv(),
            wall_after_clear(old(self).bricks, final(self).bricks),
            (Court { bricks: old(self).bricks, ..*final(self) }) == *old(self),
    {
        let ghost w0 = self.bricks;
        let mut r: usize = 0;
        while r < BRICK_ROWS
            invariant
                r <= BRICK_ROWS,
                self.inv(),
                (Court { bricks: old(self).bricks, ..*self }) == *old(self),
                w0 == old(self).bricks,
                forall|i: int, j: int|
                    0 <= i < BRICK_ROWS && 0 <= j < BRICK_COLS ==> #[trigger] self.bricks[i][j] == if i
                        < r && w0[i][j] == 1 {
                        0
                    } else {
                        w0[i][j]
                    },
            decreases BRICK_ROWS - r,
        {
            let mut c: usize = 0;
            while c < BRICK_COLS
                invariant
                    r < BRICK_ROWS,
                    c <= BRICK_COLS,
                    self.inv(),
                    (Court { bricks: old(self).bricks, ..*self }) == *old(self),
                    w0 == old(self).bricks,
                    forall|i: int, j: int|
                        0 <= i < BRICK_ROWS && 0 <= j < BRICK_COLS ==> #[trigger] self.bricks[i][j]
                            == if (i < r || (i == r && j < c)) && w0[i][j] == 1 {
                            0
                        } else {
                            w0[i][j]
                        },
                decreases BRICK_COLS - c,
            {
                if self.bricks[r][c] == 1 {
                    self.bricks[r][c] = 0;
                }
                c += 1;
            }
            r += 1;
        }
    }

    /// The brick under the cell (`x`, `y`), as (row, column), where the cell lies
    /// inside the wall.
    pub fn brick_cell(&self, x: u16, y: u16) -> (cell: Option<(usize, usize)>)
        requires
            self.inv(),
        ensures
            cell == self.cell_of(x, y),
            match cell {
                Some((r, c)) => {
                    &&& self.brick_origin_x <= x < self.brick_origin_x + WALL_W
                    &&& self.brick_origin_y <= y < self.brick_origin_y + WALL_H
                    &&& c == (x - self.brick_origin_x) / (BRICK_W as int)
                    &&& r == (y - self.brick_origin_y) / (BRICK_H as int)
                    &&& r < BRICK_ROWS && c < BRICK_COLS
                },
                None => !(self.brick_origin_x <= x < self.brick_origin_x + WALL_W
                    && self.brick_origin_y <= y < self.brick_origin_y + WALL_H),
            },
    {
        let bx = self.brick_origin_x;
        let by = self.brick_origin_y;
        if x >= bx && (x - bx) < WALL_W && y >= by && (y - by) < WALL_H {
            let c = ((x - bx) / BRICK_W) as usize;
            let r = ((y - by) / BRICK_H) as usize;
            Some((r, c))
        } else {
            None
        }
    }

    /// How striking brick (`row`, `col`) changes a court and what it gives: a standing
    /// brick loses a hit point and scores 10; from level 2 on, a brick that breaks lets a
    /// power-up fall when a draw of the generator is divisible by 4, of the kind that a
    /// second draw picks. Elsewhere nothing changes and the ball misses.
    pub open spec fn struck(before: Court, after: Court, row: usize, col: usize, s: Strike) -> bool {
        if row >= BRICK_ROWS || col >= BRICK_COLS || before.bricks[row as int][col as int] == 0 {
            s == Strike::Miss && after == before
        } else {
            &&& s != Strike::Miss
            &&& wall_after_hit(before.bricks, after.bricks, row as int, col as int)
            &&& after.score == before.score + 10
            &&& (Court { bricks: before.bricks, score: before.score, rng: before.rng, ..after }) == before
            &&& if before.level >= 2 && before.bricks[row as int][col as int] == 1 {
                let r1 = lcg_spec(before.rng);
                if lcg_high(r1) % 4 == 0 {
                    let r2 = lcg_spec(r1);
                    after.rng == r2 && s == Strike::HitDrop(kind_of(lcg_high(r2)))
                } else {
                    after.rng == r1 && s == Strike::Hit
                }
            } else {
                after.rng == before.rng && s == Strike::Hit
            }
        }
    }

    /// How the ball meeting `cell` changes a court: a strike of the brick there, or
    /// nothing, and a miss, where the ball is outside the wall.
    pub open spec fn struck_at(before: Court, after: Court, cell: Option<(usize, usize)>, s: Strike) -> bool {
        match cell {
            Some((r, c)) => Self::struck(before, after, r, c, s),
            None => s == Strike::Miss && after == before,
        }
    }

    /// How losing a life changes a court: one life fewer, the game over once none is
    /// left, nothing else touched.
    pub open spec fn lost_life(before: Court, after: Court) -> bool {
        &&& after.lives == before.lives - 1
        &&& after.game_over == (before.game_over || after.lives <= 0)
        &&& (Court { lives: before.lives, game_over: before.game_over, ..after }) == before
    }

    /// How the end of a tick moves a court on, `up` telling whether a level began: it
    /// does exactly when every brick is broken, with a fresh wall, the level one higher
    /// and the wide power-up gone; score, lives, generator and the rest are kept.
    pub open spec fn level_step(before: Court, after: Court, up: bool) -> bool {
        &&& up == cleared(before.bricks)
        &&& !up ==> after == before
        &&& up ==> after.level == before.level + 1 && fresh_wall(after.bricks)
            && after.wide_ticks == 0 && after.pad_w == PAD_W_NORMAL
        &&& (Court {
            level: before.level,
            bricks: before.bricks,
            wide_ticks: before.wide_ticks,
            pad_w: before.pad_w,
            ..after
        }) == before
    }

    /// The ball meets brick (`row`, `col`): a standing brick loses a hit point and
    /// scores 10; from level 2 on, a brick that breaks lets a power-up fall when a draw
    /// of the generator is divisible by 4, of the kind that a second draw picks.
    pub fn strike_brick(&mut self, row: usize, col: usize) -> (s: Strike)
        requires
            old(self).inv(),
            row < BRICK_ROWS && col < BRICK_COLS && old(self).bricks[row as int][col as int] > 0
                ==> old(self).score <= u32::MAX - 10,
        ensures
            final(self).inv(),
            Self::struck(*old(self), *final(self), row, col, s),
    {
        if row >= BRICK_ROWS || col >= BRICK_COLS || self.bricks[row][col] == 0 {
            return Strike::Miss;
        }
        let ghost w0 = self.bricks;
        self.bricks[row][col] = self.bricks[row][col] - 1;
        self.score = self.score + 10;
        assert(wall_after_hit(w0, self.bricks, row as int, col as int));
        if self.level >= 2 && self.bricks[row][col] == 0 {
            let rnd = self.lcg_next() % 4;
            if rnd == 0 {
                let draw = self.lcg_next();
                let kind = match draw % 3 {
                    0 => PowerupKind::Life,
                    1 => PowerupKind::Wide,
                    _ => PowerupKind::Clear,
                };
                return Strike::HitDrop(kind);
            }
        }
        Strike::Hit
    }

    /// The ball fell past the paddle: a life is lost, and the game is over when none is
    /// left. Returns whether play goes on with a new ball.
    pub fn lose_life(&mut self) -> (again: bool)
        requires
            old(self).inv(),
            old(self).lives > i32::MIN,
        ensures
            final(self).inv(),
            !old(self).game_over ==> (final(self).game_over <==> final(self).lives == 0),
            Self::lost_life(*old(self), *final(self)),
            again == (final(self).lives > 0),
    {
        self.lives = self.lives - 1;
        if self.lives <= 0 {
            self.game_over = true;
            false
        } else {
            true
        }
    }

    /// The end of a tick: when every brick is broken, the next level begins. Returns
    /// whether it did.
    pub fn level_up_if_cleared(&mut self) -> (up: bool)
        requires
            old(self).inv(),
            cleared(old(self).bricks) ==> old(self).level < u32::MAX,
        ensures
            final(self).inv(),
            Self::level_step(*old(self), *final(self), up),
    {
        if self.bricks_all_cleared() {
            self.next_level();
            true
        } else {
            false
        }
    }

    /// Whether no brick would stand once the ball met `cell`.
    pub fn would_clear(&self, cell: Option<(usize, usize)>) -> (b: bool)
        ensures
            b == clears(self.bricks, cell),
    {
        let mut r: usize = 0;
        while r < BRICK_ROWS
            invariant
                r <= BRICK_ROWS,
                forall|i: int, j: int|
                    0 <= i < r && 0 <= j < BRICK_COLS ==> #[trigger] self.bricks[i][j] == 0 || (cell
                        == Some((i as usize, j as usize)) && self.bricks[i][j] == 1),
            decreases BRICK_ROWS - r,
        {
            let mut c: usize = 0;
            while c < BRICK_COLS
                invariant
                    r < BRICK_ROWS,
                    c <= BRICK_COLS,
                    forall|i: int, j: int|
                        0 <= i < r && 0 <= j < BRICK_COLS ==> #[trigger] self.bricks[i][j] == 0 || (
                        cell == Some((i as usize, j as usize)) && self.bricks[i][j] == 1),
                    forall|j: int|
                        0 <= j < c ==> #[trigger] self.bricks[r as int][j] == 0 || (cell == Some(
                            (r, j as usize),
                        ) && self.bricks[r as int][j] == 1),
                decreases BRICK_COLS - c,
            {
                let hp = self.bricks[r][c];
                if hp != 0 {
                    let here = match cell {
                        Some((cr, cc)) => cr == r && cc == c,
                        None => false,
                    };
                    if !here || hp != 1 {
                        assert(!(self.bricks[r as int][c as int] == 0 || (cell == Some((r, c))
                            && self.bricks[r as int][c as int] == 1)));
                        return false;
                    }
                }
                c += 1;
            }
            r += 1;
        }
        true
    }

    /// The end of a tick, once the ball has moved: where it fell past the paddle
    /// (`lost`) a life is lost and nothing else happens; else it strikes the brick
    /// under the cell (`x`, `y`), if any, and when no brick is left the next level
    /// begins.
    pub fn end_tick(&mut self, lost: bool, x: u16, y: u16) -> (e: TickEnd)
        requires
            old(self).inv(),
            lost ==> old(self).lives > i32::MIN,
            !lost ==> match old(self).cell_of(x, y) {
                Some((r, c)) => old(self).bricks[r as int][c as int] > 0 ==> old(self).score
                    <= u32::MAX - 10,
                None => true,
            },
            !lost && clears(old(self).bricks, old(self).cell_of(x, y)) ==> old(self).level
                < u32::MAX,
        ensures
            final(self).inv(),
            lost ==> e == TickEnd::Lost(final(self).lives > 0) && Self::lost_life(
                *old(self),
                *final(self),
            ),
            !lost ==> match e {
                TickEnd::Played(cell, s, up) => {
                    &&& cell == old(self).cell_of(x, y)
                    &&& exists|mid: Court|
                        #[trigger] Self::struck_at(*old(self), mid, cell, s) && Self::level_step(
                            mid,
                            *final(self),
                            up,
                        )
                },
                TickEnd::Lost(_) => false,
            },
    {
        if lost {
            let again = self.lose_life();
            return TickEnd::Lost(again);
        }
        let ghost c0 = *self;
        let cell = self.brick_cell(x, y);
        let s = match cell {
            Some((r, c)) => self.strike_brick(r, c),
            None => Strike::Miss,
        };
        let ghost mid = *self;
        proof {
            if cleared(mid.bricks) {
                assert(clears(c0.bricks, cell)) by {
                    assert forall|i: int, j: int|
                        0 <= i < BRICK_ROWS && 0 <= j < BRICK_COLS implies #[trigger] c0.bricks[i][j]
                        == 0 || (cell == Some((i as usize, j as usize)) && c0.bricks[i][j] == 1) by {
                        assert(mid.bricks[i][j] == 0);
                    }
                }
            }
        }
        let up = self.level_up_if_cleared();
        assert(Self::struck_at(c0, mid, cell, s));
        assert(Self::level_step(mid, *self, up));
        TickEnd::Played(cell, s, up)
    }

    /// Pauses or resumes.
    pub fn toggle_pause(&mut self)
        ensures
            (Court { paused: !old(self).paused, ..*old(self) }) == *final(self),
    {
        self.paused = !self.paused;
    }

    /// Whether the game moves this tick: neither paused nor over.
    pub fn running(&self) -> (b: bool)
        ensures
            b == (!self.paused && !self.game_over),
    {
        !self.paused && !self.game_over
    }
}

} // verus!
