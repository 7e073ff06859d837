//! Tetris: the well, the falling piece, line clears and scoring.
use vstd::prelude::*;

use crate::keys::{Flow, Key};
use crate::rng::{clock_seed_subsec, lcg_high, lcg_spec, lcg_step};
use crate::tint::Tint;

verus! {

/// Width of the well in cells.
pub const WELL_W: usize = 10;

/// Height of the well in cells.
pub const WELL_H: usize = 20;

/// Number of distinct pieces (I, O, T, S, Z, J, L).
pub const PIECE_COUNT: usize = 7;

/// One row of the well: the colour of each settled cell, `None` where it is empty.
pub type Row = [Option<Tint>; WELL_W];

/// The well, top row first.
pub type Well = [Row; WELL_H];

/// The well as a sequence of rows, each a sequence of cells.
pub type Grid = Seq<Seq<Option<Tint>>>;

/// The rows of a piece in a rotation, top row first; bit `c` of a row is column `c`.
/// Pieces are numbered I, O, T, S, Z, J, L; rotations turn clockwise.
pub open spec fn shape_rows(piece: int, rot: int) -> Seq<int> {
    if piece == 0 && rot == 0 {
        seq![0, 15, 0, 0]
    } else if piece == 0 && rot == 1 {
        seq![4, 4, 4, 4]
    } else if piece == 0 && rot == 2 {
        seq![0, 0, 15, 0]
    } else if piece == 0 && rot == 3 {
        seq![2, 2, 2, 2]
    } else if piece == 1 && rot == 0 {
        seq![0, 6, 6, 0]
    } else if piece == 1 && rot == 1 {
        seq![0, 6, 6, 0]
    } else if piece == 1 && rot == 2 {
        seq![0, 6, 6, 0]
    } else if piece == 1 && rot == 3 {
        seq![0, 6, 6, 0]
    } else if piece == 2 && rot == 0 {
        seq![0, 2, 7, 0]
    } else if piece == 2 && rot == 1 {
        seq![2, 6, 2, 0]
    } else if piece == 2 && rot == 2 {
        seq![0, 7, 2, 0]
    } else if piece == 2 && rot == 3 {
        seq![2, 3, 2, 0]
    } else if piece == 3 && rot == 0 {
        seq![0, 6, 3, 0]
    } else if piece == 3 && rot == 1 {
        seq![2, 6, 4, 0]
    } else if piece == 3 && rot == 2 {
        seq![0, 6, 3, 0]
    } else if piece == 3 && rot == 3 {
        seq![2, 6, 4, 0]
    } else if piece == 4 && rot == 0 {
        seq![0, 3, 6, 0]
    } else if piece == 4 && rot == 1 {
        seq![4, 6, 2, 0]
    } else if piece == 4 && rot == 2 {
        seq![0, 3, 6, 0]
    } else if piece == 4 && rot == 3 {
        seq![4, 6, 2, 0]
    } else if piece == 5 && rot == 0 {
        seq![0, 1, 7, 0]
    } else if piece == 5 && rot == 1 {
        seq![6, 2, 2, 0]
    } else if piece == 5 && rot == 2 {
        seq![0, 7, 4, 0]
    } else if piece == 5 && rot == 3 {
        seq![2, 2, 3, 0]
    } else if piece == 6 && rot == 0 {
        seq![0, 4, 7, 0]
    } else if piece == 6 && rot == 1 {
        seq![2, 2, 6, 0]
    } else if piece == 6 && rot == 2 {
        seq![0, 7, 1, 0]
    } else if piece == 6 && rot == 3 {
        seq![3, 2, 2, 0]
    } else {
        seq![0, 0, 0, 0]
    }
}

/// Whether bit `c` (0 to 3) of `v` is set.
pub open spec fn bit_at(v: int, c: int) -> bool {
    (if c == 0 {
        v
    } else if c == 1 {
        v / 2
    } else if c == 2 {
        v / 4
    } else {
        v / 8
    }) % 2 == 1
}

/// Whether cell (`r`, `c`) of the 4x4 box of `piece` in rotation `rot` is filled.
pub open spec fn filled(piece: int, rot: int, r: int, c: int) -> bool {
    0 <= r < 4 && 0 <= c < 4 && bit_at(shape_rows(piece, rot)[r], c)
}

/// The well as a grid.
pub open spec fn grid(well: Well) -> Grid {
    Seq::new(WELL_H as nat, |i: int| well[i]@)
}

/// Whether `piece` in rotation `rot`, its box's top-left corner at column `x` and row `y`,
/// stays inside the side walls and above the floor and overlaps no settled cell. Rows
/// above the well (negative) are free.
pub open spec fn fits_in(g: Grid, piece: int, rot: int, x: int, y: int) -> bool {
    forall|r: int, c: int|
        #[trigger] filled(piece, rot, r, c) ==> {
            &&& 0 <= x + c < WELL_W
            &&& y + r < WELL_H
            &&& (y + r >= 0 ==> g[y + r][x + c] is None)
        }
}

/// The grid after the cells of the piece at (`x`, `y`) that lie inside the well are
/// painted `t`.
pub open spec fn placed(g: Grid, piece: int, rot: int, x: int, y: int, t: Tint) -> Grid {
    Seq::new(
        WELL_H as nat,
        |i: int|
            Seq::new(
                WELL_W as nat,
                |j: int| if filled(piece, rot, i - y, j - x) { Some(t) } else { g[i][j] },
            ),
    )
}

/// The row of the bits of `piece` in rotation `rot`, as the game's table holds it.
fn shape_row(piece: usize, rot: usize, r: usize) -> (v: u8)
    requires
        piece < PIECE_COUNT,
        rot < 4,
        r < 4,
    ensures
        v == shape_rows(piece as int, rot as int)[r as int],
{
    let rows: [u8; 4] = match (piece, rot) {
        (0, 0) => [0u8, 15u8, 0u8, 0u8],
        (0, 1) => [4u8, 4u8, 4u8, 4u8],
        (0, 2) => [0u8, 0u8, 15u8, 0u8],
        (0, 3) => [2u8, 2u8, 2u8, 2u8],
        (1, 0) => [0u8, 6u8, 6u8, 0u8],
        (1, 1) => [0u8, 6u8, 6u8, 0u8],
        (1, 2) => [0u8, 6u8, 6u8, 0u8],
        (1, 3) => [0u8, 6u8, 6u8, 0u8],
        (2, 0) => [0u8, 2u8, 7u8, 0u8],
        (2, 1) => [2u8, 6u8, 2u8, 0u8],
        (2, 2) => [0u8, 7u8, 2u8, 0u8],
        (2, 3) => [2u8, 3u8, 2u8, 0u8],
        (3, 0) => [0u8, 6u8, 3u8, 0u8],
        (3, 1) => [2u8, 6u8, 4u8, 0u8],
        (3, 2) => [0u8, 6u8, 3u8, 0u8],
        (3, 3) => [2u8, 6u8, 4u8, 0u8],
        (4, 0) => [0u8, 3u8, 6u8, 0u8],
        (4, 1) => [4u8, 6u8, 2u8, 0u8],
        (4, 2) => [0u8, 3u8, 6u8, 0u8],
        (4, 3) => [4u8, 6u8, 2u8, 0u8],
        (5, 0) => [0u8, 1u8, 7u8, 0u8],
        (5, 1) => [6u8, 2u8, 2u8, 0u8],
        (5, 2) => [0u8, 7u8, 4u8, 0u8],
        (5, 3) => [2u8, 2u8, 3u8, 0u8],
        (6, 0) => [0u8, 4u8, 7u8, 0u8],
        (6, 1) => [2u8, 2u8, 6u8, 0u8],
        (6, 2) => [0u8, 7u8, 1u8, 0u8],
        (6, 3) => [3u8, 2u8, 2u8, 0u8],
        _ => [0u8, 0u8, 0u8, 0u8],
    };
    rows[r]
}

/// Whether cell (`r`, `c`) of `piece` in rotation `rot` is filled.
pub fn cell(piece: usize, rot: usize, r: usize, c: usize) -> (b: bool)
    requires
        piece < PIECE_COUNT,
        rot < 4,
        r < 4,
        c < 4,
    ensures
        b == filled(piece as int, rot as int, r as int, c as int),
{
    let v = shape_row(piece, rot, r);
    let shifted = if c == 0 {
        v
    } else if c == 1 {
        v / 2
    } else if c == 2 {
        v / 4
    } else {
        v / 8
    };
    shifted % 2 == 1
}

/// The colour of a piece.
pub fn piece_color(piece: usize) -> (t: Tint)
    ensures
        t == piece_tint(piece as int),
{
    match piece {
        0 => Tint::Cyan,
        1 => Tint::Yellow,
        2 => Tint::Magenta,
        3 => Tint::Green,
        4 => Tint::Red,
        5 => Tint::Blue,
        _ => Tint::Rgb(255, 165, 0),
    }
}

/// The colour of a piece: I cyan, O yellow, T magenta, S green, Z red, J blue, L orange.
pub open spec fn piece_tint(piece: int) -> Tint {
    if piece == 0 {
        Tint::Cyan
    } else if piece == 1 {
        Tint::Yellow
    } else if piece == 2 {
        Tint::Magenta
    } else if piece == 3 {
        Tint::Green
    } else if piece == 4 {
        Tint::Red
    } else if piece == 5 {
        Tint::Blue
    } else {
        Tint::Rgb(255, 165, 0)
    }
}

/// Every piece in every rotation fills some cell of its box.
pub proof fn lemma_shape_has_cell(piece: int, rot: int)
    requires
        0 <= piece < PIECE_COUNT,
        0 <= rot < 4,
    ensures
        exists|r: int, c: int| #[trigger] filled(piece, rot, r, c),
{
    if piece == 0 && (rot == 1 || rot == 3) {
        assert(filled(piece, rot, 0, if rot == 1 { 2 } else { 1 }));
    } else if piece == 0 && rot == 2 {
        assert(filled(piece, rot, 2, 0));
    } else {
        if filled(piece, rot, 1, 0) {
        } else if filled(piece, rot, 1, 1) {
        } else {
            assert(filled(piece, rot, 1, 2));
        }
    }
}

/// A piece that fits has its box's top row at most on the floor row.
pub proof fn lemma_fits_above_floor(g: Grid, piece: int, rot: int, x: int, y: int)
    requires
        0 <= piece < PIECE_COUNT,
        0 <= rot < 4,
        fits_in(g, piece, rot, x, y),
    ensures
        y < WELL_H,
        -3 <= x < WELL_W,
{
    lemma_shape_has_cell(piece, rot);
    let (r, c) = choose|r: int, c: int| #[trigger] filled(piece, rot, r, c);
    assert(filled(piece, rot, r, c));
}

/// Whether every cell of a row is settled.
pub open spec fn row_full(row: Seq<Option<Tint>>) -> bool {
    forall|j: int| 0 <= j < WELL_W ==> (#[trigger] row[j]) is Some
}

/// The rows that are not full, in their order.
pub open spec fn kept(rows: Grid) -> Grid
    decreases rows.len(),
{
    if rows.len() == 0 {
        rows
    } else {
        let rest = kept(rows.drop_first());
        if row_full(rows[0]) {
            rest
        } else {
            seq![rows[0]] + rest
        }
    }
}

/// An empty row.
pub open spec fn empty_row() -> Seq<Option<Tint>> {
    Seq::new(WELL_W as nat, |j: int| None)
}

/// `n` empty rows.
pub open spec fn blank_rows(n: nat) -> Grid {
    Seq::new(n, |i: int| empty_row())
}

/// The number of full rows.
pub open spec fn full_count(rows: Grid) -> nat {
    (rows.len() - kept(rows).len()) as nat
}

/// The grid after every full row is removed, the rows above it falling into its
/// place, and empty rows come in at the top.
pub open spec fn cleared(rows: Grid) -> Grid {
    blank_rows(full_count(rows)) + kept(rows)
}

/// Points for clearing `n` rows at once on level `level`: 100, 300, 500, or 800 for four
/// or more, times the level; none for no row.
pub open spec fn clear_points(n: int, level: int) -> int {
    if n == 0 {
        0
    } else if n == 1 {
        100 * level
    } else if n == 2 {
        300 * level
    } else if n == 3 {
        500 * level
    } else {
        800 * level
    }
}

/// The piece that an LCG state draws: its high bits modulo 7.
pub open spec fn piece_of(state: u64) -> int {
    (lcg_high(state) % 7) as int
}

/// Keeping the non-full rows never makes a grid longer.
pub proof fn lemma_kept_len(rows: Grid)
    ensures
        kept(rows).len() <= rows.len(),
    decreases rows.len(),
{
    if rows.len() > 0 {
        lemma_kept_len(rows.drop_first());
    }
}

/// No row that is kept is full.
pub proof fn lemma_kept_not_full(rows: Grid)
    ensures
        forall|i: int| 0 <= i < kept(rows).len() ==> !row_full(#[trigger] kept(rows)[i]),
    decreases rows.len(),
{
    if rows.len() > 0 {
        let rest = rows.drop_first();
        lemma_kept_not_full(rest);
        assert forall|i: int| 0 <= i < kept(rows).len() implies !row_full(
            #[trigger] kept(rows)[i],
        ) by {
            if !row_full(rows[0]) && i > 0 {
                assert(kept(rows)[i] == kept(rest)[i - 1]);
            }
        }
    }
}

/// An empty row is not full.
pub proof fn lemma_empty_row_not_full()
    ensures
        !row_full(empty_row()),
{
    assert(empty_row()[0] is None);
}

/// Empty rows in front of a grid are all kept.
pub proof fn lemma_kept_blank_prefix(n: nat, rows: Grid)
    ensures
        kept(blank_rows(n) + rows) == blank_rows(n) + kept(rows),
    decreases n,
{
    lemma_empty_row_not_full();
    if n > 0 {
        let s = blank_rows(n) + rows;
        assert(s.drop_first() =~= blank_rows((n - 1) as nat) + rows);
        lemma_kept_blank_prefix((n - 1) as nat, rows);
        assert(s[0] == empty_row());
        assert(kept(s) =~= seq![empty_row()] + (blank_rows((n - 1) as nat) + kept(rows)));
        assert(kept(s) =~= blank_rows(n) + kept(rows));
    } else {
        assert(blank_rows(0) + rows =~= rows);
        assert(blank_rows(0) + kept(rows) =~= kept(rows));
    }
}

/// A cleared grid keeps its length and holds no full row.
pub proof fn lemma_cleared_shape(rows: Grid)
    ensures
        cleared(rows).len() == rows.len(),
        forall|i: int| 0 <= i < rows.len() ==> !row_full(#[trigger] cleared(rows)[i]),
{
    lemma_kept_len(rows);
    lemma_kept_not_full(rows);
    lemma_empty_row_not_full();
    let b = full_count(rows);
    assert forall|i: int| 0 <= i < rows.len() implies !row_full(#[trigger] cleared(rows)[i]) by {
        if i < b {
            assert(cleared(rows)[i] == empty_row());
        } else {
            assert(cleared(rows)[i] == kept(rows)[i - b]);
        }
    }
}

/// A grid without full rows is its own clearing.
pub proof fn lemma_cleared_no_full(rows: Grid)
    requires
        forall|i: int| 0 <= i < rows.len() ==> !row_full(#[trigger] rows[i]),
    ensures
        kept(rows) == rows,
        cleared(rows) == rows,
    decreases rows.len(),
{
    if rows.len() > 0 {
        lemma_cleared_no_full(rows.drop_first());
        assert(kept(rows) =~= seq![rows[0]] + rows.drop_first());
        assert(kept(rows) =~= rows);
    } else {
        assert(kept(rows) =~= rows);
    }
    assert(blank_rows(0) + rows =~= rows);
}


/// The row on which the piece comes to rest when it falls straight down from row `y`:
/// the last row, going down, where it still fits.
pub open spec fn landing(g: Grid, piece: int, rot: int, x: int, y: int) -> int
    decreases WELL_H - y,
{
    if y < WELL_H && fits_in(g, piece, rot, x, y + 1) {
        landing(g, piece, rot, x, y + 1)
    } else {
        y
    }
}

/// The milliseconds between two gravity steps on a level: 1000, 80 fewer per level
/// above the first, and never under 50.
pub open spec fn drop_interval_of(level: int) -> int {
    if 1000 - (level - 1) * 80 < 50 {
        50
    } else {
        1000 - (level - 1) * 80
    }
}

/// The rotation reached from `rot` by `dir` quarter turns clockwise (negative:
/// counter-clockwise).
pub open spec fn turned(rot: int, dir: int) -> int {
    (rot + dir) % 4
}

/// A landing row is one where the piece fits from a fitting start, and below it the piece
/// would not fit.
pub proof fn lemma_landing(g: Grid, piece: int, rot: int, x: int, y: int)
    requires
        0 <= piece < PIECE_COUNT,
        0 <= rot < 4,
    ensures
        landing(g, piece, rot, x, y) >= y,
        landing(g, piece, rot, x, y) < WELL_H || landing(g, piece, rot, x, y) == y,
        fits_in(g, piece, rot, x, y) ==> fits_in(g, piece, rot, x, landing(g, piece, rot, x, y)),
        !fits_in(g, piece, rot, x, landing(g, piece, rot, x, y) + 1)
            || landing(g, piece, rot, x, y) >= WELL_H,
    decreases WELL_H - y,
{
    if y < WELL_H && fits_in(g, piece, rot, x, y + 1) {
        lemma_fits_above_floor(g, piece, rot, x, y + 1);
        lemma_landing(g, piece, rot, x, y + 1);
    }
}

/// The state of a game of Tetris.
pub struct Game {
    /// Settled cells.
    pub well: Well,
    /// The falling piece.
    pub cur: usize,
    /// Its rotation, 0 to 3.
    pub rot: usize,
    /// Column of its box's left edge.
    pub cx: i32,
    /// Row of its box's top edge.
    pub cy: i32,
    /// The piece that comes next.
    pub next: usize,
    pub score: u32,
    /// Rows cleared so far.
    pub lines: u32,
    pub level: u32,
    pub game_over: bool,
    pub paused: bool,
    /// State of the piece generator.
    pub rng: u64,
    /// Milliseconds gathered towards the next gravity step.
    pub drop_accum: u64,
}

impl Game {
    /// What holds of every game: valid pieces, the level that the cleared rows earn, no
    /// full row in the well, and, while the game runs, a falling piece that fits.
    pub open spec fn inv(self) -> bool {
        &&& self.cur < PIECE_COUNT
        &&& self.next < PIECE_COUNT
        &&& self.rot < 4
        &&& -3 <= self.cx < WELL_W
        &&& self.cy < WELL_H
        &&& self.level == self.lines / 10 + 1
        &&& forall|i: int| 0 <= i < WELL_H ==> !row_full(#[trigger] self.well[i]@)
        &&& !self.game_over ==> self.fits_now()
    }

    /// Whether the falling piece fits where it is.
    pub open spec fn fits_now(self) -> bool {
        fits_in(grid(self.well), self.cur as int, self.rot as int, self.cx as int, self.cy as int)
    }

    /// Whether the piece fits at (`x`, `y`) in rotation `rot` of the current well.
    pub fn fits(&self, piece: usize, rot: usize, cx: i32, cy: i32) -> (b: bool)
        requires
            piece < PIECE_COUNT,
            rot < 4,
            cx <= i32::MAX - 3,
            cy <= i32::MAX - 3,
        ensures
            b == fits_in(grid(self.well), piece as int, rot as int, cx as int, cy as int),
    {
        let ghost g = grid(self.well);
        let mut r: usize = 0;
        while r < 4
            invariant
                r <= 4,
                piece < PIECE_COUNT,
                rot < 4,
                cx <= i32::MAX - 3,
                cy <= i32::MAX - 3,
                g == grid(self.well),
                forall|rr: int, cc: int|
                    0 <= rr < r && #[trigger] filled(piece as int, rot as int, rr, cc) ==> {
                        &&& 0 <= cx + cc < WELL_W
                        &&& cy + rr < WELL_H
                        &&& (cy + rr >= 0 ==> g[cy + rr][cx + cc] is None)
                    },
            decreases 4 - r,
        {
            let mut c: usize = 0;
            while c < 4
                invariant
                    r < 4,
                    c <= 4,
                    piece < PIECE_COUNT,
                    rot < 4,
                    cx <= i32::MAX - 3,
                    cy <= i32::MAX - 3,
                    g == grid(self.well),
                    forall|rr: int, cc: int|
                        (0 <= rr < r || (rr == r && 0 <= cc < c)) && #[trigger] filled(
                            piece as int,
                            rot as int,
                            rr,
                            cc,
                        ) ==> {
                            &&& 0 <= cx + cc < WELL_W
                            &&& cy + rr < WELL_H
                            &&& (cy + rr >= 0 ==> g[cy + rr][cx + cc] is None)
                        },
                decreases 4 - c,
            {
                if cell(piece, rot, r, c) {
                    let x = cx + c as i32;
                    let y = cy + r as i32;
                    if x < 0 || x >= WELL_W as i32 || y >= WELL_H as i32 {
                        return false;
                    }
                    if y >= 0 && self.well[y as usize][x as usize].is_some() {
                        return false;
                    }
                }
                c += 1;
            }
            r += 1;
        }
        proof {
            assert forall|rr: int, cc: int| #[trigger]
                filled(piece as int, rot as int, rr, cc) implies {
                &&& 0 <= cx + cc < WELL_W
                &&& cy + rr < WELL_H
                &&& (cy + rr >= 0 ==> g[cy + rr][cx + cc] is None)
            } by {
                assert(0 <= rr < 4);
            }
        }
        true
    }

    /// Whether every cell of a row is settled.
    fn row_is_full(row: &Row) -> (b: bool)
        ensures
            b == row_full(row@),
    {
        let mut j: usize = 0;
        while j < WELL_W
            invariant
                j <= WELL_W,
                forall|k: int| 0 <= k < j ==> (#[trigger] row@[k]) is Some,
            decreases WELL_W - j,
        {
            if row[j].is_none() {
                return false;
            }
            j += 1;
        }
        true
    }

    /// Paints the cells of the falling piece that lie inside the well with its colour.
    pub fn place_piece(&mut self)
        requires
            old(self).cur < PIECE_COUNT,
            old(self).rot < 4,
            -3 <= old(self).cx < WELL_W,
            old(self).cy < WELL_H,
        ensures
            grid(final(self).well) == placed(
                grid(old(self).well),
                old(self).cur as int,
                old(self).rot as int,
                old(self).cx as int,
                old(self).cy as int,
                piece_tint(old(self).cur as int),
            ),
            final(self).cur == old(self).cur,
            final(self).rot == old(self).rot,
            final(self).cx == old(self).cx,
            final(self).cy == old(self).cy,
            final(self).next == old(self).next,
            final(self).score == old(self).score,
            final(self).lines == old(self).lines,
            final(self).level == old(self).level,
            final(self).game_over == old(self).game_over,
            final(self).paused == old(self).paused,
            final(self).rng == old(self).rng,
            final(self).drop_accum == old(self).drop_accum,
    {
        let ghost g0 = grid(self.well);
        let ghost p = self.cur as int;
        let ghost q = self.rot as int;
        let ghost x0 = self.cx as int;
        let ghost y0 = self.cy as int;
        let col = piece_color(self.cur);
        let ghost s0 = *self;
        let mut r: usize = 0;
        while r < 4
            invariant
                r <= 4,
                self.cur == s0.cur && self.rot == s0.rot && self.cx == s0.cx && self.cy == s0.cy,
                self.next == s0.next && self.score == s0.score && self.lines == s0.lines,
                self.level == s0.level && self.game_over == s0.game_over,
                self.paused == s0.paused && self.rng == s0.rng && self.drop_accum == s0.drop_accum,
                p == s0.cur && q == s0.rot && x0 == s0.cx && y0 == s0.cy,
                p < PIECE_COUNT,
                q < 4,
                -3 <= x0 < WELL_W,
                y0 < WELL_H,
                col == piece_tint(p),
                forall|i: int, j: int|
                    0 <= i < WELL_H && 0 <= j < WELL_W ==> #[trigger] self.well[i][j] == if filled(
                        p,
                        q,
                        i - y0,
                        j - x0,
                    ) && i - y0 < r {
                        Some(col)
                    } else {
                        g0[i][j]
                    },
            decreases 4 - r,
        {
            let mut c: usize = 0;
            while c < 4
                invariant
                    r < 4,
                    c <= 4,
                    self.cur == s0.cur && self.rot == s0.rot && self.cx == s0.cx && self.cy
                        == s0.cy,
                    self.next == s0.next && self.score == s0.score && self.lines == s0.lines,
                    self.level == s0.level && self.game_over == s0.game_over,
                    self.paused == s0.paused && self.rng == s0.rng && self.drop_accum
                        == s0.drop_accum,
                    p == s0.cur && q == s0.rot && x0 == s0.cx && y0 == s0.cy,
                    p < PIECE_COUNT,
                    q < 4,
                    -3 <= x0 < WELL_W,
                    y0 < WELL_H,
                    col == piece_tint(p),
                    forall|i: int, j: int|
                        0 <= i < WELL_H && 0 <= j < WELL_W ==> #[trigger] self.well[i][j]
                            == if filled(p, q, i - y0, j - x0) && (i - y0 < r || (i - y0 == r
                            && j - x0 < c)) {
                            Some(col)
                        } else {
                            g0[i][j]
                        },
                decreases 4 - c,
            {
                if cell(self.cur, self.rot, r, c) {
                    let y = self.cy + r as i32;
                    let x = self.cx + c as i32;
                    if y >= 0 && y < WELL_H as i32 && x >= 0 && x < WELL_W as i32 {
                        self.well[y as usize][x as usize] = Some(col);
                    }
                }
                c += 1;
            }
            r += 1;
        }
        assert(grid(self.well) =~~= placed(g0, p, q, x0, y0, col));
    }

    /// Removes every full row: the rows above fall into its place and empty rows come in
    /// at the top. Counts the cleared rows into `lines`, scores them, and sets the level
    /// to one more than a tenth of the lines.
    pub fn clear_lines(&mut self)
        requires
            old(self).lines + full_count(grid(old(self).well)) <= u32::MAX,
            old(self).score + clear_points(
                full_count(grid(old(self).well)) as int,
                old(self).level as int,
            ) <= u32::MAX,
        ensures
            grid(final(self).well) == cleared(grid(old(self).well)),
            final(self).lines == old(self).lines + full_count(grid(old(self).well)),
            final(self).score == old(self).score + clear_points(
                full_count(grid(old(self).well)) as int,
                old(self).level as int,
            ),
            final(self).level == if full_count(grid(old(self).well)) > 0 {
                final(self).lines / 10 + 1
            } else {
                old(self).level as int
            },
            final(self).cur == old(self).cur,
            final(self).rot == old(self).rot,
            final(self).cx == old(self).cx,
            final(self).cy == old(self).cy,
            final(self).next == old(self).next,
            final(self).game_over == old(self).game_over,
            final(self).paused == old(self).paused,
            final(self).rng == old(self).rng,
            final(self).drop_accum == old(self).drop_accum,
    {
        let ghost orig = grid(self.well);
        let ghost s0 = *self;
        let mut cleared_n: u32 = 0;
        let mut y: i32 = WELL_H as i32 - 1;
        proof {
            assert(blank_rows(0) + orig =~= orig);
            assert(grid(self.well).subrange(WELL_H as int, WELL_H as int) =~= Seq::<
                Seq<Option<Tint>>,
            >::empty());
            assert(orig.subrange(WELL_H as int, WELL_H as int) =~= Seq::<
                Seq<Option<Tint>>,
            >::empty());
        }
        while y >= 0
            invariant
                -1 <= y < WELL_H,
                cleared_n <= WELL_H,
                self.cur == s0.cur && self.rot == s0.rot && self.cx == s0.cx && self.cy == s0.cy,
                self.next == s0.next && self.score == s0.score && self.lines == s0.lines,
                self.level == s0.level && self.game_over == s0.game_over,
                self.paused == s0.paused && self.rng == s0.rng && self.drop_accum == s0.drop_accum,
                orig == grid(s0.well),
                forall|i: int|
                    0 <= i <= y ==> #[trigger] grid(self.well)[i] == (blank_rows(
                        cleared_n as nat,
                    ) + orig)[i],
                grid(self.well).subrange(y + 1, WELL_H as int) == kept(
                    (blank_rows(cleared_n as nat) + orig).subrange(y + 1, WELL_H + cleared_n),
                ),
            decreases 21 * (y + 1) + (WELL_H - cleared_n),
        {
            let ghost ext = blank_rows(cleared_n as nat) + orig;
            let ghost before = grid(self.well);
            if Self::row_is_full(&self.well[y as usize]) {
                proof {
                    assert(before[y as int] == ext[y as int]);
                    if y < cleared_n {
                        lemma_empty_row_not_full();
                        assert(ext[y as int] == empty_row());
                    }
                }
                let ghost w0 = self.well;
                let mut k: usize = y as usize;
                while k > 0
                    invariant
                        k <= y < WELL_H,
                        self.cur == s0.cur && self.rot == s0.rot && self.cx == s0.cx && self.cy
                            == s0.cy,
                        self.next == s0.next && self.score == s0.score && self.lines
                            == s0.lines,
                        self.level == s0.level && self.game_over == s0.game_over,
                        self.paused == s0.paused && self.rng == s0.rng && self.drop_accum
                            == s0.drop_accum,
                        forall|i: int| 0 <= i <= k ==> #[trigger] self.well[i]@ == w0[i]@,
                        forall|i: int| k < i <= y ==> #[trigger] self.well[i]@ == w0[i - 1]@,
                        forall|i: int| y < i < WELL_H ==> #[trigger] self.well[i]@ == w0[i]@,
                    decreases k,
                {
                    self.well[k] = self.well[k - 1];
                    k -= 1;
                }
                self.well[0] = [None; 10];
                cleared_n += 1;
                proof {
                    let ext2 = blank_rows(cleared_n as nat) + orig;
                    let after = grid(self.well);
                    assert(ext2 =~= seq![empty_row()] + ext);
                    assert(self.well[0]@ =~= empty_row());
                    assert forall|i: int| 0 <= i <= y implies #[trigger] after[i] == ext2[i] by {
                        if i > 0 {
                            assert(after[i] == before[i - 1]);
                        }
                    }
                    assert(after.subrange(y + 1, WELL_H as int) =~= before.subrange(
                        y + 1,
                        WELL_H as int,
                    ));
                    let tail = ext2.subrange(y + 1, WELL_H + cleared_n);
                    assert(tail =~= ext.subrange(y as int, WELL_H + cleared_n - 1));
                    assert(tail.drop_first() =~= ext.subrange(y + 1, WELL_H + cleared_n - 1));
                    assert(tail[0] == ext[y as int]);
                }
            } else {
                y -= 1;
                proof {
                    let after = grid(self.well);
                    let tail = ext.subrange(y + 1, WELL_H + cleared_n);
                    assert(tail.drop_first() =~= ext.subrange(y + 2, WELL_H + cleared_n));
                    assert(tail[0] == ext[y + 1]);
                    assert(after.subrange(y + 1, WELL_H as int) =~= seq![after[y + 1]]
                        + after.subrange(y + 2, WELL_H as int));
                }
            }
        }
        proof {
            let ext = blank_rows(cleared_n as nat) + orig;
            assert(grid(self.well).subrange(0, WELL_H as int) =~= grid(self.well));
            assert(ext.subrange(0, WELL_H + cleared_n) =~= ext);
            lemma_kept_blank_prefix(cleared_n as nat, orig);
            lemma_kept_len(orig);
            assert(cleared_n == full_count(orig));
            assert(grid(self.well) =~= cleared(orig));
        }
        if cleared_n > 0 {
            self.lines += cleared_n;
            self.score += if cleared_n == 1 {
                100 * self.level
            } else if cleared_n == 2 {
                300 * self.level
            } else if cleared_n == 3 {
                500 * self.level
            } else {
                800 * self.level
            };
            self.level = self.lines / 10 + 1;
        }
    }

    /// The grid with the falling piece painted in at row `y`.
    pub open spec fn placed_at(self, y: int) -> Grid {
        placed(
            grid(self.well),
            self.cur as int,
            self.rot as int,
            self.cx as int,
            y,
            piece_tint(self.cur as int),
        )
    }

    /// The row where the falling piece would land.
    pub open spec fn landing_row(self) -> int {
        landing(grid(self.well), self.cur as int, self.rot as int, self.cx as int, self.cy as int)
    }

    /// Whether the counters have room for locking the piece at row `y` with `base`
    /// points scored before the lock.
    pub open spec fn lock_room(self, y: int, base: int) -> bool {
        &&& self.lines + full_count(self.placed_at(y)) <= u32::MAX
        &&& base + clear_points(full_count(self.placed_at(y)) as int, self.level as int)
            <= u32::MAX
    }

    /// Whether the counters have room for a hard drop.
    pub open spec fn drop_room(self) -> bool {
        &&& self.score + 2 * (self.landing_row() - self.cy) <= u32::MAX
        &&& self.lock_room(self.landing_row(), self.score + 2 * (self.landing_row() - self.cy))
    }

    /// `after` is `before` with the piece locked at row `y`, `base` points scored before
    /// the lock: the piece painted into the well, the full rows cleared and scored, the
    /// next piece falling from column 3, row 0, unrotated, a new next piece drawn, and the
    /// game over if the new piece does not fit.
    pub open spec fn locked(before: Self, after: Self, y: int, base: int) -> bool {
        let pg = before.placed_at(y);
        let n = full_count(pg);
        &&& grid(after.well) == cleared(pg)
        &&& after.lines == before.lines + n
        &&& after.score == base + clear_points(n as int, before.level as int)
        &&& after.level == if n > 0 {
            after.lines / 10 + 1
        } else {
            before.level as int
        }
        &&& after.cur == before.next
        &&& after.rng == lcg_spec(before.rng)
        &&& after.next == piece_of(after.rng)
        &&& after.rot == 0
        &&& after.cx == 3
        &&& after.cy == 0
        &&& after.game_over == (before.game_over || !fits_in(
            cleared(pg),
            before.next as int,
            0,
            3,
            0,
        ))
        &&& after.paused == before.paused
        &&& after.drop_accum == before.drop_accum
    }

    /// `after` is `before` with the piece shifted by (`dx`, `dy`) where it fits there,
    /// else unchanged.
    pub open spec fn shifted(before: Self, after: Self, dx: int, dy: int) -> bool {
        if fits_in(
            grid(before.well),
            before.cur as int,
            before.rot as int,
            before.cx + dx,
            before.cy + dy,
        ) {
            after == Game { cx: (before.cx + dx) as i32, cy: (before.cy + dy) as i32, ..before }
        } else {
            after == before
        }
    }

    /// `after` is `before` with the piece turned by `dir`: in place if it fits there, else
    /// one column to the left, else one to the right, else not at all.
    pub open spec fn turned_from(before: Self, after: Self, dir: int) -> bool {
        let g = grid(before.well);
        let nr = turned(before.rot as int, dir);
        let p = before.cur as int;
        if fits_in(g, p, nr, before.cx as int, before.cy as int) {
            after == Game { rot: nr as usize, ..before }
        } else if fits_in(g, p, nr, before.cx - 1, before.cy as int) {
            after == Game { rot: nr as usize, cx: (before.cx - 1) as i32, ..before }
        } else if fits_in(g, p, nr, before.cx + 1, before.cy as int) {
            after == Game { rot: nr as usize, cx: (before.cx + 1) as i32, ..before }
        } else {
            after == before
        }
    }

    /// `after` is `before` with the piece dropped to its landing row, 2 points per row
    /// fallen, and locked there.
    pub open spec fn dropped(before: Self, after: Self) -> bool {
        Self::locked(
            before,
            after,
            before.landing_row(),
            before.score + 2 * (before.landing_row() - before.cy),
        )
    }

    /// A game as it starts: an empty well, no score, no lines, level 1, the first piece
    /// unrotated at column 3, row 0, running and not paused.
    pub open spec fn fresh(self) -> bool {
        &&& grid(self.well) == blank_rows(WELL_H as nat)
        &&& self.score == 0
        &&& self.lines == 0
        &&& self.level == 1
        &&& self.rot == 0
        &&& self.cx == 3
        &&& self.cy == 0
        &&& !self.game_over
        &&& !self.paused
        &&& self.drop_accum == 0
        &&& self.inv()
    }

    /// Draws the next piece from the generator.
    pub fn rand_piece(&mut self) -> (p: usize)
        ensures
            final(self).rng == lcg_spec(old(self).rng),
            p == piece_of(final(self).rng),
            p < PIECE_COUNT,
            *final(self) == (Game { rng: final(self).rng, ..*old(self) }),
    {
        self.rng = lcg_step(self.rng);
        ((self.rng >> 33) % 7) as usize
    }

    /// Puts the falling piece at column 3, row 0, unrotated; the game is over if it does
    /// not fit there.
    pub fn spawn(&mut self)
        requires
            old(self).cur < PIECE_COUNT,
        ensures
            *final(self) == (Game {
                cx: 3,
                cy: 0,
                rot: 0,
                game_over: old(self).game_over || !fits_in(
                    grid(old(self).well),
                    old(self).cur as int,
                    0,
                    3,
                    0,
                ),
                ..*old(self)
            }),
    {
        self.cx = 3;
        self.cy = 0;
        self.rot = 0;
        if !self.fits(self.cur, self.rot, self.cx, self.cy) {
            self.game_over = true;
        }
    }

    /// Locks the falling piece where it is, clears full rows, and brings in the next piece.
    #[verifier::rlimit(40)]
    pub fn lock(&mut self)
        requires
            old(self).inv(),
            old(self).lock_room(old(self).cy as int, old(self).score as int),
        ensures
            Self::locked(*old(self), *final(self), old(self).cy as int, old(self).score as int),
            final(self).inv(),
    {
        let ghost s0 = *self;
        self.place_piece();
        let ghost pg = grid(self.well);
        assert(pg == s0.placed_at(s0.cy as int));
        self.clear_lines();
        let ghost cg = grid(self.well);
        assert(cg == cleared(pg));
        proof {
            lemma_cleared_shape(pg);
            assert forall|i: int| 0 <= i < WELL_H implies !row_full(#[trigger] self.well[i]@) by {
                assert(self.well[i]@ == cg[i]);
            }
        }
        self.cur = self.next;
        self.next = self.rand_piece();
        self.spawn();
        assert(grid(self.well) == cg);
    }

    /// Moves the falling piece by (`dx`, `dy`) if it fits there; tells whether it moved.
    pub fn move_piece(&mut self, dx: i32, dy: i32) -> (moved: bool)
        requires
            old(self).inv(),
            old(self).cx + dx <= i32::MAX - 3,
            i32::MIN <= old(self).cx + dx,
            i32::MIN <= old(self).cy + dy <= i32::MAX - 3,
        ensures
            Self::shifted(*old(self), *final(self), dx as int, dy as int),
            moved == fits_in(
                grid(old(self).well),
                old(self).cur as int,
                old(self).rot as int,
                old(self).cx + dx,
                old(self).cy + dy,
            ),
            final(self).inv(),
    {
        if self.fits(self.cur, self.rot, self.cx + dx, self.cy + dy) {
            proof {
                lemma_fits_above_floor(
                    grid(self.well),
                    self.cur as int,
                    self.rot as int,
                    self.cx + dx,
                    self.cy + dy,
                );
            }
            self.cx += dx;
            self.cy += dy;
            true
        } else {
            false
        }
    }

    /// Turns the falling piece by `dir` quarter turns, shifting it one column left or
    /// right where that lets it fit.
    pub fn rotate(&mut self, dir: i32)
        requires
            old(self).inv(),
            old(self).rot + dir <= i32::MAX,
        ensures
            Self::turned_from(*old(self), *final(self), dir as int),
            final(self).inv(),
    {
        let sum = self.rot as i32 + dir;
        let m = sum % 4;
        let new_rot: usize = if m < 0 {
            (m + 4) as usize
        } else {
            m as usize
        };
        assert(new_rot == turned(self.rot as int, dir as int));
        let ghost g = grid(self.well);
        if self.fits(self.cur, new_rot, self.cx, self.cy) {
            proof {
                lemma_fits_above_floor(g, self.cur as int, new_rot as int, self.cx as int, self.cy as int);
            }
            self.rot = new_rot;
        } else if self.fits(self.cur, new_rot, self.cx - 1, self.cy) {
            proof {
                lemma_fits_above_floor(g, self.cur as int, new_rot as int, self.cx - 1, self.cy as int);
            }
            self.cx -= 1;
            self.rot = new_rot;
        } else if self.fits(self.cur, new_rot, self.cx + 1, self.cy) {
            proof {
                lemma_fits_above_floor(g, self.cur as int, new_rot as int, self.cx + 1, self.cy as int);
            }
            self.cx += 1;
            self.rot = new_rot;
        }
    }

    /// The row where the falling piece would land if dropped now.
    pub fn ghost_y(&self) -> (gy: i32)
        requires
            self.inv(),
        ensures
            gy == self.landing_row(),
    {
        let ghost g = grid(self.well);
        let ghost p = self.cur as int;
        let ghost q = self.rot as int;
        let mut gy = self.cy;
        while self.fits(self.cur, self.rot, self.cx, gy + 1)
            invariant
                self.inv(),
                g == grid(self.well),
                p == self.cur && q == self.rot,
                gy < WELL_H,
                landing(g, p, q, self.cx as int, gy as int) == self.landing_row(),
            decreases WELL_H - gy,
        {
            proof {
                lemma_fits_above_floor(g, p, q, self.cx as int, gy + 1);
            }
            gy += 1;
        }
        gy
    }

    /// Drops the falling piece to its landing row, two points per row fallen, and locks it.
    pub fn hard_drop(&mut self)
        requires
            old(self).inv(),
            old(self).drop_room(),
        ensures
            Self::dropped(*old(self), *final(self)),
            final(self).inv(),
    {
        let ghost s0 = *self;
        let ghost g = grid(self.well);
        let ghost p = self.cur as int;
        let ghost q = self.rot as int;
        proof {
            lemma_landing(g, p, q, self.cx as int, self.cy as int);
        }
        while self.fits(self.cur, self.rot, self.cx, self.cy + 1)
            invariant
                self.inv(),
                s0.inv(),
                s0.drop_room(),
                g == grid(s0.well),
                *self == (Game { cy: self.cy, score: self.score, ..s0 }),
                s0.cy <= self.cy,
                landing(g, p, q, self.cx as int, self.cy as int) == s0.landing_row(),
                self.score == s0.score + 2 * (self.cy - s0.cy),
                p == s0.cur && q == s0.rot,
            decreases WELL_H - self.cy,
        {
            proof {
                lemma_fits_above_floor(g, p, q, self.cx as int, self.cy + 1);
                lemma_landing(g, p, q, self.cx as int, self.cy + 1);
            }
            self.cy += 1;
            self.score += 2;
        }
        self.lock();
    }

    /// The milliseconds between two gravity steps.
    pub fn drop_interval(&self) -> (ms: u64)
        requires
            self.level >= 1,
        ensures
            ms == drop_interval_of(self.level as int),
            ms >= 50,
    {
        let dec: u64 = (self.level as u64 - 1) * 80;
        if dec >= 950 {
            50
        } else {
            1000 - dec
        }
    }


    /// A new game whose generator starts from `seed`: the first two draws give the
    /// falling piece and the next one.
    pub fn with_seed(seed: u64) -> (g: Self)
        ensures
            g.fresh(),
            g.cur == piece_of(lcg_spec(seed)),
            g.rng == lcg_spec(lcg_spec(seed)),
            g.next == piece_of(g.rng),
    {
        let mut g = Game {
            well: [[None; 10]; 20],
            cur: 0,
            rot: 0,
            cx: 3,
            cy: 0,
            next: 0,
            score: 0,
            lines: 0,
            level: 1,
            game_over: false,
            paused: false,
            rng: seed,
            drop_accum: 0,
        };
        assert(grid(g.well) =~~= blank_rows(WELL_H as nat));
        g.cur = g.rand_piece();
        g.next = g.rand_piece();
        g.spawn();
        proof {
            lemma_empty_row_not_full();
            assert forall|i: int| 0 <= i < WELL_H implies !row_full(#[trigger] g.well[i]@) by {
                assert(g.well[i]@ == grid(g.well)[i]);
            }
        }
        g
    }

    /// A new game seeded from the clock.
    pub fn new() -> (g: Self)
        ensures
            g.fresh(),
            exists|seed: u64| #[trigger] Self::drawn_from(g, seed),
    {
        let seed = clock_seed_subsec();
        let g = Self::with_seed(seed);
        assert(Self::drawn_from(g, seed));
        g
    }

    /// Whether the first pieces and the generator of `g` are those that a generator
    /// starting from `seed` draws: the falling piece from the first draw, the next piece
    /// from the second.
    pub open spec fn drawn_from(g: Self, seed: u64) -> bool {
        &&& g.cur == piece_of(lcg_spec(seed))
        &&& g.rng == lcg_spec(lcg_spec(seed))
        &&& g.next == piece_of(g.rng)
    }

    /// Starts over with a new game.
    pub fn restart(&mut self)
        ensures
            final(self).fresh(),
            exists|seed: u64| #[trigger] Self::drawn_from(*final(self), seed),
    {
        *self = Game::new();
    }

    /// Lets `dt_ms` milliseconds pass: gravity moves the piece one row down per drop
    /// interval gathered; where it cannot move down it locks and the gathered time is
    /// dropped. Nothing happens while the game is over or paused.
    #[verifier::rlimit(60)]
    pub fn tick(&mut self, dt_ms: u64)
        requires
            old(self).inv(),
            old(self).drop_accum + dt_ms <= u64::MAX,
            old(self).lock_room(old(self).landing_row(), old(self).score as int),
        ensures
            final(self).inv(),
            old(self).game_over || old(self).paused ==> *final(self) == *old(self),
            !old(self).game_over && !old(self).paused ==> {
                let total = old(self).drop_accum + dt_ms;
                let iv = drop_interval_of(old(self).level as int);
                let steps = total / iv;
                let fall = old(self).landing_row() - old(self).cy;
                &&& steps <= fall ==> *final(self) == (Game {
                    cy: (old(self).cy + steps) as i32,
                    drop_accum: (total % iv) as u64,
                    ..*old(self)
                })
                &&& steps > fall ==> Self::locked(
                    Game { drop_accum: 0, ..*old(self) },
                    *final(self),
                    old(self).landing_row(),
                    old(self).score as int,
                )
            },
    {
        if self.game_over || self.paused {
            return;
        }
        let ghost s0 = *self;
        let ghost g = grid(self.well);
        let ghost p = self.cur as int;
        let ghost q = self.rot as int;
        let ghost total = self.drop_accum + dt_ms;
        self.drop_accum += dt_ms;
        let interval = self.drop_interval();
        let ghost iv: int = interval as int;
        let ghost mut j: int = 0;
        proof {
            lemma_landing(g, p, q, self.cx as int, self.cy as int);
        }
        loop
            invariant_except_break
                self.inv(),
                !self.game_over,
                interval == drop_interval_of(s0.level as int),
                interval >= 50,
                iv == interval,
                *self == (Game { cy: self.cy, drop_accum: self.drop_accum, ..s0 }),
                self.cy == s0.cy + j,
                0 <= j <= s0.landing_row() - s0.cy,
                self.drop_accum + j * iv == total,
                landing(g, p, q, self.cx as int, self.cy as int) == s0.landing_row(),
                g == grid(s0.well),
                p == s0.cur && q == s0.rot,
                s0.inv(),
                s0.lock_room(s0.landing_row(), s0.score as int),
            ensures
                self.inv(),
                !(total / iv <= s0.landing_row() - s0.cy) ==> Self::locked(
                    Game { drop_accum: 0, ..s0 },
                    *self,
                    s0.landing_row(),
                    s0.score as int,
                ),
                total / iv <= s0.landing_row() - s0.cy ==> *self == (Game {
                    cy: (s0.cy + total / iv) as i32,
                    drop_accum: (total % iv) as u64,
                    ..s0
                }),
            decreases self.drop_accum,
        {
            if self.drop_accum < interval {
                proof {
                    vstd::arithmetic::div_mod::lemma_fundamental_div_mod_converse(
                        total,
                        iv,
                        j,
                        self.drop_accum as int,
                    );
                }
                break;
            }
            self.drop_accum -= interval;
            proof {
                lemma_landing(g, p, q, self.cx as int, self.cy as int);
                assert((j + 1) * iv == j * iv + iv) by (nonlinear_arith);
            }
            if !self.move_piece(0, 1) {
                proof {
                    assert(self.cy == s0.landing_row());
                    assert((j + 1) * iv <= total) by (nonlinear_arith)
                        requires
                            self.drop_accum + (j + 1) * iv == total,
                            self.drop_accum >= 0,
                    ;
                    assert(total / iv >= j + 1) by (nonlinear_arith)
                        requires
                            (j + 1) * iv <= total,
                            iv > 0,
                            j >= 0,
                    ;
                }
                self.drop_accum = 0;
                let ghost pre = *self;
                assert(pre == (Game { drop_accum: 0, cy: s0.landing_row() as i32, ..s0 }));
                assert(pre.placed_at(pre.cy as int) == s0.placed_at(s0.landing_row()));
                self.lock();
                break;
            }
            proof {
                lemma_fits_above_floor(g, p, q, self.cx as int, self.cy as int);
                lemma_landing(g, p, q, self.cx as int, self.cy as int);
                j = j + 1;
                assert(self.drop_accum + j * iv == total) by (nonlinear_arith)
                    requires
                        self.drop_accum + iv + (j - 1) * iv == total,
                ;
            }
        }
    }


    /// Answers a key press. While the game is over: `q` quits, `r` starts over. While
    /// paused: `q` quits, `p` resumes. Otherwise: `q` quits, `p` pauses, left and right
    /// move the piece, down moves it one row for a point, space drops it, up or `x` turns
    /// it clockwise, `z` counter-clockwise. Other keys do nothing.
    pub fn handle_key(&mut self, key: Key) -> (flow: Flow)
        requires
            old(self).inv(),
            !old(self).game_over && !old(self).paused && key == Key::Char(' ') ==> old(
                self,
            ).drop_room(),
            !old(self).game_over && !old(self).paused && key == Key::Down ==> old(self).score
                < u32::MAX,
        ensures
            final(self).inv(),
            (flow == Flow::Quit) == (key == Key::Char('q')),
            flow == Flow::Quit ==> *final(self) == *old(self),
            old(self).game_over ==> {
                &&& key == Key::Char('r') ==> final(self).fresh() && exists|seed: u64| #[trigger] Self::drawn_from(*final(self), seed)
                &&& key != Key::Char('r') ==> *final(self) == *old(self)
            },
            !old(self).game_over && old(self).paused ==> {
                &&& key == Key::Char('p') ==> *final(self) == (Game {
                    paused: false,
                    ..*old(self)
                })
                &&& key != Key::Char('p') ==> *final(self) == *old(self)
            },
            !old(self).game_over && !old(self).paused ==> {
                &&& key == Key::Char('p') ==> *final(self) == (Game {
                    paused: true,
                    ..*old(self)
                })
                &&& key == Key::Left ==> Self::shifted(*old(self), *final(self), -1, 0)
                &&& key == Key::Right ==> Self::shifted(*old(self), *final(self), 1, 0)
                &&& key == Key::Down ==> if fits_in(
                    grid(old(self).well),
                    old(self).cur as int,
                    old(self).rot as int,
                    old(self).cx as int,
                    old(self).cy + 1,
                ) {
                    *final(self) == (Game {
                        cy: (old(self).cy + 1) as i32,
                        score: (old(self).score + 1) as u32,
                        ..*old(self)
                    })
                } else {
                    *final(self) == *old(self)
                }
                &&& key == Key::Char(' ') ==> Self::dropped(*old(self), *final(self))
                &&& key == Key::Up || key == Key::Char('x') ==> Self::turned_from(
                    *old(self),
                    *final(self),
                    1,
                )
                &&& key == Key::Char('z') ==> Self::turned_from(*old(self), *final(self), -1)
                &&& !(key == Key::Char('p') || key == Key::Left || key == Key::Right || key
                    == Key::Down || key == Key::Char(' ') || key == Key::Up || key == Key::Char(
                    'x',
                ) || key == Key::Char('z')) ==> *final(self) == *old(self)
            },
    {
        if key == Key::Char('q') {
            return Flow::Quit;
        }
        if self.game_over {
            if key == Key::Char('r') {
                self.restart();
            }
        } else if self.paused {
            if key == Key::Char('p') {
                self.paused = false;
            }
        } else {
            match key {
                Key::Char('p') => {
                    self.paused = true;
                },
                Key::Left => {
                    self.move_piece(-1, 0);
                },
                Key::Right => {
                    self.move_piece(1, 0);
                },
                Key::Down => {
                    if self.move_piece(0, 1) {
                        self.score += 1;
                    }
                },
                Key::Char(' ') => {
                    self.hard_drop();
                },
                Key::Up | Key::Char('x') => {
                    self.rotate(1);
                },
                Key::Char('z') => {
                    self.rotate(-1);
                },
                _ => {},
            }
        }
        Flow::Continue
    }

}

/// Gravity never slows down as the level rises.
pub proof fn law_gravity_quickens(low: int, high: int)
    requires
        1 <= low <= high,
    ensures
        drop_interval_of(high) <= drop_interval_of(low),
{
}

/// Clearing the full rows of a grid a second time changes nothing.
pub proof fn law_clear_twice(rows: Grid)
    ensures
        cleared(cleared(rows)) == cleared(rows),
{
    lemma_cleared_shape(rows);
    lemma_cleared_no_full(cleared(rows));
}

/// A shift of the falling piece that took place is undone by the opposite shift.
pub proof fn law_shift_back(before: Game, mid: Game, after: Game, dx: int, dy: int)
    requires
        before.inv(),
        !before.game_over,
        i32::MIN <= before.cx + dx <= i32::MAX,
        i32::MIN <= before.cy + dy <= i32::MAX,
        fits_in(grid(before.well), before.cur as int, before.rot as int, before.cx + dx, before.cy + dy),
        Game::shifted(before, mid, dx, dy),
        Game::shifted(mid, after, -dx, -dy),
    ensures
        after == before,
{
}

/// A quarter turn that needed no kick to the side is undone by the opposite turn.
pub proof fn law_turn_back(before: Game, mid: Game, after: Game)
    requires
        before.inv(),
        !before.game_over,
        fits_in(
            grid(before.well),
            before.cur as int,
            turned(before.rot as int, 1),
            before.cx as int,
            before.cy as int,
        ),
        Game::turned_from(before, mid, 1),
        Game::turned_from(mid, after, -1),
    ensures
        after == before,
{
    assert(turned(turned(before.rot as int, 1), -1) == before.rot);
}

/// A turn takes place whenever the turned piece fits in place, one column to the left or
/// one to the right, trying them in that order: the piece then has the new rotation, on
/// the same row, at most one column from where it was, and fits there. Where none of the
/// three fits, nothing changes.
pub proof fn law_turn_kicks(before: Game, after: Game, dir: int)
    requires
        before.inv(),
        Game::turned_from(before, after, dir),
    ensures
        ({
            let g = grid(before.well);
            let p = before.cur as int;
            let nr = (before.rot + dir) % 4;
            let here = fits_in(g, p, nr, before.cx as int, before.cy as int);
            let left = fits_in(g, p, nr, before.cx - 1, before.cy as int);
            let right = fits_in(g, p, nr, before.cx + 1, before.cy as int);
            &&& (here || left || right) ==> {
                &&& after.rot == nr
                &&& after.cy == before.cy
                &&& before.cx - 1 <= after.cx <= before.cx + 1
                &&& fits_in(g, p, nr, after.cx as int, after.cy as int)
                &&& after.well == before.well
                &&& (Game { rot: before.rot, cx: before.cx, ..after }) == before
            }
            &&& here ==> after.cx == before.cx
            &&& !here && left ==> after.cx == before.cx - 1
            &&& !here && !left && right ==> after.cx == before.cx + 1
            &&& !(here || left || right) ==> after == before
        }),
{
}

/// A row with an empty cell is never cleared: where every row of a grid has one, clearing
/// counts no full row and leaves the grid as it is.
pub proof fn law_gapped_rows_stay(rows: Grid)
    requires
        forall|i: int|
            #![trigger rows[i]]
            0 <= i < rows.len() ==> exists|j: int| 0 <= j < WELL_W && (#[trigger] rows[i][j]) is None,
    ensures
        full_count(rows) == 0,
        cleared(rows) == rows,
{
    assert forall|i: int| 0 <= i < rows.len() implies !row_full(#[trigger] rows[i]) by {
        let row = rows[i];
        let j = choose|j: int| 0 <= j < WELL_W && (#[trigger] rows[i][j]) is None;
        assert(row[j] is None);
    }
    lemma_cleared_no_full(rows);
}

/// A grid with a full row keeps fewer rows than it has.
proof fn lemma_full_row_dropped(rows: Grid, i: int)
    requires
        0 <= i < rows.len(),
        row_full(rows[i]),
    ensures
        kept(rows).len() < rows.len(),
    decreases rows.len(),
{
    lemma_kept_len(rows.drop_first());
    if i > 0 {
        assert(rows.drop_first()[i - 1] == rows[i]);
        lemma_full_row_dropped(rows.drop_first(), i - 1);
    }
}

/// A row whose every cell is settled is cleared: clearing counts at least one full row.
pub proof fn law_filled_row_goes(rows: Grid, i: int)
    requires
        0 <= i < rows.len(),
        forall|j: int| 0 <= j < WELL_W ==> (#[trigger] rows[i][j]) is Some,
    ensures
        full_count(rows) >= 1,
{
    let row = rows[i];
    assert forall|j: int| 0 <= j < WELL_W implies (#[trigger] row[j]) is Some by {
        assert(rows[i][j] is Some);
    }
    lemma_full_row_dropped(rows, i);
}

} // verus!
