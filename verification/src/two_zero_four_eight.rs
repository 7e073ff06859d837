//! 2048: tiles slide and merge on a 4x4 board.
use vstd::prelude::*;

use crate::keys::{Flow, Key};
use crate::rng::{clock_seed_subsec, lcg_high, lcg_spec, lcg_step};
use crate::tint::Tint;

verus! {

/// The board, top row first; 0 is an empty cell.
pub type Board = [[u32; 4]; 4];

/// The values of a four-cell line, as integers.
pub open spec fn ints(a: [u32; 4]) -> Seq<int> {
    Seq::new(4, |i: int| a[i] as int)
}

/// The non-zero values of a line, in their order.
pub open spec fn nonzero(s: Seq<int>) -> Seq<int>
    decreases s.len(),
{
    if s.len() == 0 {
        s
    } else if s[0] == 0 {
        nonzero(s.drop_first())
    } else {
        seq![s[0]] + nonzero(s.drop_first())
    }
}

/// Equal neighbours merged into their sum, from the start of the line; a merged tile does
/// not merge again in the same move.
pub open spec fn merged(s: Seq<int>) -> Seq<int>
    decreases s.len(),
{
    if s.len() == 0 {
        s
    } else if s.len() >= 2 && s[0] == s[1] {
        seq![2 * s[0]] + merged(s.subrange(2, s.len() as int))
    } else {
        seq![s[0]] + merged(s.drop_first())
    }
}

/// The points that merging a line scores: the sum of the tiles that merges make, each
/// pair merging once, from the start of the line.
pub open spec fn gained(s: Seq<int>) -> int
    decreases s.len(),
{
    if s.len() == 0 {
        0
    } else if s.len() >= 2 && s[0] == s[1] {
        2 * s[0] + gained(s.subrange(2, s.len() as int))
    } else {
        gained(s.drop_first())
    }
}

/// The points that sliding a line toward its start scores: the sum of the merged tiles.
pub open spec fn line_gain(s: Seq<int>) -> int {
    gained(nonzero(s))
}

/// A four-cell line after sliding toward its start: the tiles packed together, equal
/// neighbours merged, zeros after them.
pub open spec fn slid(s: Seq<int>) -> Seq<int> {
    let m = merged(nonzero(s));
    Seq::new(4, |i: int| if i < m.len() { m[i] } else { 0 })
}

/// The sum of a line.
pub open spec fn total(s: Seq<int>) -> int
    decreases s.len(),
{
    if s.len() == 0 {
        0
    } else {
        s[0] + total(s.drop_first())
    }
}

/// Whether every value of a slid line fits in a `u32`.
pub open spec fn slide_fits(s: Seq<int>) -> bool {
    forall|i: int| 0 <= i < 4 ==> #[trigger] slid(s)[i] <= u32::MAX
}

/// Appending a value to a line appends it to its non-zero values unless it is zero.
pub proof fn lemma_nonzero_push(s: Seq<int>, x: int)
    ensures
        nonzero(s.push(x)) == if x == 0 {
            nonzero(s)
        } else {
            nonzero(s).push(x)
        },
    decreases s.len(),
{
    if s.len() == 0 {
        assert(s.push(x).drop_first() =~= s);
        assert(seq![x] + s =~= s.push(x));
    } else {
        assert(s.push(x).drop_first() =~= s.drop_first().push(x));
        lemma_nonzero_push(s.drop_first(), x);
        if s[0] != 0 {
            if x == 0 {
            } else {
                assert(seq![s[0]] + nonzero(s.drop_first()).push(x) =~= (seq![s[0]] + nonzero(
                    s.drop_first(),
                )).push(x));
            }
        }
    }
}

/// The non-zero values of a line are no more than its values, and none is zero.
pub proof fn lemma_nonzero_shape(s: Seq<int>)
    ensures
        nonzero(s).len() <= s.len(),
        forall|i: int| 0 <= i < nonzero(s).len() ==> #[trigger] nonzero(s)[i] != 0,
    decreases s.len(),
{
    if s.len() > 0 {
        lemma_nonzero_shape(s.drop_first());
        if s[0] != 0 {
            assert forall|i: int| 0 <= i < nonzero(s).len() implies #[trigger] nonzero(s)[i]
                != 0 by {
                if i > 0 {
                    assert(nonzero(s)[i] == nonzero(s.drop_first())[i - 1]);
                }
            }
        }
    }
}

/// Merging never lengthens a line.
pub proof fn lemma_merged_len(s: Seq<int>)
    ensures
        merged(s).len() <= s.len(),
    decreases s.len(),
{
    if s.len() >= 2 && s[0] == s[1] {
        lemma_merged_len(s.subrange(2, s.len() as int));
    } else if s.len() > 0 {
        lemma_merged_len(s.drop_first());
    }
}

/// The sum of two lines joined.
pub proof fn lemma_total_concat(a: Seq<int>, b: Seq<int>)
    ensures
        total(a + b) == total(a) + total(b),
    decreases a.len(),
{
    if a.len() == 0 {
        assert(a + b =~= b);
    } else {
        assert((a + b).drop_first() =~= a.drop_first() + b);
        lemma_total_concat(a.drop_first(), b);
    }
}

/// The sum of a single value.
pub proof fn lemma_total_single(x: int)
    ensures
        total(seq![x]) == x,
{
    assert(seq![x].drop_first() =~= Seq::<int>::empty());
    assert(total(Seq::<int>::empty()) == 0);
}

/// Dropping zeros keeps the sum.
pub proof fn lemma_total_nonzero(s: Seq<int>)
    ensures
        total(nonzero(s)) == total(s),
    decreases s.len(),
{
    if s.len() > 0 {
        lemma_total_nonzero(s.drop_first());
        if s[0] != 0 {
            lemma_total_concat(seq![s[0]], nonzero(s.drop_first()));
            lemma_total_single(s[0]);
        }
    }
}

/// Merging keeps the sum.
pub proof fn lemma_total_merged(s: Seq<int>)
    ensures
        total(merged(s)) == total(s),
    decreases s.len(),
{
    if s.len() >= 2 && s[0] == s[1] {
        let rest = s.subrange(2, s.len() as int);
        lemma_total_merged(rest);
        lemma_total_concat(seq![2 * s[0]], merged(rest));
        lemma_total_single(2 * s[0]);
        assert(s.drop_first().drop_first() =~= rest);
        assert(total(s) == s[0] + total(s.drop_first()));
        assert(total(s.drop_first()) == s[1] + total(rest));
    } else if s.len() > 0 {
        lemma_total_merged(s.drop_first());
        lemma_total_concat(seq![s[0]], merged(s.drop_first()));
        lemma_total_single(s[0]);
    }
}

/// Zeros add nothing to a sum.
pub proof fn lemma_total_zeros(n: nat)
    ensures
        total(Seq::new(n, |i: int| 0int)) == 0,
    decreases n,
{
    if n > 0 {
        assert(Seq::new(n, |i: int| 0int).drop_first() =~= Seq::new((n - 1) as nat, |i: int| 0int));
        lemma_total_zeros((n - 1) as nat);
    }
}

/// Sliding a line keeps the sum of its tiles.
pub proof fn lemma_slide_keeps_total(s: Seq<int>)
    requires
        s.len() == 4,
    ensures
        total(slid(s)) == total(s),
{
    let nz = nonzero(s);
    let m = merged(nz);
    lemma_nonzero_shape(s);
    lemma_merged_len(nz);
    lemma_total_nonzero(s);
    lemma_total_merged(nz);
    let zs = Seq::new((4 - m.len()) as nat, |i: int| 0int);
    assert(slid(s) =~= m + zs);
    lemma_total_concat(m, zs);
    lemma_total_zeros((4 - m.len()) as nat);
}

/// The values of a line of four held in 64 bits, as integers.
pub open spec fn wide(a: [u64; 4]) -> Seq<int> {
    Seq::new(4, |i: int| a[i] as int)
}

/// Slides a line of four tiles toward its start in 64-bit cells, where no merge can
/// overflow, and tells what it scores: the tiles pack together, then equal neighbours
/// merge into their sum, each tile at most once, from the start on; the score is the
/// sum of the merged tiles.
pub fn slide_row_wide(row: [u32; 4]) -> (res: ([u64; 4], u64))
    ensures
        wide(res.0) == slid(ints(row)),
        res.1 == line_gain(ints(row)),
{
    let ghost s = ints(row);
    let mut compressed = [0u32; 4];
    let mut ci: usize = 0;
    let mut k: usize = 0;
    while k < 4
        invariant
            k <= 4,
            ci <= k,
            s == ints(row),
            ints(compressed).subrange(0, ci as int) == nonzero(s.subrange(0, k as int)),
            forall|j: int| ci <= j < 4 ==> compressed[j] == 0,
        decreases 4 - k,
    {
        proof {
            assert(s.subrange(0, k + 1) =~= s.subrange(0, k as int).push(s[k as int]));
            lemma_nonzero_push(s.subrange(0, k as int), s[k as int]);
        }
        if row[k] != 0 {
            compressed[ci] = row[k];
            ci += 1;
            assert(ints(compressed).subrange(0, ci as int) =~= ints(compressed).subrange(
                0,
                ci - 1,
            ).push(row[k as int] as int));
        } else {
            assert(ints(compressed).subrange(0, ci as int) =~= ints(compressed).subrange(
                0,
                ci as int,
            ));
        }
        k += 1;
    }
    let ghost cs = nonzero(s);
    proof {
        assert(s.subrange(0, 4) =~= s);
        lemma_nonzero_shape(s);
        lemma_merged_len(cs);
    }
    let mut out = [0u64; 4];
    let mut gain: u64 = 0;
    let mut mi: usize = 0;
    let mut i: usize = 0;
    proof {
        assert(cs.subrange(0, ci as int) =~= cs);
    }
    while i < 4
        invariant
            i <= ci <= 4,
            mi <= i,
            cs == nonzero(s),
            s == ints(row),
            cs.len() == ci,
            forall|j: int| 0 <= j < ci ==> #[trigger] cs[j] != 0,
            forall|j: int| 0 <= j < ci ==> compressed[j] == cs[j],
            forall|j: int| ci <= j < 4 ==> compressed[j] == 0,
            wide(out).subrange(0, mi as int) + merged(cs.subrange(i as int, ci as int)) == merged(
                cs,
            ),
            forall|j: int| mi <= j < 4 ==> out[j] == 0,
            gain + gained(cs.subrange(i as int, ci as int)) == gained(cs),
            gain <= mi * 0x1_ffff_fffe,
        ensures
            i == ci,
            wide(out).subrange(0, mi as int) + merged(cs.subrange(i as int, ci as int)) == merged(
                cs,
            ),
            forall|j: int| mi <= j < 4 ==> out[j] == 0,
            gain + gained(cs.subrange(i as int, ci as int)) == gained(cs),
        decreases 4 - i,
    {
        if compressed[i] == 0 {
            break;
        }
        let ghost rest = cs.subrange(i as int, ci as int);
        let ghost before = wide(out).subrange(0, mi as int);
        if i + 1 < 4 && compressed[i] == compressed[i + 1] && compressed[i + 1] != 0 {
            proof {
                assert(rest.subrange(2, rest.len() as int) =~= cs.subrange(i + 2, ci as int));
                assert(merged(rest) == seq![2 * rest[0]] + merged(cs.subrange(i + 2, ci as int)));
                assert(gained(rest) == 2 * rest[0] + gained(cs.subrange(i + 2, ci as int)));
                assert(before + seq![2 * rest[0]] + merged(cs.subrange(i + 2, ci as int))
                    =~= merged(cs));
                assert(merged(cs)[mi as int] == 2 * cs[i as int]);
                lemma_merged_len(cs);
                assert(slid(s)[mi as int] == merged(cs)[mi as int]);
            }
            out[mi] = compressed[i] as u64 * 2;
            gain = gain + out[mi] as u64;
            proof {
                assert(wide(out).subrange(0, mi + 1) =~= before + seq![2 * rest[0]]);
            }
            mi += 1;
            i += 2;
        } else {
            proof {
                assert(rest.drop_first() =~= cs.subrange(i + 1, ci as int));
                assert(merged(rest) == seq![rest[0]] + merged(cs.subrange(i + 1, ci as int)));
                assert(gained(rest) == gained(cs.subrange(i + 1, ci as int)));
            }
            out[mi] = compressed[i] as u64;
            proof {
                assert(wide(out).subrange(0, mi + 1) =~= before + seq![rest[0]]);
            }
            mi += 1;
            i += 1;
        }
    }
    proof {
        assert(merged(cs.subrange(ci as int, ci as int)) =~= Seq::<int>::empty());
        assert(wide(out).subrange(0, mi as int) =~= merged(cs));
        assert(wide(out) =~= slid(s));
        assert(gained(cs.subrange(ci as int, ci as int)) == 0);
    }
    (out, gain)
}

/// Slides a line of four tiles toward its start and tells what it scores: the tiles
/// pack together, then equal neighbours merge into their sum, each tile at most once,
/// from the start on; the score is the sum of the merged tiles.
pub fn slide_row_scored(row: [u32; 4]) -> (res: ([u32; 4], u64))
    requires
        slide_fits(ints(row)),
    ensures
        ints(res.0) == slid(ints(row)),
        res.1 == line_gain(ints(row)),
{
    let (w, gain) = slide_row_wide(row);
    proof {
        assert(slid(ints(row))[0] <= u32::MAX && slid(ints(row))[1] <= u32::MAX);
        assert(slid(ints(row))[2] <= u32::MAX && slid(ints(row))[3] <= u32::MAX);
        assert(wide(w)[0] == w[0] && wide(w)[1] == w[1] && wide(w)[2] == w[2] && wide(w)[3] == w[3]);
    }
    let out = [w[0] as u32, w[1] as u32, w[2] as u32, w[3] as u32];
    assert(ints(out) =~= slid(ints(row)));
    (out, gain)
}

/// Whether a line of four slides toward its start within `u32`: no merge sums past it.
pub fn line_fits(row: [u32; 4]) -> (b: bool)
    ensures
        b == slide_fits(ints(row)),
{
    let (w, _) = slide_row_wide(row);
    let b = w[0] <= 0xffff_ffff && w[1] <= 0xffff_ffff && w[2] <= 0xffff_ffff && w[3]
        <= 0xffff_ffff;
    proof {
        assert(wide(w)[0] == w[0] && wide(w)[1] == w[1] && wide(w)[2] == w[2] && wide(w)[3] == w[3]);
        if !b {
            if w[0] > 0xffff_ffff {
                assert(slid(ints(row))[0] > u32::MAX);
            } else if w[1] > 0xffff_ffff {
                assert(slid(ints(row))[1] > u32::MAX);
            } else if w[2] > 0xffff_ffff {
                assert(slid(ints(row))[2] > u32::MAX);
            } else {
                assert(slid(ints(row))[3] > u32::MAX);
            }
        }
    }
    b
}

/// Slides a line of four tiles toward its start: the tiles pack together, then equal
/// neighbours merge into their sum, each tile at most once, from the start on.
pub fn slide_row(row: [u32; 4]) -> (out: [u32; 4])
    requires
        slide_fits(ints(row)),
    ensures
        ints(out) == slid(ints(row)),
{
    slide_row_scored(row).0
}

/// The board as rows of integers.
pub type Cells = Seq<Seq<int>>;

/// The board's cells.
pub open spec fn cells(b: Board) -> Cells {
    Seq::new(4, |r: int| ints(b[r]))
}

/// An empty board.
pub open spec fn zero_cells() -> Cells {
    Seq::new(4, |r: int| Seq::new(4, |c: int| 0int))
}

/// Whether a key is one of the four arrows, the keys that slide the tiles.
pub open spec fn is_arrow(k: Key) -> bool {
    k == Key::Left || k == Key::Right || k == Key::Up || k == Key::Down
}

/// The row of the `i`-th cell of line `k` when the tiles slide toward `dir`: the lines are
/// the rows for left and right, the columns for up and down, each read from the wall that
/// the tiles slide to.
pub open spec fn at_row(dir: Key, k: int, i: int) -> int {
    if dir == Key::Left || dir == Key::Right {
        k
    } else if dir == Key::Up {
        i
    } else {
        3 - i
    }
}

/// The column of the `i`-th cell of line `k` when the tiles slide toward `dir`.
pub open spec fn at_col(dir: Key, k: int, i: int) -> int {
    if dir == Key::Left {
        i
    } else if dir == Key::Right {
        3 - i
    } else {
        k
    }
}

/// The line that cell (`r`, `c`) lies on when the tiles slide toward `dir`.
pub open spec fn line_of(dir: Key, r: int, c: int) -> int {
    if dir == Key::Left || dir == Key::Right {
        r
    } else {
        c
    }
}

/// The place of cell (`r`, `c`) on its line when the tiles slide toward `dir`.
pub open spec fn place_of(dir: Key, r: int, c: int) -> int {
    if dir == Key::Left {
        c
    } else if dir == Key::Right {
        3 - c
    } else if dir == Key::Up {
        r
    } else {
        3 - r
    }
}

/// Line `k` of the board when the tiles slide toward `dir`, from the wall outward.
pub open spec fn line(g: Cells, dir: Key, k: int) -> Seq<int> {
    Seq::new(4, |i: int| g[at_row(dir, k, i)][at_col(dir, k, i)])
}

/// The board after every line slides toward `dir`.
pub open spec fn slide_all(g: Cells, dir: Key) -> Cells {
    Seq::new(
        4,
        |r: int| Seq::new(4, |c: int| slid(line(g, dir, line_of(dir, r, c)))[place_of(dir, r, c)]),
    )
}

/// Whether sliding toward `dir` changes some line.
pub open spec fn movable(g: Cells, dir: Key) -> bool {
    exists|k: int| 0 <= k < 4 && #[trigger] slid(line(g, dir, k)) != line(g, dir, k)
}

/// Whether sliding toward `dir` keeps every tile within `u32`.
pub open spec fn move_fits(g: Cells, dir: Key) -> bool {
    forall|k: int| 0 <= k < 4 ==> slide_fits(#[trigger] line(g, dir, k))
}

/// The points that sliding the first `k` lines toward `dir` scores.
pub open spec fn gain_upto(g: Cells, dir: Key, k: int) -> int
    decreases k,
{
    if k <= 0 {
        0
    } else {
        gain_upto(g, dir, k - 1) + line_gain(line(g, dir, k - 1))
    }
}

/// The points that sliding the whole board toward `dir` scores: the sum of all the
/// merged tiles.
pub open spec fn board_gain(g: Cells, dir: Key) -> int {
    gain_upto(g, dir, 4)
}

/// The empty cells among the first `n` in row-major order, in that order.
pub open spec fn empties_upto(g: Cells, n: int) -> Seq<(int, int)>
    decreases n,
{
    if n <= 0 {
        Seq::empty()
    } else {
        let rest = empties_upto(g, n - 1);
        if g[(n - 1) / 4][(n - 1) % 4] == 0 {
            rest.push(((n - 1) / 4, (n - 1) % 4))
        } else {
            rest
        }
    }
}

/// The empty cells, in row-major order.
pub open spec fn empties(g: Cells) -> Seq<(int, int)> {
    empties_upto(g, 16)
}

/// The board with cell `rc` set to `v`.
pub open spec fn with_tile(g: Cells, rc: (int, int), v: int) -> Cells {
    g.update(rc.0, g[rc.0].update(rc.1, v))
}

/// A new tile drawn with generator state `rng`: an empty cell picked by the first draw, a
/// 4 where the second draw is a multiple of 10, else a 2. Gives the board and the new
/// state; a full board stays as it is.
pub open spec fn spawn_tile(g: Cells, rng: u64) -> (Cells, u64) {
    let e = empties(g);
    if e.len() == 0 {
        (g, rng)
    } else {
        let r1 = lcg_spec(rng);
        let r2 = lcg_spec(r1);
        let idx = lcg_high(r1) % (e.len() as u64);
        let v = if lcg_high(r2) % 10 == 0 {
            4int
        } else {
            2int
        };
        (with_tile(g, e[idx as int], v), r2)
    }
}

/// Whether some tile reads 2048.
pub open spec fn has_2048(g: Cells) -> bool {
    exists|r: int, c: int| 0 <= r < 4 && 0 <= c < 4 && #[trigger] g[r][c] == 2048
}

/// Whether two neighbours, side by side or one above the other, hold equal values.
pub open spec fn mergeable(g: Cells) -> bool {
    exists|r: int, c: int|
        0 <= r < 4 && 0 <= c < 4 && ((c + 1 < 4 && #[trigger] g[r][c] == g[r][c + 1]) || (r + 1
            < 4 && g[r][c] == g[r + 1][c]))
}

/// The sum of all the tiles of a board.
pub open spec fn tile_sum(g: Cells) -> int {
    total(g[0]) + total(g[1]) + total(g[2]) + total(g[3])
}

/// Whether a board has four rows of four cells.
pub open spec fn square(g: Cells) -> bool {
    g.len() == 4 && forall|r: int| 0 <= r < 4 ==> (#[trigger] g[r]).len() == 4
}

/// The sum of a line of four.
pub proof fn lemma_total_four(s: Seq<int>)
    requires
        s.len() == 4,
    ensures
        total(s) == s[0] + s[1] + s[2] + s[3],
{
    reveal_with_fuel(total, 5);
    assert(s.drop_first().drop_first().drop_first().drop_first() =~= Seq::<int>::empty());
}

/// The tiles of a board, summed line by line in any of the four directions.
proof fn lemma_tile_sum_by_lines(g: Cells, dir: Key)
    requires
        square(g),
        is_arrow(dir),
    ensures
        tile_sum(g) == total(line(g, dir, 0)) + total(line(g, dir, 1)) + total(line(g, dir, 2))
            + total(line(g, dir, 3)),
{
    lemma_total_four(g[0]);
    lemma_total_four(g[1]);
    lemma_total_four(g[2]);
    lemma_total_four(g[3]);
    lemma_total_four(line(g, dir, 0));
    lemma_total_four(line(g, dir, 1));
    lemma_total_four(line(g, dir, 2));
    lemma_total_four(line(g, dir, 3));
}

/// Line `k` of a slid board is line `k` of the board, slid.
proof fn lemma_line_of_slid(g: Cells, dir: Key, k: int)
    requires
        is_arrow(dir),
        0 <= k < 4,
    ensures
        line(slide_all(g, dir), dir, k) == slid(line(g, dir, k)),
{
    assert(line(slide_all(g, dir), dir, k) =~= slid(line(g, dir, k)));
}

/// Sliding the whole board keeps the sum of its tiles.
pub proof fn law_slide_keeps_tile_sum(g: Cells, dir: Key)
    requires
        square(g),
        is_arrow(dir),
    ensures
        square(slide_all(g, dir)),
        tile_sum(slide_all(g, dir)) == tile_sum(g),
{
    let h = slide_all(g, dir);
    lemma_tile_sum_by_lines(g, dir);
    lemma_tile_sum_by_lines(h, dir);
    lemma_line_of_slid(g, dir, 0);
    lemma_line_of_slid(g, dir, 1);
    lemma_line_of_slid(g, dir, 2);
    lemma_line_of_slid(g, dir, 3);
    lemma_slide_keeps_total(line(g, dir, 0));
    lemma_slide_keeps_total(line(g, dir, 1));
    lemma_slide_keeps_total(line(g, dir, 2));
    lemma_slide_keeps_total(line(g, dir, 3));
}

/// A new tile adds 2 or 4 to the sum of the tiles, in an empty cell, unless the board is
/// full.
pub proof fn law_spawn_adds_a_tile(g: Cells, rng: u64)
    requires
        square(g),
    ensures
        square(spawn_tile(g, rng).0),
        empties(g).len() == 0 ==> tile_sum(spawn_tile(g, rng).0) == tile_sum(g),
        empties(g).len() > 0 ==> tile_sum(spawn_tile(g, rng).0) == tile_sum(g) + 2 || tile_sum(
            spawn_tile(g, rng).0,
        ) == tile_sum(g) + 4,
{
    if empties(g).len() > 0 {
        let (rc, v) = lemma_spawn_cell(g, rng);
        lemma_tile_gains(g, rc.0, rc.1, v);
    }
}

/// There are no more empty cells among the first `n` than `n`.
proof fn lemma_empties_len(g: Cells, n: int)
    requires
        0 <= n,
    ensures
        empties_upto(g, n).len() <= n,
    decreases n,
{
    if n > 0 {
        lemma_empties_len(g, n - 1);
    }
}

/// A new board drawn with generator state `seed`: two tiles drawn onto an empty board;
/// gives the board and the generator's state after.
pub open spec fn fresh_board(seed: u64) -> (Cells, u64) {
    let (g1, r1) = spawn_tile(zero_cells(), seed);
    spawn_tile(g1, r1)
}

/// Whether a board holds exactly two tiles, each a 2 or a 4, all other cells empty.
pub open spec fn two_tiles(g: Cells) -> bool {
    exists|a: (int, int), b: (int, int)|
        #![trigger g[a.0][a.1], g[b.0][b.1]]
        {
            &&& 0 <= a.0 < 4 && 0 <= a.1 < 4
            &&& 0 <= b.0 < 4 && 0 <= b.1 < 4
            &&& a != b
            &&& (g[a.0][a.1] == 2 || g[a.0][a.1] == 4)
            &&& (g[b.0][b.1] == 2 || g[b.0][b.1] == 4)
            &&& forall|r: int, c: int|
                0 <= r < 4 && 0 <= c < 4 && (r, c) != a && (r, c) != b ==> #[trigger] g[r][c] == 0
        }
}

/// A board with an empty cell has an empty cell to draw.
proof fn lemma_has_empty(g: Cells, r: int, c: int)
    requires
        0 <= r < 4 && 0 <= c < 4,
        g[r][c] == 0,
    ensures
        empties(g).len() > 0,
{
    if empties(g).len() == 0 {
        lemma_no_empties_upto(g, 16);
        assert(g[(r * 4 + c) / 4][(r * 4 + c) % 4] != 0);
        assert((r * 4 + c) / 4 == r && (r * 4 + c) % 4 == c);
    }
}

/// Every new board holds exactly two tiles, each a 2 or a 4.
pub proof fn law_fresh_board_two_tiles(seed: u64)
    ensures
        two_tiles(fresh_board(seed).0),
{
    let z = zero_cells();
    lemma_has_empty(z, 0, 0);
    let (a, va) = lemma_spawn_cell(z, seed);
    let (g1, r1) = spawn_tile(z, seed);
    assert(g1 == with_tile(z, a, va));
    let other = if a == (0int, 0int) {
        (0int, 1int)
    } else {
        (0int, 0int)
    };
    assert(g1[other.0][other.1] == 0);
    lemma_has_empty(g1, other.0, other.1);
    let (b, vb) = lemma_spawn_cell(g1, r1);
    let g2 = fresh_board(seed).0;
    assert(g2 == with_tile(g1, b, vb));
    assert(a != b);
    assert(g2[a.0][a.1] == va);
    assert(g2[b.0][b.1] == vb);
    assert forall|r: int, c: int|
        0 <= r < 4 && 0 <= c < 4 && (r, c) != a && (r, c) != b implies #[trigger] g2[r][c] == 0 by {
    }
}

/// Where a new tile lands on a board with an empty cell, and what it reads.
proof fn lemma_spawn_cell(g: Cells, rng: u64) -> (rv: ((int, int), int))
    requires
        empties(g).len() > 0,
    ensures
        0 <= rv.0.0 < 4 && 0 <= rv.0.1 < 4,
        g[rv.0.0][rv.0.1] == 0,
        rv.1 == 2 || rv.1 == 4,
        spawn_tile(g, rng).0 == with_tile(g, rv.0, rv.1),
{
    let e = empties(g);
    let r1 = lcg_spec(rng);
    let r2 = lcg_spec(r1);
    let idx = lcg_high(r1) % (e.len() as u64);
    let v = if lcg_high(r2) % 10 == 0 {
        4int
    } else {
        2int
    };
    lemma_empties_in_range(g, 16);
    lemma_empties_len(g, 16);
    vstd::arithmetic::div_mod::lemma_mod_bound(lcg_high(r1) as int, e.len() as int);
    assert(idx < e.len());
    let rc = e[idx as int];
    (rc, v)
}

/// Setting an empty cell of a board to `v` raises the sum of the tiles by `v`.
proof fn lemma_tile_gains(g: Cells, r: int, c: int, v: int)
    requires
        square(g),
        0 <= r < 4,
        0 <= c < 4,
        g[r][c] == 0,
    ensures
        square(with_tile(g, (r, c), v)),
        tile_sum(with_tile(g, (r, c), v)) == tile_sum(g) + v,
{
    let h = with_tile(g, (r, c), v);
    lemma_total_four(g[r]);
    lemma_total_four(h[r]);
    assert(total(h[r]) == total(g[r]) + v);
    assert(forall|k: int| 0 <= k < 4 && k != r ==> #[trigger] h[k] == g[k]);
}

/// Packing a line that keeps its length drops no zero: the line had none.
proof fn lemma_nonzero_same_len(s: Seq<int>)
    requires
        nonzero(s).len() == s.len(),
    ensures
        nonzero(s) == s,
    decreases s.len(),
{
    if s.len() > 0 {
        lemma_nonzero_shape(s.drop_first());
        if s[0] == 0 {
            assert(false);
        } else {
            lemma_nonzero_same_len(s.drop_first());
            assert(seq![s[0]] + s.drop_first() =~= s);
        }
    }
}

/// Merging that keeps the length merges nothing.
proof fn lemma_merged_same_len(s: Seq<int>)
    requires
        merged(s).len() == s.len(),
    ensures
        merged(s) == s,
    decreases s.len(),
{
    if s.len() >= 2 && s[0] == s[1] {
        lemma_merged_len(s.subrange(2, s.len() as int));
        assert(false);
    } else if s.len() > 0 {
        lemma_merged_same_len(s.drop_first());
        assert(seq![s[0]] + s.drop_first() =~= s);
    }
}

/// A line that a slide changes ends with an empty cell.
proof fn lemma_changed_line_has_gap(s: Seq<int>)
    requires
        s.len() == 4,
        slid(s) != s,
    ensures
        slid(s)[3] == 0,
{
    let nz = nonzero(s);
    let m = merged(nz);
    lemma_nonzero_shape(s);
    lemma_merged_len(nz);
    if m.len() == 4 {
        lemma_merged_same_len(nz);
        lemma_nonzero_same_len(s);
        assert(slid(s) =~= s);
    }
}

/// After a move that changes the board there is an empty cell for the new tile.
proof fn lemma_moved_leaves_room(g: Cells, dir: Key)
    requires
        square(g),
        is_arrow(dir),
        movable(g, dir),
    ensures
        empties(slide_all(g, dir)).len() > 0,
{
    let h = slide_all(g, dir);
    let k = choose|k: int| 0 <= k < 4 && #[trigger] slid(line(g, dir, k)) != line(g, dir, k);
    lemma_changed_line_has_gap(line(g, dir, k));
    let r = at_row(dir, k, 3);
    let c = at_col(dir, k, 3);
    assert(h[r][c] == slid(line(g, dir, k))[3]);
    if empties(h).len() == 0 {
        lemma_no_empties_upto(h, 16);
        assert(h[(r * 4 + c) / 4][(r * 4 + c) % 4] != 0);
        assert((r * 4 + c) / 4 == r && (r * 4 + c) % 4 == c);
    }
}

/// A move that takes place raises the sum of the tiles by exactly the new tile's 2 or 4.
pub proof fn law_move_adds_two_or_four(before: Game, after: Game, key: Key)
    requires
        Game::moved(before, after, key),
        !before.move_blocked(key),
    ensures
        tile_sum(cells(after.board)) == tile_sum(cells(before.board)) + 2 || tile_sum(
            cells(after.board),
        ) == tile_sum(cells(before.board)) + 4,
{
    let g = cells(before.board);
    law_slide_keeps_tile_sum(g, key);
    let sg = slide_all(g, key);
    law_spawn_adds_a_tile(sg, before.rng);
    if empties(sg).len() == 0 {
        lemma_moved_leaves_room(g, key);
    }
}

/// A move that takes place wins the game exactly when, after it, a tile anywhere on the
/// board reads 2048, or when the game was won already.
pub proof fn law_move_wins_on_2048(before: Game, after: Game, key: Key)
    requires
        Game::moved(before, after, key),
        !before.move_blocked(key),
    ensures
        after.won == (before.won || exists|r: int, c: int|
            0 <= r < 4 && 0 <= c < 4 && after.board[r][c] == 2048),
{
    let g = cells(after.board);
    if exists|r: int, c: int| 0 <= r < 4 && 0 <= c < 4 && after.board[r][c] == 2048 {
        let (r, c) = choose|r: int, c: int| 0 <= r < 4 && 0 <= c < 4 && after.board[r][c] == 2048;
        assert(g[r][c] == 2048);
    }
    if has_2048(g) {
        let (r, c) = choose|r: int, c: int| 0 <= r < 4 && 0 <= c < 4 && #[trigger] g[r][c] == 2048;
        assert(after.board[r][c] == 2048);
    }
}

/// The cell of place `i` on line `k` when the tiles slide toward `dir`.
fn cell_at(dir: Key, k: usize, i: usize) -> (rc: (usize, usize))
    requires
        k < 4,
        i < 4,
    ensures
        rc.0 == at_row(dir, k as int, i as int),
        rc.1 == at_col(dir, k as int, i as int),
{
    if dir == Key::Left {
        (k, i)
    } else if dir == Key::Right {
        (k, 3 - i)
    } else if dir == Key::Up {
        (i, k)
    } else {
        (3 - i, k)
    }
}

/// The points a line scores are never negative.
proof fn lemma_gained_nonneg(s: Seq<int>)
    requires
        forall|i: int| 0 <= i < s.len() ==> #[trigger] s[i] >= 0,
    ensures
        gained(s) >= 0,
    decreases s.len(),
{
    if s.len() >= 2 && s[0] == s[1] {
        let t = s.subrange(2, s.len() as int);
        assert forall|i: int| 0 <= i < t.len() implies #[trigger] t[i] >= 0 by {
            assert(t[i] == s[i + 2]);
        }
        lemma_gained_nonneg(t);
    } else if s.len() > 0 {
        let t = s.drop_first();
        assert forall|i: int| 0 <= i < t.len() implies #[trigger] t[i] >= 0 by {
            assert(t[i] == s[i + 1]);
        }
        lemma_gained_nonneg(t);
    }
}

/// The points of the first `k` lines of a board never exceed those of all four.
proof fn lemma_gain_upto_grows(g: Cells, dir: Key, k: int)
    requires
        0 <= k <= 4,
        forall|r: int, c: int| 0 <= r < 4 && 0 <= c < 4 ==> #[trigger] g[r][c] >= 0,
        is_arrow(dir),
    ensures
        0 <= gain_upto(g, dir, k) <= board_gain(g, dir),
    decreases 4 - k,
{
    assert forall|j: int| 0 <= j < 4 implies line_gain(#[trigger] line(g, dir, j)) >= 0 by {
        let l = line(g, dir, j);
        assert forall|i: int| 0 <= i < l.len() implies #[trigger] l[i] >= 0 by {
            assert(l[i] == g[at_row(dir, j, i)][at_col(dir, j, i)]);
        }
        lemma_nonzero_positive(l);
        lemma_gained_nonneg(nonzero(l));
    }
    assert(gain_upto(g, dir, 0) == 0);
    assert(gain_upto(g, dir, 1) >= 0);
    assert(gain_upto(g, dir, 2) >= gain_upto(g, dir, 1));
    assert(gain_upto(g, dir, 3) >= gain_upto(g, dir, 2));
    assert(gain_upto(g, dir, 4) >= gain_upto(g, dir, 3));
}

/// Packing a line whose first `p` cells are tiles and whose others are empty keeps
/// those `p` tiles, for any prefix of length `k`.
proof fn lemma_nonzero_prefix(s: Seq<int>, p: int, k: int)
    requires
        0 <= p <= s.len(),
        0 <= k <= s.len(),
        forall|i: int| 0 <= i < p ==> #[trigger] s[i] != 0,
        forall|i: int| p <= i < s.len() ==> #[trigger] s[i] == 0,
    ensures
        nonzero(s.subrange(0, k)) == s.subrange(0, if k < p { k } else { p }),
    decreases k,
{
    if k > 0 {
        lemma_nonzero_prefix(s, p, k - 1);
        assert(s.subrange(0, k) =~= s.subrange(0, k - 1).push(s[k - 1]));
        lemma_nonzero_push(s.subrange(0, k - 1), s[k - 1]);
        if k <= p {
            assert(s.subrange(0, k - 1).push(s[k - 1]) =~= s.subrange(0, k));
        }
    } else {
        assert(s.subrange(0, 0) =~= Seq::<int>::empty());
    }
}

/// Merging that keeps the length scores nothing.
proof fn lemma_merged_same_len_no_gain(t: Seq<int>)
    requires
        merged(t).len() == t.len(),
    ensures
        gained(t) == 0,
    decreases t.len(),
{
    if t.len() >= 2 && t[0] == t[1] {
        lemma_merged_len(t.subrange(2, t.len() as int));
    } else if t.len() > 0 {
        lemma_merged_same_len_no_gain(t.drop_first());
    }
}

/// A line that sliding leaves as it is scores nothing.
proof fn lemma_unchanged_no_gain(s: Seq<int>)
    requires
        s.len() == 4,
        slid(s) == s,
        forall|i: int| 0 <= i < s.len() ==> #[trigger] s[i] >= 0,
    ensures
        line_gain(s) == 0,
{
    let nz = nonzero(s);
    let m = merged(nz);
    lemma_nonzero_positive(s);
    lemma_merged_positive(nz);
    lemma_merged_len(nz);
    lemma_nonzero_shape(s);
    let p = m.len() as int;
    assert forall|i: int| 0 <= i < p implies #[trigger] s[i] != 0 by {
        assert(slid(s)[i] == m[i]);
    }
    assert forall|i: int| p <= i < s.len() implies #[trigger] s[i] == 0 by {
        assert(slid(s)[i] == 0);
    }
    lemma_nonzero_prefix(s, p, 4);
    assert(s.subrange(0, 4) =~= s);
    lemma_merged_same_len_no_gain(nz);
}

/// Where no line moves, sliding the board scores nothing.
proof fn lemma_unmovable_no_gain(g: Cells, dir: Key)
    requires
        is_arrow(dir),
        !movable(g, dir),
        forall|r: int, c: int| 0 <= r < 4 && 0 <= c < 4 ==> #[trigger] g[r][c] >= 0,
    ensures
        board_gain(g, dir) == 0,
{
    assert forall|j: int| 0 <= j < 4 implies line_gain(#[trigger] line(g, dir, j)) == 0 by {
        let l = line(g, dir, j);
        assert(slid(l) == l);
        assert forall|i: int| 0 <= i < l.len() implies #[trigger] l[i] >= 0 by {
            assert(l[i] == g[at_row(dir, j, i)][at_col(dir, j, i)]);
        }
        lemma_unchanged_no_gain(l);
    }
    assert(line_gain(line(g, dir, 0)) == 0);
    assert(line_gain(line(g, dir, 1)) == 0);
    assert(line_gain(line(g, dir, 2)) == 0);
    assert(line_gain(line(g, dir, 3)) == 0);
    assert(gain_upto(g, dir, 0) == 0);
    assert(gain_upto(g, dir, 1) == 0);
    assert(gain_upto(g, dir, 2) == 0);
    assert(gain_upto(g, dir, 3) == 0);
}

/// A line of four scores no more than the sum of its tiles, at most four times the
/// largest `u32`.
proof fn lemma_line_gain_bound(s: Seq<int>)
    requires
        s.len() == 4,
        forall|i: int| 0 <= i < 4 ==> 0 <= #[trigger] s[i] <= u32::MAX,
    ensures
        0 <= line_gain(s) <= 0x4_0000_0000,
{
    lemma_total_four(s);
    lemma_nonzero_positive(s);
    lemma_total_nonzero(s);
    lemma_gained_le_total(nonzero(s));
    lemma_gained_nonneg(nonzero(s));
}

/// The points that merging scores never exceed the sum of the tiles.
proof fn lemma_gained_le_total(t: Seq<int>)
    requires
        forall|i: int| 0 <= i < t.len() ==> #[trigger] t[i] >= 0,
    ensures
        gained(t) <= total(t),
    decreases t.len(),
{
    if t.len() >= 2 && t[0] == t[1] {
        let rest = t.subrange(2, t.len() as int);
        assert forall|i: int| 0 <= i < rest.len() implies #[trigger] rest[i] >= 0 by {
            assert(rest[i] == t[i + 2]);
        }
        lemma_gained_le_total(rest);
        assert(t.drop_first().drop_first() =~= rest);
        assert(total(t) == t[0] + total(t.drop_first()));
        assert(total(t.drop_first()) == t[1] + total(rest));
    } else if t.len() > 0 {
        let rest = t.drop_first();
        assert forall|i: int| 0 <= i < rest.len() implies #[trigger] rest[i] >= 0 by {
            assert(rest[i] == t[i + 1]);
        }
        lemma_gained_le_total(rest);
    }
}

/// Whether two lines differ.
fn lines_differ(a: [u32; 4], b: [u32; 4]) -> (d: bool)
    ensures
        d == (ints(a) != ints(b)),
{
    let mut i: usize = 0;
    while i < 4
        invariant
            i <= 4,
            forall|j: int| 0 <= j < i ==> a[j] == b[j],
        decreases 4 - i,
    {
        if a[i] != b[i] {
            assert(ints(a)[i as int] != ints(b)[i as int]);
            return true;
        }
        i += 1;
    }
    assert(ints(a) =~= ints(b));
    false
}

/// The colours of a tile, background then text: the classic 2048 palette up to 2048,
/// a dark grey beyond.
pub fn tile_color(val: u32) -> (t: (Tint, Tint))
    ensures
        val == 0 ==> t == (Tint::Rgb(205, 193, 180), Tint::Rgb(119, 110, 101)),
        val == 2 ==> t == (Tint::Rgb(238, 228, 218), Tint::Rgb(119, 110, 101)),
        val == 4 ==> t == (Tint::Rgb(237, 224, 200), Tint::Rgb(119, 110, 101)),
        val == 8 ==> t == (Tint::Rgb(242, 177, 121), Tint::White),
        val == 16 ==> t == (Tint::Rgb(245, 149, 99), Tint::White),
        val == 32 ==> t == (Tint::Rgb(246, 124, 95), Tint::White),
        val == 64 ==> t == (Tint::Rgb(246, 94, 59), Tint::White),
        val == 128 ==> t == (Tint::Rgb(237, 207, 114), Tint::White),
        val == 256 ==> t == (Tint::Rgb(237, 204, 97), Tint::White),
        val == 512 ==> t == (Tint::Rgb(237, 200, 80), Tint::White),
        val == 1024 ==> t == (Tint::Rgb(237, 197, 63), Tint::White),
        val == 2048 ==> t == (Tint::Rgb(237, 194, 46), Tint::White),
        !(val == 0 || val == 2 || val == 4 || val == 8 || val == 16 || val == 32 || val == 64
            || val == 128 || val == 256 || val == 512 || val == 1024 || val == 2048) ==> t == (
            Tint::Rgb(60, 58, 50),
            Tint::White,
        ),
{
    match val {
        0 => (Tint::Rgb(205, 193, 180), Tint::Rgb(119, 110, 101)),
        2 => (Tint::Rgb(238, 228, 218), Tint::Rgb(119, 110, 101)),
        4 => (Tint::Rgb(237, 224, 200), Tint::Rgb(119, 110, 101)),
        8 => (Tint::Rgb(242, 177, 121), Tint::White),
        16 => (Tint::Rgb(245, 149, 99), Tint::White),
        32 => (Tint::Rgb(246, 124, 95), Tint::White),
        64 => (Tint::Rgb(246, 94, 59), Tint::White),
        128 => (Tint::Rgb(237, 207, 114), Tint::White),
        256 => (Tint::Rgb(237, 204, 97), Tint::White),
        512 => (Tint::Rgb(237, 200, 80), Tint::White),
        1024 => (Tint::Rgb(237, 197, 63), Tint::White),
        2048 => (Tint::Rgb(237, 194, 46), Tint::White),
        _ => (Tint::Rgb(60, 58, 50), Tint::White),
    }
}

/// The state of a game of 2048.
pub struct Game {
    pub board: Board,
    pub score: u32,
    /// The best score of the session.
    pub best: u32,
    /// Whether a 2048 tile has appeared.
    pub won: bool,
    /// Whether the player chose to play on after winning.
    pub keep_playing: bool,
    pub game_over: bool,
    /// State of the tile generator.
    pub rng: u64,
}

impl Game {
    /// Steps the generator and draws its high bits.
    pub fn lcg_next(&mut self) -> (v: u64)
        ensures
            final(self).rng == lcg_spec(old(self).rng),
            v == lcg_high(final(self).rng),
            v < 0x8000_0000,
            *final(self) == (Game { rng: final(self).rng, ..*old(self) }),
    {
        self.rng = lcg_step(self.rng);
        proof {
            crate::rng::lemma_lcg_high_bound(self.rng);
        }
        self.rng >> 33
    }

    /// The empty cells, in row-major order.
    pub fn empty_cells(&self) -> (v: Vec<(usize, usize)>)
        ensures
            v@.len() == empties(cells(self.board)).len(),
            forall|i: int|
                0 <= i < v@.len() ==> v@[i].0 == (#[trigger] empties(cells(self.board))[i]).0
                    && v@[i].1 == empties(cells(self.board))[i].1,
    {
        let ghost g = cells(self.board);
        let mut v: Vec<(usize, usize)> = Vec::new();
        let mut r: usize = 0;
        while r < 4
            invariant
                r <= 4,
                g == cells(self.board),
                v@.len() == empties_upto(g, 4 * r).len(),
                forall|i: int|
                    0 <= i < v@.len() ==> v@[i].0 == (#[trigger] empties_upto(g, 4 * r)[i]).0
                        && v@[i].1 == empties_upto(g, 4 * r)[i].1,
            decreases 4 - r,
        {
            let mut c: usize = 0;
            while c < 4
                invariant
                    r < 4,
                    c <= 4,
                    g == cells(self.board),
                    v@.len() == empties_upto(g, 4 * r + c).len(),
                    forall|i: int|
                        0 <= i < v@.len() ==> v@[i].0 == (#[trigger] empties_upto(
                            g,
                            4 * r + c,
                        )[i]).0 && v@[i].1 == empties_upto(g, 4 * r + c)[i].1,
                decreases 4 - c,
            {
                assert((4 * r + c) / 4 == r && (4 * r + c) % 4 == c);
                if self.board[r][c] == 0 {
                    v.push((r, c));
                }
                c += 1;
            }
            r += 1;
        }
        v
    }

    /// Puts a new tile, 2 or 4, on a random empty cell; nothing on a full board.
    #[verifier::rlimit(30)]
    pub fn add_tile(&mut self)
        ensures
            (cells(final(self).board), final(self).rng) == spawn_tile(
                cells(old(self).board),
                old(self).rng,
            ),
            final(self).score == old(self).score,
            final(self).best == old(self).best,
            final(self).won == old(self).won,
            final(self).keep_playing == old(self).keep_playing,
            final(self).game_over == old(self).game_over,
    {
        let empties_v = self.empty_cells();
        if empties_v.len() == 0 {
            return;
        }
        let ghost g = cells(self.board);
        let ghost e = empties(g);
        let ghost s0 = *self;
        let h1 = self.lcg_next();
        let idx = (h1 as usize) % empties_v.len();
        let (r, c) = empties_v[idx];
        proof {
            lemma_empties_in_range(g, 16);
            assert(e[idx as int] == (r as int, c as int));
        }
        let h2 = self.lcg_next();
        let v: u32 = if h2 % 10 == 0 {
            4
        } else {
            2
        };
        let ghost b0 = self.board;
        self.board[r][c] = v;
        proof {
            assert forall|i: int| 0 <= i < 4 implies #[trigger] cells(self.board)[i] =~= with_tile(g, e[idx as int], v as int)[i] by {
                if i == r {
                    assert(self.board[i]@ =~= b0[i]@.update(c as int, v));
                } else {
                    assert(self.board[i] == b0[i]);
                }
            }
            assert(cells(self.board) =~~= with_tile(g, e[idx as int], v as int));
        }
    }

    /// Line `k` of the board when the tiles slide toward `dir`.
    fn read_line(&self, dir: Key, k: usize) -> (out: [u32; 4])
        requires
            k < 4,
            is_arrow(dir),
        ensures
            ints(out) == line(cells(self.board), dir, k as int),
    {
        let (r0, c0) = cell_at(dir, k, 0);
        let (r1, c1) = cell_at(dir, k, 1);
        let (r2, c2) = cell_at(dir, k, 2);
        let (r3, c3) = cell_at(dir, k, 3);
        let out = [self.board[r0][c0], self.board[r1][c1], self.board[r2][c2], self.board[r3][c3]];
        assert(ints(out) =~= line(cells(self.board), dir, k as int));
        out
    }

    /// Writes `vals` onto line `k` of the board when the tiles slide toward `dir`.
    fn write_line(&mut self, dir: Key, k: usize, vals: [u32; 4])
        requires
            k < 4,
            is_arrow(dir),
        ensures
            forall|r: int, c: int|
                0 <= r < 4 && 0 <= c < 4 ==> #[trigger] final(self).board[r][c] == if line_of(
                    dir,
                    r,
                    c,
                ) == k {
                    vals[place_of(dir, r, c)]
                } else {
                    old(self).board[r][c]
                },
            *final(self) == (Game { board: final(self).board, ..*old(self) }),
    {
        let mut i: usize = 0;
        while i < 4
            invariant
                i <= 4,
                k < 4,
                is_arrow(dir),
                *self == (Game { board: self.board, ..*old(self) }),
                forall|r: int, c: int|
                    0 <= r < 4 && 0 <= c < 4 ==> #[trigger] self.board[r][c] == if line_of(dir, r, c)
                        == k && place_of(dir, r, c) < i {
                        vals[place_of(dir, r, c)]
                    } else {
                        old(self).board[r][c]
                    },
            decreases 4 - i,
        {
            let (r, c) = cell_at(dir, k, i);
            self.board[r][c] = vals[i];
            i += 1;
        }
    }

    /// Slides every line toward `dir`; tells whether any line changed. The score grows by
    /// the sum of the merged tiles.
    fn slide_lines(&mut self, dir: Key) -> (changed: bool)
        requires
            is_arrow(dir),
            move_fits(cells(old(self).board), dir),
            old(self).score + board_gain(cells(old(self).board), dir) <= u32::MAX,
        ensures
            cells(final(self).board) == slide_all(cells(old(self).board), dir),
            changed == movable(cells(old(self).board), dir),
            final(self).score == old(self).score + board_gain(cells(old(self).board), dir),
            *final(self) == (Game { board: final(self).board, score: final(self).score, ..*old(self) }),
    {
        let ghost g0 = cells(self.board);
        let ghost s0 = *self;
        let mut changed = false;
        let mut k: usize = 0;
        while k < 4
            invariant
                k <= 4,
                is_arrow(dir),
                g0 == cells(s0.board),
                move_fits(g0, dir),
                s0.score + board_gain(g0, dir) <= u32::MAX,
                self.score == s0.score + gain_upto(g0, dir, k as int),
                *self == (Game { board: self.board, score: self.score, ..s0 }),
                forall|r: int, c: int|
                    0 <= r < 4 && 0 <= c < 4 ==> #[trigger] cells(self.board)[r][c] == if line_of(
                        dir,
                        r,
                        c,
                    ) < k {
                        slid(line(g0, dir, line_of(dir, r, c)))[place_of(dir, r, c)]
                    } else {
                        g0[r][c]
                    },
                changed == exists|j: int|
                    0 <= j < k && #[trigger] slid(line(g0, dir, j)) != line(g0, dir, j),
            decreases 4 - k,
        {
            let orig = self.read_line(dir, k);
            assert(ints(orig) =~= line(g0, dir, k as int)) by {
                assert forall|i: int| 0 <= i < 4 implies ints(orig)[i] == line(g0, dir, k as int)[i] by {
                    assert(line_of(dir, at_row(dir, k as int, i), at_col(dir, k as int, i)) == k);
                }
            }
            assert(slide_fits(line(g0, dir, k as int)));
            let (new_line, gain) = slide_row_scored(orig);
            if lines_differ(new_line, orig) {
                changed = true;
            }
            proof {
                lemma_gain_upto_grows(g0, dir, k as int + 1);
            }
            self.score = self.score + gain as u32;
            let ghost before = self.board;
            self.write_line(dir, k, new_line);
            proof {
                assert forall|r: int, c: int| 0 <= r < 4 && 0 <= c < 4 implies #[trigger] cells(
                    self.board,
                )[r][c] == if line_of(dir, r, c) < k + 1 {
                    slid(line(g0, dir, line_of(dir, r, c)))[place_of(dir, r, c)]
                } else {
                    g0[r][c]
                } by {
                    assert(cells(self.board)[r][c] == self.board[r][c]);
                    assert(cells(before)[r][c] == before[r][c]);
                    if line_of(dir, r, c) == k {
                        assert(ints(new_line)[place_of(dir, r, c)] == new_line[place_of(dir, r, c)]);
                    }
                }
                if changed && !(exists|j: int| 0 <= j < k && #[trigger] slid(line(g0, dir, j)) != line(g0, dir, j)) {
                    assert(slid(line(g0, dir, k as int)) != line(g0, dir, k as int));
                }
            }
            k += 1;
        }
        assert(cells(self.board) =~~= slide_all(g0, dir)) by {
            assert forall|r: int| 0 <= r < 4 implies #[trigger] cells(self.board)[r] =~= slide_all(g0, dir)[r] by {
                assert forall|c: int| 0 <= c < 4 implies #[trigger] cells(self.board)[r][c] == slide_all(g0, dir)[r][c] by {
                    assert(line_of(dir, r, c) < 4);
                }
            }
        }
        changed
    }

    /// Slides the tiles left, scoring the sum of the merged tiles; tells whether the board
    /// changed.
    pub fn move_left(&mut self) -> (changed: bool)
        requires
            move_fits(cells(old(self).board), Key::Left),
            old(self).score + board_gain(cells(old(self).board), Key::Left) <= u32::MAX,
        ensures
            cells(final(self).board) == slide_all(cells(old(self).board), Key::Left),
            changed == movable(cells(old(self).board), Key::Left),
            final(self).score == old(self).score + board_gain(cells(old(self).board), Key::Left),
            *final(self) == (Game { board: final(self).board, score: final(self).score, ..*old(self) }),
    {
        self.slide_lines(Key::Left)
    }

    /// Slides the tiles right, scoring the sum of the merged tiles; tells whether the board
    /// changed.
    pub fn move_right(&mut self) -> (changed: bool)
        requires
            move_fits(cells(old(self).board), Key::Right),
            old(self).score + board_gain(cells(old(self).board), Key::Right) <= u32::MAX,
        ensures
            cells(final(self).board) == slide_all(cells(old(self).board), Key::Right),
            changed == movable(cells(old(self).board), Key::Right),
            final(self).score == old(self).score + board_gain(cells(old(self).board), Key::Right),
            *final(self) == (Game { board: final(self).board, score: final(self).score, ..*old(self) }),
    {
        self.slide_lines(Key::Right)
    }

    /// Slides the tiles up, scoring the sum of the merged tiles; tells whether the board
    /// changed.
    pub fn move_up(&mut self) -> (changed: bool)
        requires
            move_fits(cells(old(self).board), Key::Up),
            old(self).score + board_gain(cells(old(self).board), Key::Up) <= u32::MAX,
        ensures
            cells(final(self).board) == slide_all(cells(old(self).board), Key::Up),
            changed == movable(cells(old(self).board), Key::Up),
            final(self).score == old(self).score + board_gain(cells(old(self).board), Key::Up),
            *final(self) == (Game { board: final(self).board, score: final(self).score, ..*old(self) }),
    {
        self.slide_lines(Key::Up)
    }

    /// Slides the tiles down, scoring the sum of the merged tiles; tells whether the board
    /// changed.
    pub fn move_down(&mut self) -> (changed: bool)
        requires
            move_fits(cells(old(self).board), Key::Down),
            old(self).score + board_gain(cells(old(self).board), Key::Down) <= u32::MAX,
        ensures
            cells(final(self).board) == slide_all(cells(old(self).board), Key::Down),
            changed == movable(cells(old(self).board), Key::Down),
            final(self).score == old(self).score + board_gain(cells(old(self).board), Key::Down),
            *final(self) == (Game { board: final(self).board, score: final(self).score, ..*old(self) }),
    {
        self.slide_lines(Key::Down)
    }

    /// Whether two neighbours hold equal values, so that some move could merge them.
    pub fn can_merge(&self) -> (b: bool)
        ensures
            b == mergeable(cells(self.board)),
    {
        let ghost g = cells(self.board);
        let mut r: usize = 0;
        while r < 4
            invariant
                r <= 4,
                g == cells(self.board),
                forall|rr: int, cc: int|
                    0 <= rr < r && 0 <= cc < 4 ==> !((cc + 1 < 4 && #[trigger] g[rr][cc] == g[rr][cc
                        + 1]) || (rr + 1 < 4 && g[rr][cc] == g[rr + 1][cc])),
            decreases 4 - r,
        {
            let mut c: usize = 0;
            while c < 4
                invariant
                    r < 4,
                    c <= 4,
                    g == cells(self.board),
                    forall|rr: int, cc: int|
                        (0 <= rr < r && 0 <= cc < 4) || (rr == r && 0 <= cc < c) ==> !((cc + 1 < 4
                            && #[trigger] g[rr][cc] == g[rr][cc + 1]) || (rr + 1 < 4 && g[rr][cc]
                            == g[rr + 1][cc])),
                decreases 4 - c,
            {
                if c + 1 < 4 && self.board[r][c] == self.board[r][c + 1] {
                    assert(g[r as int][c as int] == g[r as int][c + 1]);
                    return true;
                }
                if r + 1 < 4 && self.board[r][c] == self.board[r + 1][c] {
                    assert(g[r as int][c as int] == g[r + 1][c as int]);
                    return true;
                }
                c += 1;
            }
            r += 1;
        }
        false
    }

    /// Whether some tile reads 2048.
    fn has_2048_tile(&self) -> (b: bool)
        ensures
            b == has_2048(cells(self.board)),
    {
        let ghost g = cells(self.board);
        let mut r: usize = 0;
        while r < 4
            invariant
                r <= 4,
                g == cells(self.board),
                forall|rr: int, cc: int| 0 <= rr < r && 0 <= cc < 4 ==> #[trigger] g[rr][cc] != 2048,
            decreases 4 - r,
        {
            let mut c: usize = 0;
            while c < 4
                invariant
                    r < 4,
                    c <= 4,
                    g == cells(self.board),
                    forall|rr: int, cc: int|
                        (0 <= rr < r && 0 <= cc < 4) || (rr == r && 0 <= cc < c) ==> #[trigger] g[rr][cc]
                            != 2048,
                decreases 4 - c,
            {
                if self.board[r][c] == 2048 {
                    assert(g[r as int][c as int] == 2048);
                    return true;
                }
                c += 1;
            }
            r += 1;
        }
        false
    }

    /// Whether a move with `key` would do nothing: the game is over, or won and not
    /// played on, or the key is no arrow, or no line would change.
    pub open spec fn move_blocked(self, key: Key) -> bool {
        self.game_over || (self.won && !self.keep_playing) || !is_arrow(key) || !movable(
            cells(self.board),
            key,
        )
    }

    /// Whether a move with `key` keeps the tiles and the score within `u32`, where the
    /// game lets it happen.
    pub open spec fn move_room(self, key: Key) -> bool {
        !self.game_over && !(self.won && !self.keep_playing) && is_arrow(key) ==> {
            &&& move_fits(cells(self.board), key)
            &&& self.score + board_gain(cells(self.board), key) <= u32::MAX
        }
    }

    /// Whether a move with `key` keeps the tiles and the score within `u32`, where the
    /// game lets it happen; the test that `do_move` and `handle_key` ask of their callers.
    pub fn move_fits_now(&self, key: Key) -> (b: bool)
        ensures
            b == self.move_room(key),
    {
        let arrow = key == Key::Left || key == Key::Right || key == Key::Up || key == Key::Down;
        if self.game_over || (self.won && !self.keep_playing) || !arrow {
            return true;
        }
        let ghost g = cells(self.board);
        let mut gain: u64 = 0;
        let mut k: usize = 0;
        while k < 4
            invariant
                k <= 4,
                is_arrow(key),
                !self.game_over && !(self.won && !self.keep_playing),
                g == cells(self.board),
                forall|j: int| 0 <= j < k ==> slide_fits(#[trigger] line(g, key, j)),
                gain == gain_upto(g, key, k as int),
                gain <= k * 0x4_0000_0000,
            decreases 4 - k,
        {
            let l = self.read_line(key, k);
            if !line_fits(l) {
                assert(!slide_fits(line(g, key, k as int)));
                return false;
            }
            let (_, lg) = slide_row_wide(l);
            proof {
                lemma_gain_upto_grows(g, key, k as int + 1);
                lemma_line_gain_bound(ints(l));
            }
            gain = gain + lg;
            k += 1;
        }
        gain + self.score as u64 <= 0xffff_ffff
    }

    /// `after` is `before` after the move `key`: unchanged where the move is blocked;
    /// else the tiles slid, the score grown by the sum of the merged tiles, the best score
    /// following the score, a new tile drawn, a 2048 tile winning, and a full board
    /// without equal neighbours ending the game.
    pub open spec fn moved(before: Self, after: Self, key: Key) -> bool {
        if before.move_blocked(key) {
            after == before
        } else {
            let slid_g = slide_all(cells(before.board), key);
            let (g2, r2) = spawn_tile(slid_g, before.rng);
            &&& cells(after.board) == g2
            &&& after.rng == r2
            &&& after.score == before.score + board_gain(cells(before.board), key)
            &&& after.best == if after.score > before.best {
                after.score as int
            } else {
                before.best as int
            }
            &&& after.won == (before.won || has_2048(g2))
            &&& after.keep_playing == before.keep_playing
            &&& after.game_over == (empties(g2).len() == 0 && !mergeable(g2))
        }
    }

    /// Plays a move: where the game is running and the key is an arrow that changes the
    /// board, the tiles slide, the score grows by the sum of the merged tiles, the best
    /// score follows the score, a new tile comes in, a 2048 tile wins, and a full board
    /// without equal neighbours ends the game.
    pub fn do_move(&mut self, key: Key)
        requires
            old(self).move_room(key),
        ensures
            Self::moved(*old(self), *final(self), key),
    {
        if self.game_over {
            return;
        }
        if self.won && !self.keep_playing {
            return;
        }
        let changed = match key {
            Key::Left => self.move_left(),
            Key::Right => self.move_right(),
            Key::Up => self.move_up(),
            Key::Down => self.move_down(),
            _ => false,
        };
        if !changed {
            proof {
                if is_arrow(key) {
                    lemma_unmovable_fixed(cells(old(self).board), key);
                    lemma_unmovable_no_gain(cells(old(self).board), key);
                    lemma_cells_eq(self.board, old(self).board);
                }
            }
        }
        if changed {
            if self.score > self.best {
                self.best = self.score;
            }
            self.add_tile();
            if !self.won {
                if self.has_2048_tile() {
                    self.won = true;
                }
            }
            if self.empty_cells().len() == 0 {
                self.game_over = !self.can_merge();
            }
        }
    }


    /// A new game keeping the session's best score, its generator starting from `seed`,
    /// with two tiles drawn onto an empty board.
    pub fn with_seed(best: u32, seed: u64) -> (g: Self)
        ensures
            (cells(g.board), g.rng) == fresh_board(seed),
            g.score == 0,
            g.best == best,
            !g.won,
            !g.keep_playing,
            !g.game_over,
    {
        let mut g = Game {
            board: [[0; 4]; 4],
            score: 0,
            best,
            won: false,
            keep_playing: false,
            game_over: false,
            rng: seed,
        };
        assert(cells(g.board) =~~= zero_cells());
        g.add_tile();
        g.add_tile();
        g
    }

    /// A new game keeping the session's best score, seeded from the clock.
    pub fn new(best: u32) -> (g: Self)
        ensures
            exists|seed: u64| (cells(g.board), g.rng) == #[trigger] fresh_board(seed),
            two_tiles(cells(g.board)),
            g.score == 0,
            g.best == best,
            !g.won,
            !g.keep_playing,
            !g.game_over,
    {
        let seed = clock_seed_subsec();
        let g = Self::with_seed(best, seed);
        proof {
            law_fresh_board_two_tiles(seed);
        }
        g
    }

    /// Answers a key press: `q` or Esc quits, `r` starts a new game keeping the best score,
    /// `c` plays on after a win, the arrows move.
    pub fn handle_key(&mut self, key: Key) -> (flow: Flow)
        requires
            old(self).move_room(key),
        ensures
            (flow == Flow::Quit) == (key == Key::Char('q') || key == Key::Esc),
            flow == Flow::Quit ==> *final(self) == *old(self),
            key == Key::Char('r') ==> {
                &&& exists|seed: u64| (cells(final(self).board), final(self).rng) == #[trigger] fresh_board(seed)
                &&& two_tiles(cells(final(self).board))
                &&& final(self).best == old(self).best
                &&& final(self).score == 0
                &&& !final(self).won && !final(self).keep_playing && !final(self).game_over
            },
            key == Key::Char('c') ==> *final(self) == (Game {
                keep_playing: old(self).keep_playing || old(self).won,
                ..*old(self)
            }),
            is_arrow(key) ==> Self::moved(*old(self), *final(self), key),
            !(key == Key::Char('q') || key == Key::Esc || key == Key::Char('r') || key == Key::Char(
                'c',
            ) || is_arrow(key)) ==> *final(self) == *old(self),
    {
        match key {
            Key::Char('q') | Key::Esc => {
                return Flow::Quit;
            },
            Key::Char('r') => {
                *self = Game::new(self.best);
            },
            Key::Char('c') => {
                if self.won {
                    self.keep_playing = true;
                }
            },
            Key::Left | Key::Right | Key::Up | Key::Down => {
                self.do_move(key);
            },
            _ => {},
        }
        Flow::Continue
    }

}

/// Boards with equal cells are equal.
pub proof fn lemma_cells_eq(a: Board, b: Board)
    requires
        cells(a) == cells(b),
    ensures
        a == b,
{
    assert forall|r: int| 0 <= r < 4 implies #[trigger] a[r] == b[r] by {
        assert(cells(a)[r] == cells(b)[r]);
        assert(cells(a)[r] == ints(a[r]));
        assert(cells(b)[r] == ints(b[r]));
        assert forall|c: int| 0 <= c < 4 implies a[r][c] == b[r][c] by {
            assert(ints(a[r])[c] == ints(b[r])[c]);
        }
        assert(a[r] =~= b[r]);
    }
    assert(a =~= b);
}

/// Where no line changes, sliding leaves the board as it is.
pub proof fn lemma_unmovable_fixed(g: Cells, dir: Key)
    requires
        is_arrow(dir),
        g.len() == 4,
        forall|r: int| 0 <= r < 4 ==> #[trigger] g[r].len() == 4,
        !movable(g, dir),
    ensures
        slide_all(g, dir) == g,
{
    assert forall|r: int| 0 <= r < 4 implies #[trigger] slide_all(g, dir)[r] =~= g[r] by {
        assert forall|c: int| 0 <= c < 4 implies #[trigger] slide_all(g, dir)[r][c] == g[r][c] by {
            let k = line_of(dir, r, c);
            assert(slid(line(g, dir, k)) == line(g, dir, k));
        }
    }
    assert(slide_all(g, dir) =~= g);
}

/// The empty cells found are cells of the board, and empty.
pub proof fn lemma_empties_in_range(g: Cells, n: int)
    requires
        0 <= n <= 16,
    ensures
        forall|i: int|
            0 <= i < empties_upto(g, n).len() ==> {
                let rc = #[trigger] empties_upto(g, n)[i];
                &&& 0 <= rc.0 < 4
                &&& 0 <= rc.1 < 4
                &&& g[rc.0][rc.1] == 0
            },
    decreases n,
{
    if n > 0 {
        lemma_empties_in_range(g, n - 1);
        let rest = empties_upto(g, n - 1);
        assert forall|i: int| 0 <= i < empties_upto(g, n).len() implies {
            let rc = #[trigger] empties_upto(g, n)[i];
            &&& 0 <= rc.0 < 4
            &&& 0 <= rc.1 < 4
            &&& g[rc.0][rc.1] == 0
        } by {
            if i < rest.len() {
                assert(empties_upto(g, n)[i] == rest[i]);
            }
        }
    }
}

/// With no empty cell among the first `n`, those cells all hold tiles.
pub proof fn lemma_no_empties_upto(g: Cells, n: int)
    requires
        0 <= n <= 16,
        empties_upto(g, n).len() == 0,
    ensures
        forall|m: int| 0 <= m < n ==> #[trigger] g[m / 4][m % 4] != 0,
    decreases n,
{
    if n > 0 {
        let rest = empties_upto(g, n - 1);
        if g[(n - 1) / 4][(n - 1) % 4] == 0 {
            assert(empties_upto(g, n).len() == rest.len() + 1);
        }
        lemma_no_empties_upto(g, n - 1);
    }
}

/// A line without zeros keeps all its values.
pub proof fn lemma_nonzero_full(s: Seq<int>)
    requires
        forall|i: int| 0 <= i < s.len() ==> #[trigger] s[i] != 0,
    ensures
        nonzero(s) == s,
    decreases s.len(),
{
    if s.len() > 0 {
        lemma_nonzero_full(s.drop_first());
        assert(seq![s[0]] + s.drop_first() =~= s);
    }
}

/// A line without equal neighbours merges nothing.
pub proof fn lemma_merged_distinct(s: Seq<int>)
    requires
        forall|i: int| 0 <= i < s.len() - 1 ==> #[trigger] s[i] != s[i + 1],
    ensures
        merged(s) == s,
    decreases s.len(),
{
    if s.len() > 0 {
        let t = s.drop_first();
        assert forall|i: int| 0 <= i < t.len() - 1 implies #[trigger] t[i] != t[i + 1] by {
            assert(t[i] == s[i + 1] && t[i + 1] == s[i + 2]);
        }
        lemma_merged_distinct(t);
        if s.len() >= 2 {
            assert(s[0] != s[1]);
        }
        assert(seq![s[0]] + t =~= s);
    }
}

/// A board with no empty cell and no equal neighbours does not change under any
/// move: this is the board on which the game ends.
pub proof fn law_stuck_board_is_fixed(b: Board, dir: Key)
    requires
        is_arrow(dir),
        empties(cells(b)).len() == 0,
        !mergeable(cells(b)),
    ensures
        !movable(cells(b), dir),
        slide_all(cells(b), dir) == cells(b),
{
    let g = cells(b);
    lemma_no_empties_upto(g, 16);
    assert forall|k: int| 0 <= k < 4 implies #[trigger] slid(line(g, dir, k)) == line(g, dir, k) by {
        let s = line(g, dir, k);
        assert forall|i: int| 0 <= i < s.len() implies #[trigger] s[i] != 0 by {
            let r = at_row(dir, k, i);
            let c = at_col(dir, k, i);
            assert(g[(4 * r + c) / 4][(4 * r + c) % 4] != 0);
            assert((4 * r + c) / 4 == r && (4 * r + c) % 4 == c);
        }
        assert forall|i: int| 0 <= i < s.len() - 1 implies #[trigger] s[i] != s[i + 1] by {
            let r = at_row(dir, k, i);
            let c = at_col(dir, k, i);
            if dir == Key::Left {
                assert(!(c + 1 < 4 && g[r][c] == g[r][c + 1]));
            } else if dir == Key::Right {
                assert(!(c < 4 && g[r][c - 1] == g[r][c - 1 + 1]));
            } else if dir == Key::Up {
                assert(!(r + 1 < 4 && g[r][c] == g[r + 1][c]));
            } else {
                assert(!(r < 4 && g[r - 1][c] == g[r - 1 + 1][c]));
            }
        }
        lemma_nonzero_full(s);
        lemma_merged_distinct(s);
        assert(slid(s) =~= s);
    }
    lemma_unmovable_fixed(g, dir);
}

/// A slid line holds its tiles first and its empty cells after them.
pub proof fn law_slid_packed(s: Seq<int>)
    requires
        s.len() == 4,
        forall|i: int| 0 <= i < 4 ==> #[trigger] s[i] >= 0,
    ensures
        forall|i: int, j: int| 0 <= i < j < 4 && #[trigger] slid(s)[i] == 0 ==> #[trigger] slid(
            s,
        )[j] == 0,
{
    let nz = nonzero(s);
    lemma_nonzero_shape(s);
    lemma_nonzero_positive(s);
    lemma_merged_positive(nz);
}

/// The non-zero values of a line of non-negative values are positive.
pub proof fn lemma_nonzero_positive(s: Seq<int>)
    requires
        forall|i: int| 0 <= i < s.len() ==> #[trigger] s[i] >= 0,
    ensures
        forall|i: int| 0 <= i < nonzero(s).len() ==> #[trigger] nonzero(s)[i] > 0,
    decreases s.len(),
{
    if s.len() > 0 {
        let t = s.drop_first();
        assert forall|i: int| 0 <= i < t.len() implies #[trigger] t[i] >= 0 by {
            assert(t[i] == s[i + 1]);
        }
        lemma_nonzero_positive(t);
        assert forall|i: int| 0 <= i < nonzero(s).len() implies #[trigger] nonzero(s)[i] > 0 by {
            if s[0] == 0 {
                assert(nonzero(s) == nonzero(t));
            } else if i == 0 {
                assert(nonzero(s)[0] == s[0]);
            } else {
                assert(nonzero(s)[i] == nonzero(t)[i - 1]);
            }
        }
    }
}

/// Merging positive values gives positive values.
pub proof fn lemma_merged_positive(s: Seq<int>)
    requires
        forall|i: int| 0 <= i < s.len() ==> #[trigger] s[i] > 0,
    ensures
        forall|i: int| 0 <= i < merged(s).len() ==> #[trigger] merged(s)[i] > 0,
    decreases s.len(),
{
    if s.len() >= 2 && s[0] == s[1] {
        let t = s.subrange(2, s.len() as int);
        assert forall|i: int| 0 <= i < t.len() implies #[trigger] t[i] > 0 by {
            assert(t[i] == s[i + 2]);
        }
        lemma_merged_positive(t);
        assert forall|i: int| 0 <= i < merged(s).len() implies #[trigger] merged(s)[i] > 0 by {
            if i > 0 {
                assert(merged(s)[i] == merged(t)[i - 1]);
            }
        }
    } else if s.len() > 0 {
        let t = s.drop_first();
        assert forall|i: int| 0 <= i < t.len() implies #[trigger] t[i] > 0 by {
            assert(t[i] == s[i + 1]);
        }
        lemma_merged_positive(t);
        assert forall|i: int| 0 <= i < merged(s).len() implies #[trigger] merged(s)[i] > 0 by {
            if i > 0 {
                assert(merged(s)[i] == merged(t)[i - 1]);
            }
        }
    }
}

} // verus!
