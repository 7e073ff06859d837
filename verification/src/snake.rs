//! Snake: the body, the queued turns, food, growth and collisions.
use vstd::prelude::*;

use std::collections::VecDeque;

use crate::keys::{Flow, Key};
use crate::rng::{clock_seed_subsec, lcg_high, lcg_spec, lcg_step};

verus! {

broadcast use vstd::std_specs::vecdeque::group_vec_dequeue_axioms;

/// A direction of travel.
#[derive(Clone, Copy, Debug, PartialEq, Eq, Structural)]
pub enum Dir {
    Up,
    Down,
    Left,
    Right,
}

/// The direction that points the other way.
pub open spec fn opposite_of(d: Dir) -> Dir {
    match d {
        Dir::Up => Dir::Down,
        Dir::Down => Dir::Up,
        Dir::Left => Dir::Right,
        Dir::Right => Dir::Left,
    }
}

impl Dir {
    /// The direction that points the other way.
    pub fn opposite(self) -> (d: Dir)
        ensures
            d == opposite_of(self),
    {
        match self {
            Dir::Up => Dir::Down,
            Dir::Down => Dir::Up,
            Dir::Left => Dir::Right,
            Dir::Right => Dir::Left,
        }
    }
}

/// The turns queued after asking for `d`: it is queued unless it reverses or repeats the
/// last direction queued (or `dir`, with nothing queued), or two turns wait already.
pub open spec fn queue_after(dir: Dir, q: Seq<Dir>, d: Dir) -> Seq<Dir> {
    let last = if q.len() > 0 {
        q[q.len() - 1]
    } else {
        dir
    };
    if d != opposite_of(last) && d != last && q.len() < 2 {
        q.push(d)
    } else {
        q
    }
}

/// The direction that an arrow key asks for.
pub open spec fn arrow_dir(key: Key) -> Dir {
    match key {
        Key::Up => Dir::Up,
        Key::Down => Dir::Down,
        Key::Left => Dir::Left,
        _ => Dir::Right,
    }
}

/// Milliseconds between steps at `score`: 150, 10 fewer per 50 points, never under 60.
pub open spec fn step_ms(score: int) -> int {
    if 150 - (score / 50) * 10 < 60 {
        60
    } else {
        150 - (score / 50) * 10
    }
}

/// The snake never slows down as the score grows.
pub proof fn law_speed_grows_with_score(low: int, high: int)
    requires
        0 <= low <= high,
    ensures
        step_ms(high) <= step_ms(low),
{
    vstd::arithmetic::div_mod::lemma_div_is_ordered(low, high, 50);
}

/// The cell one step from `p` toward `d`; rows grow downward.
pub open spec fn step(p: (i32, i32), d: Dir) -> (int, int) {
    match d {
        Dir::Up => (p.0 as int, p.1 - 1),
        Dir::Down => (p.0 as int, p.1 + 1),
        Dir::Left => (p.0 - 1, p.1 as int),
        Dir::Right => (p.0 + 1, p.1 as int),
    }
}

/// Whether two cells are side by side or one above the other.
pub open spec fn adjacent(a: (i32, i32), b: (i32, i32)) -> bool {
    (a.0 == b.0 && (a.1 - b.1 == 1 || b.1 - a.1 == 1)) || (a.1 == b.1 && (a.0 - b.0 == 1 || b.0
        - a.0 == 1))
}

/// A cell drawn from generator state `rng` on a `w` by `h` field: the first draw gives
/// the column, the second the row. Gives the cell and the new state.
#[verifier::opaque]
pub open spec fn draw_cell(rng: u64, w: int, h: int) -> ((i32, i32), u64) {
    let r1 = lcg_spec(rng);
    let r2 = lcg_spec(r1);
    (((lcg_high(r1) % (w as u64)) as i32, (lcg_high(r2) % (h as u64)) as i32), r2)
}

/// Where food lands: cells are drawn until one is off the snake; after 1001 draws that
/// all hit the snake, the food goes to (0, 0). Gives the cell and the new state.
#[verifier::opaque]
pub open spec fn food_search(body: Seq<(i32, i32)>, rng: u64, w: int, h: int, tries: int) -> (
    (i32, i32),
    u64,
)
    decreases 1001 - tries,
{
    let (p, r) = draw_cell(rng, w, h);
    if !body.contains(p) {
        (p, r)
    } else if tries + 1 > 1000 || tries < 0 {
        ((0, 0), r)
    } else {
        food_search(body, r, w, h, tries + 1)
    }
}


/// The direction after taking queued turns: turns that would reverse the current
/// direction are dropped, the first other turn is taken. Gives the direction and what
/// is left of the queue.
pub open spec fn take_turn(dir: Dir, queue: Seq<Dir>) -> (Dir, Seq<Dir>)
    decreases queue.len(),
{
    if queue.len() == 0 {
        (dir, queue)
    } else if queue[0] == opposite_of(dir) {
        take_turn(dir, queue.drop_first())
    } else {
        (queue[0], queue.drop_first())
    }
}

/// Whether a cell lies outside a `w` by `h` field.
pub open spec fn outside(p: (int, int), w: int, h: int) -> bool {
    p.0 < 0 || p.0 >= w || p.1 < 0 || p.1 >= h
}

/// Whether a cell is taken by the body apart from its last segment, which moves away.
pub open spec fn hits_body(body: Seq<(i32, i32)>, p: (int, int)) -> bool {
    exists|i: int| 0 <= i < body.len() - 1 && #[trigger] body[i] == (p.0 as i32, p.1 as i32)
}

/// Taking turns never reverses the direction and never lengthens the queue.
pub proof fn lemma_take_turn(dir: Dir, queue: Seq<Dir>)
    ensures
        take_turn(dir, queue).0 != opposite_of(dir),
        take_turn(dir, queue).1.len() <= queue.len(),
    decreases queue.len(),
{
    if queue.len() > 0 && queue[0] == opposite_of(dir) {
        lemma_take_turn(dir, queue.drop_first());
    }
}

/// The field that a terminal of `cols` by `rows` cells gives: all columns, at least 10,
/// and all rows but the status line, at least 5.
pub fn field_for(cols: u16, rows: u16) -> (wh: (i32, i32))
    ensures
        wh.0 == if cols < 10 {
            10
        } else {
            cols as int
        },
        wh.1 == if rows < 6 {
            5
        } else {
            rows - 1
        },
{
    let w: u16 = if cols < 10 {
        10
    } else {
        cols
    };
    let h1: u16 = rows.saturating_sub(1);
    let h: u16 = if h1 < 5 {
        5
    } else {
        h1
    };
    (w as i32, h as i32)
}

/// Food lands on the field.
pub proof fn law_food_on_field(body: Seq<(i32, i32)>, rng: u64, w: int, h: int, tries: int)
    requires
        1 <= w <= i32::MAX,
        1 <= h <= i32::MAX,
    ensures
        0 <= food_search(body, rng, w, h, tries).0.0 < w,
        0 <= food_search(body, rng, w, h, tries).0.1 < h,
    decreases 1001 - tries,
{
    reveal(food_search);
    reveal(draw_cell);
    let r1 = lcg_spec(rng);
    let r2 = lcg_spec(r1);
    vstd::arithmetic::div_mod::lemma_mod_bound(lcg_high(r1) as int, w);
    vstd::arithmetic::div_mod::lemma_mod_bound(lcg_high(r2) as int, h);
    let (p, r) = draw_cell(rng, w, h);
    assert(0 <= p.0 < w && 0 <= p.1 < h);
    if body.contains(p) && !(tries + 1 > 1000 || tries < 0) {
        law_food_on_field(body, r, w, h, tries + 1);
    }
}

/// Food lands off the snake, unless every draw hit it and it went to (0, 0).
pub proof fn law_food_off_body(body: Seq<(i32, i32)>, rng: u64, w: int, h: int, tries: int)
    ensures
        !body.contains(food_search(body, rng, w, h, tries).0) || food_search(
            body,
            rng,
            w,
            h,
            tries,
        ).0 == (0i32, 0i32),
    decreases 1001 - tries,
{
    reveal(food_search);
    let (p, r) = draw_cell(rng, w, h);
    if body.contains(p) && !(tries + 1 > 1000 || tries < 0) {
        law_food_off_body(body, r, w, h, tries + 1);
    }
}

/// The state of a game of Snake.
pub struct Game {
    /// The body, head first.
    pub snake: VecDeque<(i32, i32)>,
    /// The direction the head travels.
    pub dir: Dir,
    /// Turns asked for and not yet taken, oldest first.
    pub dir_queue: VecDeque<Dir>,
    pub food: (i32, i32),
    pub score: u32,
    pub dead: bool,
    /// State of the food generator.
    pub rng: u64,
    pub field_w: i32,
    pub field_h: i32,
}

impl Game {
    /// What holds of every game: a field of at least one cell, a body of three segments
    /// plus one per ten points, each segment next to the one before, all near the field,
    /// at most two queued turns.
    pub open spec fn inv(self) -> bool {
        &&& 1 <= self.field_w
        &&& 1 <= self.field_h
        &&& self.snake@.len() == 3 + self.score / 10
        &&& self.score % 10 == 0
        &&& forall|i: int|
            0 <= i < self.snake@.len() ==> {
                &&& -2 <= (#[trigger] self.snake@[i]).0 < self.field_w
                &&& -2 <= self.snake@[i].1 < self.field_h
            }
        &&& forall|i: int|
            0 <= i < self.snake@.len() - 1 ==> adjacent(#[trigger] self.snake@[i], self.snake@[i + 1])
        &&& self.dir_queue@.len() <= 2
    }

    /// Whether no two segments share a cell.
    pub open spec fn distinct(self) -> bool {
        forall|i: int, j: int|
            0 <= i < j < self.snake@.len() ==> #[trigger] self.snake@[i] != #[trigger] self.snake@[j]
    }

    /// Steps the generator and draws its high bits.
    pub fn lcg_next(&mut self) -> (v: u64)
        ensures
            final(self).rng == lcg_spec(old(self).rng),
            v == lcg_high(final(self).rng),
            v < 0x8000_0000,
            final(self).snake@ == old(self).snake@,
            final(self).dir_queue@ == old(self).dir_queue@,
            final(self).dir == old(self).dir,
            final(self).food == old(self).food,
            final(self).score == old(self).score,
            final(self).dead == old(self).dead,
            final(self).field_w == old(self).field_w,
            final(self).field_h == old(self).field_h,
    {
        self.rng = lcg_step(self.rng);
        proof {
            crate::rng::lemma_lcg_high_bound(self.rng);
        }
        self.rng >> 33
    }

    /// Whether a segment of the snake lies on `p`.
    fn on_snake(&self, p: (i32, i32)) -> (b: bool)
        ensures
            b == self.snake@.contains(p),
    {
        let mut i: usize = 0;
        while i < self.snake.len()
            invariant
                i <= self.snake@.len(),
                forall|j: int| 0 <= j < i ==> self.snake@[j] != p,
            decreases self.snake@.len() - i,
        {
            let seg = self.snake[i];
            if seg.0 == p.0 && seg.1 == p.1 {
                assert(self.snake@[i as int] == p);
                return true;
            }
            i += 1;
        }
        false
    }

    /// Draws a cell of the field.
    fn draw(&mut self) -> (p: (i32, i32))
        requires
            1 <= old(self).field_w,
            1 <= old(self).field_h,
        ensures
            (p, final(self).rng) == draw_cell(
                old(self).rng,
                old(self).field_w as int,
                old(self).field_h as int,
            ),
            final(self).snake@ == old(self).snake@,
            final(self).dir_queue@ == old(self).dir_queue@,
            final(self).dir == old(self).dir,
            final(self).food == old(self).food,
            final(self).score == old(self).score,
            final(self).dead == old(self).dead,
            final(self).field_w == old(self).field_w,
            final(self).field_h == old(self).field_h,
    {
        let hx = self.lcg_next();
        let x = (hx % self.field_w as u64) as i32;
        let hy = self.lcg_next();
        let y = (hy % self.field_h as u64) as i32;
        proof {
            reveal(draw_cell);
        }
        (x, y)
    }

    /// Puts the food on a random cell off the snake, giving up after 1001 tries with the
    /// food at (0, 0).
    pub fn place_food(&mut self)
        requires
            1 <= old(self).field_w,
            1 <= old(self).field_h,
        ensures
            (final(self).food, final(self).rng) == food_search(
                old(self).snake@,
                old(self).rng,
                old(self).field_w as int,
                old(self).field_h as int,
                0,
            ),
            final(self).snake@ == old(self).snake@,
            final(self).dir_queue@ == old(self).dir_queue@,
            final(self).dir == old(self).dir,
            final(self).score == old(self).score,
            final(self).dead == old(self).dead,
            final(self).field_w == old(self).field_w,
            final(self).field_h == old(self).field_h,
    {
        let ghost s0 = self.snake@;
        let ghost r0 = self.rng;
        let ghost w = self.field_w as int;
        let ghost h = self.field_h as int;
        let mut attempts: u32 = 0;
        loop
            invariant
                attempts <= 1000,
                w == self.field_w && h == self.field_h,
                1 <= w && 1 <= h,
                s0 == self.snake@,
                s0 == old(self).snake@,
                r0 == old(self).rng,
                w == old(self).field_w && h == old(self).field_h,
                self.dir_queue@ == old(self).dir_queue@,
                self.dir == old(self).dir,
                self.score == old(self).score,
                self.dead == old(self).dead,
                food_search(s0, self.rng, w, h, attempts as int) == food_search(s0, r0, w, h, 0),
            decreases 1001 - attempts,
        {
            let ghost rb = self.rng;
            let (x, y) = self.draw();
            let hit = self.on_snake((x, y));
            proof {
                reveal(food_search);
                let (p, r) = draw_cell(rb, w, h);
                assert(food_search(s0, rb, w, h, attempts as int) == if !s0.contains(p) {
                    (p, r)
                } else if attempts + 1 > 1000 {
                    ((0i32, 0i32), r)
                } else {
                    food_search(s0, r, w, h, attempts + 1)
                });
            }
            if !hit {
                self.food = (x, y);
                return;
            }
            attempts += 1;
            if attempts > 1000 {
                self.food = (0, 0);
                return;
            }
        }
    }

    /// A new game on a `field_w` by `field_h` field whose food generator starts from
    /// `seed`: a snake of three heading right with its head in the middle, and food.
    pub fn with_seed(field_w: i32, field_h: i32, seed: u64) -> (g: Self)
        requires
            1 <= field_w,
            1 <= field_h,
        ensures
            g.inv(),
            g.snake@ == seq![
                ((field_w / 2) as i32, (field_h / 2) as i32),
                ((field_w / 2 - 1) as i32, (field_h / 2) as i32),
                ((field_w / 2 - 2) as i32, (field_h / 2) as i32),
            ],
            g.dir == Dir::Right,
            g.dir_queue@.len() == 0,
            g.score == 0,
            !g.dead,
            g.field_w == field_w,
            g.field_h == field_h,
            (g.food, g.rng) == food_search(g.snake@, seed, field_w as int, field_h as int, 0),
    {
        let cx = field_w / 2;
        let cy = field_h / 2;
        let mut snake = VecDeque::new();
        snake.push_back((cx, cy));
        snake.push_back((cx - 1, cy));
        snake.push_back((cx - 2, cy));
        let mut g = Game {
            snake,
            dir: Dir::Right,
            dir_queue: VecDeque::new(),
            food: (0, 0),
            score: 0,
            dead: false,
            rng: seed,
            field_w,
            field_h,
        };
        g.place_food();
        assert(g.snake@ =~= seq![(cx, cy), ((cx - 1) as i32, cy), ((cx - 2) as i32, cy)]);
        g
    }

    /// A new game on a `field_w` by `field_h` field, seeded from the clock.
    pub fn new(field_w: i32, field_h: i32) -> (g: Self)
        requires
            1 <= field_w,
            1 <= field_h,
        ensures
            g.inv(),
            g.snake@ == seq![
                ((field_w / 2) as i32, (field_h / 2) as i32),
                ((field_w / 2 - 1) as i32, (field_h / 2) as i32),
                ((field_w / 2 - 2) as i32, (field_h / 2) as i32),
            ],
            g.dir == Dir::Right,
            g.dir_queue@.len() == 0,
            g.score == 0,
            !g.dead,
            g.field_w == field_w,
            g.field_h == field_h,
            exists|seed: u64|
                (g.food, g.rng) == #[trigger] food_search(g.snake@, seed, field_w as int, field_h as int, 0),
            0 <= g.food.0 < field_w && 0 <= g.food.1 < field_h,
            !g.snake@.contains(g.food) || g.food == (0i32, 0i32),
    {
        let seed = clock_seed_subsec();
        let g = Self::with_seed(field_w, field_h, seed);
        proof {
            law_food_on_field(g.snake@, seed, field_w as int, field_h as int, 0);
            law_food_off_body(g.snake@, seed, field_w as int, field_h as int, 0);
        }
        g
    }

    /// The head's next cell, after the queued turns.
    pub open spec fn next_head(self) -> (int, int) {
        step(self.snake@[0], take_turn(self.dir, self.dir_queue@).0)
    }

    /// Whether the next step would eat: the head stays on the field, misses the body and
    /// meets the food.
    pub open spec fn eats_next(self) -> bool {
        let h = self.next_head();
        !outside(h, self.field_w as int, self.field_h as int) && !hits_body(self.snake@, h) && h
            == (self.food.0 as int, self.food.1 as int)
    }

    /// Moves the snake one step: takes the queued turns, then dies on leaving the field or
    /// running into its body (its last segment excepted, as that moves away); otherwise
    /// the head moves on, and on food the snake grows by one, scores 10 and new food is
    /// placed, else the last segment follows. A dead snake does not move.
    #[verifier::rlimit(50)]
    #[verifier::spinoff_prover]
    pub fn tick(&mut self)
        requires
            old(self).inv(),
            !old(self).dead && old(self).eats_next() ==> old(self).score + 10 <= u32::MAX,
        ensures
            final(self).inv(),
            old(self).dead ==> *final(self) == *old(self),
            !old(self).dead ==> {
                let (d, q) = take_turn(old(self).dir, old(self).dir_queue@);
                let h = old(self).next_head();
                let hp = (h.0 as i32, h.1 as i32);
                let w = old(self).field_w as int;
                let ht = old(self).field_h as int;
                &&& final(self).dir == d
                &&& final(self).dir_queue@ == q
                &&& final(self).field_w == old(self).field_w
                &&& final(self).field_h == old(self).field_h
                &&& if outside(h, w, ht) || hits_body(old(self).snake@, h) {
                    &&& final(self).dead
                    &&& final(self).snake@ == old(self).snake@
                    &&& final(self).score == old(self).score
                    &&& final(self).food == old(self).food
                    &&& final(self).rng == old(self).rng
                } else if old(self).eats_next() {
                    &&& !final(self).dead
                    &&& final(self).snake@ == seq![hp] + old(self).snake@
                    &&& final(self).score == old(self).score + 10
                    &&& (final(self).food, final(self).rng) == food_search(
                        seq![hp] + old(self).snake@,
                        old(self).rng,
                        w,
                        ht,
                        0,
                    )
                } else {
                    &&& !final(self).dead
                    &&& final(self).snake@ == seq![hp] + old(self).snake@.drop_last()
                    &&& final(self).score == old(self).score
                    &&& final(self).food == old(self).food
                    &&& final(self).rng == old(self).rng
                }
            },
            !old(self).dead ==> final(self).dir != opposite_of(old(self).dir),
            old(self).distinct() && !old(self).snake@.contains(old(self).food) ==> final(self).distinct(),
    {
        if self.dead {
            return;
        }
        let ghost s0 = *self;
        let ghost body = self.snake@;
        proof {
            lemma_take_turn(self.dir, self.dir_queue@);
        }
        loop
            invariant_except_break
                self.dir == s0.dir,
                take_turn(self.dir, self.dir_queue@) == take_turn(s0.dir, s0.dir_queue@),
                self.dir_queue@.len() <= s0.dir_queue@.len(),
                self.snake@ == body,
                s0.inv(),
                !self.dead,
                body == s0.snake@,
                self.food == s0.food && self.score == s0.score && self.rng == s0.rng,
                self.field_w == s0.field_w && self.field_h == s0.field_h,
            ensures
                (self.dir, self.dir_queue@) == take_turn(s0.dir, s0.dir_queue@),
                self.snake@ == body,
                !self.dead,
                self.food == s0.food && self.score == s0.score && self.rng == s0.rng,
                self.field_w == s0.field_w && self.field_h == s0.field_h,
            decreases self.dir_queue@.len(),
        {
            if self.dir_queue.len() == 0 {
                break;
            }
            let next = self.dir_queue[0];
            if next == self.dir.opposite() {
                self.dir_queue.pop_front();
            } else {
                self.dir = next;
                self.dir_queue.pop_front();
                break;
            }
        }
        let (hx, hy) = self.snake[0];
        let (nx, ny) = match self.dir {
            Dir::Up => (hx, hy - 1),
            Dir::Down => (hx, hy + 1),
            Dir::Left => (hx - 1, hy),
            Dir::Right => (hx + 1, hy),
        };
        assert(step(body[0], self.dir) == (nx as int, ny as int));
        assert(s0 == *old(self));
        assert(s0.next_head() == (nx as int, ny as int));
        if nx < 0 || nx >= self.field_w || ny < 0 || ny >= self.field_h {
            self.dead = true;
            return;
        }
        let body_len = self.snake.len();
        let ghost s1 = *self;
        let mut i: usize = 0;
        #[verifier::loop_isolation(false)]
        while i < body_len
            invariant
                body_len == self.snake@.len(),
                body_len >= 3,
                *self == s1,
                self.snake@ == body,
                i <= body_len,
                forall|j: int| 0 <= j < i && j < body_len - 1 ==> body[j] != (nx, ny),
            decreases body_len - i,
        {
            if i == body_len - 1 {
                break;
            }
            let seg = self.snake[i];
            if seg.0 == nx && seg.1 == ny {
                assert(body[i as int] == (nx, ny));
                assert(hits_body(body, (nx as int, ny as int)));
                self.dead = true;
                return;
            }
            i += 1;
        }
        assert(!hits_body(body, (nx as int, ny as int)));
        self.snake.push_front((nx, ny));
        if nx == self.food.0 && ny == self.food.1 {
            assert(s0.eats_next());
            self.score += 10;
            self.place_food();
        } else {
            self.snake.pop_back();
            assert(self.snake@ =~= seq![(nx, ny)] + body.drop_last());
        }
        proof {
            let nb = self.snake@;
            assert(adjacent(nb[0], nb[1]));
            assert forall|k: int| 0 <= k < nb.len() - 1 implies adjacent(#[trigger] nb[k], nb[k + 1]) by {
                if k > 0 {
                    assert(nb[k] == body[k - 1] && nb[k + 1] == body[k]);
                }
            }
            assert forall|k: int| 0 <= k < nb.len() implies {
                &&& -2 <= (#[trigger] nb[k]).0 < self.field_w
                &&& -2 <= nb[k].1 < self.field_h
            } by {
                if k > 0 {
                    assert(nb[k] == body[k - 1]);
                }
            }
            if s0.distinct() && !body.contains(s0.food) {
                assert forall|a: int, b: int| 0 <= a < b < nb.len() implies #[trigger] nb[a] != #[trigger] nb[b] by {
                    if a == 0 {
                        assert(nb[b] == body[b - 1]);
                        if b - 1 < body.len() - 1 {
                        } else {
                            assert(body[b - 1] != s0.food || !body.contains(s0.food));
                        }
                    } else {
                        assert(nb[a] == body[a - 1] && nb[b] == body[b - 1]);
                    }
                }
            }
        }
    }

    /// Milliseconds between steps: 150, 10 fewer per 50 points, never under 60.
    pub fn tick_ms(&self) -> (ms: u64)
        ensures
            ms == step_ms(self.score as int),
            60 <= ms <= 150,
    {
        let speed_ups = self.score / 50;
        let slower = 150u64.saturating_sub(speed_ups as u64 * 10);
        if slower < 60 {
            60
        } else {
            slower
        }
    }

    /// Queues a turn unless it would reverse or repeat the last direction queued (or the
    /// current one, with nothing queued), or two turns wait already.
    pub fn queue_dir(&mut self, d: Dir)
        requires
            old(self).inv(),
        ensures
            final(self).inv(),
            final(self).dir_queue@ == queue_after(old(self).dir, old(self).dir_queue@, d),
            final(self).snake@ == old(self).snake@,
            final(self).dir == old(self).dir,
            final(self).food == old(self).food,
            final(self).score == old(self).score,
            final(self).dead == old(self).dead,
            final(self).rng == old(self).rng,
            final(self).field_w == old(self).field_w,
            final(self).field_h == old(self).field_h,
    {
        let n = self.dir_queue.len();
        let last = if n > 0 {
            self.dir_queue[n - 1]
        } else {
            self.dir
        };
        if d != last.opposite() && d != last && n < 2 {
            self.dir_queue.push_back(d);
        }
    }

    /// Answers a key press: `q` or Esc quits, `r` starts a new game on the same field,
    /// the arrows queue turns.
    pub fn handle_key(&mut self, key: Key) -> (flow: Flow)
        requires
            old(self).inv(),
        ensures
            final(self).inv(),
            (flow == Flow::Quit) == (key == Key::Char('q') || key == Key::Esc),
            flow == Flow::Quit ==> *final(self) == *old(self),
            key == Key::Char('r') ==> {
                &&& final(self).score == 0
                &&& !final(self).dead
                &&& final(self).field_w == old(self).field_w
                &&& final(self).field_h == old(self).field_h
                &&& final(self).dir == Dir::Right
                &&& 0 <= final(self).food.0 < old(self).field_w
                &&& 0 <= final(self).food.1 < old(self).field_h
                &&& !final(self).snake@.contains(final(self).food) || final(self).food == (0i32, 0i32)
            },
            key == Key::Char('r') ==> final(self).snake@ == seq![
                ((old(self).field_w / 2) as i32, (old(self).field_h / 2) as i32),
                ((old(self).field_w / 2 - 1) as i32, (old(self).field_h / 2) as i32),
                ((old(self).field_w / 2 - 2) as i32, (old(self).field_h / 2) as i32),
            ] && final(self).dir_queue@.len() == 0,
            (key == Key::Up || key == Key::Down || key == Key::Left || key == Key::Right) ==> {
                &&& final(self).dir_queue@ == queue_after(
                    old(self).dir,
                    old(self).dir_queue@,
                    arrow_dir(key),
                )
                &&& final(self).snake@ == old(self).snake@
                &&& final(self).dir == old(self).dir
                &&& final(self).food == old(self).food
                &&& final(self).score == old(self).score
                &&& final(self).dead == old(self).dead
                &&& final(self).rng == old(self).rng
                &&& final(self).field_w == old(self).field_w
                &&& final(self).field_h == old(self).field_h
            },
            !(key == Key::Char('q') || key == Key::Esc || key == Key::Char('r') || key == Key::Up
                || key == Key::Down || key == Key::Left || key == Key::Right) ==> *final(self)
                == *old(self),
    {
        match key {
            Key::Char('q') | Key::Esc => {
                return Flow::Quit;
            },
            Key::Char('r') => {
                *self = Game::new(self.field_w, self.field_h);
            },
            Key::Up => self.queue_dir(Dir::Up),
            Key::Down => self.queue_dir(Dir::Down),
            Key::Left => self.queue_dir(Dir::Left),
            Key::Right => self.queue_dir(Dir::Right),
            _ => {},
        }
        Flow::Continue
    }

}

} // verus!
