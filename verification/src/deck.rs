//! Shared by the card and poem viewers: the xorshift shuffle and moving through a deck.
use vstd::prelude::*;

use crate::keys::Key;

verus! {

/// One step of the xorshift generator: shifts by 13 left, 7 right, 17 left, each xored in.
pub open spec fn xorshift(s: u64) -> u64 {
    let a = s ^ (s << 13u64);
    let b = a ^ (a >> 7u64);
    b ^ (b << 17u64)
}

/// One step of the xorshift generator.
pub fn xorshift_step(s: u64) -> (n: u64)
    ensures
        n == xorshift(s),
{
    let mut seed = s;
    seed ^= seed << 13;
    seed ^= seed >> 7;
    seed ^= seed << 17;
    seed
}

/// The order after a Fisher-Yates shuffle of positions `i` down to 1 driven by xorshift
/// from `seed`: each position swaps with one at or before it, the generator's next value
/// modulo the position plus one.
pub open spec fn fisher_yates(s: Seq<usize>, seed: u64, i: int) -> Seq<usize>
    decreases i,
{
    if i < 1 || i >= s.len() {
        s
    } else {
        let next = xorshift(seed);
        let j = ((next as usize) % ((i + 1) as usize)) as int;
        fisher_yates(s.update(i, s[j]).update(j, s[i]), next, i - 1)
    }
}

/// Shuffles `order` with the xorshift Fisher-Yates shuffle from `seed`.
pub fn shuffle_with_seed(order: &mut [usize], seed: u64)
    ensures
        final(order)@ == fisher_yates(old(order)@, seed, old(order)@.len() - 1),
{
    let n = order.len();
    if n == 0 {
        return;
    }
    let ghost target = fisher_yates(order@, seed, n - 1);
    let mut seed = seed;
    let mut i: usize = n - 1;
    while i >= 1
        invariant
            i < n,
            n == order@.len(),
            fisher_yates(order@, seed, i as int) == target,
        decreases i,
    {
        seed = xorshift_step(seed);
        let j = (seed as usize) % (i + 1);
        let a = order[i];
        let b = order[j];
        order[i] = b;
        order[j] = a;
        i -= 1;
    }
}

/// Swapping two entries keeps the entries.
pub proof fn lemma_swap_keeps_entries(s: Seq<usize>, i: int, j: int)
    requires
        0 <= i < s.len(),
        0 <= j < s.len(),
    ensures
        s.update(i, s[j]).update(j, s[i]).to_multiset() == s.to_multiset(),
{
    broadcast use vstd::seq_lib::to_multiset_update;
    broadcast use vstd::multiset::group_multiset_axioms;

    let t = s.update(i, s[j]);
    assert(t[j] == s[j]);
    assert(t.to_multiset() == s.to_multiset().insert(s[j]).remove(s[i]));
    assert(t.update(j, s[i]).to_multiset() == t.to_multiset().insert(s[i]).remove(s[j]));
    let m = s.to_multiset();
    assert(m.count(s[i]) > 0) by {
        broadcast use vstd::seq_lib::to_multiset_contains;

        assert(s.contains(s[i]));
    }
    assert forall|v: usize| #[trigger] m.insert(s[j]).remove(s[i]).insert(s[i]).remove(s[j]).count(v)
        == m.count(v) by {
    }
    assert(m.insert(s[j]).remove(s[i]).insert(s[i]).remove(s[j]) =~= m);
}

/// The shuffle only reorders: the deck keeps exactly its entries.
pub proof fn law_shuffle_keeps_entries(s: Seq<usize>, seed: u64, i: int)
    requires
        s.len() <= usize::MAX,
    ensures
        fisher_yates(s, seed, i).to_multiset() == s.to_multiset(),
        fisher_yates(s, seed, i).len() == s.len(),
    decreases i,
{
    if !(i < 1 || i >= s.len()) {
        let next = xorshift(seed);
        let j = ((next as usize) % ((i + 1) as usize)) as int;
        lemma_swap_keeps_entries(s, i, j);
        law_shuffle_keeps_entries(s.update(i, s[j]).update(j, s[i]), next, i - 1);
    }
}

/// The card after `idx` in a deck of `len`, wrapping to the first.
pub fn next_index(idx: usize, len: usize) -> (n: usize)
    requires
        idx < len,
    ensures
        n == (idx + 1) % (len as int),
        n < len,
{
    (idx + 1) % len
}

/// The card before `idx` in a deck of `len`, wrapping to the last.
pub fn prev_index(idx: usize, len: usize) -> (n: usize)
    requires
        idx < len,
    ensures
        n == if idx == 0 {
            len - 1
        } else {
            idx - 1
        },
        n < len,
{
    if idx == 0 {
        len - 1
    } else {
        idx - 1
    }
}

/// Stepping forward then back returns to the same card.
pub proof fn law_next_then_prev(idx: int, len: int)
    requires
        0 <= idx < len,
    ensures
        ({
            let n = (idx + 1) % len;
            (if n == 0 {
                len - 1
            } else {
                n - 1
            }) == idx
        }),
{
    if idx + 1 < len {
        vstd::arithmetic::div_mod::lemma_small_mod((idx + 1) as nat, len as nat);
    } else {
        assert((idx + 1) % len == 0) by (nonlinear_arith)
            requires
                idx + 1 == len,
                len > 0,
        ;
    }
}

/// The deck `0, 1, ..., len - 1`.
pub fn identity_order(len: usize) -> (v: Vec<usize>)
    ensures
        v@.len() == len,
        forall|i: int| 0 <= i < len ==> #[trigger] v@[i] == i,
{
    let mut v: Vec<usize> = Vec::new();
    let mut i: usize = 0;
    while i < len
        invariant
            i <= len,
            v@.len() == i,
            forall|k: int| 0 <= k < i ==> #[trigger] v@[k] == k,
        decreases len - i,
    {
        v.push(i);
        i += 1;
    }
    v
}

/// What the viewer's loop does after a key press, beyond moving through the deck.
#[derive(Clone, Copy, Debug, PartialEq, Eq, Structural)]
pub enum ViewerAction {
    /// Show the deck as it now stands.
    Show,
    /// Shuffle the order anew; the viewer is back on the first card.
    Reshuffle,
    /// Leave.
    Quit,
}

/// Where a viewer stands in a deck of `len` cards, and whether the current card's answer
/// shows.
#[derive(Clone, Copy, Debug, PartialEq, Eq, Structural)]
pub struct Viewer {
    pub idx: usize,
    pub len: usize,
    pub revealed: bool,
}

impl Viewer {
    /// A viewer on the first card of a deck of `len`, its answer hidden.
    pub fn new(len: usize) -> (v: Viewer)
        requires
            len > 0,
        ensures
            v == (Viewer { idx: 0, len, revealed: false }),
    {
        Viewer { idx: 0, len, revealed: false }
    }

    /// A key on the knowledge cards: `q` quits, space or Enter reveals the answer, `n` or
    /// right goes to the next card and `p` or left to the one before, hiding the answer,
    /// `r` reshuffles and goes back to the first card. Other keys do nothing.
    pub fn card_key(&mut self, key: Key) -> (action: ViewerAction)
        requires
            old(self).idx < old(self).len,
        ensures
            final(self).len == old(self).len,
            final(self).idx < final(self).len,
            action == (if key == Key::Char('q') {
                ViewerAction::Quit
            } else if key == Key::Char('r') {
                ViewerAction::Reshuffle
            } else {
                ViewerAction::Show
            }),
            key == Key::Char(' ') || key == Key::Enter ==> *final(self) == (Viewer {
                revealed: true,
                ..*old(self)
            }),
            key == Key::Char('n') || key == Key::Right ==> *final(self) == (Viewer {
                idx: ((old(self).idx + 1) % (old(self).len as int)) as usize,
                revealed: false,
                ..*old(self)
            }),
            key == Key::Char('p') || key == Key::Left ==> *final(self) == (Viewer {
                idx: (if old(self).idx == 0 {
                    old(self).len - 1
                } else {
                    old(self).idx - 1
                }) as usize,
                revealed: false,
                ..*old(self)
            }),
            key == Key::Char('r') ==> *final(self) == (Viewer { idx: 0, revealed: false, ..*old(self) }),
            !(key == Key::Char(' ') || key == Key::Enter || key == Key::Char('n') || key == Key::Right
                || key == Key::Char('p') || key == Key::Left || key == Key::Char('r'))
                ==> *final(self) == *old(self),
    {
        match key {
            Key::Char('q') => ViewerAction::Quit,
            Key::Char(' ') | Key::Enter => {
                self.revealed = true;
                ViewerAction::Show
            },
            Key::Char('n') | Key::Right => {
                self.idx = next_index(self.idx, self.len);
                self.revealed = false;
                ViewerAction::Show
            },
            Key::Char('p') | Key::Left => {
                self.idx = prev_index(self.idx, self.len);
                self.revealed = false;
                ViewerAction::Show
            },
            Key::Char('r') => {
                self.idx = 0;
                self.revealed = false;
                ViewerAction::Reshuffle
            },
            _ => ViewerAction::Show,
        }
    }

    /// A key on the poems: `q` quits, `n`, right or space goes to the next poem, `p` or
    /// left to the one before, `r` reshuffles and goes back to the first. Other keys do
    /// nothing.
    pub fn poem_key(&mut self, key: Key) -> (action: ViewerAction)
        requires
            old(self).idx < old(self).len,
        ensures
            final(self).len == old(self).len,
            final(self).idx < final(self).len,
            final(self).revealed == old(self).revealed,
            action == (if key == Key::Char('q') {
                ViewerAction::Quit
            } else if key == Key::Char('r') {
                ViewerAction::Reshuffle
            } else {
                ViewerAction::Show
            }),
            key == Key::Char('n') || key == Key::Right || key == Key::Char(' ') ==> final(self).idx
                == (old(self).idx + 1) % (old(self).len as int),
            key == Key::Char('p') || key == Key::Left ==> final(self).idx == if old(self).idx == 0 {
                old(self).len - 1
            } else {
                old(self).idx - 1
            },
            key == Key::Char('r') ==> final(self).idx == 0,
            !(key == Key::Char('n') || key == Key::Right || key == Key::Char(' ') || key == Key::Char(
                'p',
            ) || key == Key::Left || key == Key::Char('r')) ==> *final(self) == *old(self),
    {
        match key {
            Key::Char('q') => ViewerAction::Quit,
            Key::Char('n') | Key::Right | Key::Char(' ') => {
                self.idx = next_index(self.idx, self.len);
                ViewerAction::Show
            },
            Key::Char('p') | Key::Left => {
                self.idx = prev_index(self.idx, self.len);
                ViewerAction::Show
            },
            Key::Char('r') => {
                self.idx = 0;
                ViewerAction::Reshuffle
            },
            _ => ViewerAction::Show,
        }
    }
}

} // verus!
