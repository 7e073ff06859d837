//! The poem viewer: the poem order and the language.
use vstd::prelude::*;

use crate::deck::{fisher_yates, shuffle_with_seed};
use crate::lang::{names_zh, text_view, wants_zh};
use crate::rng::clock_seed_full;

verus! {

/// Shuffles the poem order with the xorshift Fisher-Yates shuffle, seeded from the clock
/// in nanoseconds (42 where the clock stands before the epoch).
pub fn shuffle(order: &mut [usize])
    ensures
        exists|seed: u64| final(order)@ == #[trigger] fisher_yates(old(order)@, seed, old(order)@.len() - 1),
        final(order)@.to_multiset() == old(order)@.to_multiset(),
{
    let seed = clock_seed_full(42);
    let len = order.len();
    proof {
        crate::deck::law_shuffle_keeps_entries(order@, seed, len - 1);
    }
    shuffle_with_seed(order, seed);
}

/// Whether the poems are shown in Chinese: where the language file reads `zh` once
/// trimmed; not where it could not be read.
pub fn is_zh_config(contents: Option<&str>) -> (zh: bool)
    ensures
        zh == wants_zh(text_view(contents)),
{
    match contents {
        Some(s) => names_zh(s),
        None => false,
    }
}

} // verus!
