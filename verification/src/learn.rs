//! The knowledge cards: the card order and the language.
use vstd::prelude::*;

use crate::deck::{fisher_yates, shuffle_with_seed};
use crate::lang::{names_zh, text_view, wants_zh};
use crate::rng::clock_seed_full;

verus! {

/// Shuffles the card order with the xorshift Fisher-Yates shuffle, seeded from the clock
/// in nanoseconds (42 where the clock stands before the epoch).
pub fn shuffle(order: &mut Vec<usize>)
    ensures
        exists|seed: u64| final(order)@ == #[trigger] fisher_yates(old(order)@, seed, old(order)@.len() - 1),
        final(order)@.to_multiset() == old(order)@.to_multiset(),
{
    let seed = clock_seed_full(42);
    let len = order.len();
    proof {
        crate::deck::law_shuffle_keeps_entries(order@, seed, len - 1);
    }
    shuffle_with_seed(order.as_mut_slice(), seed);
}

/// The language of the cards: `zh` where the language file reads `zh` once trimmed,
/// else `en`, also where it could not be read.
pub fn lang_from_config(contents: Option<&str>) -> (lang: &'static str)
    ensures
        lang@ == if wants_zh(text_view(contents)) {
            "zh"@
        } else {
            "en"@
        },
{
    match contents {
        Some(s) => {
            if names_zh(s) {
                "zh"
            } else {
                "en"
            }
        },
        None => "en",
    }
}

} // verus!
