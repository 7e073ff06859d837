//! The platform climber: where platforms are laid and how the score follows the
//! height reached. The player's flight is kept by the caller.
use rand::Rng;
use vstd::prelude::*;

verus! {

/// Width of a platform in cells.
pub const PLATFORM_WIDTH: u16 = 7;

/// The random generator of the thread, `rand::rngs::ThreadRng`, carried through as an
/// opaque value.
#[verifier::external_type_specification]
#[verifier::external_body]
pub struct ExThreadRng(rand::rngs::ThreadRng);

/// Calls `rand::thread_rng()`: a handle on the thread's random generator. Nothing is
/// stated of it.
#[verifier::external_body]
fn thread_rng() -> (rng: rand::rngs::ThreadRng) {
    rand::thread_rng()
}

/// Calls `Rng::gen_range(0..n)`: a number drawn uniformly from `0..n`. The call panics on
/// an empty range, so `n` is positive; the number lies in the range, and which one it is
/// rests on chance.
#[verifier::external_body]
fn gen_below(rng: &mut rand::rngs::ThreadRng, n: u16) -> (r: u16)
    requires
        n > 0,
    ensures
        r < n,
{
    rng.gen_range(0..n)
}

/// The column of a new platform on a screen `width` cells wide: drawn at random so
/// that the platform's left edge lies left of `width - PLATFORM_WIDTH`.
pub fn platform_x(width: u16) -> (x: u16)
    requires
        width > PLATFORM_WIDTH,
    ensures
        x < width - PLATFORM_WIDTH,
{
    let mut rng = thread_rng();
    gen_below(&mut rng, width - PLATFORM_WIDTH)
}

/// The column of the ground platform: centred under the player.
pub fn ground_platform_x(width: u16) -> (x: u16)
    requires
        width / 2 >= PLATFORM_WIDTH / 2,
    ensures
        x == width / 2 - PLATFORM_WIDTH / 2,
{
    width / 2 - PLATFORM_WIDTH / 2
}

/// The score after reaching `height`: the greatest height reached so far.
pub fn raise_score(score: u32, height: u32) -> (s: u32)
    ensures
        s == if height > score {
            height
        } else {
            score
        },
{
    if height > score {
        height
    } else {
        score
    }
}

} // verus!
