//! Pseudo-random sources shared by the games: the 64-bit LCG step, the xorshift
//! step and the wall-clock seed.
use vstd::prelude::*;

verus! {

/// Multiplier of the 64-bit linear congruential generator.
pub const LCG_MUL: u64 = 6364136223846793005;

/// Increment of the 64-bit linear congruential generator.
pub const LCG_INC: u64 = 1442695040888963407;

/// The LCG state after one step: `state * LCG_MUL + LCG_INC` modulo 2^64.
#[verifier::opaque]
pub open spec fn lcg_spec(state: u64) -> u64 {
    vstd::wrapping::u64_specs::wrapping_add(
        vstd::wrapping::u64_specs::wrapping_mul(state, LCG_MUL),
        LCG_INC,
    )
}

/// Advances the LCG state by one step.
pub fn lcg_step(state: u64) -> (next: u64)
    ensures
        next == lcg_spec(state),
{
    proof {
        reveal(lcg_spec);
    }
    state.wrapping_mul(LCG_MUL).wrapping_add(LCG_INC)
}


/// The high bits of an LCG state, as the games draw them: `state >> 33`.
pub open spec fn lcg_high(state: u64) -> u64 {
    state >> 33u64
}

/// The high bits of a state fit in 31 bits.
pub proof fn lemma_lcg_high_bound(state: u64)
    ensures
        lcg_high(state) < 0x8000_0000,
{
    assert(state >> 33u64 < 0x8000_0000u64) by (bit_vector);
}

/// The system clock's type, `std::time::SystemTime`, carried through as an opaque value.
#[verifier::external_type_specification]
#[verifier::external_body]
pub struct ExSystemTime(std::time::SystemTime);

/// Calls `std::time::SystemTime::now()`: the clock's reading at the call. Nothing is
/// stated of it.
#[verifier::external_body]
fn system_now() -> (t: std::time::SystemTime) {
    std::time::SystemTime::now()
}

/// Calls `SystemTime::duration_since(UNIX_EPOCH)` on `t`: how long after the Unix epoch
/// `t` stands, `None` in place of the error where it stands before. Nothing is stated of
/// which of the two comes back, nor of the duration.
#[verifier::external_body]
fn since_epoch(t: &std::time::SystemTime) -> (d: Option<std::time::Duration>) {
    match t.duration_since(std::time::UNIX_EPOCH) {
        Ok(d) => Some(d),
        Err(_) => None,
    }
}

/// Calls `Duration::as_nanos`: the whole duration in nanoseconds. The duration is opaque
/// here, so nothing is stated of the number.
#[verifier::external_body]
fn duration_nanos(d: &std::time::Duration) -> (n: u128) {
    d.as_nanos()
}

/// Calls `Duration::subsec_nanos`: the part of the duration under a whole second, in
/// nanoseconds, which its documentation says is always less than one billion.
#[verifier::external_body]
fn duration_subsec_nanos(d: &std::time::Duration) -> (n: u32)
    ensures
        n < 1_000_000_000,
{
    d.subsec_nanos()
}

/// The seed that a sub-second clock reading gives: the nanoseconds read, 0 where there
/// was no reading (the clock stood before the epoch).
pub fn subsec_seed(reading: Option<u32>) -> (seed: u64)
    ensures
        seed == match reading {
            Some(n) => n as u64,
            None => 0u64,
        },
{
    match reading {
        Some(n) => n as u64,
        None => 0,
    }
}

/// The seed that a whole clock reading in nanoseconds gives: its low 64 bits,
/// `fallback` where there was no reading (the clock stood before the epoch).
pub fn nanos_seed(reading: Option<u128>, fallback: u64) -> (seed: u64)
    ensures
        seed == match reading {
            Some(n) => (n % 0x1_0000_0000_0000_0000) as u64,
            None => fallback,
        },
{
    match reading {
        Some(n) => {
            assert(n as u64 == n % 0x1_0000_0000_0000_0000) by (bit_vector);
            n as u64
        },
        None => fallback,
    }
}

/// A seed from the sub-second part of the clock, in nanoseconds; 0 where the clock
/// stands before the epoch.
pub fn clock_seed_subsec() -> (seed: u64)
    ensures
        seed < 1_000_000_000,
{
    let now = system_now();
    let reading = match since_epoch(&now) {
        Some(d) => Some(duration_subsec_nanos(&d)),
        None => None,
    };
    subsec_seed(reading)
}

/// A seed from the whole clock reading in nanoseconds, cut to its low 64 bits;
/// `fallback` where the clock stands before the epoch. The reading is the time of the
/// call, so nothing is stated of the seed; `nanos_seed` states how a reading becomes one.
pub fn clock_seed_full(fallback: u64) -> (seed: u64) {
    let now = system_now();
    let reading = match since_epoch(&now) {
        Some(d) => Some(duration_nanos(&d)),
        None => None,
    };
    nanos_seed(reading, fallback)
}

} // verus!
