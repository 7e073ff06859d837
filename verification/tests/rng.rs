use paws_games::rng::{
    clock_seed_full, clock_seed_subsec, lcg_step, nanos_seed, subsec_seed, LCG_INC, LCG_MUL,
};

#[test]
fn lcg_step_wraps() {
    assert_eq!(lcg_step(0), LCG_INC);
    assert_eq!(lcg_step(1), LCG_MUL.wrapping_add(LCG_INC));
    assert_eq!(
        lcg_step(u64::MAX),
        u64::MAX.wrapping_mul(LCG_MUL).wrapping_add(LCG_INC)
    );
}

#[test]
fn clock_seeds() {
    for _ in 0..10 {
        assert!(clock_seed_subsec() < 1_000_000_000);
    }
    // The clock of this machine stands after the epoch, so the fallback is unused.
    assert_ne!(clock_seed_full(42), 42);
}


#[test]
fn seeds_from_readings() {
    assert_eq!(subsec_seed(Some(123_456_789)), 123_456_789);
    assert_eq!(subsec_seed(None), 0);
    assert_eq!(nanos_seed(Some(1_700_000_000_123_456_789), 42), 1_700_000_000_123_456_789);
    assert_eq!(nanos_seed(Some((1u128 << 64) + 5), 42), 5);
    assert_eq!(nanos_seed(None, 42), 42);
}
