use paws_games::jump_high::{pseudo_rand, rand_platform_width, rand_platform_x, Controls, State};
use paws_games::keys::Key;
use paws_games::rng::lcg_step;

#[test]
fn draws_follow_the_lcg() {
    let mut s = 77u64;
    let v = pseudo_rand(&mut s);
    assert_eq!(s, lcg_step(77));
    assert_eq!(v, lcg_step(77) >> 33);
    assert!(v < 0x8000_0000);
}

#[test]
fn platform_widths_and_columns() {
    let mut s = 5u64;
    for _ in 0..100 {
        let before = s;
        let w = rand_platform_width(&mut s);
        assert_eq!(w as u64, (lcg_step(before) >> 33) % 5 + 4);
        assert!((4..=8).contains(&w));
    }
    let mut s = 9u64;
    let x = rand_platform_x(&mut s, 80, 6);
    assert_eq!(x as u64, (lcg_step(9) >> 33) % 74);
    assert_eq!(s, lcg_step(9));
    let mut s = 9u64;
    assert_eq!(rand_platform_x(&mut s, 6, 6), 0);
    assert_eq!(s, 9);
    assert_eq!(rand_platform_x(&mut s, 3, 8), 0);
    assert_eq!(s, 9);
}

#[test]
fn new_controls() {
    let c = Controls::new();
    assert_eq!(c.state, State::Grounded);
    assert!(!c.paused);
    assert_eq!((c.space_count, c.ticks_since_space, c.dir), (0, 0, 0));
}

#[test]
fn charging_and_release() {
    let mut c = Controls::new();
    assert!(c.press_space());
    assert_eq!(c.state, State::Charging);
    // a single press waits 18 ticks before it counts as released
    for _ in 0..17 {
        assert!(!c.charge_tick());
    }
    assert!(c.charge_tick());
    // key repeat: two more presses shorten the wait to 4 ticks
    let mut c = Controls::new();
    c.press_space();
    assert!(!c.press_space());
    assert!(!c.press_space());
    assert_eq!(c.space_count, 2);
    assert_eq!(c.release_threshold(), 4);
    for _ in 0..3 {
        assert!(!c.charge_tick());
    }
    assert!(c.charge_tick());
}

#[test]
fn space_in_the_air_does_nothing() {
    let mut c = Controls::new();
    c.state = State::Airborne;
    assert!(!c.press_space());
    assert_eq!(c.state, State::Airborne);
    assert_eq!(c.space_count, 0);
}

#[test]
fn pausing_drops_the_charge() {
    let mut c = Controls::new();
    c.press_space();
    assert!(c.toggle_pause());
    assert!(c.paused);
    assert_eq!(c.state, State::Grounded);
    assert!(!c.press_space());
    assert!(!c.toggle_pause());
    assert!(!c.paused);
    let mut c = Controls::new();
    assert!(!c.toggle_pause());
}

#[test]
fn aiming() {
    let mut c = Controls::new();
    c.press_arrow(Key::Left);
    assert_eq!(c.dir, -1);
    c.press_arrow(Key::Right);
    assert_eq!(c.dir, 1);
    c.press_arrow(Key::Up);
    assert_eq!(c.dir, 1);
    c.state = State::Airborne;
    c.press_arrow(Key::Left);
    assert_eq!(c.dir, 1);
    c.state = State::Charging;
    c.paused = true;
    c.press_arrow(Key::Left);
    assert_eq!(c.dir, 1);
}

#[test]
fn take_off_and_landing() {
    let mut c = Controls::new();
    c.press_arrow(Key::Right);
    c.press_space();
    c.take_off();
    assert_eq!(c.state, State::Airborne);
    assert_eq!(c.dir, 1);
    c.land();
    assert_eq!(c.state, State::Grounded);
    assert_eq!(c.dir, 0);
}
