use paws_games::keys::{Flow, Key};
use paws_games::vibe::{
    upgrade_base_cost, upgrade_desc, upgrade_emoji, upgrade_name, upgrade_rate, Shop,
    UPGRADE_COUNT,
};

#[test]
fn upgrade_table() {
    let names = ["Auto-paw", "Vibe buddy", "Hype engine", "Vibe reactor", "Galaxy brain"];
    let emojis = ["🐾", "🐱", "🚀", "⚡", "🌌"];
    let descs = [" 1/s", " 5/s", "20/s", "100/s", "500/s"];
    let costs = [15u64, 100, 500, 3000, 15000];
    let rates = [1u64, 5, 20, 100, 500];
    for i in 0..UPGRADE_COUNT {
        assert_eq!(upgrade_name(i), names[i]);
        assert_eq!(upgrade_emoji(i), emojis[i]);
        assert_eq!(upgrade_desc(i), descs[i]);
        assert_eq!(upgrade_base_cost(i), costs[i]);
        assert_eq!(upgrade_rate(i), rates[i]);
    }
}

#[test]
fn new_shop_is_empty() {
    let s = Shop::new();
    assert_eq!(s.vibes, 0);
    assert_eq!(s.taps, 0);
    assert_eq!(s.selected, 0);
    assert_eq!(s.counts, vec![0, 0, 0, 0, 0]);
    assert_eq!(s.rate(), 0);
}

#[test]
fn rate_sums_rate_times_count() {
    let mut s = Shop::new();
    s.counts = vec![3, 2, 1, 0, 4];
    assert_eq!(s.rate(), 3 + 10 + 20 + 0 + 2000);
}

#[test]
fn rate_of_largest_counts_fits() {
    let mut s = Shop::new();
    s.counts = vec![u32::MAX; 5];
    assert_eq!(s.rate(), 626 * u32::MAX as u64);
}

#[test]
fn tapping_adds_one_vibe() {
    let mut s = Shop::new();
    s.tap();
    s.tap();
    assert_eq!(s.vibes, 2);
    assert_eq!(s.taps, 2);
}

#[test]
fn earning_adds_vibes() {
    let mut s = Shop::new();
    s.earn(41);
    s.earn(1);
    assert_eq!(s.vibes, 42);
    assert_eq!(s.taps, 0);
}

#[test]
fn buying_needs_enough_vibes() {
    let mut s = Shop::new();
    s.vibes = 14;
    assert!(!s.affordable(15));
    assert!(!s.buy(15));
    assert_eq!(s.vibes, 14);
    assert_eq!(s.counts[0], 0);
    s.tap();
    assert!(s.affordable(15));
    assert!(s.buy(15));
    assert_eq!(s.vibes, 0);
    assert_eq!(s.counts[0], 1);
}

#[test]
fn buying_raises_rate_by_the_upgrade_rate() {
    let mut s = Shop::new();
    s.vibes = 1_000_000;
    s.counts = vec![2, 0, 1, 0, 0];
    let before = s.rate();
    s.selected = 3;
    assert!(s.buy(3000));
    assert_eq!(s.rate(), before + 100);
    s.selected = 0;
    assert!(s.buy(17));
    assert_eq!(s.rate(), before + 101);
    assert_eq!(s.vibes, 1_000_000 - 3000 - 17);
}

#[test]
fn cursor_stops_at_the_ends() {
    let mut s = Shop::new();
    s.select_prev();
    assert_eq!(s.selected, 0);
    for _ in 0..10 {
        s.select_next();
    }
    assert_eq!(s.selected, 4);
    s.select_prev();
    assert_eq!(s.selected, 3);
}

#[test]
fn keys_drive_the_shop() {
    let mut s = Shop::new();
    assert_eq!(s.handle_key(Key::Char(' '), 15), Flow::Continue);
    assert_eq!(s.vibes, 1);
    assert_eq!(s.handle_key(Key::Char('j'), 15), Flow::Continue);
    assert_eq!(s.selected, 1);
    assert_eq!(s.handle_key(Key::Down, 15), Flow::Continue);
    assert_eq!(s.selected, 2);
    assert_eq!(s.handle_key(Key::Char('k'), 15), Flow::Continue);
    assert_eq!(s.handle_key(Key::Up, 15), Flow::Continue);
    assert_eq!(s.selected, 0);
    s.vibes = 20;
    assert_eq!(s.handle_key(Key::Enter, 15), Flow::Continue);
    assert_eq!(s.vibes, 5);
    assert_eq!(s.counts[0], 1);
    assert_eq!(s.handle_key(Key::Char('x'), 15), Flow::Continue);
    assert_eq!(s.vibes, 5);
    assert_eq!(s.handle_key(Key::Char('q'), 15), Flow::Quit);
    assert_eq!(s.handle_key(Key::Esc, 15), Flow::Quit);
}
