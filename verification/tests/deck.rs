use paws_games::deck::{
    identity_order, next_index, prev_index, shuffle_with_seed, xorshift_step, Viewer, ViewerAction,
};
use paws_games::keys::Key;
use paws_games::lang::{names_zh, reads_zh};
use paws_games::learn::{lang_from_config, shuffle as shuffle_cards};
use paws_games::poetry::{is_zh_config, shuffle as shuffle_poems};

fn xorshift(mut s: u64) -> u64 {
    s ^= s << 13;
    s ^= s >> 7;
    s ^= s << 17;
    s
}

#[test]
fn xorshift_step_matches_the_shifts() {
    for s in [1u64, 42, 0xdead_beef, u64::MAX] {
        assert_eq!(xorshift_step(s), xorshift(s));
    }
    assert_eq!(xorshift_step(0), 0);
    assert_eq!(xorshift_step(1), 1082269761);
}

#[test]
fn shuffle_with_seed_is_fisher_yates() {
    let mut v = identity_order(10);
    shuffle_with_seed(&mut v, 42);
    let mut expect: Vec<usize> = (0..10).collect();
    let mut seed = 42u64;
    for i in (1..10).rev() {
        seed = xorshift(seed);
        let j = (seed as usize) % (i + 1);
        expect.swap(i, j);
    }
    assert_eq!(v, expect);
}

#[test]
fn shuffles_keep_every_card() {
    for seed in [0u64, 1, 7, 99999] {
        let mut v = identity_order(25);
        shuffle_with_seed(&mut v, seed);
        let mut sorted = v.clone();
        sorted.sort();
        assert_eq!(sorted, identity_order(25));
    }
    let mut cards = identity_order(30);
    shuffle_cards(&mut cards);
    cards.sort();
    assert_eq!(cards, identity_order(30));
    let mut poems = identity_order(12);
    shuffle_poems(&mut poems);
    poems.sort();
    assert_eq!(poems, identity_order(12));
}

#[test]
fn shuffling_small_decks() {
    let mut empty: Vec<usize> = Vec::new();
    shuffle_with_seed(&mut empty, 3);
    assert!(empty.is_empty());
    let mut one = vec![5usize];
    shuffle_cards(&mut one);
    assert_eq!(one, vec![5]);
}

#[test]
fn identity_order_counts_up() {
    assert_eq!(identity_order(4), vec![0, 1, 2, 3]);
    assert!(identity_order(0).is_empty());
}

#[test]
fn stepping_through_a_deck_wraps() {
    assert_eq!(next_index(0, 3), 1);
    assert_eq!(next_index(2, 3), 0);
    assert_eq!(prev_index(0, 3), 2);
    assert_eq!(prev_index(2, 3), 1);
    for len in 1..6 {
        for i in 0..len {
            assert_eq!(prev_index(next_index(i, len), len), i);
        }
    }
}

#[test]
fn language_file_contents() {
    assert!(names_zh("zh"));
    assert!(names_zh("  zh\n"));
    assert!(names_zh("\tzh \r\n"));
    assert!(!names_zh("en"));
    assert!(!names_zh("z h"));
    assert!(!names_zh("zhx"));
    assert!(!names_zh(""));
    assert!(!names_zh("ZH"));
    assert!(names_zh("\u{3000}zh\u{2003}"));
    assert_eq!(lang_from_config(Some("zh\n")), "zh");
    assert_eq!(lang_from_config(Some("en")), "en");
    assert_eq!(lang_from_config(Some("fr")), "en");
    assert_eq!(lang_from_config(None), "en");
    assert!(is_zh_config(Some(" zh ")));
    assert!(!is_zh_config(Some("zh-CN")));
    assert!(!is_zh_config(None));
}

#[test]
fn card_viewer_keys() {
    let mut v = Viewer::new(3);
    assert_eq!(v.card_key(Key::Char(' ')), ViewerAction::Show);
    assert!(v.revealed);
    assert_eq!(v.card_key(Key::Right), ViewerAction::Show);
    assert_eq!((v.idx, v.revealed), (1, false));
    assert_eq!(v.card_key(Key::Enter), ViewerAction::Show);
    assert_eq!(v.card_key(Key::Char('n')), ViewerAction::Show);
    assert_eq!(v.card_key(Key::Char('n')), ViewerAction::Show);
    assert_eq!(v.idx, 0);
    assert_eq!(v.card_key(Key::Left), ViewerAction::Show);
    assert_eq!(v.idx, 2);
    assert_eq!(v.card_key(Key::Char('p')), ViewerAction::Show);
    assert_eq!(v.idx, 1);
    v.revealed = true;
    assert_eq!(v.card_key(Key::Char('r')), ViewerAction::Reshuffle);
    assert_eq!((v.idx, v.revealed), (0, false));
    assert_eq!(v.card_key(Key::Char('x')), ViewerAction::Show);
    assert_eq!(v, Viewer { idx: 0, len: 3, revealed: false });
    assert_eq!(v.card_key(Key::Char('q')), ViewerAction::Quit);
}

#[test]
fn poem_viewer_keys() {
    let mut v = Viewer::new(2);
    assert_eq!(v.poem_key(Key::Char(' ')), ViewerAction::Show);
    assert_eq!(v.idx, 1);
    assert_eq!(v.poem_key(Key::Right), ViewerAction::Show);
    assert_eq!(v.idx, 0);
    assert_eq!(v.poem_key(Key::Char('p')), ViewerAction::Show);
    assert_eq!(v.idx, 1);
    assert_eq!(v.poem_key(Key::Enter), ViewerAction::Show);
    assert_eq!(v.idx, 1);
    assert_eq!(v.poem_key(Key::Char('r')), ViewerAction::Reshuffle);
    assert_eq!(v.idx, 0);
    assert_eq!(v.poem_key(Key::Esc), ViewerAction::Show);
    assert_eq!(v.poem_key(Key::Char('q')), ViewerAction::Quit);
}

#[test]
fn exact_language_names() {
    assert!(reads_zh("zh"));
    assert!(!reads_zh(" zh"));
    assert!(!reads_zh("zh\n"));
    assert!(!reads_zh("z"));
    assert!(!reads_zh("中文"));
}
