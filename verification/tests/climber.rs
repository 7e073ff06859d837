use paws_games::climber::{ground_platform_x, platform_x, raise_score, PLATFORM_WIDTH};

#[test]
fn platforms_fit_the_screen() {
    for width in [8u16, 9, 20, 80, 200] {
        for _ in 0..200 {
            let x = platform_x(width);
            assert!(x < width - PLATFORM_WIDTH);
        }
    }
}

#[test]
fn smallest_screen_has_one_column_for_platforms() {
    for _ in 0..20 {
        assert_eq!(platform_x(8), 0);
    }
}

#[test]
fn platform_columns_vary() {
    let mut seen = std::collections::HashSet::new();
    for _ in 0..500 {
        seen.insert(platform_x(80));
    }
    assert!(seen.len() > 1);
}

#[test]
fn ground_platform_is_centred() {
    assert_eq!(ground_platform_x(80), 37);
    assert_eq!(ground_platform_x(9), 1);
    assert_eq!(ground_platform_x(6), 0);
}

#[test]
fn score_keeps_the_greatest_height() {
    assert_eq!(raise_score(0, 5), 5);
    assert_eq!(raise_score(10, 5), 10);
    assert_eq!(raise_score(10, 10), 10);
    assert_eq!(raise_score(10, 11), 11);
}
