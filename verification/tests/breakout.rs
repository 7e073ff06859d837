use paws_games::breakout::{
    brick_color, Court, PowerupKind, Strike, TickEnd, BRICK_COLS, BRICK_HP, BRICK_ROWS, PAD_W_NORMAL,
    PAD_W_WIDE, WIDE_TICKS,
};
use paws_games::rng::lcg_step;
use paws_games::tint::Tint;

fn draw(state: u64) -> u64 {
    state >> 33
}

#[test]
fn brick_colors_by_row() {
    assert_eq!(brick_color(0), Tint::Rgb(220, 60, 60));
    assert_eq!(brick_color(1), Tint::Rgb(220, 140, 60));
    assert_eq!(brick_color(2), Tint::Rgb(220, 220, 60));
    assert_eq!(brick_color(3), Tint::Rgb(60, 200, 60));
    assert_eq!(brick_color(4), Tint::Rgb(60, 140, 220));
    assert_eq!(brick_color(9), Tint::Rgb(60, 140, 220));
}

#[test]
fn new_court_is_fresh() {
    let g = Court::with_seed(80, 24, 7);
    assert_eq!(g.cols, 80);
    assert_eq!(g.rows, 24);
    assert_eq!(g.lives, 3);
    assert_eq!(g.score, 0);
    assert_eq!(g.level, 1);
    assert_eq!(g.pad_w, PAD_W_NORMAL);
    assert_eq!(g.wide_ticks, 0);
    assert_eq!(g.rng, 7);
    assert!(!g.paused && !g.game_over);
    for r in 0..BRICK_ROWS {
        for c in 0..BRICK_COLS {
            assert_eq!(g.bricks[r][c], BRICK_HP);
        }
    }
    // (80 - 48) / 2 = 16
    assert_eq!(g.brick_origin_x, 16);
    assert_eq!(g.brick_origin_y, 2);
    assert!(!g.bricks_all_cleared());
}

#[test]
fn narrow_screen_puts_wall_at_left_edge() {
    let g = Court::with_seed(30, 24, 1);
    assert_eq!(g.brick_origin_x, 0);
    let g = Court::with_seed(49, 24, 1);
    assert_eq!(g.brick_origin_x, 0);
    let g = Court::with_seed(50, 24, 1);
    assert_eq!(g.brick_origin_x, 1);
}

#[test]
fn clock_seeded_court_seed_is_subsecond() {
    let g = Court::new(80, 24);
    assert!(g.rng < 1_000_000_000);
    assert_eq!(g.lives, 3);
}

#[test]
fn lcg_draw_is_high_bits_of_next_state() {
    let mut g = Court::with_seed(80, 24, 12345);
    let v = g.lcg_next();
    let s = 12345u64
        .wrapping_mul(6_364_136_223_846_793_005)
        .wrapping_add(1_442_695_040_888_963_407);
    assert_eq!(g.rng, s);
    assert_eq!(v, s >> 33);
}

#[test]
fn brick_cell_maps_cells_to_bricks() {
    let g = Court::with_seed(80, 24, 1);
    // wall spans x 16..64, y 2..12
    assert_eq!(g.brick_cell(16, 2), Some((0, 0)));
    assert_eq!(g.brick_cell(21, 3), Some((0, 0)));
    assert_eq!(g.brick_cell(22, 4), Some((1, 1)));
    assert_eq!(g.brick_cell(63, 11), Some((4, 7)));
    assert_eq!(g.brick_cell(64, 5), None);
    assert_eq!(g.brick_cell(15, 5), None);
    assert_eq!(g.brick_cell(30, 12), None);
    assert_eq!(g.brick_cell(30, 1), None);
}

#[test]
fn strike_on_level_one_weakens_then_breaks() {
    let mut g = Court::with_seed(80, 24, 99);
    assert_eq!(g.strike_brick(2, 3), Strike::Hit);
    assert_eq!(g.bricks[2][3], 1);
    assert_eq!(g.score, 10);
    assert_eq!(g.rng, 99);
    assert_eq!(g.strike_brick(2, 3), Strike::Hit);
    assert_eq!(g.bricks[2][3], 0);
    assert_eq!(g.score, 20);
    // level 1 never draws from the generator
    assert_eq!(g.rng, 99);
    // a broken brick is a miss and changes nothing
    assert_eq!(g.strike_brick(2, 3), Strike::Miss);
    assert_eq!(g.score, 20);
}

#[test]
fn strike_outside_the_wall_is_a_miss() {
    let mut g = Court::with_seed(80, 24, 5);
    assert_eq!(g.strike_brick(5, 0), Strike::Miss);
    assert_eq!(g.strike_brick(0, 8), Strike::Miss);
    assert_eq!(g.score, 0);
}

#[test]
fn breaking_a_brick_on_level_two_draws_a_powerup_as_the_generator_says() {
    for seed in 0u64..64 {
        let mut g = Court::with_seed(80, 24, seed);
        g.level = 2;
        g.bricks[0][0] = 1;
        let s = g.strike_brick(0, 0);
        let r1 = lcg_step(seed);
        if draw(r1) % 4 == 0 {
            let r2 = lcg_step(r1);
            let kind = match draw(r2) % 3 {
                0 => PowerupKind::Life,
                1 => PowerupKind::Wide,
                _ => PowerupKind::Clear,
            };
            assert_eq!(s, Strike::HitDrop(kind));
            assert_eq!(g.rng, r2);
        } else {
            assert_eq!(s, Strike::Hit);
            assert_eq!(g.rng, r1);
        }
        assert_eq!(g.score, 10);
        assert_eq!(g.bricks[0][0], 0);
    }
}

#[test]
fn weakening_without_breaking_on_level_two_draws_nothing() {
    let mut g = Court::with_seed(80, 24, 3);
    g.level = 2;
    assert_eq!(g.strike_brick(1, 1), Strike::Hit);
    assert_eq!(g.rng, 3);
}

#[test]
fn powerups_apply() {
    let mut g = Court::with_seed(80, 24, 1);
    g.apply_powerup(PowerupKind::Life);
    assert_eq!(g.lives, 4);
    g.apply_powerup(PowerupKind::Wide);
    assert_eq!(g.pad_w, PAD_W_WIDE);
    assert_eq!(g.wide_ticks, WIDE_TICKS);
    g.bricks[0][0] = 1;
    g.bricks[4][7] = 1;
    g.bricks[2][2] = 0;
    g.apply_powerup(PowerupKind::Clear);
    assert_eq!(g.bricks[0][0], 0);
    assert_eq!(g.bricks[4][7], 0);
    assert_eq!(g.bricks[2][2], 0);
    assert_eq!(g.bricks[1][1], 2);
}

#[test]
fn clear_twice_breaks_nothing_more() {
    let mut g = Court::with_seed(80, 24, 1);
    g.bricks[0][0] = 1;
    g.bricks[3][5] = 1;
    g.apply_powerup(PowerupKind::Clear);
    let once = g.bricks;
    g.apply_powerup(PowerupKind::Clear);
    assert_eq!(g.bricks, once);
    for row in once.iter() {
        for &hp in row.iter() {
            assert_ne!(hp, 1);
        }
    }
}

#[test]
fn wide_paddle_runs_out() {
    let mut g = Court::with_seed(80, 24, 1);
    g.apply_powerup(PowerupKind::Wide);
    for _ in 0..299 {
        g.tick_wide_timer();
        assert_eq!(g.pad_w, PAD_W_WIDE);
    }
    g.tick_wide_timer();
    assert_eq!(g.wide_ticks, 0);
    assert_eq!(g.pad_w, PAD_W_NORMAL);
    g.tick_wide_timer();
    assert_eq!(g.wide_ticks, 0);
}

#[test]
fn losing_lives_ends_the_game() {
    let mut g = Court::with_seed(80, 24, 1);
    assert!(g.lose_life());
    assert!(g.lose_life());
    assert!(!g.game_over);
    assert!(!g.lose_life());
    assert_eq!(g.lives, 0);
    assert!(g.game_over);
}

#[test]
fn clearing_the_wall_starts_the_next_level() {
    let mut g = Court::with_seed(80, 24, 1);
    assert!(!g.level_up_if_cleared());
    assert_eq!(g.level, 1);
    g.apply_powerup(PowerupKind::Wide);
    g.bricks = [[0; BRICK_COLS]; BRICK_ROWS];
    assert!(g.bricks_all_cleared());
    assert!(g.level_up_if_cleared());
    assert_eq!(g.level, 2);
    assert_eq!(g.pad_w, PAD_W_NORMAL);
    assert_eq!(g.wide_ticks, 0);
    assert!(!g.bricks_all_cleared());
    assert_eq!(g.bricks[3][3], BRICK_HP);
}

#[test]
fn pause_toggles_running() {
    let mut g = Court::with_seed(80, 24, 1);
    assert!(g.running());
    g.toggle_pause();
    assert!(g.paused);
    assert!(!g.running());
    g.toggle_pause();
    assert!(g.running());
    g.game_over = true;
    assert!(!g.running());
}

#[test]
fn a_level_up_keeps_score_lives_and_generator() {
    let mut g = Court::with_seed(80, 24, 11);
    g.bricks = [[0; BRICK_COLS]; BRICK_ROWS];
    g.score = 400;
    g.lives = 2;
    g.apply_powerup(PowerupKind::Wide);
    assert!(g.level_up_if_cleared());
    assert_eq!(g.level, 2);
    assert_eq!((g.score, g.lives, g.rng), (400, 2, 11));
    assert_eq!((g.wide_ticks, g.pad_w), (0, PAD_W_NORMAL));
    assert!(g.bricks.iter().flatten().all(|&hp| hp == BRICK_HP));
    assert!(!g.level_up_if_cleared());
    assert_eq!(g.level, 2);
}

#[test]
fn a_lost_ball_ends_the_tick_before_any_brick() {
    let mut g = Court::with_seed(80, 24, 3);
    // (16, 2) is inside brick (0, 0), but a lost ball strikes nothing.
    assert_eq!(g.end_tick(true, 16, 2), TickEnd::Lost(true));
    assert_eq!(g.lives, 2);
    assert_eq!(g.bricks[0][0], BRICK_HP);
    assert_eq!(g.score, 0);
    g.lives = 1;
    assert_eq!(g.end_tick(true, 16, 2), TickEnd::Lost(false));
    assert!(g.game_over);
}

#[test]
fn a_ball_in_play_strikes_then_levels_up() {
    let mut g = Court::with_seed(80, 24, 3);
    assert_eq!(
        g.end_tick(false, 22, 4),
        TickEnd::Played(Some((1, 1)), Strike::Hit, false)
    );
    assert_eq!(g.bricks[1][1], BRICK_HP - 1);
    assert_eq!(g.score, 10);
    assert_eq!(g.end_tick(false, 70, 20), TickEnd::Played(None, Strike::Miss, false));
    assert_eq!(g.score, 10);
    g.bricks = [[0; BRICK_COLS]; BRICK_ROWS];
    g.bricks[4][7] = 1;
    assert!(g.would_clear(Some((4, 7))));
    assert!(!g.would_clear(Some((4, 6))));
    assert!(!g.would_clear(None));
    // Level 1 drops no power-up, so the generator is left alone.
    assert_eq!(
        g.end_tick(false, 63, 11),
        TickEnd::Played(Some((4, 7)), Strike::Hit, true)
    );
    assert_eq!(g.level, 2);
    assert_eq!((g.score, g.lives, g.rng), (20, 3, 3));
    assert!(g.bricks.iter().flatten().all(|&hp| hp == BRICK_HP));
}
