use paws_games::keys::{Flow, Key};
use paws_games::space_invaders::{Explosion, Game};

#[test]
fn invaders_start_layout() {
    let g = Game::with_seed(80, 24, 9);
    assert_eq!((g.cols, g.rows), (80, 24));
    assert_eq!((g.fleet_x, g.fleet_y, g.fleet_dx), (28, 3, 1));
    assert_eq!(g.player_x, 40);
    assert_eq!(g.player_y(), 21);
    assert_eq!(g.shield_y(), 17);
    assert_eq!((g.shield_x(0), g.shield_x(1), g.shield_x(2)), (27, 37, 47));
    assert_eq!(g.alien_pos(0, 0), (28, 3));
    assert_eq!(g.alien_pos(1, 2), (40, 6));
    assert_eq!(g.alien_pos(2, 4), (52, 9));
    assert_eq!(g.alive_count(), 15);
    assert_eq!((g.score, g.lives, g.level), (0, 3, 1));
    assert_eq!(g.move_interval, 10);
    assert!(g.shields.iter().flatten().flatten().all(|&hp| hp == 4));
    assert!(!g.paused && !g.game_over && !g.cleared);
    assert_eq!(g.rng, 9);
}

#[test]
fn narrow_screen_centres_toward_zero() {
    let g = Game::with_seed(20, 24, 1);
    // (20 - 24) / 2 truncates toward zero
    assert_eq!(g.fleet_x, -2);
    assert_eq!(g.shield_x(0), -3);
    let g = Game::new(81, 30);
    assert_eq!(g.fleet_x, 28);
    assert_eq!(g.shield_x(0), 27);
}

#[test]
fn shooting_once_at_a_time() {
    let mut g = Game::with_seed(80, 24, 1);
    g.shoot();
    assert_eq!(g.player_bullet, Some((40, 20)));
    g.player_x = 50;
    g.shoot();
    assert_eq!(g.player_bullet, Some((40, 20)));
}

#[test]
fn the_ship_stays_on_screen() {
    let mut g = Game::with_seed(80, 24, 1);
    g.move_player(-100);
    assert_eq!(g.player_x, 2);
    g.move_player(1000);
    assert_eq!(g.player_x, 77);
    g.move_player(-5);
    assert_eq!(g.player_x, 72);
}

#[test]
fn shields_wear_down() {
    let mut g = Game::with_seed(80, 24, 1);
    assert!(g.damage_shield(27, 17));
    assert_eq!(g.shields[0][0][0], 3);
    assert!(g.damage_shield(42, 18));
    assert_eq!(g.shields[1][1][5], 3);
    assert!(!g.damage_shield(33, 17));
    assert!(!g.damage_shield(27, 19));
    for _ in 0..3 {
        assert!(g.damage_shield(27, 17));
    }
    assert_eq!(g.shields[0][0][0], 0);
    assert!(!g.damage_shield(27, 17));
}

#[test]
fn a_bullet_climbs_one_row_per_tick() {
    let mut g = Game::with_seed(80, 24, 1);
    g.shoot();
    g.tick();
    assert_eq!(g.player_bullet, Some((40, 19)));
    assert_eq!(g.move_accum, 1);
    assert_eq!(g.alien_fire_accum, 1);
}

#[test]
fn a_bullet_into_a_shield_is_spent() {
    let mut g = Game::with_seed(80, 24, 1);
    g.player_bullet = Some((38, 19));
    g.tick();
    assert_eq!(g.player_bullet, None);
    assert_eq!(g.shields[1][1][1], 3);
}

#[test]
fn shooting_an_alien_scores_and_speeds_up_the_fleet() {
    let mut g = Game::with_seed(80, 24, 1);
    // bottom-left alien at (28, 9); the bullet reaches row 10
    g.player_bullet = Some((29, 11));
    g.tick();
    assert!(!g.alive[2][0]);
    assert_eq!(g.score, 10);
    assert_eq!(g.player_bullet, None);
    assert_eq!(g.alive_count(), 14);
    assert_eq!(g.move_interval, 1 + 14 / 3);
    assert_eq!(g.explosions, vec![Explosion { x: 28, y: 9, ticks: 8 }]);
    // top row scores 30
    g.player_bullet = Some((40, 5));
    g.tick();
    assert!(!g.alive[0][2]);
    assert_eq!(g.score, 40);
    assert_eq!(g.explosions.len(), 2);
    assert_eq!(g.explosions[0].ticks, 7);
}

#[test]
fn the_last_alien_clears_the_level() {
    let mut g = Game::with_seed(80, 24, 1);
    g.alive = [[false; 5]; 3];
    g.alive[1][1] = true;
    g.player_bullet = Some((34, 8));
    g.tick();
    assert!(g.cleared);
    assert_eq!(g.score, 20);
    let before = (g.fleet_x, g.fleet_y, g.score);
    g.tick();
    assert_eq!((g.fleet_x, g.fleet_y, g.score), before);
    assert_eq!(g.handle_key(Key::Enter, 80, 24), Flow::Continue);
    assert!(!g.cleared);
    assert_eq!(g.level, 2);
    assert_eq!(g.alive_count(), 15);
    assert_eq!(g.move_interval, 9);
    assert_eq!(g.score, 20);
}

#[test]
fn the_fleet_steps_and_turns_at_the_edge() {
    let mut g = Game::with_seed(80, 24, 1);
    for _ in 0..10 {
        g.tick();
    }
    assert_eq!(g.fleet_x, 29);
    assert_eq!(g.move_accum, 0);
    // right column at fleet_x + 24 reaching column 78 turns the fleet down
    g.fleet_x = 54;
    g.move_accum = 9;
    g.tick();
    assert_eq!((g.fleet_x, g.fleet_y, g.fleet_dx), (54, 4, -1));
}

#[test]
fn the_fleet_landing_ends_the_game() {
    let mut g = Game::with_seed(80, 24, 1);
    g.fleet_y = 15;
    g.tick();
    assert!(g.game_over);
}

#[test]
fn an_alien_bullet_costs_a_life() {
    let mut g = Game::with_seed(80, 24, 1);
    g.alien_bullets = vec![(41, 20), (10, 5)];
    g.player_bullet = Some((5, 12));
    g.tick();
    assert_eq!(g.lives, 2);
    assert!(g.alien_bullets.is_empty());
    assert_eq!(g.player_bullet, None);
    assert!(!g.game_over);
}

#[test]
fn the_last_life_ends_the_game() {
    let mut g = Game::with_seed(80, 24, 1);
    g.lives = 1;
    g.alien_bullets = vec![(39, 20)];
    g.tick();
    assert_eq!(g.lives, 0);
    assert!(g.game_over);
}

#[test]
fn alien_bullets_fall_and_leave() {
    let mut g = Game::with_seed(80, 24, 1);
    g.alien_bullets = vec![(10, 5), (10, 23), (27, 16)];
    g.tick();
    assert_eq!(g.alien_bullets, vec![(10, 6)]);
    assert_eq!(g.shields[0][0][0], 3);
}

#[test]
fn the_fleet_fires_from_a_bottom_alien() {
    let mut g = Game::with_seed(80, 24, 1234);
    g.alien_fire_accum = 22;
    g.tick();
    assert_eq!(g.alien_fire_accum, 0);
    let s = 1234u64
        .wrapping_mul(6_364_136_223_846_793_005)
        .wrapping_add(1_442_695_040_888_963_407);
    assert_eq!(g.rng, s);
    let col = ((s >> 33) % 5) as i32;
    // fired from the bottom row at (28 + 6 col, 9), one row below, then moved one row
    assert_eq!(g.alien_bullets, vec![(28 + 6 * col, 11)]);
}

#[test]
fn explosions_fade() {
    let mut g = Game::with_seed(80, 24, 1);
    g.explosions = vec![Explosion { x: 1, y: 1, ticks: 1 }, Explosion { x: 2, y: 2, ticks: 3 }];
    g.tick();
    assert_eq!(g.explosions, vec![Explosion { x: 2, y: 2, ticks: 2 }]);
}

#[test]
fn invaders_frozen_while_paused() {
    let mut g = Game::with_seed(80, 24, 1);
    assert_eq!(g.handle_key(Key::Char('p'), 80, 24), Flow::Continue);
    assert!(g.paused);
    g.shoot();
    g.tick();
    assert_eq!(g.player_bullet, Some((40, 20)));
    assert_eq!(g.move_accum, 0);
}

#[test]
fn invaders_keys() {
    let mut g = Game::with_seed(80, 24, 1);
    assert_eq!(g.handle_key(Key::Left, 80, 24), Flow::Continue);
    assert_eq!(g.player_x, 38);
    assert_eq!(g.handle_key(Key::Right, 80, 24), Flow::Continue);
    assert_eq!(g.player_x, 40);
    assert_eq!(g.handle_key(Key::Char(' '), 80, 24), Flow::Continue);
    assert_eq!(g.player_bullet, Some((40, 20)));
    assert_eq!(g.handle_key(Key::Enter, 80, 24), Flow::Continue);
    assert_eq!(g.level, 1);
    g.score = 90;
    assert_eq!(g.handle_key(Key::Char('r'), 100, 30), Flow::Continue);
    assert_eq!((g.cols, g.rows, g.score), (100, 30, 0));
    assert_eq!(g.handle_key(Key::Char('q'), 80, 24), Flow::Quit);
    assert_eq!(g.handle_key(Key::Esc, 80, 24), Flow::Quit);
}

#[test]
fn resizing_keeps_the_game() {
    let mut g = Game::with_seed(80, 24, 1);
    g.score = 50;
    g.resize(100, 40);
    assert_eq!((g.cols, g.rows, g.score), (100, 40, 50));
    assert_eq!(g.player_y(), 37);
}

#[test]
fn a_tick_never_mends_shields_or_returns_lives() {
    let mut g = Game::with_seed(80, 24, 31);
    g.alien_bullets = vec![(27, 16), (40, 20), (50, 5)];
    g.player_bullet = Some((38, 19));
    let mut best = g.score;
    let mut lives = g.lives;
    let mut shields = g.shields;
    for _ in 0..200 {
        if g.game_over || g.cleared {
            break;
        }
        g.tick();
        assert!(g.score >= best);
        assert!(g.lives <= lives);
        for k in 0..3 {
            for r in 0..2 {
                for c in 0..6 {
                    assert!(g.shields[k][r][c] <= shields[k][r][c]);
                }
            }
        }
        best = g.score;
        lives = g.lives;
        shields = g.shields;
    }
}

#[test]
fn ship_moves_two_columns_per_key() {
    let mut g = Game::with_seed(10, 24, 1);
    // on a narrow screen the right bound, column 7, wins
    assert_eq!(g.player_x, 5);
    g.handle_key(Key::Right, 10, 24);
    assert_eq!(g.player_x, 7);
    g.handle_key(Key::Right, 10, 24);
    assert_eq!(g.player_x, 7);
    g.handle_key(Key::Left, 10, 24);
    g.handle_key(Key::Left, 10, 24);
    g.handle_key(Key::Left, 10, 24);
    assert_eq!(g.player_x, 2);
}

#[test]
fn clock_seeded_game_starts_like_a_seeded_one() {
    let g = Game::new(80, 24);
    assert_eq!((g.fleet_x, g.fleet_y, g.fleet_dx), (28, 3, 1));
    assert_eq!((g.move_accum, g.move_interval, g.alien_fire_accum), (0, 10, 0));
    assert_eq!(g.player_x, 40);
    assert!(g.player_bullet.is_none() && g.alien_bullets.is_empty() && g.explosions.is_empty());
    assert!(g.alive.iter().flatten().all(|&a| a));
    assert!(g.shields.iter().flatten().flatten().all(|&hp| hp == 4));
    assert!(g.rng < 1_000_000_000);
}

#[test]
fn shields_far_away_are_missed() {
    let mut g = Game::with_seed(80, 24, 1);
    assert!(!g.damage_shield(i32::MIN + 100, 17));
    assert!(!g.damage_shield(i32::MAX - 100, i32::MIN + 100));
    assert!(g.shields.iter().flatten().flatten().all(|&hp| hp == 4));
}

#[test]
fn space_on_a_cleared_screen_starts_the_next_level() {
    let mut g = Game::with_seed(80, 24, 5);
    g.alive = [[false; 5]; 3];
    g.cleared = true;
    g.score = 120;
    g.lives = 2;
    g.fleet_x = 3;
    g.fleet_y = 14;
    g.fleet_dx = -1;
    g.move_accum = 4;
    g.player_bullet = Some((10, 10));
    g.shields[0][0][0] = 1;
    assert_eq!(g.handle_key(Key::Char(' '), 80, 24), Flow::Continue);
    assert_eq!(g.level, 2);
    assert!(!g.cleared);
    assert_eq!(g.alive_count(), 15);
    assert_eq!((g.fleet_x, g.fleet_y, g.fleet_dx), (28, 3, 1));
    assert_eq!((g.move_interval, g.move_accum), (9, 0));
    assert_eq!(g.player_bullet, None);
    assert!(g.alien_bullets.is_empty() && g.explosions.is_empty());
    assert_eq!((g.score, g.lives), (120, 2));
    assert_eq!(g.shields[0][0][0], 1);
    assert_eq!(g.rng, 5);
}
