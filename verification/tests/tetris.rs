use paws_games::keys::{Flow, Key};
use paws_games::rng::lcg_step;
use paws_games::tetris::{cell, piece_color, Game, PIECE_COUNT, WELL_H, WELL_W};
use paws_games::tint::Tint;

fn piece_of(state: u64) -> usize {
    ((state >> 33) % 7) as usize
}

/// A game with the I piece falling, unrotated, at column 3, row 0.
fn with_i_piece(seed: u64) -> Game {
    let mut g = Game::with_seed(seed);
    g.cur = 0;
    g.rot = 0;
    g.cx = 3;
    g.cy = 0;
    g
}

#[test]
fn new_game_draws_two_pieces() {
    let seed = 2024u64;
    let g = Game::with_seed(seed);
    let r1 = lcg_step(seed);
    let r2 = lcg_step(r1);
    assert_eq!(g.cur, piece_of(r1));
    assert_eq!(g.next, piece_of(r2));
    assert_eq!(g.rng, r2);
    assert_eq!((g.cx, g.cy, g.rot), (3, 0, 0));
    assert_eq!((g.score, g.lines, g.level), (0, 0, 1));
    assert!(!g.game_over && !g.paused);
    for row in g.well.iter() {
        for c in row.iter() {
            assert!(c.is_none());
        }
    }
}

#[test]
fn clock_seeded_game_starts_fresh() {
    let g = Game::new();
    assert!(g.cur < PIECE_COUNT && g.next < PIECE_COUNT);
    assert_eq!((g.score, g.lines, g.level), (0, 0, 1));
}

#[test]
fn shapes_of_the_pieces() {
    // I lies in the second row of its box, turns into the third column.
    for c in 0..4 {
        assert!(cell(0, 0, 1, c));
        assert!(!cell(0, 0, 0, c));
        assert!(cell(0, 1, c, 2));
    }
    // O fills the middle four cells in every rotation.
    for rot in 0..4 {
        let filled: Vec<(usize, usize)> = (0..4)
            .flat_map(|r| (0..4).map(move |c| (r, c)))
            .filter(|&(r, c)| cell(1, rot, r, c))
            .collect();
        assert_eq!(filled, vec![(1, 1), (1, 2), (2, 1), (2, 2)]);
    }
    // every piece has four cells in every rotation
    for p in 0..PIECE_COUNT {
        for rot in 0..4 {
            let n = (0..4)
                .flat_map(|r| (0..4).map(move |c| (r, c)))
                .filter(|&(r, c)| cell(p, rot, r, c))
                .count();
            assert_eq!(n, 4, "piece {} rotation {}", p, rot);
        }
    }
    // T points up: one cell above the middle of three.
    assert!(cell(2, 0, 1, 1));
    assert!(cell(2, 0, 2, 0) && cell(2, 0, 2, 1) && cell(2, 0, 2, 2));
}

#[test]
fn piece_colours() {
    assert_eq!(piece_color(0), Tint::Cyan);
    assert_eq!(piece_color(1), Tint::Yellow);
    assert_eq!(piece_color(2), Tint::Magenta);
    assert_eq!(piece_color(3), Tint::Green);
    assert_eq!(piece_color(4), Tint::Red);
    assert_eq!(piece_color(5), Tint::Blue);
    assert_eq!(piece_color(6), Tint::Rgb(255, 165, 0));
}

#[test]
fn moves_stop_at_the_walls() {
    let mut g = with_i_piece(1);
    assert!(g.move_piece(-1, 0));
    assert!(g.move_piece(-1, 0));
    assert!(g.move_piece(-1, 0));
    assert_eq!(g.cx, 0);
    assert!(!g.move_piece(-1, 0));
    assert_eq!(g.cx, 0);
    for _ in 0..6 {
        assert!(g.move_piece(1, 0));
    }
    assert_eq!(g.cx, (WELL_W - 4) as i32);
    assert!(!g.move_piece(1, 0));
}

#[test]
fn shift_back_restores_the_piece() {
    let mut g = with_i_piece(1);
    assert!(g.move_piece(-1, 0));
    assert!(g.move_piece(1, 0));
    assert_eq!((g.cx, g.cy, g.rot), (3, 0, 0));
    assert!(g.move_piece(0, 1));
    assert!(g.move_piece(0, -1));
    assert_eq!((g.cx, g.cy, g.rot), (3, 0, 0));
}

#[test]
fn turn_back_restores_the_piece() {
    let mut g = with_i_piece(1);
    g.rotate(1);
    assert_eq!(g.rot, 1);
    assert_eq!(g.cx, 3);
    g.rotate(-1);
    assert_eq!((g.cx, g.cy, g.rot), (3, 0, 0));
    g.rotate(-1);
    assert_eq!(g.rot, 3);
}

#[test]
fn rotation_kicks_off_the_wall() {
    // The upright I at rotation 1 sits in column cx + 2; at the right wall that is
    // column 9, and turning back to the flat I needs a kick left.
    let mut g = with_i_piece(1);
    g.rot = 1;
    g.cx = 7;
    g.cy = 2;
    g.rotate(1);
    // rotation 2 lies in row 2 of the box, columns cx..cx+3: at cx = 7 it would
    // reach column 10; one column left (cx = 6) fits.
    assert_eq!(g.rot, 2);
    assert_eq!(g.cx, 6);
}

#[test]
fn ghost_and_hard_drop_on_an_empty_well() {
    let mut g = with_i_piece(5);
    assert_eq!(g.ghost_y(), (WELL_H - 2) as i32);
    let next = g.next;
    let rng = g.rng;
    g.hard_drop();
    assert_eq!(g.score, 2 * 18);
    assert_eq!(g.lines, 0);
    for x in 3..7 {
        assert_eq!(g.well[19][x], Some(Tint::Cyan));
    }
    assert!(g.well[19][2].is_none() && g.well[19][7].is_none());
    assert_eq!(g.cur, next);
    assert_eq!(g.rng, lcg_step(rng));
    assert_eq!(g.next, piece_of(g.rng));
    assert_eq!((g.cx, g.cy, g.rot), (3, 0, 0));
}

#[test]
fn a_full_row_clears_and_scores() {
    let mut g = with_i_piece(5);
    for x in 0..6 {
        g.well[19][x] = Some(Tint::Red);
    }
    g.well[18][0] = Some(Tint::Blue);
    g.cx = 6;
    g.hard_drop();
    assert_eq!(g.lines, 1);
    assert_eq!(g.score, 36 + 100);
    assert_eq!(g.level, 1);
    // the row above fell into the cleared row's place
    assert_eq!(g.well[19][0], Some(Tint::Blue));
    for x in 1..WELL_W {
        assert!(g.well[19][x].is_none());
    }
}

#[test]
fn clearing_twice_clears_nothing_more() {
    let mut g = Game::with_seed(3);
    for x in 0..WELL_W {
        g.well[19][x] = Some(Tint::Green);
        g.well[17][x] = Some(Tint::Green);
    }
    g.well[18][4] = Some(Tint::Red);
    g.clear_lines();
    assert_eq!(g.lines, 2);
    assert_eq!(g.score, 300);
    assert_eq!(g.well[19][4], Some(Tint::Red));
    let after_once = g.well;
    g.clear_lines();
    assert_eq!(g.lines, 2);
    assert_eq!(g.score, 300);
    assert_eq!(g.well, after_once);
}

#[test]
fn points_per_rows_cleared() {
    let expected = [(1u32, 100u32), (2, 300), (3, 500), (4, 800)];
    for (n, pts) in expected {
        let mut g = Game::with_seed(3);
        g.level = 2;
        for y in 0..n as usize {
            for x in 0..WELL_W {
                g.well[19 - y][x] = Some(Tint::Green);
            }
        }
        g.clear_lines();
        assert_eq!(g.score, pts * 2);
        assert_eq!(g.lines, n);
        assert_eq!(g.level, 1);
    }
}

#[test]
fn level_follows_lines() {
    let mut g = Game::with_seed(3);
    g.lines = 9;
    for x in 0..WELL_W {
        g.well[19][x] = Some(Tint::Green);
    }
    g.clear_lines();
    assert_eq!(g.lines, 10);
    assert_eq!(g.level, 2);
}

#[test]
fn drop_interval_by_level() {
    let mut g = Game::with_seed(1);
    let table = [(1u32, 1000u64), (2, 920), (5, 680), (12, 120), (13, 50), (40, 50)];
    for (level, ms) in table {
        g.level = level;
        assert_eq!(g.drop_interval(), ms);
    }
}

#[test]
fn gravity_steps_once_per_interval() {
    let mut g = with_i_piece(1);
    g.tick(999);
    assert_eq!(g.cy, 0);
    assert_eq!(g.drop_accum, 999);
    g.tick(1);
    assert_eq!(g.cy, 1);
    assert_eq!(g.drop_accum, 0);
    g.tick(2500);
    assert_eq!(g.cy, 3);
    assert_eq!(g.drop_accum, 500);
}

#[test]
fn gravity_locks_a_landed_piece() {
    let mut g = with_i_piece(1);
    g.cy = 18;
    let next = g.next;
    g.tick(1000);
    assert_eq!(g.cur, next);
    assert_eq!(g.cy, 0);
    assert_eq!(g.drop_accum, 0);
    assert_eq!(g.well[19][3], Some(Tint::Cyan));
}

#[test]
fn nothing_moves_while_paused() {
    let mut g = with_i_piece(1);
    g.paused = true;
    g.tick(5000);
    assert_eq!(g.cy, 0);
    assert_eq!(g.drop_accum, 0);
}

#[test]
fn spawning_onto_settled_cells_ends_the_game() {
    let mut g = with_i_piece(1);
    g.well[1][4] = Some(Tint::Red);
    g.spawn();
    assert!(g.game_over);
}

#[test]
fn keys_drive_the_piece() {
    let mut g = with_i_piece(1);
    assert_eq!(g.handle_key(Key::Left), Flow::Continue);
    assert_eq!(g.cx, 2);
    assert_eq!(g.handle_key(Key::Right), Flow::Continue);
    assert_eq!(g.cx, 3);
    assert_eq!(g.handle_key(Key::Down), Flow::Continue);
    assert_eq!((g.cy, g.score), (1, 1));
    assert_eq!(g.handle_key(Key::Up), Flow::Continue);
    assert_eq!(g.rot, 1);
    assert_eq!(g.handle_key(Key::Char('z')), Flow::Continue);
    assert_eq!(g.rot, 0);
    assert_eq!(g.handle_key(Key::Char('x')), Flow::Continue);
    assert_eq!(g.rot, 1);
    assert_eq!(g.handle_key(Key::Char('p')), Flow::Continue);
    assert!(g.paused);
    assert_eq!(g.handle_key(Key::Left), Flow::Continue);
    assert_eq!(g.cx, 3);
    assert_eq!(g.handle_key(Key::Char('p')), Flow::Continue);
    assert!(!g.paused);
    assert_eq!(g.handle_key(Key::Char('q')), Flow::Quit);
}

#[test]
fn restart_after_game_over() {
    let mut g = with_i_piece(1);
    g.game_over = true;
    g.score = 500;
    assert_eq!(g.handle_key(Key::Left), Flow::Continue);
    assert_eq!(g.score, 500);
    assert_eq!(g.handle_key(Key::Char('r')), Flow::Continue);
    assert!(!g.game_over);
    assert_eq!(g.score, 0);
}
