use paws_games::keys::{Flow, Key};
use paws_games::rng::lcg_step;
use paws_games::tint::Tint;
use paws_games::two_zero_four_eight::{
    line_fits, slide_row, slide_row_scored, slide_row_wide, tile_color, Game,
};

fn game(board: [[u32; 4]; 4], seed: u64) -> Game {
    let mut g = Game::with_seed(0, seed);
    g.board = board;
    g
}

fn tiles(b: &[[u32; 4]; 4]) -> u32 {
    b.iter().flatten().sum()
}

fn filled(b: &[[u32; 4]; 4]) -> usize {
    b.iter().flatten().filter(|&&v| v != 0).count()
}

#[test]
fn slide_packs_and_merges() {
    assert_eq!(slide_row([0, 2, 0, 2]), [4, 0, 0, 0]);
    assert_eq!(slide_row([2, 2, 2, 2]), [4, 4, 0, 0]);
    assert_eq!(slide_row([2, 2, 2, 0]), [4, 2, 0, 0]);
    assert_eq!(slide_row([4, 2, 2, 0]), [4, 4, 0, 0]);
    assert_eq!(slide_row([2, 4, 8, 16]), [2, 4, 8, 16]);
    assert_eq!(slide_row([0, 0, 0, 0]), [0, 0, 0, 0]);
    assert_eq!(slide_row([8, 0, 8, 8]), [16, 8, 0, 0]);
    assert_eq!(slide_row([1024, 1024, 0, 0]), [2048, 0, 0, 0]);
}

#[test]
fn slide_keeps_the_sum_of_tiles() {
    let rows = [[2, 2, 4, 4], [0, 8, 8, 8], [2, 0, 2, 2], [16, 16, 16, 16]];
    for r in rows {
        let out = slide_row(r);
        assert_eq!(out.iter().sum::<u32>(), r.iter().sum::<u32>());
    }
}

#[test]
fn slid_rows_are_packed() {
    for r in [[0, 2, 0, 4], [2, 0, 0, 2], [0, 0, 0, 8]] {
        let out = slide_row(r);
        let n = out.iter().filter(|&&v| v != 0).count();
        assert!(out[..n].iter().all(|&v| v != 0));
        assert!(out[n..].iter().all(|&v| v == 0));
    }
}

#[test]
fn palette() {
    assert_eq!(tile_color(0), (Tint::Rgb(205, 193, 180), Tint::Rgb(119, 110, 101)));
    assert_eq!(tile_color(2), (Tint::Rgb(238, 228, 218), Tint::Rgb(119, 110, 101)));
    assert_eq!(tile_color(8), (Tint::Rgb(242, 177, 121), Tint::White));
    assert_eq!(tile_color(2048), (Tint::Rgb(237, 194, 46), Tint::White));
    assert_eq!(tile_color(4096), (Tint::Rgb(60, 58, 50), Tint::White));
    assert_eq!(tile_color(3), (Tint::Rgb(60, 58, 50), Tint::White));
}

#[test]
fn new_game_has_two_tiles() {
    let g = Game::with_seed(7, 42);
    assert_eq!(filled(&g.board), 2);
    assert!(g.board.iter().flatten().all(|&v| v == 0 || v == 2 || v == 4));
    assert_eq!(g.best, 7);
    assert_eq!(g.score, 0);
    assert!(!g.won && !g.keep_playing && !g.game_over);
    let g2 = Game::with_seed(7, 42);
    assert_eq!(g.board, g2.board);
    assert_eq!(g.rng, lcg_step(lcg_step(lcg_step(lcg_step(42)))));
    let g3 = Game::new(9);
    assert_eq!(filled(&g3.board), 2);
    assert_eq!(g3.best, 9);
}

#[test]
fn first_tile_lands_where_the_generator_says() {
    let seed = 5u64;
    let g = Game::with_seed(0, seed);
    let r1 = lcg_step(seed);
    let idx = ((r1 >> 33) as usize) % 16;
    let r2 = lcg_step(r1);
    let v = if (r2 >> 33) % 10 == 0 { 4 } else { 2 };
    let (r, c) = (idx / 4, idx % 4);
    assert_eq!(g.board[r][c], v);
}

#[test]
fn moves_slide_every_line() {
    let mut g = game([[0, 2, 0, 2], [4, 0, 0, 4], [0, 0, 0, 0], [2, 4, 8, 16]], 3);
    assert!(g.move_left());
    assert_eq!(g.board, [[4, 0, 0, 0], [8, 0, 0, 0], [0, 0, 0, 0], [2, 4, 8, 16]]);
    let mut g = game([[0, 2, 0, 2], [4, 0, 0, 4], [0, 0, 0, 0], [2, 4, 8, 16]], 3);
    assert!(g.move_right());
    assert_eq!(g.board, [[0, 0, 0, 4], [0, 0, 0, 8], [0, 0, 0, 0], [2, 4, 8, 16]]);
    let mut g = game([[2, 0, 0, 0], [2, 0, 0, 0], [4, 0, 0, 0], [0, 0, 0, 0]], 3);
    assert!(g.move_up());
    assert_eq!(g.board, [[4, 0, 0, 0], [4, 0, 0, 0], [0, 0, 0, 0], [0, 0, 0, 0]]);
    let mut g = game([[2, 0, 0, 0], [2, 0, 0, 0], [4, 0, 0, 0], [0, 0, 0, 0]], 3);
    assert!(g.move_down());
    assert_eq!(g.board, [[0, 0, 0, 0], [0, 0, 0, 0], [4, 0, 0, 0], [4, 0, 0, 0]]);
}

#[test]
fn a_move_that_changes_nothing_reports_it() {
    let mut g = game([[2, 4, 0, 0], [0, 0, 0, 0], [0, 0, 0, 0], [0, 0, 0, 0]], 3);
    assert!(!g.move_left());
    assert_eq!(g.board[0], [2, 4, 0, 0]);
}

#[test]
fn a_move_adds_one_tile_and_keeps_the_score() {
    let b = [[2, 2, 0, 0], [0, 0, 0, 0], [0, 0, 0, 4], [0, 0, 0, 0]];
    let mut g = game(b, 11);
    g.score = 30;
    g.best = 10;
    g.do_move(Key::Left);
    assert_eq!(tiles(&g.board) - tiles(&b) == 2 || tiles(&g.board) - tiles(&b) == 4, true);
    assert_eq!(filled(&g.board), 3);
    assert_eq!(g.board[0][0], 4);
    assert_eq!(g.board[2][0], 4);
    // the 2 and 2 merged into a 4: four points
    assert_eq!(g.score, 34);
    assert_eq!(g.best, 34);
}

#[test]
fn merging_scores_the_merged_tiles() {
    let mut g = game([[2, 2, 0, 0], [0, 0, 0, 0], [0, 0, 0, 0], [0, 0, 0, 0]], 0);
    g.score = 0;
    assert!(g.move_left());
    assert_eq!(g.board, [[4, 0, 0, 0], [0, 0, 0, 0], [0, 0, 0, 0], [0, 0, 0, 0]]);
    assert_eq!(g.score, 4);
    let mut g = game([[2, 2, 2, 2], [4, 4, 8, 0], [0, 0, 0, 0], [16, 0, 16, 2]], 0);
    g.score = 10;
    assert!(g.move_right());
    assert_eq!(g.board, [[0, 0, 4, 4], [0, 0, 8, 8], [0, 0, 0, 0], [0, 0, 32, 2]]);
    assert_eq!(g.score, 10 + 8 + 8 + 32);
    // a slide without a merge scores nothing
    let mut g = game([[0, 2, 0, 4], [0, 0, 0, 0], [0, 0, 0, 0], [0, 0, 0, 0]], 0);
    g.score = 7;
    assert!(g.move_left());
    assert_eq!(g.score, 7);
}

#[test]
fn a_scored_slide_gives_the_merged_sum() {
    assert_eq!(slide_row_scored([2, 2, 2, 2]), ([4, 4, 0, 0], 8));
    assert_eq!(slide_row_scored([0, 8, 8, 8]), ([16, 8, 0, 0], 16));
    assert_eq!(slide_row_scored([2, 4, 8, 16]), ([2, 4, 8, 16], 0));
    assert_eq!(slide_row_scored([0, 0, 0, 0]), ([0, 0, 0, 0], 0));
    assert_eq!(slide_row_scored([1 << 30, 1 << 30, 1 << 30, 1 << 30]), ([1 << 31, 1 << 31, 0, 0], 1 << 32));
}

#[test]
fn a_stuck_board_does_not_move() {
    let b = [[2, 4, 2, 4], [4, 2, 4, 2], [2, 4, 2, 4], [4, 2, 4, 2]];
    let mut g = game(b, 1);
    assert!(!g.can_merge());
    for key in [Key::Left, Key::Right, Key::Up, Key::Down] {
        g.do_move(key);
        assert_eq!(g.board, b);
    }
}

#[test]
fn merging_neighbours_are_found() {
    let g = game([[2, 4, 2, 4], [4, 2, 4, 2], [2, 4, 2, 4], [4, 2, 4, 4]], 1);
    assert!(g.can_merge());
    let g = game([[2, 4, 2, 4], [4, 2, 4, 2], [2, 4, 2, 4], [4, 2, 2, 8]], 1);
    assert!(g.can_merge());
    let g = game([[2, 4, 2, 4], [4, 2, 4, 2], [2, 4, 8, 4], [4, 2, 8, 2]], 1);
    assert!(g.can_merge());
}

#[test]
fn the_last_move_ends_the_game() {
    // Sliding right leaves one empty cell, at the top left, for the new tile; a 4 there
    // leaves no equal neighbours, a 2 merges with its neighbour.
    let b = [[2, 0, 8, 16], [64, 8, 16, 32], [2, 4, 8, 16], [4, 2, 4, 2]];
    let mut g = game(b, 1);
    g.do_move(Key::Right);
    assert_eq!(filled(&g.board), 16);
    assert_eq!(&g.board[0][1..], &[2, 8, 16]);
    assert_eq!(g.game_over, g.board[0][0] == 4);
    assert_eq!(g.can_merge(), g.board[0][0] == 2);
}

#[test]
fn reaching_2048_wins_and_waits() {
    let b = [[1024, 1024, 0, 0], [0, 0, 0, 0], [0, 0, 0, 0], [0, 0, 0, 0]];
    let mut g = game(b, 2);
    g.do_move(Key::Left);
    assert_eq!(g.board[0][0], 2048);
    assert!(g.won);
    let frozen = g.board;
    g.do_move(Key::Right);
    assert_eq!(g.board, frozen);
    assert_eq!(g.handle_key(Key::Char('c')), Flow::Continue);
    assert!(g.keep_playing);
    g.do_move(Key::Right);
    assert!(g.board[0][2] == 2048 || g.board[0][3] == 2048);
}

#[test]
fn tiles_keys() {
    let mut g = Game::with_seed(5, 9);
    assert_eq!(g.handle_key(Key::Char('q')), Flow::Quit);
    assert_eq!(g.handle_key(Key::Esc), Flow::Quit);
    g.score = 100;
    assert_eq!(g.handle_key(Key::Char('x')), Flow::Continue);
    assert_eq!(g.score, 100);
    assert_eq!(g.handle_key(Key::Char('r')), Flow::Continue);
    assert_eq!(g.score, 0);
    assert_eq!(g.best, 5);
    assert_eq!(filled(&g.board), 2);
}

#[test]
fn wide_slides_and_fitting_lines() {
    let big = 1u32 << 31;
    assert_eq!(slide_row_wide([big, big, 0, 2]), ([1u64 << 32, 2, 0, 0], 1u64 << 32));
    assert!(!line_fits([big, big, 0, 2]));
    assert!(line_fits([big, 1 << 30, 1 << 30, 0]));
    assert!(line_fits([u32::MAX, u32::MAX - 1, 0, 0]));
    assert_eq!(slide_row_wide([4, 4, 4, 0]), ([8, 4, 0, 0], 8));
}

#[test]
fn room_for_a_move() {
    let big = 1u32 << 31;
    let mut g = game([[big, big, 0, 0], [0, 0, 0, 0], [0, 0, 0, 0], [2, 0, 0, 0]], 0);
    assert!(!g.move_fits_now(Key::Left));
    assert!(g.move_fits_now(Key::Up));
    assert!(g.move_fits_now(Key::Char('x')));
    g.board = [[2, 2, 0, 0], [0, 0, 0, 0], [0, 0, 0, 0], [0, 0, 0, 0]];
    g.score = u32::MAX - 4;
    assert!(g.move_fits_now(Key::Left));
    g.score = u32::MAX - 3;
    assert!(!g.move_fits_now(Key::Left));
    assert!(g.move_fits_now(Key::Up));
    g.game_over = true;
    assert!(g.move_fits_now(Key::Left));
}
