use paws_games::keys::{Flow, Key};
use paws_games::snake::{field_for, Dir, Game};

fn body(g: &Game) -> Vec<(i32, i32)> {
    g.snake.iter().copied().collect()
}

#[test]
fn opposites() {
    assert_eq!(Dir::Up.opposite(), Dir::Down);
    assert_eq!(Dir::Down.opposite(), Dir::Up);
    assert_eq!(Dir::Left.opposite(), Dir::Right);
    assert_eq!(Dir::Right.opposite(), Dir::Left);
}

#[test]
fn field_from_terminal_size() {
    assert_eq!(field_for(80, 24), (80, 23));
    assert_eq!(field_for(5, 3), (10, 5));
    assert_eq!(field_for(10, 6), (10, 5));
    assert_eq!(field_for(0, 0), (10, 5));
}

#[test]
fn snake_start_layout() {
    let g = Game::with_seed(20, 10, 77);
    assert_eq!(body(&g), vec![(10, 5), (9, 5), (8, 5)]);
    assert_eq!(g.dir, Dir::Right);
    assert!(g.dir_queue.is_empty());
    assert_eq!(g.score, 0);
    assert!(!g.dead);
    assert!(!body(&g).contains(&g.food));
    assert!(g.food.0 >= 0 && g.food.0 < 20 && g.food.1 >= 0 && g.food.1 < 10);
}

#[test]
fn food_is_drawn_from_the_generator() {
    let seed = 77u64;
    let g = Game::with_seed(20, 10, seed);
    let mut s = seed;
    let mut step = || {
        s = s
            .wrapping_mul(6_364_136_223_846_793_005)
            .wrapping_add(1_442_695_040_888_963_407);
        s >> 33
    };
    let snake = [(10, 5), (9, 5), (8, 5)];
    let food = loop {
        let x = (step() % 20) as i32;
        let y = (step() % 10) as i32;
        if !snake.contains(&(x, y)) {
            break (x, y);
        }
    };
    assert_eq!(g.food, food);
    assert_eq!(g.rng, s);
}

#[test]
fn clock_seeded_game() {
    let g = Game::new(30, 12);
    assert_eq!(body(&g), vec![(15, 6), (14, 6), (13, 6)]);
    assert!(!body(&g).contains(&g.food));
}

#[test]
fn the_snake_moves_forward() {
    let mut g = Game::with_seed(20, 10, 1);
    g.food = (0, 0);
    g.tick();
    assert_eq!(body(&g), vec![(11, 5), (10, 5), (9, 5)]);
    assert_eq!(g.score, 0);
    assert!(!g.dead);
}

#[test]
fn eating_grows_and_scores() {
    let mut g = Game::with_seed(20, 10, 1);
    g.food = (11, 5);
    g.tick();
    assert_eq!(body(&g), vec![(11, 5), (10, 5), (9, 5), (8, 5)]);
    assert_eq!(g.score, 10);
    assert!(!body(&g).contains(&g.food));
}

#[test]
fn leaving_the_field_kills() {
    let mut g = Game::with_seed(12, 6, 1);
    g.food = (0, 0);
    // head at (6, 3): six steps right reach column 12, outside
    for _ in 0..5 {
        g.tick();
        assert!(!g.dead);
    }
    let before = body(&g);
    g.tick();
    assert!(g.dead);
    assert_eq!(body(&g), before);
    g.tick();
    assert_eq!(body(&g), before);
}

#[test]
fn reversing_is_ignored() {
    let mut g = Game::with_seed(20, 10, 1);
    g.queue_dir(Dir::Left);
    assert!(g.dir_queue.is_empty());
    g.queue_dir(Dir::Right);
    assert!(g.dir_queue.is_empty());
    g.queue_dir(Dir::Up);
    g.queue_dir(Dir::Down);
    assert_eq!(g.dir_queue.iter().copied().collect::<Vec<_>>(), vec![Dir::Up]);
    g.queue_dir(Dir::Left);
    g.queue_dir(Dir::Down);
    assert_eq!(g.dir_queue.iter().copied().collect::<Vec<_>>(), vec![Dir::Up, Dir::Left]);
}

#[test]
fn queued_turns_are_taken_one_per_tick() {
    let mut g = Game::with_seed(20, 10, 1);
    g.food = (0, 0);
    g.queue_dir(Dir::Up);
    g.queue_dir(Dir::Left);
    g.tick();
    assert_eq!(g.dir, Dir::Up);
    assert_eq!(body(&g)[0], (10, 4));
    g.tick();
    assert_eq!(g.dir, Dir::Left);
    assert_eq!(body(&g)[0], (9, 4));
}

#[test]
fn never_turns_back_on_itself() {
    let mut g = Game::with_seed(20, 10, 1);
    g.food = (0, 0);
    g.dir_queue.push_back(Dir::Left);
    g.tick();
    assert_eq!(g.dir, Dir::Right);
    assert_eq!(body(&g)[0], (11, 5));
}

#[test]
fn running_into_the_body_kills() {
    let mut g = Game::with_seed(20, 10, 1);
    g.score = 20;
    g.snake.clear();
    for p in [(5, 5), (6, 5), (6, 6), (5, 6), (4, 6)] {
        g.snake.push_back(p);
    }
    g.dir = Dir::Down;
    g.food = (0, 0);
    g.tick();
    assert!(g.dead);
}

#[test]
fn the_tail_moves_out_of_the_way() {
    let mut g = Game::with_seed(20, 10, 1);
    g.score = 10;
    g.snake.clear();
    for p in [(5, 5), (6, 5), (6, 6), (5, 6)] {
        g.snake.push_back(p);
    }
    g.dir = Dir::Down;
    g.food = (0, 0);
    g.tick();
    assert!(!g.dead);
    assert_eq!(body(&g), vec![(5, 6), (5, 5), (6, 5), (6, 6)]);
}

#[test]
fn speed_by_score() {
    let mut g = Game::with_seed(20, 10, 1);
    let table = [(0u32, 150u64), (40, 150), (50, 140), (200, 110), (450, 60), (1000, 60)];
    for (score, ms) in table {
        g.score = score;
        assert_eq!(g.tick_ms(), ms);
    }
}

#[test]
fn snake_keys() {
    let mut g = Game::with_seed(20, 10, 1);
    assert_eq!(g.handle_key(Key::Up), Flow::Continue);
    assert_eq!(g.dir_queue.iter().copied().collect::<Vec<_>>(), vec![Dir::Up]);
    assert_eq!(g.handle_key(Key::Char('x')), Flow::Continue);
    g.food = (0, 0);
    g.tick();
    g.tick();
    assert_eq!(g.handle_key(Key::Char('r')), Flow::Continue);
    assert_eq!(body(&g), vec![(10, 5), (9, 5), (8, 5)]);
    assert_eq!(g.dir, Dir::Right);
    assert_eq!(g.handle_key(Key::Char('q')), Flow::Quit);
    assert_eq!(g.handle_key(Key::Esc), Flow::Quit);
}

#[test]
fn clock_seeded_food_is_on_the_field() {
    for _ in 0..20 {
        let g = Game::new(12, 6);
        assert!(g.food.0 >= 0 && g.food.0 < 12 && g.food.1 >= 0 && g.food.1 < 6);
        assert!(!body(&g).contains(&g.food) || g.food == (0, 0));
    }
}
