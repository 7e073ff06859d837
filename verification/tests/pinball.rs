use paws_games::pinball::{rank_name, Table, BUMPER_COUNT, RANK_COUNT};

#[test]
fn ranks() {
    let names = [
        "Cadet", "Ensign", "Lieutenant", "Captain", "Lt Commander", "Commander", "Commodore",
        "Admiral", "Fleet Admiral",
    ];
    for r in 0..RANK_COUNT {
        assert_eq!(rank_name(r), names[r]);
    }
}

#[test]
fn new_table() {
    let t = Table::new();
    assert_eq!((t.score, t.balls, t.multiplier, t.rank), (0, 3, 1, 0));
    assert!(!t.launched && !t.paused && !t.over && !t.mission_done);
    assert_eq!(t.lit, vec![false; BUMPER_COUNT]);
    assert_eq!(t.hit_timer, vec![0; BUMPER_COUNT]);
    assert_eq!(t.mission_text(), "MISSION: Light all bumpers");
}

#[test]
fn plunger() {
    let mut t = Table::new();
    assert_eq!(t.release_plunger(), None);
    for _ in 0..4 {
        t.launch();
    }
    assert_eq!(t.plunger_power, 8);
    t.launch();
    t.launch();
    assert_eq!(t.plunger_power, 10);
    assert_eq!(t.release_plunger(), Some(10));
    assert!(t.launched);
    assert_eq!(t.plunger_power, 0);
    t.launch();
    assert_eq!(t.plunger_power, 0);
    assert_eq!(t.release_plunger(), None);
}

#[test]
fn draining_the_balls() {
    let mut t = Table::new();
    t.launched = true;
    t.drain();
    assert_eq!(t.balls, 2);
    assert!(!t.launched && !t.over);
    t.drain();
    t.drain();
    assert_eq!(t.balls, 0);
    assert!(t.over);
}

#[test]
fn bumpers_score_and_flash() {
    let mut t = Table::new();
    t.multiplier = 3;
    t.bumper_hit(2);
    assert_eq!(t.score, 1500);
    assert!(t.lit[2]);
    assert_eq!(t.hit_timer[2], 6);
    for k in 1..=6 {
        t.decay_flashes();
        assert_eq!(t.hit_timer[2], 6 - k);
    }
    t.decay_flashes();
    assert_eq!(t.hit_timer[2], 0);
    assert!(t.lit[2]);
}

#[test]
fn lighting_every_bumper_completes_the_mission() {
    let mut t = Table::new();
    for i in 0..BUMPER_COUNT - 1 {
        t.bumper_hit(i);
    }
    t.check_mission_complete();
    assert!(!t.mission_done);
    assert_eq!(t.score, 500 * 6);
    t.bumper_hit(BUMPER_COUNT - 1);
    t.check_mission_complete();
    assert!(t.mission_done);
    assert_eq!(t.score, 500 * 7 + 5000);
    assert_eq!(t.multiplier, 2);
    assert_eq!(t.rank, 1);
    assert_eq!(t.lit, vec![false; BUMPER_COUNT]);
    assert_eq!(t.mission_text(), "MISSION COMPLETE! Light all bumpers");
}

#[test]
fn multiplier_and_rank_top_out() {
    let mut t = Table::new();
    t.multiplier = 9;
    t.rank = RANK_COUNT - 1;
    t.lit = vec![true; BUMPER_COUNT];
    t.check_mission_complete();
    assert_eq!(t.multiplier, 9);
    assert_eq!(t.rank, RANK_COUNT - 1);
    assert_eq!(t.score, 45000);
}

#[test]
fn the_plunger_keeps_the_rest_of_the_table() {
    let mut t = Table::new();
    t.score = 700;
    t.rank = 2;
    t.launch();
    assert_eq!((t.score, t.rank, t.balls, t.multiplier), (700, 2, 3, 1));
    t.release_plunger();
    assert_eq!((t.score, t.rank, t.balls, t.multiplier), (700, 2, 3, 1));
    t.reset_ball();
    assert!(!t.launched);
    assert_eq!(t.plunger_power, 0);
    assert_eq!(t.score, 700);
}
