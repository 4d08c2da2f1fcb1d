use donkey_bas::game::{
    brushes_past_car, crossing_slots, overlaps_car, seed_from, seed_now, Contact, Game, GameEvent, Lane, ObstaclePattern,
    COUNTDOWN_TOTAL, INVULNERABLE_FRAMES, STARTING_LIVES,
};

fn passing() -> Contact {
    Contact { collides: false, near_miss: false, passed: true }
}

fn hitting() -> Contact {
    Contact { collides: true, near_miss: false, passed: false }
}

#[test]
fn spawned_lanes_do_not_follow_a_forced_alternating_pattern() {
    let mut game = Game::new(0x1234_5678);
    let lanes: Vec<Lane> = (0..32)
        .map(|_| {
            game.spawn_donkey();
            game.donkey_lane
        })
        .collect();

    assert!(lanes.windows(2).any(|pair| pair[0] == pair[1]));
    assert!(lanes.contains(&Lane::Left));
    assert!(lanes.contains(&Lane::Right));
}

#[test]
fn crossing_obstacles_remain_uncommon() {
    assert_eq!(crossing_slots(7), 0);
    assert_eq!(crossing_slots(8), 1);
    assert_eq!(crossing_slots(40), 2);
    assert_eq!(crossing_slots(1_000), 2);
}

#[test]
fn passing_an_obstacle_updates_the_high_score() {
    let mut game = Game::new(1);
    game.started = true;
    game.score = 7;
    game.best_score = 7;
    game.obstacle_pattern = ObstaclePattern::Straight;

    assert!(matches!(game.update(passing()), Some(GameEvent::Score)));
    assert_eq!(game.best_score, 8);
    assert!(game.new_high_score);
}

#[test]
fn collisions_consume_lives_before_ending_the_run() {
    let mut game = Game::new(1);
    game.started = true;
    game.donkey_lane = Lane::Left;
    game.obstacle_pattern = ObstaclePattern::Straight;

    assert!(matches!(game.update(hitting()), Some(GameEvent::Hit)));
    assert_eq!(game.lives, 2);
    assert!(!game.over);

    game.lives = 1;
    game.invulnerable_until = 0;
    game.donkey_lane = Lane::Left;
    game.obstacle_pattern = ObstaclePattern::Straight;
    assert!(matches!(game.update(hitting()), Some(GameEvent::Crash)));
    assert!(game.over);
}

#[test]
fn near_misses_build_combo_and_award_bonus_points() {
    let mut game = Game::new(1);
    game.started = true;
    game.near_miss_qualified = true;
    game.obstacle_pattern = ObstaclePattern::Straight;

    assert!(matches!(game.update(passing()), Some(GameEvent::NearMiss)));
    assert_eq!(game.dodges, 1);
    assert_eq!(game.combo, 1);
    assert_eq!(game.score, 2);
}

#[test]
fn countdown_holds_traffic_and_emits_timed_cues() {
    let mut game = Game::new(1);
    game.start();
    assert!(!game.traffic_moves());

    assert!(game.update(Contact::clear_road()).is_none());
    assert!(!game.traffic_moves());
    assert_eq!(game.countdown_ticks, COUNTDOWN_TOTAL - 1);

    game.countdown_ticks = 151;
    assert!(matches!(game.update(Contact::clear_road()), Some(GameEvent::Countdown)));
    game.countdown_ticks = 31;
    assert!(matches!(game.update(Contact::clear_road()), Some(GameEvent::Go)));
    assert!(!game.traffic_moves());
}

#[test]
fn pause_freezes_gameplay_state() {
    let mut game = Game::new(1);
    game.start();
    game.countdown_ticks = 0;
    game.paused = true;
    let starting_lane = game.donkey_lane;
    let starting_rng = game.rng;
    assert!(!game.traffic_moves());

    assert!(game.update(passing()).is_none());
    assert_eq!(game.donkey_lane, starting_lane);
    assert_eq!(game.rng, starting_rng);
    assert_eq!(game.score, 0);
    assert_eq!(game.dodges, 0);
    assert!(game.update(hitting()).is_none());
    assert_eq!(game.lives, STARTING_LIVES);
}

#[test]
fn a_fresh_run_has_three_lives_and_waits_for_the_start() {
    let game = Game::new(0);
    assert_eq!(game.lives, 3);
    assert_eq!(game.rng, 1);
    assert!(!game.started);
    assert!(game.sound_on);
    assert_eq!(game.level(), 1);
    assert!(!game.traffic_moves());
    assert!(!game.counting_down());
}

#[test]
fn the_level_rises_every_five_dodges() {
    let mut game = Game::new(1);
    game.dodges = 4;
    assert_eq!(game.level(), 1);
    game.dodges = 5;
    assert_eq!(game.level(), 2);
    game.dodges = 20;
    assert_eq!(game.level(), 5);
    game.dodges = 1_000;
    assert_eq!(game.level(), 201);
}

#[test]
fn the_generator_is_xorshift() {
    let mut game = Game::new(1);
    game.spawn_donkey();
    let mut x: u32 = 1;
    x ^= x << 13;
    x ^= x >> 17;
    x ^= x << 5;
    assert_eq!(game.rng, x);
    assert_eq!(x, 270_369);
    assert_eq!(game.donkey_lane, Lane::Left);
    assert_eq!(game.obstacle_pattern, ObstaclePattern::Straight);
}

#[test]
fn crossing_obstacles_appear_only_once_slots_open() {
    let mut crossing = 0;
    let mut game = Game::new(99);
    for _ in 0..200 {
        game.spawn_donkey();
        if game.obstacle_pattern == ObstaclePattern::Crossing {
            crossing += 1;
        }
    }
    assert_eq!(crossing, 0);
    game.dodges = 40;
    for _ in 0..1200 {
        game.spawn_donkey();
        if game.obstacle_pattern == ObstaclePattern::Crossing {
            crossing += 1;
        }
    }
    assert!(crossing > 0);
    assert!(crossing < 400);
}

#[test]
fn reset_keeps_sound_clock_and_best_score() {
    let mut game = Game::new(5);
    game.sound_on = false;
    game.city_tick = 1_234;
    game.best_score = 77;
    game.score = 12;
    game.lives = 1;
    game.over = true;
    game.reset(9);
    assert!(!game.sound_on);
    assert_eq!(game.city_tick, 1_234);
    assert_eq!(game.best_score, 77);
    assert_eq!(game.score, 0);
    assert_eq!(game.lives, 3);
    assert!(!game.over);
    assert!(game.started);
    assert_eq!(game.countdown_ticks, COUNTDOWN_TOTAL);
    assert!(game.counting_down());
}

#[test]
fn a_hit_opens_a_window_of_invulnerability() {
    let mut game = Game::new(3);
    game.started = true;
    game.city_tick = 500;
    game.combo = 4;
    assert_eq!(game.update(hitting()), Some(GameEvent::Hit));
    assert_eq!(game.invulnerable_until, 500 + INVULNERABLE_FRAMES);
    assert_eq!(game.crash_started_at, 500);
    assert_eq!(game.combo, 0);
    assert_eq!(game.lives, 2);
    assert_eq!(game.update(hitting()), None);
    assert_eq!(game.lives, 2);
    game.city_tick = 589;
    assert_eq!(game.update(hitting()), None);
    game.city_tick = 590;
    assert_eq!(game.update(hitting()), Some(GameEvent::Hit));
    assert_eq!(game.lives, 1);
}

#[test]
fn the_combo_bonus_is_capped_at_five() {
    let mut game = Game::new(3);
    game.started = true;
    game.combo = 7;
    game.score = 10;
    game.best_score = 50;
    let event = game.update(Contact { collides: false, near_miss: true, passed: true });
    assert_eq!(event, Some(GameEvent::NearMiss));
    assert_eq!(game.combo, 8);
    assert_eq!(game.score, 16);
    assert!(!game.new_high_score);
    assert_eq!(game.best_score, 50);
    let event = game.update(passing());
    assert_eq!(event, Some(GameEvent::Score));
    assert_eq!(game.combo, 0);
    assert_eq!(game.score, 17);
}

#[test]
fn a_near_miss_is_remembered_until_the_obstacle_leaves() {
    let mut game = Game::new(3);
    game.started = true;
    let brush = Contact { collides: false, near_miss: true, passed: false };
    assert_eq!(game.update(brush), None);
    assert!(game.near_miss_qualified);
    assert_eq!(game.update(Contact::clear_road()), None);
    assert!(game.near_miss_qualified);
    assert_eq!(game.update(passing()), Some(GameEvent::NearMiss));
    assert!(!game.near_miss_qualified);
}

#[test]
fn the_countdown_cues_come_at_fixed_frames() {
    let mut game = Game::new(1);
    game.start();
    let mut cues = Vec::new();
    for frame in 1..=COUNTDOWN_TOTAL {
        if let Some(event) = game.update(Contact::clear_road()) {
            cues.push((frame, event));
        }
    }
    assert_eq!(
        cues,
        vec![(60, GameEvent::Countdown), (120, GameEvent::Countdown), (180, GameEvent::Go)]
    );
    assert!(game.traffic_moves());
}

#[test]
fn a_collision_wins_over_a_pass_in_the_same_frame() {
    let mut game = Game::new(1);
    game.started = true;
    let both = Contact { collides: true, near_miss: true, passed: true };
    assert_eq!(game.update(both), Some(GameEvent::Hit));
    assert_eq!(game.dodges, 0);
    assert_eq!(game.score, 0);
}

#[test]
fn events_that_bring_fresh_traffic() {
    assert!(GameEvent::Score.respawns_traffic());
    assert!(GameEvent::NearMiss.respawns_traffic());
    assert!(GameEvent::Hit.respawns_traffic());
    assert!(!GameEvent::Crash.respawns_traffic());
    assert!(!GameEvent::Go.respawns_traffic());
    assert!(!GameEvent::Countdown.respawns_traffic());
}

#[test]
fn lanes_point_away_from_the_centre_line() {
    assert_eq!(Lane::Left.direction(), -1);
    assert_eq!(Lane::Right.direction(), 1);
}

#[test]
fn seeds_come_from_the_clock_or_a_constant() {
    assert_eq!(seed_from(Some(123)), 123);
    assert_eq!(seed_from(None), 0xC0FFEE);
    assert!(seed_now() < 1_000_000_000);
}

#[test]
fn three_hits_end_a_run() {
    let mut game = Game::new(11);
    game.start();
    game.countdown_ticks = 0;
    let mut events = Vec::new();
    for tick in [0u64, 90, 180] {
        game.city_tick = tick;
        events.push(game.update(hitting()));
    }
    assert_eq!(events, vec![Some(GameEvent::Hit), Some(GameEvent::Hit), Some(GameEvent::Crash)]);
    assert_eq!(game.lives, 0);
    assert!(game.over);
    assert_eq!(game.update(hitting()), None);
}

#[test]
fn the_generator_never_stalls() {
    let mut game = Game::new(0);
    for _ in 0..10_000 {
        game.spawn_donkey();
        assert_ne!(game.rng, 0);
    }
}

#[test]
fn dodges_draw_a_fresh_obstacle() {
    let mut game = Game::new(21);
    game.started = true;
    game.near_miss_qualified = true;
    let before = game.rng;
    assert_eq!(game.update(passing()), Some(GameEvent::NearMiss));
    assert_ne!(game.rng, before);
    assert!(!game.near_miss_qualified);
    let before = game.rng;
    assert_eq!(game.update(Contact::clear_road()), None);
    assert_eq!(game.rng, before);
}

fn fields(game: &Game) -> (u32, u32, u32, u8, u16, u64, bool, bool, Lane, ObstaclePattern) {
    (
        game.rng,
        game.score,
        game.best_score,
        game.lives,
        game.countdown_ticks,
        game.invulnerable_until,
        game.started,
        game.over,
        game.donkey_lane,
        game.obstacle_pattern,
    )
}

#[test]
fn seed_zero_plays_as_seed_one() {
    let mut zero = Game::new(0);
    let mut one = Game::new(1);
    assert_eq!(fields(&zero), fields(&one));
    zero.start();
    one.start();
    assert_eq!(fields(&zero), fields(&one));
    let contacts = [Contact::clear_road(), passing(), hitting(), passing(), passing()];
    for step in 0..400 {
        let contact = contacts[step % contacts.len()];
        assert_eq!(zero.update(contact), one.update(contact));
        assert_eq!(fields(&zero), fields(&one));
        zero.city_tick += 1;
        one.city_tick += 1;
    }
    zero.spawn_donkey();
    one.spawn_donkey();
    assert_eq!(fields(&zero), fields(&one));
}

#[test]
fn contact_tests_on_pixel_positions() {
    // The car is 32 pixels wide; both shapes lose four pixels at each side.
    assert!(overlaps_car(10, 20, 0));
    assert!(!brushes_past_car(10, 20, 0));
    assert!(overlaps_car(-12, 20, 0));
    assert!(!overlaps_car(-13, 20, 0));
    assert!(overlaps_car(24, 20, 0));
    assert!(!overlaps_car(25, 20, 0));
    // Gaps of 1 to 14 pixels, on either side, are near misses.
    assert!(!brushes_past_car(32, 20, 0));
    assert!(brushes_past_car(33, 20, 0));
    assert!(brushes_past_car(46, 20, 0));
    assert!(!brushes_past_car(47, 20, 0));
    assert!(brushes_past_car(-30, 20, 0));
    assert!(!overlaps_car(-30, 20, 0));
    assert!(brushes_past_car(-34, 20, 0));
    assert!(!brushes_past_car(-35, 20, 0));
    assert!(!brushes_past_car(-20, 20, 0));
}

#[test]
fn a_near_miss_never_overlaps() {
    for car_x in [-40, 0, 100, 288] {
        for width in [1, 12, 20, 40] {
            for donkey_x in -120..400 {
                if brushes_past_car(donkey_x, width, car_x) {
                    assert!(!overlaps_car(donkey_x, width, car_x));
                }
            }
        }
    }
}
