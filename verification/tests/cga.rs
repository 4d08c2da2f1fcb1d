use donkey_bas::cga::{
    apply_command, steer, Command, collides, draw, draw_road, draw_sprite, road_half_width, update_logic, Game, Lane, CAR_SPRITE,
    CYAN, DONKEY_SPRITE, MAGENTA, ROAD_BOTTOM, ROAD_TOP, WHITE,
};
use donkey_bas::frame::{FRAME_LEN, HEIGHT, WIDTH};
use font8x8::{UnicodeFonts, BASIC_FONTS};

const BLACK: [u8; 3] = [0, 0, 0];

fn rect(buffer: &mut [u8], x: i32, y: i32, w: i32, h: i32, color: [u8; 3]) {
    for py in y.max(0)..(y + h).min(HEIGHT as i32) {
        for px in x.max(0)..(x + w).min(WIDTH as i32) {
            let i = (py as usize * WIDTH + px as usize) * 3;
            buffer[i..i + 3].copy_from_slice(&color);
        }
    }
}

fn text(buffer: &mut [u8], x: i32, y: i32, s: &str, color: [u8; 3], scale: i32) {
    let mut cursor = x;
    for c in s.chars() {
        if let Some(glyph) = BASIC_FONTS.get(c) {
            for (row, bits) in glyph.iter().enumerate() {
                for col in 0..8 {
                    if (bits >> col) & 1 == 1 {
                        rect(buffer, cursor + col * scale, y + row as i32 * scale, scale, scale, color);
                    }
                }
            }
        }
        cursor += 8 * scale;
    }
}

fn float_half_width(y: i32) -> i32 {
    let t = (y - 20) as f32 / (190 - 20) as f32;
    let top_half = 120 as f32 / 2.0;
    let bottom_half = 260 as f32 / 2.0;
    (top_half + (bottom_half - top_half) * t) as i32
}

fn road(buffer: &mut [u8]) {
    for y in 20..=190 {
        let half = float_half_width(y);
        let left = 160 - half;
        let right = 160 + half;
        rect(buffer, left, y, right - left, 1, BLACK);
        rect(buffer, left - 2, y, 2, 1, CYAN);
        rect(buffer, right, y, 2, 1, CYAN);
        if ((y + 4) / 14) % 2 == 0 {
            let lane_sep = (half * 48) / (260 / 2);
            rect(buffer, 160 - lane_sep / 2 - 1, y, 2, 1, MAGENTA);
            rect(buffer, 160 + lane_sep / 2 - 1, y, 2, 1, MAGENTA);
        }
    }
}

fn sprite(buffer: &mut [u8], rows: &[&str], x: i32, y: i32, color: [u8; 3]) {
    for (row, line) in rows.iter().enumerate() {
        for (col, b) in line.as_bytes().iter().enumerate() {
            if *b == b'1' {
                rect(buffer, x + col as i32, y + row as i32, 1, 1, color);
            }
        }
    }
}

fn started_game() -> Game {
    let mut game = Game::new(7);
    game.started = true;
    game
}

#[test]
fn lanes_sit_either_side_of_the_centre_line() {
    assert_eq!(Lane::Left.x(), 104);
    assert_eq!(Lane::Right.x(), 200);
}

#[test]
fn the_road_widens_evenly_towards_the_bottom() {
    for y in ROAD_TOP..=ROAD_BOTTOM {
        assert_eq!(road_half_width(y), float_half_width(y), "row {y}");
    }
    assert_eq!(road_half_width(ROAD_TOP), 60);
    assert_eq!(road_half_width(ROAD_BOTTOM), 130);
    assert_eq!(road_half_width(105), 95);
}

#[test]
fn the_road_is_tarmac_kerbs_and_lane_marks() {
    let mut drawn = vec![7u8; FRAME_LEN];
    draw_road(&mut drawn);
    let mut expected = vec![7u8; FRAME_LEN];
    road(&mut expected);
    assert!(drawn == expected);
}

#[test]
fn sprites_light_their_ones() {
    let mut drawn = vec![0u8; FRAME_LEN];
    draw_sprite(&mut drawn, &CAR_SPRITE, 104, 162, CYAN);
    let mut expected = vec![0u8; FRAME_LEN];
    sprite(&mut expected, &CAR_SPRITE, 104, 162, CYAN);
    assert!(drawn == expected);
    let lit = drawn.chunks(3).filter(|p| *p == CYAN).count();
    let ones: usize = CAR_SPRITE.iter().map(|l| l.matches('1').count()).sum();
    assert_eq!(lit, ones);
    let mut clipped = vec![0u8; FRAME_LEN];
    draw_sprite(&mut clipped, &DONKEY_SPRITE, 310, -5, WHITE);
    let mut expected = vec![0u8; FRAME_LEN];
    sprite(&mut expected, &DONKEY_SPRITE, 310, -5, WHITE);
    assert!(clipped == expected);
}

#[test]
fn a_new_game_waits_above_the_screen() {
    let game = Game::new(0);
    assert_eq!(game.rng, 1);
    assert_eq!(game.donkey_y, -12);
    assert_eq!(game.car_lane, Lane::Left);
    assert_eq!(game.donkey_lane, Lane::Right);
    assert!(!game.started);
    assert!(!game.over);
    assert_eq!(game.score, 0);
}

#[test]
fn the_donkey_speeds_up_with_the_score() {
    let mut game = Game::new(1);
    let expected = [(0, 6), (4, 6), (5, 5), (10, 4), (15, 3), (19, 3), (20, 2), (1_000, 2)];
    for (score, frames) in expected {
        game.score = score;
        assert_eq!(game.donkey_step_frames(), frames);
    }
}

#[test]
fn the_donkey_steps_two_pixels_every_few_frames() {
    let mut game = started_game();
    game.donkey_lane = Lane::Right;
    for _ in 0..5 {
        assert_eq!(update_logic(&mut game), None);
        assert_eq!(game.donkey_y, -12);
    }
    assert_eq!(update_logic(&mut game), None);
    assert_eq!(game.donkey_y, -10);
    assert_eq!(game.move_frame_counter, 0);
}

#[test]
fn meeting_the_car_ends_the_game_with_three_beeps() {
    let mut game = started_game();
    game.car_lane = Lane::Left;
    game.donkey_lane = Lane::Left;
    game.donkey_y = 150;
    game.move_frame_counter = 5;
    assert!(!collides(&game));
    assert_eq!(update_logic(&mut game), Some(3));
    assert!(game.over);
    assert_eq!(game.donkey_y, 152);
    assert!(collides(&game));
    assert_eq!(update_logic(&mut game), None);
}

#[test]
fn a_donkey_in_the_other_lane_passes_for_a_point() {
    let mut game = started_game();
    game.car_lane = Lane::Left;
    game.donkey_lane = Lane::Right;
    game.donkey_y = 160;
    assert!(!collides(&game));
    game.donkey_y = 189;
    game.move_frame_counter = 5;
    let rng = game.rng;
    assert_eq!(update_logic(&mut game), Some(1));
    assert_eq!(game.score, 1);
    assert_eq!(game.donkey_y, -12);
    assert_eq!(game.rng, rng.wrapping_mul(1664525).wrapping_add(1013904223));
    assert!(!game.over);
}

#[test]
fn a_game_not_started_or_over_stands_still() {
    let mut game = Game::new(3);
    game.move_frame_counter = 5;
    assert_eq!(update_logic(&mut game), None);
    assert_eq!(game.move_frame_counter, 5);
    game.started = true;
    game.over = true;
    assert_eq!(update_logic(&mut game), None);
    assert_eq!(game.move_frame_counter, 5);
}

#[test]
fn classic_lanes_alternate() {
    let mut game = Game::new(12_345);
    let mut previous = None;
    for _ in 0..20 {
        game.spawn_donkey();
        if let Some(lane) = previous {
            assert_ne!(lane, game.donkey_lane);
        }
        previous = Some(game.donkey_lane);
    }
}

#[test]
fn reset_starts_a_fresh_game() {
    let mut game = started_game();
    game.over = true;
    game.score = 9;
    game.sound_on = false;
    game.reset(4);
    assert!(game.started);
    assert!(!game.over);
    assert_eq!(game.score, 0);
    assert!(game.sound_on);
    assert_eq!(game.rng, 4u32.wrapping_mul(1664525).wrapping_add(1013904223));
}

fn screen(buffer: &mut [u8], game: &Game) {
    for px in buffer.chunks_exact_mut(3) {
        px.copy_from_slice(&MAGENTA);
    }
    road(buffer);
    sprite(buffer, &DONKEY_SPRITE, game.donkey_lane.x(), game.donkey_y, WHITE);
    sprite(buffer, &CAR_SPRITE, game.car_lane.x(), 162, CYAN);
    text(buffer, 8, 4, "DONKEY.BAS", WHITE, 1);
    text(buffer, 160, 4, &format!("SCORE {:05}", game.score), WHITE, 1);
    text(buffer, 8, 14, &format!("SOUND {}", if game.sound_on { "ON " } else { "OFF" }), WHITE, 1);
    if !game.started {
        text(buffer, 56, 92, "PRESS SPACE TO START", WHITE, 1);
    } else if game.over {
        text(buffer, 68, 84, "CRASH!", WHITE, 2);
        text(buffer, 50, 104, "R TO RESTART  Q TO QUIT", WHITE, 1);
    }
}

#[test]
fn the_screen_shows_road_sprites_and_messages() {
    let mut game = Game::new(3);
    game.score = 42;
    for (started, over, sound_on) in [(false, false, true), (true, false, false), (true, true, true)] {
        game.started = started;
        game.over = over;
        game.sound_on = sound_on;
        game.donkey_y = 100;
        let mut drawn = vec![0u8; FRAME_LEN];
        draw(&mut drawn, &game);
        let mut expected = vec![0u8; FRAME_LEN];
        screen(&mut expected, &game);
        assert!(drawn == expected);
    }
}

#[test]
fn commands_follow_the_state_of_the_game() {
    let mut game = Game::new(5);
    assert!(!apply_command(&mut game, Command::Retry, 9));
    assert!(!game.started);
    assert!(apply_command(&mut game, Command::Start, 0));
    assert!(game.started);
    assert_eq!(game.donkey_y, -12);
    let rng = game.rng;
    assert!(!apply_command(&mut game, Command::Start, 0));
    assert_eq!(game.rng, rng);
    assert!(apply_command(&mut game, Command::ToggleSound, 0));
    assert!(!game.sound_on);
    game.over = true;
    game.score = 3;
    assert!(apply_command(&mut game, Command::Retry, 9));
    assert!(game.started);
    assert!(!game.over);
    assert!(game.sound_on);
    assert_eq!(game.score, 0);
}

#[test]
fn arrows_steer_only_in_play_and_on_a_fresh_press() {
    let mut game = Game::new(5);
    assert_eq!(steer(&mut game, false, false, true, false), 0);
    assert_eq!(game.car_lane, Lane::Left);
    game.started = true;
    assert_eq!(steer(&mut game, false, false, true, true), 0);
    assert_eq!(game.car_lane, Lane::Left);
    assert_eq!(steer(&mut game, false, false, true, false), 1);
    assert_eq!(game.car_lane, Lane::Right);
    assert_eq!(steer(&mut game, false, false, true, false), 0);
    assert_eq!(steer(&mut game, true, false, true, false), 2);
    assert_eq!(game.car_lane, Lane::Right);
    assert_eq!(steer(&mut game, true, false, false, false), 1);
    assert_eq!(game.car_lane, Lane::Left);
    game.over = true;
    assert_eq!(steer(&mut game, false, false, true, false), 0);
    assert_eq!(game.car_lane, Lane::Left);
}
