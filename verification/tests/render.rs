use donkey_bas::frame::{FRAME_LEN, HEIGHT, WIDTH};
use donkey_bas::game::Game;
use donkey_bas::render::{
    city_hash, draw_background, draw_building, draw_bush, draw_hud, draw_pine, window_light,
    BUILDING_BACK, CYAN, CYAN_DARK, GROUND, ROAD_EDGE, ROAD_TOP, SHADOW, SKY, SUN, WHITE, YELLOW,
};
use font8x8::{UnicodeFonts, BASIC_FONTS};

// A plain painter used to state what the pictures should hold.
fn rect(buffer: &mut [u8], x: i32, y: i32, w: i32, h: i32, color: [u8; 3]) {
    for py in y.max(0)..(y + h).min(HEIGHT as i32) {
        for px in x.max(0)..(x + w).min(WIDTH as i32) {
            let i = (py as usize * WIDTH + px as usize) * 3;
            buffer[i..i + 3].copy_from_slice(&color);
        }
    }
}

fn text(buffer: &mut [u8], x: i32, y: i32, s: &str, color: [u8; 3], scale: i32) {
    let mut cursor = x;
    for c in s.chars() {
        if let Some(glyph) = BASIC_FONTS.get(c) {
            for (row, bits) in glyph.iter().enumerate() {
                for col in 0..8 {
                    if (bits >> col) & 1 == 1 {
                        rect(buffer, cursor + col * scale, y + row as i32 * scale, scale, scale, color);
                    }
                }
            }
        }
        cursor += 8 * scale;
    }
}

fn hash(mut value: u32) -> u32 {
    value ^= value >> 16;
    value = value.wrapping_mul(0x7FEB_352D);
    value ^= value >> 15;
    value = value.wrapping_mul(0x846C_A68B);
    value ^ (value >> 16)
}

fn light(building: u32, window: u32, tick: u64) -> Option<[u8; 3]> {
    let seed = hash(building.wrapping_mul(97) ^ window.wrapping_mul(1_009));
    let normally_lit = seed % 100 < 42;
    let interval = 75 + seed as u64 % 210;
    let moment = hash(seed ^ (tick / interval) as u32);
    let lit = if moment % 11 == 0 { !normally_lit } else { normally_lit };
    lit.then_some(if seed & 1 == 0 { YELLOW } else { CYAN })
}

fn building(buffer: &mut [u8], index: u32, x: i32, width: i32, height: i32, color: [u8; 3], tick: u64) {
    let top = ROAD_TOP - height;
    rect(buffer, x, top, width, height, color);
    rect(buffer, x + width - 2, top + 2, 2, height - 2, SHADOW);
    match index % 4 {
        0 => {
            rect(buffer, x + width / 2, top - 6, 1, 6, CYAN_DARK);
            rect(buffer, x + width / 2 - 1, top - 6, 3, 1, ROAD_EDGE);
        }
        1 => rect(buffer, x + 4, top - 3, (width - 8).max(3), 3, color),
        2 => {
            rect(buffer, x + 3, top - 2, width - 6, 2, color);
            rect(buffer, x + width - 6, top - 5, 1, 5, CYAN_DARK);
        }
        _ => {
            rect(buffer, x + 2, top - 2, width - 4, 2, color);
            rect(buffer, x + 5, top - 4, width - 10, 2, color);
        }
    }
    let mut window_index = 0;
    for wy in (top + 4..ROAD_TOP - 3).step_by(5) {
        for wx in (x + 3..x + width - 3).step_by(5) {
            if let Some(l) = light(index, window_index, tick) {
                rect(buffer, wx, wy, 2, 2, l);
            } else {
                rect(buffer, wx, wy, 2, 1, SKY);
            }
            window_index += 1;
        }
    }
}

fn background(buffer: &mut [u8], tick: u64) {
    for px in buffer.chunks_exact_mut(3) {
        px.copy_from_slice(&SKY);
    }
    rect(buffer, 0, 28, 320, ROAD_TOP - 28, [0x2C, 0x1E, 0x4E]);
    rect(buffer, 0, 42, 320, ROAD_TOP - 42, [0x3A, 0x20, 0x4A]);
    for dy in -13i32..=13 {
        let half = (((13 * 13 - dy * dy) as f32).sqrt()) as i32;
        if (dy + 13) % 4 != 2 {
            rect(buffer, 160 - half, 35 + dy, half * 2, 1, SUN);
        }
    }
    for (index, &(x, y)) in [(18, 24), (42, 32), (115, 25), (205, 29), (278, 24), (307, 35)].iter().enumerate() {
        let bright = (tick / (40 + index as u64 * 13) + index as u64) % 5 != 0;
        rect(buffer, x, y, 1, 1, if bright { WHITE } else { CYAN_DARK });
    }
    let back = [(-5, 31, 20), (22, 25, 28), (48, 37, 19), (82, 27, 31), (106, 32, 23), (136, 24, 29),
        (158, 36, 20), (191, 25, 30), (214, 38, 21), (248, 27, 28), (272, 32, 19), (300, 25, 26)];
    for (index, &(x, w, h)) in back.iter().enumerate() {
        let color = if index % 2 == 0 { BUILDING_BACK } else { [0x1A, 0x20, 0x4A] };
        building(buffer, index as u32, x, w, h, color, tick);
    }
    let front = [(-3, 23, 24), (23, 18, 17), (44, 27, 30), (74, 21, 21), (98, 30, 27), (132, 18, 19),
        (152, 25, 34), (181, 27, 23), (211, 18, 29), (232, 31, 20), (266, 23, 32), (292, 31, 25)];
    for (index, &(x, w, h)) in front.iter().enumerate() {
        building(buffer, index as u32 + 50, x, w, h, [0x13, 0x19, 0x31], tick);
    }
    rect(buffer, 0, ROAD_TOP, 320, 200 - ROAD_TOP, GROUND);
}

#[test]
fn city_hash_mixes_bits() {
    for value in [0u32, 1, 2, 97, 12_345, 0xDEAD_BEEF, u32::MAX] {
        assert_eq!(city_hash(value), hash(value));
    }
    assert_eq!(city_hash(0), 0);
    assert_ne!(city_hash(1), city_hash(2));
}

#[test]
fn windows_hold_their_light_between_flickers() {
    for building in 0..30u32 {
        for window in 0..20u32 {
            let mut previous = window_light(building, window, 0);
            let mut changes = 0;
            for tick in 0..600u64 {
                let now = window_light(building, window, tick);
                assert_eq!(now, light(building, window, tick));
                if let Some(color) = now {
                    assert!(color == YELLOW || color == CYAN);
                }
                if now != previous {
                    changes += 1;
                }
                previous = now;
            }
            assert!(changes <= 600 / 75 + 1);
        }
    }
}

#[test]
fn the_background_is_sky_sun_stars_skyline_and_ground() {
    for tick in [0u64, 1, 39, 40, 77, 1_000, 123_456_789] {
        let mut drawn = vec![1u8; FRAME_LEN];
        draw_background(&mut drawn, tick);
        let mut expected = vec![1u8; FRAME_LEN];
        background(&mut expected, tick);
        assert!(drawn == expected, "background differs at tick {tick}");
    }
}

#[test]
fn sky_above_and_ground_below() {
    let mut drawn = vec![0u8; FRAME_LEN];
    draw_background(&mut drawn, 0);
    let at = |x: usize, y: usize| {
        let i = (y * WIDTH + x) * 3;
        [drawn[i], drawn[i + 1], drawn[i + 2]]
    };
    assert_eq!(at(0, 0), SKY);
    assert_eq!(at(0, 199), GROUND);
    assert_eq!(at(319, 54), GROUND);
}

#[test]
fn buildings_stand_on_the_road_edge() {
    for index in 0..8u32 {
        for tick in [0u64, 500] {
            let mut drawn = vec![0u8; FRAME_LEN];
            draw_building(&mut drawn, index, 40, 27, 30, BUILDING_BACK, tick);
            let mut expected = vec![0u8; FRAME_LEN];
            building(&mut expected, index, 40, 27, 30, BUILDING_BACK, tick);
            assert!(drawn == expected);
        }
    }
}

fn pine(buffer: &mut [u8], x: i32, ground_y: i32, size: i32) {
    let canopy_height = size * 2;
    let trunk_width = (size / 3).max(1);
    rect(buffer, x - trunk_width / 2, ground_y - size, trunk_width, size, [0x73, 0x43, 0x35]);
    let top = ground_y - size - canopy_height;
    for row in 0..canopy_height {
        let width = 1 + row * size * 2 / canopy_height;
        let color = if row < canopy_height / 2 { [0x10, 0x78, 0x58] } else { [0x08, 0x45, 0x3C] };
        rect(buffer, x - width / 2, top + row, width, 1, color);
    }
    rect(buffer, x - 1, top + size / 2, 1, canopy_height, [0x10, 0x78, 0x58]);
}

fn bush(buffer: &mut [u8], x: i32, ground_y: i32, size: i32) {
    let width = size * 2 + 2;
    rect(buffer, x - width / 2, ground_y - size, width, size, [0x08, 0x45, 0x3C]);
    rect(buffer, x - size / 2, ground_y - size - size / 2, size, size / 2 + 1, [0x10, 0x78, 0x58]);
    rect(buffer, x - width / 2 + 2, ground_y - size + 1, 2, 1, CYAN);
}

#[test]
fn trees_grow_with_their_size() {
    for size in [-3, 0, 2, 5, 11] {
        let mut drawn = vec![0u8; FRAME_LEN];
        draw_pine(&mut drawn, 100, 150, size);
        let mut expected = vec![0u8; FRAME_LEN];
        pine(&mut expected, 100, 150, size);
        assert!(drawn == expected, "pine of size {size}");
        let mut drawn = vec![0u8; FRAME_LEN];
        draw_bush(&mut drawn, 100, 150, size);
        let mut expected = vec![0u8; FRAME_LEN];
        bush(&mut expected, 100, 150, size);
        assert!(drawn == expected, "bush of size {size}");
    }
}

fn hud(buffer: &mut [u8], game: &Game) {
    rect(buffer, 0, 0, 320, 20, SHADOW);
    rect(buffer, 0, 19, 320, 1, CYAN_DARK);
    text(buffer, 8, 6, "DONKEY", WHITE, 1);
    text(buffer, 56, 6, "//", ROAD_EDGE, 1);
    text(buffer, 72, 6, "RUST RUN", CYAN, 1);
    text(buffer, 168, 6, &format!("LV {:02}", game.level()), WHITE, 1);
    text(buffer, 216, 6, &format!("SCORE {:05}", game.score), YELLOW, 1);
    if !game.started {
        rect(buffer, 58, 70, 204, 66, SHADOW);
        rect(buffer, 58, 70, 204, 2, ROAD_EDGE);
        text(buffer, 88, 82, "DODGE THE DONKEYS", WHITE, 1);
        text(buffer, 76, 100, "[SPACE] START  [M] SOUND", CYAN, 1);
        text(buffer, 120, 118, &format!("BEST {:05}", game.best_score), YELLOW, 1);
    } else if game.over {
        rect(buffer, 68, 68, 184, 76, SHADOW);
        rect(buffer, 68, 68, 184, 3, ROAD_EDGE);
        text(buffer, 112, 78, "CRASH!", ROAD_EDGE, 2);
        if game.new_high_score {
            text(buffer, 104, 104, "NEW HIGH SCORE", YELLOW, 1);
        } else {
            text(buffer, 120, 104, &format!("BEST {:05}", game.best_score), YELLOW, 1);
        }
        text(buffer, 84, 126, "[R] RETRY   [Q] QUIT", WHITE, 1);
    } else {
        text(buffer, 8, 188, if game.sound_on { "M: SOUND ON" } else { "M: SOUND OFF" }, WHITE, 1);
        text(buffer, 240, 188, &format!("HI {:05}", game.best_score), YELLOW, 1);
    }
}

#[test]
fn the_hud_shows_level_score_and_the_panel_of_the_moment() {
    let mut game = Game::new(1);
    game.score = 1_234;
    game.best_score = 99_999;
    game.dodges = 47;
    let mut states = Vec::new();
    states.push((false, false, false, true));
    states.push((true, false, false, true));
    states.push((true, false, false, false));
    states.push((true, true, false, true));
    states.push((true, true, true, true));
    for (started, over, new_high_score, sound_on) in states {
        game.started = started;
        game.over = over;
        game.new_high_score = new_high_score;
        game.sound_on = sound_on;
        let mut drawn = vec![3u8; FRAME_LEN];
        draw_hud(&mut drawn, &game);
        let mut expected = vec![3u8; FRAME_LEN];
        hud(&mut expected, &game);
        assert!(drawn == expected);
    }
}
