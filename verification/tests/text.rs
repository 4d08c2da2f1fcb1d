use donkey_bas::frame::{FRAME_LEN, WIDTH};
use donkey_bas::text::{draw_char, draw_text, labelled_number, zero_padded_text};
use font8x8::{UnicodeFonts, BASIC_FONTS};

fn lit(buffer: &[u8], x: usize, y: usize) -> bool {
    let i = (y * WIDTH + x) * 3;
    buffer[i] != 0 || buffer[i + 1] != 0 || buffer[i + 2] != 0
}

#[test]
fn numbers_are_padded_like_format() {
    assert_eq!(zero_padded_text(42, 5), "00042");
    assert_eq!(zero_padded_text(42, 5), format!("{:05}", 42));
    assert_eq!(zero_padded_text(123_456, 5), "123456");
    assert_eq!(zero_padded_text(0, 0), "0");
    assert_eq!(zero_padded_text(u32::MAX, 2), "4294967295");
    for value in [0u32, 7, 10, 99, 100, 65_535, 1_000_000, u32::MAX] {
        for width in 0..12 {
            assert_eq!(zero_padded_text(value, width), format!("{:0width$}", value, width = width));
        }
    }
}

#[test]
fn labels_prefix_the_padded_number() {
    assert_eq!(labelled_number("SCORE ", 7, 5), "SCORE 00007");
    assert_eq!(labelled_number("LV ", 3, 2), "LV 03");
}

#[test]
fn a_character_is_its_glyph_scaled() {
    let mut buffer = vec![0u8; FRAME_LEN];
    draw_char(&mut buffer, 10, 20, 'A', [255, 255, 255], 2);
    let glyph = BASIC_FONTS.get('A').unwrap();
    for row in 0..8usize {
        for col in 0..8usize {
            let on = (glyph[row] >> col) & 1 == 1;
            for dy in 0..2 {
                for dx in 0..2 {
                    assert_eq!(lit(&buffer, 10 + col * 2 + dx, 20 + row * 2 + dy), on);
                }
            }
        }
    }
}

#[test]
fn characters_without_a_glyph_draw_nothing() {
    let mut buffer = vec![0u8; FRAME_LEN];
    draw_char(&mut buffer, 10, 20, 'é', [255, 255, 255], 1);
    draw_text(&mut buffer, 10, 40, "→★", [255, 255, 255], 1);
    assert!(buffer.iter().all(|b| *b == 0));
}

#[test]
fn text_advances_eight_pixels_per_character_and_scale() {
    let mut one = vec![0u8; FRAME_LEN];
    draw_text(&mut one, 8, 4, "HI", [1, 1, 1], 1);
    let mut separate = vec![0u8; FRAME_LEN];
    draw_char(&mut separate, 8, 4, 'H', [1, 1, 1], 1);
    draw_char(&mut separate, 16, 4, 'I', [1, 1, 1], 1);
    assert_eq!(one, separate);
    let mut big = vec![0u8; FRAME_LEN];
    draw_text(&mut big, 8, 4, "HI", [1, 1, 1], 2);
    let mut big_separate = vec![0u8; FRAME_LEN];
    draw_char(&mut big_separate, 8, 4, 'H', [1, 1, 1], 2);
    draw_char(&mut big_separate, 24, 4, 'I', [1, 1, 1], 2);
    assert_eq!(big, big_separate);
}

#[test]
fn text_fits_in_a_partial_frame() {
    let rows = 20;
    let mut short = vec![0u8; WIDTH * rows * 3];
    draw_text(&mut short, 8, 4, "SCORE 00042", [9, 9, 9], 1);
    let mut full = vec![0u8; FRAME_LEN];
    draw_text(&mut full, 8, 4, "SCORE 00042", [9, 9, 9], 1);
    assert_eq!(&full[..short.len()], &short[..]);
}

#[test]
fn text_concatenates() {
    for scale in [1, 2, 3] {
        let mut both = vec![0u8; FRAME_LEN];
        draw_text(&mut both, 12, 30, "DONKEY 42", [7, 200, 9], scale);
        let mut parts = vec![0u8; FRAME_LEN];
        draw_text(&mut parts, 12, 30, "DONK", [7, 200, 9], scale);
        draw_text(&mut parts, 12 + 8 * scale * 4, 30, "EY 42", [7, 200, 9], scale);
        assert_eq!(both, parts);
        assert!(both.iter().any(|b| *b != 0));
    }
    let mut untouched: Vec<u8> = (0..FRAME_LEN).map(|i| (i % 251) as u8).collect();
    let before = untouched.clone();
    draw_text(&mut untouched, 40, 40, "", [255, 255, 255], 2);
    assert_eq!(untouched, before);
}
