use donkey_bas::frame::{clear, fill_rect, put_pixel, FRAME_LEN, HEIGHT, WIDTH};

fn pixel(buffer: &[u8], x: usize, y: usize) -> [u8; 3] {
    let i = (y * WIDTH + x) * 3;
    [buffer[i], buffer[i + 1], buffer[i + 2]]
}

#[test]
fn the_frame_holds_three_bytes_per_pixel() {
    assert_eq!(FRAME_LEN, WIDTH * HEIGHT * 3);
}

#[test]
fn clear_fills_whole_pixels_only() {
    let mut buffer = vec![9u8; 8];
    clear(&mut buffer, [1, 2, 3]);
    assert_eq!(buffer, vec![1, 2, 3, 1, 2, 3, 9, 9]);
}

#[test]
fn fill_rect_paints_exactly_its_rectangle() {
    let mut buffer = vec![0u8; FRAME_LEN];
    fill_rect(&mut buffer, 10, 20, 3, 2, [7, 8, 9]);
    let mut painted = 0;
    for y in 0..HEIGHT {
        for x in 0..WIDTH {
            let inside = (10..13).contains(&x) && (20..22).contains(&y);
            if inside {
                assert_eq!(pixel(&buffer, x, y), [7, 8, 9]);
                painted += 1;
            } else {
                assert_eq!(pixel(&buffer, x, y), [0, 0, 0]);
            }
        }
    }
    assert_eq!(painted, 6);
}

#[test]
fn fill_rect_is_clipped_to_the_screen() {
    let mut buffer = vec![0u8; FRAME_LEN];
    fill_rect(&mut buffer, -5, 198, 7, 10, [1, 1, 1]);
    assert_eq!(pixel(&buffer, 0, 198), [1, 1, 1]);
    assert_eq!(pixel(&buffer, 1, 199), [1, 1, 1]);
    assert_eq!(pixel(&buffer, 2, 199), [0, 0, 0]);
    assert_eq!(pixel(&buffer, 0, 197), [0, 0, 0]);
    let untouched = buffer.clone();
    fill_rect(&mut buffer, 320, 0, 5, 5, [4, 4, 4]);
    fill_rect(&mut buffer, 0, -10, 5, 5, [4, 4, 4]);
    fill_rect(&mut buffer, 5, 5, 0, 5, [4, 4, 4]);
    fill_rect(&mut buffer, 5, 5, 5, -1, [4, 4, 4]);
    assert_eq!(buffer, untouched);
}

#[test]
fn fill_rect_leaves_bytes_past_the_frame_alone() {
    let mut buffer = vec![5u8; FRAME_LEN + 4];
    fill_rect(&mut buffer, 0, 0, 320, 200, [0, 0, 0]);
    assert!(buffer[..FRAME_LEN].iter().all(|b| *b == 0));
    assert_eq!(&buffer[FRAME_LEN..], &[5, 5, 5, 5]);
}

#[test]
fn put_pixel_ignores_pixels_off_screen() {
    let mut buffer = vec![0u8; FRAME_LEN];
    put_pixel(&mut buffer, 319, 199, [3, 2, 1]);
    assert_eq!(pixel(&buffer, 319, 199), [3, 2, 1]);
    assert_eq!(&buffer[FRAME_LEN - 3..], &[3, 2, 1]);
    let before = buffer.clone();
    put_pixel(&mut buffer, 320, 0, [9, 9, 9]);
    put_pixel(&mut buffer, -1, 5, [9, 9, 9]);
    put_pixel(&mut buffer, 5, 200, [9, 9, 9]);
    assert_eq!(buffer, before);
}
