//! The night city behind the road: sky, sun, stars, skyline with flickering
//! windows, and the roadside trees.
use vstd::prelude::*;
use crate::game::Game;
use crate::text::{draw_text, labelled_number, lemma_small_text_fits, lemma_zero_padded_len, text_layers, zero_padded};
use crate::frame::{
    clear, cleared, fill_rect, fits_i32, lemma_painted_nothing, lemma_painted_then, painted, rect,
    Paint, FRAME_LEN,
};

verus! {

/// Top of the road, where the skyline stands.
pub const ROAD_TOP: i32 = 54;

pub const SKY: [u8; 3] = [0x08, 0x0D, 0x22];
pub const SKY_GLOW: [u8; 3] = [0x2C, 0x1E, 0x4E];
pub const HORIZON_HAZE: [u8; 3] = [0x3A, 0x20, 0x4A];
pub const GROUND: [u8; 3] = [0x0B, 0x34, 0x2D];
pub const ROAD_EDGE: [u8; 3] = [0xFF, 0x4F, 0x81];
pub const SUN: [u8; 3] = [0xFF, 0x78, 0x69];
pub const CYAN: [u8; 3] = [0x25, 0xE6, 0xD2];
pub const CYAN_DARK: [u8; 3] = [0x08, 0x61, 0x70];
pub const YELLOW: [u8; 3] = [0xFF, 0xD1, 0x66];
pub const SHADOW: [u8; 3] = [0x08, 0x0A, 0x12];
pub const BUILDING_BACK: [u8; 3] = [0x12, 0x18, 0x38];
pub const BUILDING_MID: [u8; 3] = [0x1A, 0x20, 0x4A];
pub const BUILDING_FRONT: [u8; 3] = [0x13, 0x19, 0x31];
pub const TREE_DARK: [u8; 3] = [0x08, 0x45, 0x3C];
pub const TREE_LIGHT: [u8; 3] = [0x10, 0x78, 0x58];
pub const TREE_TRUNK: [u8; 3] = [0x73, 0x43, 0x35];
pub const WHITE: [u8; 3] = [0xF4, 0xF7, 0xFF];

/// The integer mixer that gives every window and star its own rhythm.
pub open spec fn spec_city_hash(value: u32) -> u32 {
    let a = value ^ (value >> 16u32);
    let b = ((a as int) * 0x7FEB_352D % 0x1_0000_0000) as u32;
    let c = b ^ (b >> 15u32);
    let d = ((c as int) * 0x846C_A68B % 0x1_0000_0000) as u32;
    d ^ (d >> 16u32)
}

/// Mixes the bits of `value` (xor-shifts and multiplications modulo 2^32).
pub fn city_hash(value: u32) -> (hash: u32)
    ensures
        hash == spec_city_hash(value),
{
    let mut value = value;
    value = value ^ (value >> 16u32);
    value = value.wrapping_mul(0x7FEB_352D);
    value = value ^ (value >> 15u32);
    value = value.wrapping_mul(0x846C_A68B);
    value ^ (value >> 16u32)
}

/// The seed of window `window` of building `building`.
pub open spec fn window_seed(building: u32, window: u32) -> u32 {
    spec_city_hash(
        ((building as int) * 97 % 0x1_0000_0000) as u32 ^ ((window as int) * 1_009
            % 0x1_0000_0000) as u32,
    )
}

/// How many frames a window keeps its state before it may flip: 75 to 284.
pub open spec fn window_interval(seed: u32) -> u64 {
    (75 + seed % 210) as u64
}

/// The light of a window at frame `tick`: a window is normally lit when its
/// seed modulo 100 is below 42, and the other way round in the intervals
/// whose hash is a multiple of eleven; a lit window glows yellow for an even
/// seed and cyan for an odd one.
pub open spec fn spec_window_light(building: u32, window: u32, tick: u64) -> Option<[u8; 3]> {
    let seed = window_seed(building, window);
    let normally_lit = seed % 100 < 42;
    let moment = spec_city_hash(seed ^ ((tick / window_interval(seed)) as u32));
    let lit = if moment % 11 == 0 {
        !normally_lit
    } else {
        normally_lit
    };
    if lit {
        Some(
            if seed & 1 == 0 {
                YELLOW
            } else {
                CYAN
            },
        )
    } else {
        None
    }
}

/// Whether window `window` of building `building` is lit at frame `tick`,
/// and in which colour.
pub fn window_light(building: u32, window: u32, tick: u64) -> (light: Option<[u8; 3]>)
    ensures
        light == spec_window_light(building, window, tick),
{
    let seed = city_hash(building.wrapping_mul(97) ^ window.wrapping_mul(1_009));
    let normally_lit = seed % 100 < 42;
    let interval: u64 = 75 + (seed as u64) % 210;
    let moment = city_hash(seed ^ ((tick / interval) as u32));
    let lit = if moment % 11 == 0 {
        !normally_lit
    } else {
        normally_lit
    };
    if lit {
        Some(
            if seed & 1 == 0 {
                YELLOW
            } else {
                CYAN
            },
        )
    } else {
        None
    }
}

/// A window holds its state for whole intervals of 75 to 284 frames: two
/// frames in the same interval light it the same way, and a lit window
/// always shows the same colour, yellow or cyan.
pub proof fn law_windows_flicker_slowly(building: u32, window: u32, tick: u64, other: u64)
    requires
        tick / window_interval(window_seed(building, window)) == other / window_interval(
            window_seed(building, window),
        ),
    ensures
        75 <= window_interval(window_seed(building, window)) <= 284,
        spec_window_light(building, window, tick) == spec_window_light(building, window, other),
        spec_window_light(building, window, tick) is Some ==> spec_window_light(
            building,
            window,
            tick,
        )->0 == (if window_seed(building, window) & 1 == 0 {
            YELLOW
        } else {
            CYAN
        }),
{
}

/// `a / b` rounded toward zero, as Rust divides integers, for `b > 0`.
pub open spec fn trunc_div(a: int, b: int) -> int {
    if a >= 0 {
        a / b
    } else {
        -((-a) / b)
    }
}

/// The rectangle's corners are `i32` values, and painting it stays within
/// a buffer of `len` bytes.
pub open spec fn rect_fits(len: int, x: int, y: int, w: int, h: int) -> bool {
    &&& fits_i32(x) && fits_i32(y) && fits_i32(w) && fits_i32(h)
    &&& crate::frame::fill_rect_fits(len, x, y, w, h)
}

/// The rooftop of building `index`: an antenna, a raised block, a ledge with
/// a mast, or two stacked ledges, by `index` modulo four.
pub open spec fn roof_layers(index: u32, x: int, top: int, width: int, color: [u8; 3]) -> Seq<Paint> {
    if index % 4 == 0 {
        seq![
            rect(x + trunc_div(width, 2), top - 6, 1, 6, CYAN_DARK),
            rect(x + trunc_div(width, 2) - 1, top - 6, 3, 1, ROAD_EDGE),
        ]
    } else if index % 4 == 1 {
        seq![rect(x + 4, top - 3, if width - 8 > 3 { width - 8 } else { 3 }, 3, color)]
    } else if index % 4 == 2 {
        seq![rect(x + 3, top - 2, width - 6, 2, color), rect(x + width - 6, top - 5, 1, 5, CYAN_DARK)]
    } else {
        seq![rect(x + 2, top - 2, width - 4, 2, color), rect(x + 5, top - 4, width - 10, 2, color)]
    }
}

/// Columns of windows in a building `width` wide: one every five pixels,
/// from three pixels in to three pixels before the right edge.
pub open spec fn window_cols(width: int) -> int {
    if width > 6 {
        (width - 2) / 5
    } else {
        0
    }
}

/// Rows of windows of a building whose roof is at `top`: one every five
/// pixels, from four pixels below the roof to three above the road.
pub open spec fn window_rows(top: int) -> int {
    if top < 47 {
        (51 - top) / 5
    } else {
        0
    }
}

/// Window `c` of row `j`: a 2 x 2 light when lit, else a 2 x 1 dark pane.
pub open spec fn window_at(
    index: u32,
    x: int,
    top: int,
    tick: u64,
    cols: int,
    j: int,
    c: int,
) -> Paint {
    window_paint(index, (j * cols + c) as u32, x + 3 + 5 * c, top + 4 + 5 * j, tick)
}

/// Window `window` of building `index` at (`wx`, `wy`): a 2 x 2 light when
/// lit at frame `tick`, else a 2 x 1 dark pane.
pub open spec fn window_paint(index: u32, window: u32, wx: int, wy: int, tick: u64) -> Paint {
    match spec_window_light(index, window, tick) {
        Some(light) => rect(wx, wy, 2, 2, light),
        None => rect(wx, wy, 2, 1, SKY),
    }
}

/// A window inside the walls of a building that can be painted can be
/// painted too.
proof fn lemma_window_fits(len: int, x: int, top: int, width: int, height: int, wx: int, wy: int)
    requires
        rect_fits(len, x, top, width, height),
        top == ROAD_TOP - height,
        top + 4 <= wy < ROAD_TOP - 3,
        x + 3 <= wx < x + width - 3,
    ensures
        crate::frame::fill_rect_fits(len, wx, wy, 2, 2),
        crate::frame::fill_rect_fits(len, wx, wy, 2, 1),
{
}

/// Paints window `window` of building `index` at (`wx`, `wy`) as it is at frame `tick`.
fn draw_window(buffer: &mut [u8], index: u32, window: u32, wx: i32, wy: i32, tick: u64)
    requires
        crate::frame::fill_rect_fits(old(buffer)@.len() as int, wx as int, wy as int, 2, 2),
        crate::frame::fill_rect_fits(old(buffer)@.len() as int, wx as int, wy as int, 2, 1),
    ensures
        painted(final(buffer)@, old(buffer)@, seq![window_paint(index, window, wx as int, wy as int, tick)]),
{
    match window_light(index, window, tick) {
        Some(light) => fill_rect(buffer, wx, wy, 2, 2, light),
        None => fill_rect(buffer, wx, wy, 2, 1, SKY),
    }
}

/// The first `c` windows of row `j`.
pub open spec fn window_row(index: u32, x: int, top: int, tick: u64, cols: int, j: int, c: nat) -> Seq<
    Paint,
>
    decreases c,
{
    if c == 0 {
        Seq::empty()
    } else {
        window_row(index, x, top, tick, cols, j, (c - 1) as nat).push(
            window_at(index, x, top, tick, cols, j, c - 1),
        )
    }
}

/// The windows of the first `j` rows.
pub open spec fn window_grid(index: u32, x: int, top: int, tick: u64, cols: int, j: nat) -> Seq<
    Paint,
>
    decreases j,
{
    if j == 0 {
        Seq::empty()
    } else {
        window_grid(index, x, top, tick, cols, (j - 1) as nat) + window_row(
            index,
            x,
            top,
            tick,
            cols,
            j - 1,
            cols as nat,
        )
    }
}

/// Building `index`: its body standing on the road's top edge, its shaded
/// right side, its rooftop and its windows at frame `tick`.
pub open spec fn building_layers(
    index: u32,
    x: int,
    width: int,
    height: int,
    color: [u8; 3],
    tick: u64,
) -> Seq<Paint> {
    let top = ROAD_TOP - height;
    seq![rect(x, top, width, height, color), rect(x + width - 2, top + 2, 2, height - 2, SHADOW)]
        + roof_layers(index, x, top, width, color) + window_grid(
        index,
        x,
        top,
        tick,
        window_cols(width),
        window_rows(top) as nat,
    )
}

/// Drawing a building stays within `i32` and its window count within `u32`.
pub open spec fn building_fits(len: int, index: u32, x: int, width: int, height: int) -> bool {
    let top = ROAD_TOP - height;
    &&& fits_i32(top) && fits_i32(x + width)
    &&& rect_fits(len, x, top, width, height)
    &&& rect_fits(len, x + width - 2, top + 2, 2, height - 2)
    &&& index % 4 == 0 ==> rect_fits(len, x + trunc_div(width, 2), top - 6, 1, 6) && rect_fits(
        len,
        x + trunc_div(width, 2) - 1,
        top - 6,
        3,
        1,
    )
    &&& index % 4 == 1 ==> fits_i32(width - 8) && rect_fits(
        len,
        x + 4,
        top - 3,
        if width - 8 > 3 {
            width - 8
        } else {
            3
        },
        3,
    )
    &&& index % 4 == 2 ==> rect_fits(len, x + 3, top - 2, width - 6, 2) && rect_fits(
        len,
        x + width - 6,
        top - 5,
        1,
        5,
    )
    &&& index % 4 == 3 ==> rect_fits(len, x + 2, top - 2, width - 4, 2) && rect_fits(
        len,
        x + 5,
        top - 4,
        width - 10,
        2,
    )
    &&& fits_i32(top + 4) && fits_i32(x + 3) && fits_i32(x + width - 3)
    &&& window_rows(top) * window_cols(width) <= u32::MAX
}

/// Window `c` exists in a row exactly when it starts before the right margin.
proof fn lemma_window_cols(width: int, c: int)
    requires
        0 <= c,
    ensures
        c < window_cols(width) <==> 3 + 5 * c < width - 3,
        window_cols(width) >= 0,
{
}

/// Adding window `c` to the first `c` windows of a row gives the first `c + 1`.
proof fn lemma_row_extends(grid: Seq<Paint>, index: u32, x: int, top: int, tick: u64, cols: int, j: int, c: nat)
    ensures
        grid + window_row(index, x, top, tick, cols, j, c) + seq![window_at(index, x, top, tick, cols, j, c as int)]
            == grid + window_row(index, x, top, tick, cols, j, c + 1),
{
    assert(grid + window_row(index, x, top, tick, cols, j, c) + seq![window_at(index, x, top, tick, cols, j, c as int)]
            =~= grid + window_row(index, x, top, tick, cols, j, c + 1));
}

proof fn lemma_window_index_step(j: int, c: int, rows: int, cols: int)
    requires
        0 <= j < rows,
        0 <= c < cols,
    ensures
        j * cols + c + 1 <= rows * cols,
        0 <= j * cols + c,
{
    assert(j * cols + c + 1 <= rows * cols) by (nonlinear_arith)
        requires
            0 <= j < rows,
            0 <= c < cols,
    ;
    assert(0 <= j * cols) by (nonlinear_arith)
        requires
            0 <= j,
            0 <= cols,
    ;
}

/// Draws building `index` standing on the road's top edge at `x`, `width`
/// wide and `height` tall, in `color`, with its windows as they are at
/// frame `tick`.
pub fn draw_building(
    buffer: &mut [u8],
    index: u32,
    x: i32,
    width: i32,
    height: i32,
    color: [u8; 3],
    tick: u64,
)
    requires
        building_fits(old(buffer)@.len() as int, index, x as int, width as int, height as int),
    ensures
        painted(
            final(buffer)@,
            old(buffer)@,
            building_layers(index, x as int, width as int, height as int, color, tick),
        ),
{
    let ghost start = old(buffer)@;
    let top = ROAD_TOP - height;
    fill_rect(buffer, x, top, width, height, color);
    let ghost after_body = buffer@;
    fill_rect(buffer, x + width - 2, top + 2, 2, height - 2, SHADOW);
    proof {
        lemma_painted_then(
            start,
            after_body,
            buffer@,
            seq![rect(x as int, top as int, width as int, height as int, color)],
            seq![rect(x + width - 2, top + 2, 2, height - 2, SHADOW)],
        );
    }
    let ghost after_walls = buffer@;
    let ghost walls = seq![
        rect(x as int, top as int, width as int, height as int, color),
        rect(x + width - 2, top + 2, 2, height - 2, SHADOW),
    ];
    assert(walls =~= seq![rect(x as int, top as int, width as int, height as int, color)] + seq![
        rect(x + width - 2, top + 2, 2, height - 2, SHADOW),
    ]);
    let ghost roof = roof_layers(index, x as int, top as int, width as int, color);
    // Different rooftop shapes keep the silhouette from looking tiled.
    if index % 4 == 0 {
        fill_rect(buffer, x + width / 2, top - 6, 1, 6, CYAN_DARK);
        let ghost mid = buffer@;
        fill_rect(buffer, x + width / 2 - 1, top - 6, 3, 1, ROAD_EDGE);
        proof {
            let a = seq![rect(x + trunc_div(width as int, 2), top - 6, 1, 6, CYAN_DARK)];
            let b = seq![rect(x + trunc_div(width as int, 2) - 1, top - 6, 3, 1, ROAD_EDGE)];
            lemma_painted_then(after_walls, mid, buffer@, a, b);
            assert(roof =~= a + b);
        }
    } else if index % 4 == 1 {
        let raised = if width - 8 > 3 {
            width - 8
        } else {
            3
        };
        fill_rect(buffer, x + 4, top - 3, raised, 3, color);
    } else if index % 4 == 2 {
        fill_rect(buffer, x + 3, top - 2, width - 6, 2, color);
        let ghost mid = buffer@;
        fill_rect(buffer, x + width - 6, top - 5, 1, 5, CYAN_DARK);
        proof {
            let a = seq![rect(x + 3, top - 2, width - 6, 2, color)];
            let b = seq![rect(x + width - 6, top - 5, 1, 5, CYAN_DARK)];
            lemma_painted_then(after_walls, mid, buffer@, a, b);
            assert(roof =~= a + b);
        }
    } else {
        fill_rect(buffer, x + 2, top - 2, width - 4, 2, color);
        let ghost mid = buffer@;
        fill_rect(buffer, x + 5, top - 4, width - 10, 2, color);
        proof {
            let a = seq![rect(x + 2, top - 2, width - 4, 2, color)];
            let b = seq![rect(x + 5, top - 4, width - 10, 2, color)];
            lemma_painted_then(after_walls, mid, buffer@, a, b);
            assert(roof =~= a + b);
        }
    }
    proof {
        lemma_painted_then(start, after_walls, buffer@, walls, roof);
    }
    let ghost after_roof = buffer@;
    let ghost cols = window_cols(width as int);
    let ghost rows = window_rows(top as int);
    proof {
        lemma_painted_nothing(after_roof);
        assert(window_grid(index, x as int, top as int, tick, cols, 0) =~= Seq::<Paint>::empty());
    }
    let mut window_index: u32 = 0;
    let mut wy: i32 = top + 4;
    let ghost mut j: int = 0;
    while wy < ROAD_TOP - 3
        invariant
            buffer@.len() == old(buffer)@.len(),
            building_fits(old(buffer)@.len() as int, index, x as int, width as int, height as int),
            top == ROAD_TOP - height,
            cols == window_cols(width as int),
            rows == window_rows(top as int),
            0 <= j <= rows,
            wy == top + 4 + 5 * j,
            j < rows <==> wy < ROAD_TOP - 3,
            window_index == j * cols,
            painted(
                buffer@,
                after_roof,
                window_grid(index, x as int, top as int, tick, cols, j as nat),
            ),
        decreases rows - j,
    {
        let ghost row_start = buffer@;
        let ghost grid = window_grid(index, x as int, top as int, tick, cols, j as nat);
        proof {
            assert(window_row(index, x as int, top as int, tick, cols, j, 0) =~= Seq::<Paint>::empty());
            assert(grid + window_row(index, x as int, top as int, tick, cols, j, 0) =~= grid);
        }
        let mut wx: i32 = x + 3;
        let ghost mut c: int = 0;
        loop
            invariant_except_break
                wx == x + 3 + 5 * c,
            invariant
                buffer@.len() == old(buffer)@.len(),
                rect_fits(old(buffer)@.len() as int, x as int, top as int, width as int, height as int),
                top == ROAD_TOP - height,
                fits_i32(x + width),
                fits_i32(x + width - 3),
                fits_i32(x + 3),
                wy < ROAD_TOP - 3,
                rows * cols <= u32::MAX,
                cols == window_cols(width as int),
                rows == window_rows(top as int),
                0 <= j < rows,
                wy == top + 4 + 5 * j,
                0 <= c <= cols,
                window_index == j * cols + c,
                painted(
                    buffer@,
                    after_roof,
                    grid + window_row(index, x as int, top as int, tick, cols, j, c as nat),
                ),
            ensures
                c == cols,
            decreases cols - c,
        {
            proof {
                lemma_window_cols(width as int, c);
            }
            if wx >= x + width - 3 {
                break;
            }
            let ghost before = buffer@;
            proof {
                lemma_window_index_step(j, c, rows, cols);
                lemma_window_fits(
                    old(buffer)@.len() as int,
                    x as int,
                    top as int,
                    width as int,
                    height as int,
                    wx as int,
                    wy as int,
                );
            }
            draw_window(buffer, index, window_index, wx, wy, tick);
            proof {
                let w = window_at(index, x as int, top as int, tick, cols, j, c);
                let row = window_row(index, x as int, top as int, tick, cols, j, c as nat);
                lemma_painted_then(after_roof, before, buffer@, grid + row, seq![w]);
                lemma_row_extends(grid, index, x as int, top as int, tick, cols, j, c as nat);
            }
            window_index = window_index + 1;
            proof {
                c = c + 1;
            }
            match wx.checked_add(5) {
                Some(next) => wx = next,
                None => {
                    proof {
                        lemma_window_cols(width as int, c);
                    }
                    break;
                },
            }
        }
        proof {
            assert(window_grid(index, x as int, top as int, tick, cols, (j + 1) as nat) =~= grid
                + window_row(index, x as int, top as int, tick, cols, j, cols as nat));
            assert((j + 1) * cols == j * cols + cols) by (nonlinear_arith);
            j = j + 1;
        }
        wy = wy + 5;
    }
    proof {
        lemma_painted_then(
            start,
            after_roof,
            buffer@,
            walls + roof,
            window_grid(index, x as int, top as int, tick, cols, rows as nat),
        );
    }
}

/// The width of a pine's trunk: a third of its size, at least one pixel.
pub open spec fn trunk_width(size: int) -> int {
    if trunc_div(size, 3) > 1 {
        trunc_div(size, 3)
    } else {
        1
    }
}

/// Row `row` of a pine's canopy: a line widening from one pixel at the tip
/// to about twice the size at the base, light in its upper half.
pub open spec fn canopy_row(x: int, top: int, size: int, row: int) -> Paint {
    let canopy = size * 2;
    let width = 1 + trunc_div(row * size * 2, canopy);
    rect(
        x - trunc_div(width, 2),
        top + row,
        width,
        1,
        if row < trunc_div(canopy, 2) {
            TREE_LIGHT
        } else {
            TREE_DARK
        },
    )
}

/// The first `n` rows of a pine's canopy.
pub open spec fn canopy_rows(x: int, top: int, size: int, n: nat) -> Seq<Paint>
    decreases n,
{
    if n == 0 {
        Seq::empty()
    } else {
        canopy_rows(x, top, size, (n - 1) as nat).push(canopy_row(x, top, size, n - 1))
    }
}

/// A pine of size `size` standing at `x` on `ground_y`: a trunk `size` tall,
/// a triangular canopy twice as tall above it, and a light streak down the
/// canopy.
pub open spec fn pine_layers(x: int, ground_y: int, size: int) -> Seq<Paint> {
    let canopy = size * 2;
    let top = ground_y - size - canopy;
    seq![
        rect(
            x - trunc_div(trunk_width(size), 2),
            ground_y - size,
            trunk_width(size),
            size,
            TREE_TRUNK,
        ),
    ] + canopy_rows(x, top, size, if canopy > 0 { canopy as nat } else { 0 }) + seq![
        rect(x - 1, top + trunc_div(size, 2), 1, canopy, TREE_LIGHT),
    ]
}

/// Drawing a pine stays within `i32`.
pub open spec fn pine_fits(len: int, x: int, ground_y: int, size: int) -> bool {
    let canopy = size * 2;
    let top = ground_y - size - canopy;
    &&& fits_i32(canopy)
    &&& fits_i32(x - trunc_div(trunk_width(size), 2))
    &&& fits_i32(ground_y - size)
    &&& rect_fits(len, x - trunc_div(trunk_width(size), 2), ground_y - size, trunk_width(size), size)
    &&& fits_i32(top)
    &&& forall|row: int|
        0 <= row < canopy ==> {
            &&& fits_i32(#[trigger] (row * size))
            &&& fits_i32(row * size * 2)
            &&& fits_i32(top + row)
            &&& fits_i32(x - trunc_div(1 + trunc_div(row * size * 2, canopy), 2))
            &&& rect_fits(
                len,
                x - trunc_div(1 + trunc_div(row * size * 2, canopy), 2),
                top + row,
                1 + trunc_div(row * size * 2, canopy),
                1,
            )
        }
    &&& fits_i32(x - 1)
    &&& fits_i32(top + trunc_div(size, 2))
    &&& rect_fits(len, x - 1, top + trunc_div(size, 2), 1, canopy)
}

/// Draws a pine of size `size` standing at `x` on `ground_y`.
pub fn draw_pine(buffer: &mut [u8], x: i32, ground_y: i32, size: i32)
    requires
        pine_fits(old(buffer)@.len() as int, x as int, ground_y as int, size as int),
    ensures
        painted(final(buffer)@, old(buffer)@, pine_layers(x as int, ground_y as int, size as int)),
{
    let ghost start = old(buffer)@;
    let trunk_height = size;
    let canopy_height = size * 2;
    let third = size / 3;
    let trunk_w = if third > 1 {
        third
    } else {
        1
    };
    fill_rect(buffer, x - trunk_w / 2, ground_y - trunk_height, trunk_w, trunk_height, TREE_TRUNK);
    let ghost after_trunk = buffer@;
    let ghost trunk = seq![
        rect(
            x - trunc_div(trunk_width(size as int), 2),
            ground_y - size,
            trunk_width(size as int),
            size as int,
            TREE_TRUNK,
        ),
    ];
    let top = ground_y - trunk_height - canopy_height;
    proof {
        lemma_painted_nothing(after_trunk);
        assert(canopy_rows(x as int, top as int, size as int, 0) =~= Seq::<Paint>::empty());
    }
    let mut row: i32 = 0;
    while row < canopy_height
        invariant
            buffer@.len() == old(buffer)@.len(),
            pine_fits(old(buffer)@.len() as int, x as int, ground_y as int, size as int),
            canopy_height == size * 2,
            top == ground_y - size - canopy_height,
            0 <= row,
            row <= canopy_height || row == 0,
            painted(buffer@, after_trunk, canopy_rows(x as int, top as int, size as int, row as nat)),
        decreases canopy_height - row,
    {
        assert(fits_i32(row * size));
        let ghost before = buffer@;
        let width = 1 + row * size * 2 / canopy_height;
        let color = if row < canopy_height / 2 {
            TREE_LIGHT
        } else {
            TREE_DARK
        };
        fill_rect(buffer, x - width / 2, top + row, width, 1, color);
        proof {
            let rows = canopy_rows(x as int, top as int, size as int, row as nat);
            let line = canopy_row(x as int, top as int, size as int, row as int);
            lemma_painted_then(after_trunk, before, buffer@, rows, seq![line]);
            assert(rows + seq![line] =~= canopy_rows(x as int, top as int, size as int, (row + 1) as nat));
        }
        row = row + 1;
    }
    let ghost canopy = canopy_rows(
        x as int,
        top as int,
        size as int,
        if canopy_height > 0 {
            canopy_height as nat
        } else {
            0
        },
    );
    proof {
        lemma_painted_then(start, after_trunk, buffer@, trunk, canopy);
    }
    let ghost after_canopy = buffer@;
    fill_rect(buffer, x - 1, top + size / 2, 1, canopy_height, TREE_LIGHT);
    proof {
        lemma_painted_then(
            start,
            after_canopy,
            buffer@,
            trunk + canopy,
            seq![rect(x - 1, top + trunc_div(size as int, 2), 1, canopy_height as int, TREE_LIGHT)],
        );
    }
}

/// A bush of size `size` at `x` on `ground_y`: a dark mound, a light crown
/// and a cyan glint.
pub open spec fn bush_layers(x: int, ground_y: int, size: int) -> Seq<Paint> {
    let width = size * 2 + 2;
    seq![
        rect(x - trunc_div(width, 2), ground_y - size, width, size, TREE_DARK),
        rect(
            x - trunc_div(size, 2),
            ground_y - size - trunc_div(size, 2),
            size,
            trunc_div(size, 2) + 1,
            TREE_LIGHT,
        ),
        rect(x - trunc_div(width, 2) + 2, ground_y - size + 1, 2, 1, CYAN),
    ]
}

/// Drawing a bush stays within `i32`.
pub open spec fn bush_fits(len: int, x: int, ground_y: int, size: int) -> bool {
    let width = size * 2 + 2;
    &&& fits_i32(size * 2) && fits_i32(width)
    &&& fits_i32(x - trunc_div(width, 2)) && fits_i32(ground_y - size)
    &&& rect_fits(len, x - trunc_div(width, 2), ground_y - size, width, size)
    &&& fits_i32(x - trunc_div(size, 2)) && fits_i32(ground_y - size - trunc_div(size, 2))
    &&& rect_fits(
        len,
        x - trunc_div(size, 2),
        ground_y - size - trunc_div(size, 2),
        size,
        trunc_div(size, 2) + 1,
    )
    &&& fits_i32(x - trunc_div(width, 2) + 2) && fits_i32(ground_y - size + 1)
    &&& rect_fits(len, x - trunc_div(width, 2) + 2, ground_y - size + 1, 2, 1)
}

/// Draws a bush of size `size` at `x` on `ground_y`.
pub fn draw_bush(buffer: &mut [u8], x: i32, ground_y: i32, size: i32)
    requires
        bush_fits(old(buffer)@.len() as int, x as int, ground_y as int, size as int),
    ensures
        painted(final(buffer)@, old(buffer)@, bush_layers(x as int, ground_y as int, size as int)),
{
    let ghost start = old(buffer)@;
    let width = size * 2 + 2;
    fill_rect(buffer, x - width / 2, ground_y - size, width, size, TREE_DARK);
    let ghost first = buffer@;
    fill_rect(buffer, x - size / 2, ground_y - size - size / 2, size, size / 2 + 1, TREE_LIGHT);
    let ghost second = buffer@;
    fill_rect(buffer, x - width / 2 + 2, ground_y - size + 1, 2, 1, CYAN);
    proof {
        let l = bush_layers(x as int, ground_y as int, size as int);
        lemma_painted_then(start, first, second, seq![l[0]], seq![l[1]]);
        lemma_painted_then(start, second, buffer@, seq![l[0]] + seq![l[1]], seq![l[2]]);
        assert(seq![l[0]] + seq![l[1]] + seq![l[2]] =~= l);
    }
}

/// `r` is the integer square root of `n`.
pub open spec fn is_floor_sqrt(r: int, n: int) -> bool {
    0 <= r && r * r <= n < (r + 1) * (r + 1)
}

/// The largest `r` with `r * r <= n`.
pub open spec fn floor_sqrt(n: int) -> int {
    choose|r: int| #[trigger] is_floor_sqrt(r, n)
}

/// There is only one integer square root.
proof fn lemma_floor_sqrt_unique(n: int, r: int)
    requires
        0 <= r,
        r * r <= n < (r + 1) * (r + 1),
    ensures
        floor_sqrt(n) == r,
{
    assert(is_floor_sqrt(r, n));
    let s = floor_sqrt(n);
    assert(0 <= s && s * s <= n < (s + 1) * (s + 1));
    if s < r {
        assert((s + 1) * (s + 1) <= r * r) by (nonlinear_arith)
            requires
                0 <= s < r,
        ;
    } else if s > r {
        assert((r + 1) * (r + 1) <= s * s) by (nonlinear_arith)
            requires
                0 <= r < s,
        ;
    }
}

/// The integer square root of `n`, for `0 <= n <= 169`: the half-width of
/// a row of the sun's disc, whose radius is thirteen.
fn small_sqrt(n: i32) -> (r: i32)
    requires
        0 <= n <= 169,
    ensures
        0 <= r <= 13,
        r == floor_sqrt(n as int),
{
    let mut r: i32 = 0;
    loop
        invariant
            0 <= r <= 13,
            r * r <= n <= 169,
        ensures
            0 <= r <= 13,
            r * r <= n < (r + 1) * (r + 1),
        decreases 13 - r,
    {
        let next = r + 1;
        assert(next * next <= 196) by (nonlinear_arith)
            requires
                1 <= next <= 14,
        ;
        if next * next > n {
            break;
        }
        assert(next <= 13) by (nonlinear_arith)
            requires
                next * next <= 169,
                1 <= next,
        ;
        r = next;
    }
    proof {
        lemma_floor_sqrt_unique(n as int, r as int);
    }
    r
}

/// Row `i` (from the top, 0 to 26) of the setting sun: a line of the disc of
/// radius thirteen centred at (160, 35).
pub open spec fn sun_row(i: int) -> Paint {
    let dy = i - 13;
    let half = floor_sqrt(169 - dy * dy);
    rect(160 - half, 35 + dy, half * 2, 1, SUN)
}

/// The first `n` rows of the sun, every fourth row, starting with the third,
/// left out to give it stripes.
pub open spec fn sun_rows(n: nat) -> Seq<Paint>
    decreases n,
{
    if n == 0 {
        Seq::empty()
    } else if (n - 1) % 4 != 2 {
        sun_rows((n - 1) as nat).push(sun_row(n - 1))
    } else {
        sun_rows((n - 1) as nat)
    }
}

/// Where the stars shine.
pub open spec fn star_positions() -> Seq<(i32, i32)> {
    seq![(18i32, 24i32), (42, 32), (115, 25), (205, 29), (278, 24), (307, 35)]
}

/// Star `i` at frame `tick`: bright except one period in five, each star
/// with its own period of `40 + 13 i` frames and its own phase.
pub open spec fn star(i: int, tick: u64) -> Paint {
    let bright = (tick / ((40 + i * 13) as u64) + i) % 5 != 0;
    rect(
        star_positions()[i].0 as int,
        star_positions()[i].1 as int,
        1,
        1,
        if bright {
            WHITE
        } else {
            CYAN_DARK
        },
    )
}

/// The first `n` stars.
pub open spec fn stars(tick: u64, n: nat) -> Seq<Paint>
    decreases n,
{
    if n == 0 {
        Seq::empty()
    } else {
        stars(tick, (n - 1) as nat).push(star(n - 1, tick))
    }
}

/// The far row of the skyline: left edge, width and height of each building.
pub open spec fn back_skyline() -> Seq<(i32, i32, i32)> {
    seq![
        (-5i32, 31i32, 20i32),
        (22, 25, 28),
        (48, 37, 19),
        (82, 27, 31),
        (106, 32, 23),
        (136, 24, 29),
        (158, 36, 20),
        (191, 25, 30),
        (214, 38, 21),
        (248, 27, 28),
        (272, 32, 19),
        (300, 25, 26),
    ]
}

/// The near row of the skyline.
pub open spec fn front_skyline() -> Seq<(i32, i32, i32)> {
    seq![
        (-3i32, 23i32, 24i32),
        (23, 18, 17),
        (44, 27, 30),
        (74, 21, 21),
        (98, 30, 27),
        (132, 18, 19),
        (152, 25, 34),
        (181, 27, 23),
        (211, 18, 29),
        (232, 31, 20),
        (266, 23, 32),
        (292, 31, 25),
    ]
}

/// The colour of far building `i`: the two far tones alternate.
pub open spec fn back_color(i: int) -> [u8; 3] {
    if i % 2 == 0 {
        BUILDING_BACK
    } else {
        BUILDING_MID
    }
}

/// The first `n` far buildings, numbered from zero.
pub open spec fn back_buildings(tick: u64, n: nat) -> Seq<Paint>
    decreases n,
{
    if n == 0 {
        Seq::empty()
    } else {
        let b = back_skyline()[n - 1];
        back_buildings(tick, (n - 1) as nat) + building_layers(
            (n - 1) as u32,
            b.0 as int,
            b.1 as int,
            b.2 as int,
            back_color(n - 1),
            tick,
        )
    }
}

/// The first `n` near buildings, numbered from fifty.
pub open spec fn front_buildings(tick: u64, n: nat) -> Seq<Paint>
    decreases n,
{
    if n == 0 {
        Seq::empty()
    } else {
        let b = front_skyline()[n - 1];
        front_buildings(tick, (n - 1) as nat) + building_layers(
            (n - 1 + 50) as u32,
            b.0 as int,
            b.1 as int,
            b.2 as int,
            BUILDING_FRONT,
            tick,
        )
    }
}

/// The city at frame `tick`, painted over the night sky: two bands of
/// glow above the horizon, the striped sun, the stars, the far and near
/// skylines, and the ground below the road's top edge.
pub open spec fn background_layers(tick: u64) -> Seq<Paint> {
    seq![rect(0, 28, 320, ROAD_TOP - 28, SKY_GLOW), rect(0, 42, 320, ROAD_TOP - 42, HORIZON_HAZE)]
        + sun_rows(27) + stars(tick, 6) + back_buildings(tick, 12) + front_buildings(tick, 12)
        + seq![rect(0, ROAD_TOP as int, 320, 200 - ROAD_TOP, GROUND)]
}

/// A building of modest size near the screen fits.
proof fn lemma_modest_building_fits(len: int, index: u32, x: int, width: int, height: int)
    requires
        len >= FRAME_LEN,
        -10 <= x <= 320,
        10 <= width <= 40,
        10 <= height <= 40,
    ensures
        building_fits(len, index, x, width, height),
{
    let top = ROAD_TOP - height;
    assert(window_rows(top) <= 8);
    assert(window_cols(width) <= 8);
    assert(window_rows(top) * window_cols(width) <= 64) by (nonlinear_arith)
        requires
            0 <= window_rows(top) <= 8,
            0 <= window_cols(width) <= 8,
    ;
}

/// Every building of the skyline fits.
proof fn lemma_skyline_fits(len: int)
    requires
        len >= FRAME_LEN,
    ensures
        forall|i: int|
            0 <= i < 12 ==> #[trigger] building_fits(
                len,
                i as u32,
                back_skyline()[i].0 as int,
                back_skyline()[i].1 as int,
                back_skyline()[i].2 as int,
            ) && building_fits(
                len,
                (i + 50) as u32,
                front_skyline()[i].0 as int,
                front_skyline()[i].1 as int,
                front_skyline()[i].2 as int,
            ),
{
    assert forall|i: int| 0 <= i < 12 implies -10 <= #[trigger] back_skyline()[i].0 <= 320 && 10
        <= back_skyline()[i].1 <= 40 && 10 <= back_skyline()[i].2 <= 40 && -10
        <= front_skyline()[i].0 <= 320 && 10 <= front_skyline()[i].1 <= 40 && 10
        <= front_skyline()[i].2 <= 40 by {
        if i == 0 {
        } else if i == 1 {
        } else if i == 2 {
        } else if i == 3 {
        } else if i == 4 {
        } else if i == 5 {
        } else if i == 6 {
        } else if i == 7 {
        } else if i == 8 {
        } else if i == 9 {
        } else if i == 10 {
        } else {
        }
    }
    assert forall|i: int|
        0 <= i < 12 implies #[trigger] building_fits(
            len,
            i as u32,
            back_skyline()[i].0 as int,
            back_skyline()[i].1 as int,
            back_skyline()[i].2 as int,
        ) && building_fits(
            len,
            (i + 50) as u32,
            front_skyline()[i].0 as int,
            front_skyline()[i].1 as int,
            front_skyline()[i].2 as int,
        ) by {
        lemma_modest_building_fits(
            len,
            i as u32,
            back_skyline()[i].0 as int,
            back_skyline()[i].1 as int,
            back_skyline()[i].2 as int,
        );
        lemma_modest_building_fits(
            len,
            (i + 50) as u32,
            front_skyline()[i].0 as int,
            front_skyline()[i].1 as int,
            front_skyline()[i].2 as int,
        );
    }
}

/// Paints the night sky, the sun, the stars, the skyline as it is at frame
/// `tick`, and the ground.
pub fn draw_background(buffer: &mut [u8], tick: u64)
    requires
        old(buffer)@.len() >= FRAME_LEN,
    ensures
        painted(final(buffer)@, cleared(old(buffer)@, SKY), background_layers(tick)),
{
    clear(buffer, SKY);
    let ghost sky = buffer@;
    assert(sky.len() == old(buffer)@.len());
    fill_rect(buffer, 0, 28, 320, ROAD_TOP - 28, SKY_GLOW);
    let ghost glow = buffer@;
    fill_rect(buffer, 0, 42, 320, ROAD_TOP - 42, HORIZON_HAZE);
    let ghost bands = seq![
        rect(0, 28, 320, ROAD_TOP - 28, SKY_GLOW),
        rect(0, 42, 320, ROAD_TOP - 42, HORIZON_HAZE),
    ];
    proof {
        lemma_painted_then(
            sky,
            glow,
            buffer@,
            seq![rect(0, 28, 320, ROAD_TOP - 28, SKY_GLOW)],
            seq![rect(0, 42, 320, ROAD_TOP - 42, HORIZON_HAZE)],
        );
        assert(seq![rect(0, 28, 320, ROAD_TOP - 28, SKY_GLOW)] + seq![
            rect(0, 42, 320, ROAD_TOP - 42, HORIZON_HAZE),
        ] =~= bands);
    }
    let ghost after_bands = buffer@;
    proof {
        lemma_painted_nothing(after_bands);
        assert(sun_rows(0) =~= Seq::<Paint>::empty());
    }
    let sun_x: i32 = 160;
    let mut dy: i32 = -13;
    while dy <= 13
        invariant
            buffer@.len() == old(buffer)@.len(),
            old(buffer)@.len() >= FRAME_LEN,
            -13 <= dy <= 14,
            sun_x == 160,
            painted(buffer@, after_bands, sun_rows((dy + 13) as nat)),
        decreases 14 - dy,
    {
        assert(0 <= dy * dy <= 169) by (nonlinear_arith)
            requires
                -13 <= dy <= 13,
        ;
        let half = small_sqrt(13 * 13 - dy * dy);
        let ghost before = buffer@;
        if (dy + 13) % 4 != 2 {
            fill_rect(buffer, sun_x - half, 35 + dy, half * 2, 1, SUN);
            proof {
                lemma_painted_then(
                    after_bands,
                    before,
                    buffer@,
                    sun_rows((dy + 13) as nat),
                    seq![sun_row(dy + 13)],
                );
                assert(sun_rows((dy + 13) as nat) + seq![sun_row(dy + 13)] =~= sun_rows(
                    (dy + 14) as nat,
                ));
            }
        } else {
            assert(sun_rows((dy + 13) as nat) =~= sun_rows((dy + 14) as nat));
        }
        dy = dy + 1;
    }
    proof {
        lemma_painted_then(sky, after_bands, buffer@, bands, sun_rows(27));
    }
    let ghost after_sun = buffer@;
    // Slow twinkling stars, each with its own phase.
    let positions: [(i32, i32); 6] = [(18, 24), (42, 32), (115, 25), (205, 29), (278, 24), (307, 35)];
    assert(positions@ =~= star_positions());
    proof {
        lemma_painted_nothing(after_sun);
        assert(stars(tick, 0) =~= Seq::<Paint>::empty());
    }
    let mut index: usize = 0;
    while index < 6
        invariant
            buffer@.len() == old(buffer)@.len(),
            old(buffer)@.len() >= FRAME_LEN,
            0 <= index <= 6,
            positions@ == star_positions(),
            painted(buffer@, after_sun, stars(tick, index as nat)),
        decreases 6 - index,
    {
        let (x, y) = positions[index];
        let period: u64 = 40 + (index as u64) * 13;
        assert((tick / period) * 2 <= tick) by (nonlinear_arith)
            requires
                period >= 2,
        ;
        let bright = (tick / period + index as u64) % 5 != 0;
        let ghost before = buffer@;
        fill_rect(
            buffer,
            x,
            y,
            1,
            1,
            if bright {
                WHITE
            } else {
                CYAN_DARK
            },
        );
        proof {
            lemma_painted_then(
                after_sun,
                before,
                buffer@,
                stars(tick, index as nat),
                seq![star(index as int, tick)],
            );
            assert(stars(tick, index as nat) + seq![star(index as int, tick)] =~= stars(
                tick,
                (index + 1) as nat,
            ));
        }
        index = index + 1;
    }
    proof {
        lemma_painted_then(sky, after_sun, buffer@, bands + sun_rows(27), stars(tick, 6));
    }
    let ghost after_stars = buffer@;
    let back: [(i32, i32, i32); 12] = [
        (-5, 31, 20),
        (22, 25, 28),
        (48, 37, 19),
        (82, 27, 31),
        (106, 32, 23),
        (136, 24, 29),
        (158, 36, 20),
        (191, 25, 30),
        (214, 38, 21),
        (248, 27, 28),
        (272, 32, 19),
        (300, 25, 26),
    ];
    assert(back@ =~= back_skyline());
    proof {
        lemma_skyline_fits(old(buffer)@.len() as int);
        lemma_painted_nothing(after_stars);
        assert(back_buildings(tick, 0) =~= Seq::<Paint>::empty());
    }
    let mut index: usize = 0;
    while index < 12
        invariant
            buffer@.len() == old(buffer)@.len(),
            old(buffer)@.len() >= FRAME_LEN,
            0 <= index <= 12,
            back@ == back_skyline(),
            forall|i: int|
                0 <= i < 12 ==> #[trigger] building_fits(
                    old(buffer)@.len() as int,
                    i as u32,
                    back_skyline()[i].0 as int,
                    back_skyline()[i].1 as int,
                    back_skyline()[i].2 as int,
                ) && building_fits(
                    old(buffer)@.len() as int,
                    (i + 50) as u32,
                    front_skyline()[i].0 as int,
                    front_skyline()[i].1 as int,
                    front_skyline()[i].2 as int,
                ),
            painted(buffer@, after_stars, back_buildings(tick, index as nat)),
        decreases 12 - index,
    {
        let (x, width, height) = back[index];
        let color = if index % 2 == 0 {
            BUILDING_BACK
        } else {
            BUILDING_MID
        };
        let ghost before = buffer@;
        assert(building_fits(
            old(buffer)@.len() as int,
            index as u32,
            back_skyline()[index as int].0 as int,
            back_skyline()[index as int].1 as int,
            back_skyline()[index as int].2 as int,
        ));
        draw_building(buffer, index as u32, x, width, height, color, tick);
        proof {
            let layers = building_layers(
                index as u32,
                x as int,
                width as int,
                height as int,
                color,
                tick,
            );
            lemma_painted_then(after_stars, before, buffer@, back_buildings(tick, index as nat), layers);
        }
        index = index + 1;
    }
    proof {
        lemma_painted_then(
            sky,
            after_stars,
            buffer@,
            bands + sun_rows(27) + stars(tick, 6),
            back_buildings(tick, 12),
        );
    }
    let ghost after_back = buffer@;
    let front: [(i32, i32, i32); 12] = [
        (-3, 23, 24),
        (23, 18, 17),
        (44, 27, 30),
        (74, 21, 21),
        (98, 30, 27),
        (132, 18, 19),
        (152, 25, 34),
        (181, 27, 23),
        (211, 18, 29),
        (232, 31, 20),
        (266, 23, 32),
        (292, 31, 25),
    ];
    assert(front@ =~= front_skyline());
    proof {
        lemma_painted_nothing(after_back);
        assert(front_buildings(tick, 0) =~= Seq::<Paint>::empty());
    }
    let mut index: usize = 0;
    while index < 12
        invariant
            buffer@.len() == old(buffer)@.len(),
            old(buffer)@.len() >= FRAME_LEN,
            0 <= index <= 12,
            front@ == front_skyline(),
            forall|i: int|
                0 <= i < 12 ==> #[trigger] building_fits(
                    old(buffer)@.len() as int,
                    i as u32,
                    back_skyline()[i].0 as int,
                    back_skyline()[i].1 as int,
                    back_skyline()[i].2 as int,
                ) && building_fits(
                    old(buffer)@.len() as int,
                    (i + 50) as u32,
                    front_skyline()[i].0 as int,
                    front_skyline()[i].1 as int,
                    front_skyline()[i].2 as int,
                ),
            painted(buffer@, after_back, front_buildings(tick, index as nat)),
        decreases 12 - index,
    {
        let (x, width, height) = front[index];
        let ghost before = buffer@;
        assert(building_fits(
            old(buffer)@.len() as int,
            index as u32,
            back_skyline()[index as int].0 as int,
            back_skyline()[index as int].1 as int,
            back_skyline()[index as int].2 as int,
        ));
        draw_building(buffer, index as u32 + 50, x, width, height, BUILDING_FRONT, tick);
        proof {
            let layers = building_layers(
                (index + 50) as u32,
                x as int,
                width as int,
                height as int,
                BUILDING_FRONT,
                tick,
            );
            lemma_painted_then(after_back, before, buffer@, front_buildings(tick, index as nat), layers);
        }
        index = index + 1;
    }
    proof {
        lemma_painted_then(
            sky,
            after_back,
            buffer@,
            bands + sun_rows(27) + stars(tick, 6) + back_buildings(tick, 12),
            front_buildings(tick, 12),
        );
    }
    let ghost after_front = buffer@;
    fill_rect(buffer, 0, ROAD_TOP, 320, 200 - ROAD_TOP, GROUND);
    proof {
        lemma_painted_then(
            sky,
            after_front,
            buffer@,
            bands + sun_rows(27) + stars(tick, 6) + back_buildings(tick, 12) + front_buildings(
                tick,
                12,
            ),
            seq![rect(0, ROAD_TOP as int, 320, 200 - ROAD_TOP, GROUND)],
        );
    }
}

/// The text `chars` drawn at (`x`, `y`), scale `scale`.
pub open spec fn label(chars: Seq<char>, x: int, y: int, scale: int, color: [u8; 3]) -> Seq<Paint> {
    text_layers(chars, x, y, scale, color, chars.len())
}

/// The top bar: a dark strip with a cyan rule, the title, the level (at
/// least two digits) and the score (at least five digits).
pub open spec fn top_bar_layers(game: Game) -> Seq<Paint> {
    seq![rect(0, 0, 320, 20, SHADOW), rect(0, 19, 320, 1, CYAN_DARK)] + label(
        "DONKEY"@,
        8,
        6,
        1,
        WHITE,
    ) + label("//"@, 56, 6, 1, ROAD_EDGE) + label("RUST RUN"@, 72, 6, 1, CYAN) + label(
        "LV "@ + zero_padded((1 + game.dodges / 5) as nat, 2),
        168,
        6,
        1,
        WHITE,
    ) + label("SCORE "@ + zero_padded(game.score as nat, 5), 216, 6, 1, YELLOW)
}

/// The panel of the moment: the title card before the start, the crash card
/// (with the new high score, or else the best score) once over, and the
/// sound setting and best score during play.
pub open spec fn panel_layers(game: Game) -> Seq<Paint> {
    if !game.started {
        seq![rect(58, 70, 204, 66, SHADOW), rect(58, 70, 204, 2, ROAD_EDGE)] + label(
            "DODGE THE DONKEYS"@,
            88,
            82,
            1,
            WHITE,
        ) + label("[SPACE] START  [M] SOUND"@, 76, 100, 1, CYAN) + label(
            "BEST "@ + zero_padded(game.best_score as nat, 5),
            120,
            118,
            1,
            YELLOW,
        )
    } else if game.over {
        seq![rect(68, 68, 184, 76, SHADOW), rect(68, 68, 184, 3, ROAD_EDGE)] + label(
            "CRASH!"@,
            112,
            78,
            2,
            ROAD_EDGE,
        ) + (if game.new_high_score {
            label("NEW HIGH SCORE"@, 104, 104, 1, YELLOW)
        } else {
            label("BEST "@ + zero_padded(game.best_score as nat, 5), 120, 104, 1, YELLOW)
        }) + label("[R] RETRY   [Q] QUIT"@, 84, 126, 1, WHITE)
    } else {
        label(
            if game.sound_on {
                "M: SOUND ON"@
            } else {
                "M: SOUND OFF"@
            },
            8,
            188,
            1,
            WHITE,
        ) + label("HI "@ + zero_padded(game.best_score as nat, 5), 240, 188, 1, YELLOW)
    }
}

/// Draws short text on screen, adding its layers to those painted since `base`.
fn hud_text(
    buffer: &mut [u8],
    x: i32,
    y: i32,
    text: &str,
    color: [u8; 3],
    scale: i32,
    Ghost(base): Ghost<Seq<u8>>,
    Ghost(done): Ghost<Seq<Paint>>,
)
    requires
        old(buffer)@.len() >= FRAME_LEN,
        0 <= x <= 320,
        0 <= y <= 200,
        1 <= scale <= 2,
        text@.len() <= 40,
        painted(old(buffer)@, base, done),
    ensures
        painted(
            final(buffer)@,
            base,
            done + label(text@, x as int, y as int, scale as int, color),
        ),
{
    let ghost before = buffer@;
    proof {
        lemma_small_text_fits(buffer@.len() as int, text@, x as int, y as int, scale as int);
    }
    draw_text(buffer, x, y, text, color, scale);
    proof {
        lemma_painted_then(base, before, buffer@, done, label(text@, x as int, y as int, scale as int, color));
    }
}

/// Paints a rectangle on screen, adding it to the layers painted since `base`.
fn hud_rect(
    buffer: &mut [u8],
    x: i32,
    y: i32,
    w: i32,
    h: i32,
    color: [u8; 3],
    Ghost(base): Ghost<Seq<u8>>,
    Ghost(done): Ghost<Seq<Paint>>,
)
    requires
        old(buffer)@.len() >= FRAME_LEN,
        0 <= x <= 320,
        0 <= y <= 200,
        0 <= w <= 320,
        0 <= h <= 200,
        painted(old(buffer)@, base, done),
    ensures
        painted(
            final(buffer)@,
            base,
            done + seq![rect(x as int, y as int, w as int, h as int, color)],
        ),
{
    let ghost before = buffer@;
    fill_rect(buffer, x, y, w, h, color);
    proof {
        lemma_painted_then(
            base,
            before,
            buffer@,
            done,
            seq![rect(x as int, y as int, w as int, h as int, color)],
        );
    }
}

/// Draws the heads-up display over the scene: the top bar and the panel of
/// the moment.
pub fn draw_hud(buffer: &mut [u8], game: &Game)
    requires
        old(buffer)@.len() >= FRAME_LEN,
    ensures
        painted(final(buffer)@, old(buffer)@, top_bar_layers(*game) + panel_layers(*game)),
{
    broadcast use vstd::string::group_string_axioms;

    let ghost base = old(buffer)@;
    proof {
        reveal_strlit("DONKEY");
        reveal_strlit("//");
        reveal_strlit("RUST RUN");
        reveal_strlit("LV ");
        reveal_strlit("SCORE ");
        reveal_strlit("BEST ");
        reveal_strlit("HI ");
        reveal_strlit("DODGE THE DONKEYS");
        reveal_strlit("[SPACE] START  [M] SOUND");
        reveal_strlit("CRASH!");
        reveal_strlit("NEW HIGH SCORE");
        reveal_strlit("[R] RETRY   [Q] QUIT");
        reveal_strlit("M: SOUND ON");
        reveal_strlit("M: SOUND OFF");
        lemma_painted_nothing(base);
        lemma_zero_padded_len((1 + game.dodges / 5) as u32, 2);
        lemma_zero_padded_len(game.score, 5);
        lemma_zero_padded_len(game.best_score, 5);
    }
    let ghost none = Seq::<Paint>::empty();
    hud_rect(buffer, 0, 0, 320, 20, SHADOW, Ghost(base), Ghost(none));
    let ghost d1 = none + seq![rect(0, 0, 320, 20, SHADOW)];
    hud_rect(buffer, 0, 19, 320, 1, CYAN_DARK, Ghost(base), Ghost(d1));
    let ghost d2 = d1 + seq![rect(0, 19, 320, 1, CYAN_DARK)];
    hud_text(buffer, 8, 6, "DONKEY", WHITE, 1, Ghost(base), Ghost(d2));
    let ghost d3 = d2 + label("DONKEY"@, 8, 6, 1, WHITE);
    hud_text(buffer, 56, 6, "//", ROAD_EDGE, 1, Ghost(base), Ghost(d3));
    let ghost d4 = d3 + label("//"@, 56, 6, 1, ROAD_EDGE);
    hud_text(buffer, 72, 6, "RUST RUN", CYAN, 1, Ghost(base), Ghost(d4));
    let ghost d5 = d4 + label("RUST RUN"@, 72, 6, 1, CYAN);
    let level = labelled_number("LV ", game.level(), 2);
    hud_text(buffer, 168, 6, level.as_str(), WHITE, 1, Ghost(base), Ghost(d5));
    let ghost d6 = d5 + label(level@, 168, 6, 1, WHITE);
    let score = labelled_number("SCORE ", game.score, 5);
    hud_text(buffer, 216, 6, score.as_str(), YELLOW, 1, Ghost(base), Ghost(d6));
    let ghost bar = d6 + label(score@, 216, 6, 1, YELLOW);
    assert(bar =~= top_bar_layers(*game));
    if !game.started {
        hud_rect(buffer, 58, 70, 204, 66, SHADOW, Ghost(base), Ghost(bar));
        let ghost p1 = bar + seq![rect(58, 70, 204, 66, SHADOW)];
        hud_rect(buffer, 58, 70, 204, 2, ROAD_EDGE, Ghost(base), Ghost(p1));
        let ghost p2 = p1 + seq![rect(58, 70, 204, 2, ROAD_EDGE)];
        hud_text(buffer, 88, 82, "DODGE THE DONKEYS", WHITE, 1, Ghost(base), Ghost(p2));
        let ghost p3 = p2 + label("DODGE THE DONKEYS"@, 88, 82, 1, WHITE);
        hud_text(buffer, 76, 100, "[SPACE] START  [M] SOUND", CYAN, 1, Ghost(base), Ghost(p3));
        let ghost p4 = p3 + label("[SPACE] START  [M] SOUND"@, 76, 100, 1, CYAN);
        let best = labelled_number("BEST ", game.best_score, 5);
        hud_text(buffer, 120, 118, best.as_str(), YELLOW, 1, Ghost(base), Ghost(p4));
        assert(p4 + label(best@, 120, 118, 1, YELLOW) =~= top_bar_layers(*game) + panel_layers(
            *game,
        ));
    } else if game.over {
        hud_rect(buffer, 68, 68, 184, 76, SHADOW, Ghost(base), Ghost(bar));
        let ghost p1 = bar + seq![rect(68, 68, 184, 76, SHADOW)];
        hud_rect(buffer, 68, 68, 184, 3, ROAD_EDGE, Ghost(base), Ghost(p1));
        let ghost p2 = p1 + seq![rect(68, 68, 184, 3, ROAD_EDGE)];
        hud_text(buffer, 112, 78, "CRASH!", ROAD_EDGE, 2, Ghost(base), Ghost(p2));
        let ghost p3 = p2 + label("CRASH!"@, 112, 78, 2, ROAD_EDGE);
        let ghost p4;
        if game.new_high_score {
            hud_text(buffer, 104, 104, "NEW HIGH SCORE", YELLOW, 1, Ghost(base), Ghost(p3));
            proof {
                p4 = p3 + label("NEW HIGH SCORE"@, 104, 104, 1, YELLOW);
            }
        } else {
            let best = labelled_number("BEST ", game.best_score, 5);
            hud_text(buffer, 120, 104, best.as_str(), YELLOW, 1, Ghost(base), Ghost(p3));
            proof {
                p4 = p3 + label(best@, 120, 104, 1, YELLOW);
            }
        }
        hud_text(buffer, 84, 126, "[R] RETRY   [Q] QUIT", WHITE, 1, Ghost(base), Ghost(p4));
        assert(p4 + label("[R] RETRY   [Q] QUIT"@, 84, 126, 1, WHITE) =~= top_bar_layers(*game)
            + panel_layers(*game));
    } else {
        let sound = if game.sound_on {
            "M: SOUND ON"
        } else {
            "M: SOUND OFF"
        };
        hud_text(buffer, 8, 188, sound, WHITE, 1, Ghost(base), Ghost(bar));
        let ghost p1 = bar + label(sound@, 8, 188, 1, WHITE);
        let best = labelled_number("HI ", game.best_score, 5);
        hud_text(buffer, 240, 188, best.as_str(), YELLOW, 1, Ghost(base), Ghost(p1));
        assert(p1 + label(best@, 240, 188, 1, YELLOW) =~= top_bar_layers(*game) + panel_layers(
            *game,
        ));
    }
}

} // verus!
