//! The 320 x 200 RGB frame buffer and the rectangle painting that every
//! picture is made of.
//!
//! A frame is a byte slice holding three bytes (red, green, blue) per pixel,
//! row after row. A picture is described as a list of painted rectangles
//! (`Paint`), later ones covering earlier ones: each on-screen pixel ends up
//! with the colour of the last rectangle that covers it, or keeps its old
//! colour when none does.
use vstd::prelude::*;

verus! {

/// Width of the frame in pixels.
pub const WIDTH: usize = 320;

/// Height of the frame in pixels.
pub const HEIGHT: usize = 200;

/// Bytes in a frame: three per pixel.
pub const FRAME_LEN: usize = 192000;

/// A rectangle painted in one colour; it may reach off screen.
pub struct Paint {
    pub x: int,
    pub y: int,
    pub w: int,
    pub h: int,
    pub color: [u8; 3],
}

/// The rectangle at (`x`, `y`), `w` wide and `h` high, in `color`.
pub open spec fn rect(x: int, y: int, w: int, h: int, color: [u8; 3]) -> Paint {
    Paint { x, y, w, h, color }
}

pub open spec fn on_screen(px: int, py: int) -> bool {
    0 <= px < WIDTH && 0 <= py < HEIGHT
}

/// Offset of the first byte of pixel (`px`, `py`).
pub open spec fn pixel_offset(px: int, py: int) -> int {
    (py * 320 + px) * 3
}

/// Byte `k` (0 red, 1 green, 2 blue) of pixel (`px`, `py`) in `frame`.
pub open spec fn channel(frame: Seq<u8>, px: int, py: int, k: int) -> u8 {
    frame[pixel_offset(px, py) + k]
}

pub open spec fn covers(p: Paint, px: int, py: int) -> bool {
    p.x <= px < p.x + p.w && p.y <= py < p.y + p.h
}

/// The colour the last layer covering (`px`, `py`) paints there, if any.
pub open spec fn top_color(layers: Seq<Paint>, px: int, py: int) -> Option<[u8; 3]>
    decreases layers.len(),
{
    if layers.len() == 0 {
        None
    } else if covers(layers.last(), px, py) {
        Some(layers.last().color)
    } else {
        top_color(layers.drop_last(), px, py)
    }
}

/// What byte `k` of pixel (`px`, `py`) holds once `layers` are painted over `old`.
pub open spec fn painted_channel(old: Seq<u8>, layers: Seq<Paint>, px: int, py: int, k: int) -> u8 {
    match top_color(layers, px, py) {
        Some(c) => c[k],
        None => channel(old, px, py, k),
    }
}

/// `new` is `old` with `layers` painted over it, in order, clipped to the
/// screen (and to the buffer, should it be shorter than a frame); bytes
/// past the frame are left alone.
pub open spec fn painted(new: Seq<u8>, old: Seq<u8>, layers: Seq<Paint>) -> bool {
    &&& new.len() == old.len()
    &&& forall|i: int| FRAME_LEN <= i < old.len() ==> new[i] == old[i]
    &&& forall|px: int, py: int, k: int|
        on_screen(px, py) && 0 <= k < 3 && pixel_offset(px, py) + k < old.len() ==> #[trigger] channel(
            new,
            px,
            py,
            k,
        ) == painted_channel(old, layers, px, py, k)
}

/// `old` with every complete pixel-sized chunk set to `color`.
pub open spec fn cleared(old: Seq<u8>, color: [u8; 3]) -> Seq<u8> {
    Seq::new(
        old.len(),
        |i: int|
            if i < old.len() - old.len() % 3 {
                color[i % 3]
            } else {
                old[i]
            },
    )
}

/// Every pixel of a frame is at a distinct offset inside the frame.
pub proof fn lemma_offsets_distinct(px: int, py: int, k: int, qx: int, qy: int, j: int)
    requires
        on_screen(px, py),
        on_screen(qx, qy),
        0 <= k < 3,
        0 <= j < 3,
        pixel_offset(px, py) + k == pixel_offset(qx, qy) + j,
    ensures
        px == qx,
        py == qy,
        k == j,
{
}

/// Every pixel of a frame lies before the end of the frame.
pub proof fn lemma_offset_in_frame(px: int, py: int, k: int)
    requires
        on_screen(px, py),
        0 <= k < 3,
    ensures
        0 <= pixel_offset(px, py) + k < FRAME_LEN,
{
}

/// Painting nothing leaves the frame as it was.
pub proof fn lemma_painted_nothing(frame: Seq<u8>)
    ensures
        painted(frame, frame, Seq::<Paint>::empty()),
{
}

/// Painting `first` and then `second` paints their concatenation.
pub proof fn lemma_painted_then(
    a: Seq<u8>,
    b: Seq<u8>,
    c: Seq<u8>,
    first: Seq<Paint>,
    second: Seq<Paint>,
)
    requires
        painted(b, a, first),
        painted(c, b, second),
    ensures
        painted(c, a, first + second),
{
    assert forall|px: int, py: int, k: int|
        on_screen(px, py) && 0 <= k < 3 && pixel_offset(px, py) + k < a.len() implies #[trigger] channel(
        c,
        px,
        py,
        k,
    ) == painted_channel(a, first + second, px, py, k) by {
        lemma_top_color_concat(first, second, px, py);
        assert(channel(b, px, py, k) == painted_channel(a, first, px, py, k));
    }
}

/// The top colour over a concatenation is the second part's, else the first's.
pub proof fn lemma_top_color_concat(first: Seq<Paint>, second: Seq<Paint>, px: int, py: int)
    ensures
        top_color(first + second, px, py) == (match top_color(second, px, py) {
            Some(c) => Some(c),
            None => top_color(first, px, py),
        }),
    decreases second.len(),
{
    if second.len() == 0 {
        assert(first + second =~= first);
    } else {
        assert((first + second).drop_last() =~= first + second.drop_last());
        assert((first + second).last() == second.last());
        lemma_top_color_concat(first, second.drop_last(), px, py);
    }
}

/// Sets every complete three-byte chunk of `buffer` to `color`.
pub fn clear(buffer: &mut [u8], color: [u8; 3])
    ensures
        final(buffer)@ == cleared(old(buffer)@, color),
{
    let len = buffer.len();
    let whole = len - len % 3;
    let mut i: usize = 0;
    while i < whole
        invariant
            len == buffer@.len(),
            len == old(buffer)@.len(),
            whole == len - len % 3,
            i % 3 == 0,
            i <= whole,
            forall|j: int| 0 <= j < i ==> buffer@[j] == color[j % 3],
            forall|j: int| i <= j < len ==> buffer@[j] == old(buffer)@[j],
        decreases whole - i,
    {
        buffer[i] = color[0];
        buffer[i + 1] = color[1];
        buffer[i + 2] = color[2];
        i = i + 3;
    }
    assert(buffer@ =~= cleared(old(buffer)@, color));
}

/// A rectangle's first on-screen column (or row): its edge, or zero.
pub open spec fn clip_low(v: int) -> int {
    if v < 0 {
        0
    } else {
        v
    }
}

/// A rectangle's end on screen: its far edge, kept between zero and `limit`.
pub open spec fn clip_high(v: int, limit: int) -> int {
    if v > limit {
        limit
    } else if v < 0 {
        0
    } else {
        v
    }
}

/// The rectangle covers at least one on-screen column.
pub open spec fn has_columns(x: int, w: int) -> bool {
    clip_low(x) < clip_high(x + w, WIDTH as int)
}

pub open spec fn fits_i32(v: int) -> bool {
    i32::MIN <= v <= i32::MAX
}

/// `fill_rect` stays within its integers and its buffer on these arguments.
pub open spec fn fill_rect_fits(len: int, x: int, y: int, w: int, h: int) -> bool {
    &&& fits_i32(x + w)
    &&& has_columns(x, w) ==> fits_i32(y + h)
    &&& has_columns(x, w) && clip_low(y) < clip_high(y + h, HEIGHT as int) ==> len >= (((clip_high(
        y + h,
        HEIGHT as int,
    ) - 1) * 320 + clip_high(x + w, WIDTH as int)) * 3)
}

/// Whether pixel (`qx`, `qy`) lies in the columns `[left, right)` and in the
/// rows before `(py, px)` in reading order, starting at row `top`.
pub open spec fn filled_before(
    qx: int,
    qy: int,
    left: int,
    right: int,
    top: int,
    py: int,
    px: int,
) -> bool {
    left <= qx < right && (top <= qy < py || (qy == py && qx < px))
}

/// The single-layer picture of the rectangle at (`x`, `y`), `w` wide and `h` high.
pub proof fn lemma_single_layer(layer: Paint, px: int, py: int)
    ensures
        top_color(seq![layer], px, py) == (if covers(layer, px, py) {
            Some(layer.color)
        } else {
            None
        }),
{
    assert(seq![layer].drop_last() =~= Seq::<Paint>::empty());
    assert(seq![layer].last() == layer);
    assert(top_color(Seq::<Paint>::empty(), px, py) == None::<[u8; 3]>);
}

/// Paints the rectangle at (`x`, `y`), `w` wide and `h` high, in `color`,
/// clipped to the screen.
pub fn fill_rect(buffer: &mut [u8], x: i32, y: i32, w: i32, h: i32, color: [u8; 3])
    requires
        fill_rect_fits(old(buffer)@.len() as int, x as int, y as int, w as int, h as int),
    ensures
        painted(
            final(buffer)@,
            old(buffer)@,
            seq![rect(x as int, y as int, w as int, h as int, color)],
        ),
        !has_columns(x as int, w as int) ==> final(buffer)@ == old(buffer)@,
{
    let ghost layer = rect(x as int, y as int, w as int, h as int, color);
    let left: i32 = if x < 0 {
        0
    } else {
        x
    };
    let right_edge: i32 = x + w;
    let right: i32 = if right_edge > 320 {
        320
    } else if right_edge < 0 {
        0
    } else {
        right_edge
    };
    if left >= right {
        proof {
            assert forall|px: int, py: int, k: int|
                on_screen(px, py) && 0 <= k < 3 && pixel_offset(px, py) + k < old(
                    buffer,
                )@.len() implies #[trigger] channel(old(buffer)@, px, py, k) == painted_channel(
                old(buffer)@,
                seq![layer],
                px,
                py,
                k,
            ) by {
                lemma_single_layer(layer, px, py);
            }
        }
        return;
    }
    let top: i32 = if y < 0 {
        0
    } else {
        y
    };
    let bottom_edge: i32 = y + h;
    let bottom: i32 = if bottom_edge > 200 {
        200
    } else {
        bottom_edge
    };
    let len = buffer.len();
    let mut py: i32 = top;
    while py < bottom
        invariant
            0 <= left < right <= 320,
            left == clip_low(x as int),
            right == clip_high(x + w, 320),
            top == clip_low(y as int),
            bottom == (if y + h > 200 {
                200
            } else {
                y + h
            }),
            top <= py,
            py <= bottom || py == top,
            len == buffer@.len(),
            len == old(buffer)@.len(),
            bottom > top ==> len >= ((bottom - 1) * 320 + right) * 3,
            forall|i: int| FRAME_LEN <= i < len ==> buffer@[i] == old(buffer)@[i],
            forall|qx: int, qy: int, j: int|
                on_screen(qx, qy) && 0 <= j < 3 && pixel_offset(qx, qy) + j < len
                    ==> #[trigger] channel(buffer@, qx, qy, j) == (if filled_before(
                    qx,
                    qy,
                    left as int,
                    right as int,
                    top as int,
                    py as int,
                    0,
                ) {
                    color[j]
                } else {
                    channel(old(buffer)@, qx, qy, j)
                }),
        decreases bottom - py,
    {
        let mut px: i32 = left;
        while px < right
            invariant
                0 <= left < right <= 320,
                0 <= top <= py < bottom <= 200,
                left <= px <= right,
                len == buffer@.len(),
                len == old(buffer)@.len(),
                len >= ((bottom - 1) * 320 + right) * 3,
                forall|i: int| FRAME_LEN <= i < len ==> buffer@[i] == old(buffer)@[i],
                forall|qx: int, qy: int, j: int|
                    on_screen(qx, qy) && 0 <= j < 3 && pixel_offset(qx, qy) + j < len
                        ==> #[trigger] channel(buffer@, qx, qy, j) == (if filled_before(
                        qx,
                        qy,
                        left as int,
                        right as int,
                        top as int,
                        py as int,
                        px as int,
                    ) {
                        color[j]
                    } else {
                        channel(old(buffer)@, qx, qy, j)
                    }),
            decreases right - px,
        {
            let offset: usize = ((py as usize) * 320 + (px as usize)) * 3;
            let ghost before = buffer@;
            buffer[offset] = color[0];
            buffer[offset + 1] = color[1];
            buffer[offset + 2] = color[2];
            proof {
                assert forall|qx: int, qy: int, j: int|
                    on_screen(qx, qy) && 0 <= j < 3 && pixel_offset(qx, qy) + j
                        < len implies #[trigger] channel(buffer@, qx, qy, j) == (if filled_before(
                    qx,
                    qy,
                    left as int,
                    right as int,
                    top as int,
                    py as int,
                    px + 1,
                ) {
                    color[j]
                } else {
                    channel(old(buffer)@, qx, qy, j)
                }) by {
                    let i = pixel_offset(qx, qy) + j;
                    if offset <= i < offset + 3 {
                        lemma_offsets_distinct(qx, qy, j, px as int, py as int, i - offset);
                    } else {
                        assert(channel(buffer@, qx, qy, j) == channel(before, qx, qy, j));
                    }
                }
            }
            px = px + 1;
        }
        py = py + 1;
    }
    proof {
        assert forall|qx: int, qy: int, j: int|
            on_screen(qx, qy) && 0 <= j < 3 && pixel_offset(qx, qy) + j < old(
                buffer,
            )@.len() implies #[trigger] channel(buffer@, qx, qy, j) == painted_channel(
            old(buffer)@,
            seq![layer],
            qx,
            qy,
            j,
        ) by {
            lemma_single_layer(layer, qx, qy);
        }
    }
}

/// Sets pixel (`x`, `y`) to `color`; a pixel off screen is ignored.
pub fn put_pixel(buffer: &mut [u8], x: i32, y: i32, color: [u8; 3])
    requires
        on_screen(x as int, y as int) ==> old(buffer)@.len() >= pixel_offset(x as int, y as int)
            + 3,
    ensures
        painted(final(buffer)@, old(buffer)@, seq![rect(x as int, y as int, 1, 1, color)]),
        !on_screen(x as int, y as int) ==> final(buffer)@ == old(buffer)@,
{
    let ghost layer = rect(x as int, y as int, 1, 1, color);
    if x < 0 || y < 0 || x >= 320 || y >= 200 {
        proof {
            assert forall|px: int, py: int, k: int|
                on_screen(px, py) && 0 <= k < 3 && pixel_offset(px, py) + k < old(
                    buffer,
                )@.len() implies #[trigger] channel(old(buffer)@, px, py, k) == painted_channel(
                old(buffer)@,
                seq![layer],
                px,
                py,
                k,
            ) by {
                lemma_single_layer(layer, px, py);
            }
        }
        return;
    }
    let offset: usize = ((y as usize) * 320 + (x as usize)) * 3;
    let ghost before = buffer@;
    buffer[offset] = color[0];
    buffer[offset + 1] = color[1];
    buffer[offset + 2] = color[2];
    proof {
        assert forall|i: int| FRAME_LEN <= i < old(buffer)@.len() implies buffer@[i] == old(
            buffer,
        )@[i] by {
            lemma_offset_in_frame(x as int, y as int, 2);
        }
        assert forall|qx: int, qy: int, j: int|
            on_screen(qx, qy) && 0 <= j < 3 && pixel_offset(qx, qy) + j < old(
                buffer,
            )@.len() implies #[trigger] channel(buffer@, qx, qy, j) == painted_channel(
            old(buffer)@,
            seq![layer],
            qx,
            qy,
            j,
        ) by {
            lemma_single_layer(layer, qx, qy);
            let i = pixel_offset(qx, qy) + j;
            if offset <= i < offset + 3 {
                lemma_offsets_distinct(qx, qy, j, x as int, y as int, i - offset);
            }
        }
    }
}

/// A painted picture is determined: painting the same layers over the same
/// frame gives the same bytes.
pub proof fn lemma_painted_unique(a: Seq<u8>, b: Seq<u8>, old: Seq<u8>, layers: Seq<Paint>)
    requires
        painted(a, old, layers),
        painted(b, old, layers),
    ensures
        a == b,
{
    assert forall|i: int| 0 <= i < a.len() implies a[i] == b[i] by {
        if i < FRAME_LEN {
            let p = i / 3;
            let k = i % 3;
            let px = p % 320;
            let py = p / 320;
            assert(i == p * 3 + k);
            assert(p == py * 320 + px);
            assert(on_screen(px, py));
            assert(i == pixel_offset(px, py) + k);
            assert(channel(a, px, py, k) == channel(b, px, py, k));
        }
    }
    assert(a =~= b);
}

} // verus!
