//! DONKEY.BAS in four CGA colours: the classic two-lane game in which the
//! donkey walks down the road two pixels at a time, faster as the score
//! grows, and one collision ends the run.
use vstd::prelude::*;
use vstd::string::StringSliceAdditionalSpecFns;
use crate::frame::{
    clear, cleared, fill_rect, fits_i32, lemma_painted_nothing, lemma_painted_then, on_screen,
    painted, pixel_offset, put_pixel, rect, Paint, FRAME_LEN,
};
use crate::text::{draw_text, labelled_number, text_layers, zero_padded};

verus! {

pub const BLACK: [u8; 3] = [0x00, 0x00, 0x00];
pub const CYAN: [u8; 3] = [0x00, 0xAA, 0xAA];
pub const MAGENTA: [u8; 3] = [0xAA, 0x00, 0xAA];
pub const WHITE: [u8; 3] = [0xFF, 0xFF, 0xFF];

pub const ROAD_TOP: i32 = 20;
pub const ROAD_BOTTOM: i32 = 190;
pub const ROAD_TOP_W: i32 = 120;
pub const ROAD_BOTTOM_W: i32 = 260;
pub const ROAD_CENTER_X: i32 = 160;

pub const CAR_W: i32 = 16;
pub const CAR_H: i32 = 12;
pub const DONKEY_H: i32 = 12;
pub const CAR_Y: i32 = 162;

/// The car, sixteen by twelve pixels.
pub const CAR_SPRITE: [&'static str; 12] = [
    "0000001111000000",
    "0000011111100000",
    "0000111111110000",
    "0001111111111000",
    "0011111111111100",
    "0111111111111110",
    "1111001111001111",
    "1111111111111111",
    "1111111111111111",
    "0110000000000110",
    "0110000000000110",
    "0011000000001100",
];

/// The donkey, sixteen by twelve pixels.
pub const DONKEY_SPRITE: [&'static str; 12] = [
    "0000001100110000",
    "0000011111110000",
    "0000111111111000",
    "0001111111111100",
    "0011111111111110",
    "0111111111111111",
    "0111111111111111",
    "0011111111111110",
    "0001111111111100",
    "0001111001111100",
    "0000110000111000",
    "0000110000111000",
];

/// The two lanes of the road.
#[derive(Clone, Copy, Debug, PartialEq, Eq, Structural)]
pub enum Lane {
    Left,
    Right,
}

pub open spec fn lane_x(lane: Lane) -> i32 {
    match lane {
        Lane::Left => 104,
        Lane::Right => 200,
    }
}

impl Lane {
    /// The left edge of a sprite driving in the lane: 48 pixels either side
    /// of the centre line, less half a car.
    pub fn x(self) -> (x: i32)
        ensures
            x == lane_x(self),
            x == (match self {
                Lane::Left => ROAD_CENTER_X - 48 - CAR_W / 2,
                Lane::Right => ROAD_CENTER_X + 48 - CAR_W / 2,
            }),
    {
        match self {
            Lane::Left => ROAD_CENTER_X - 48 - CAR_W / 2,
            Lane::Right => ROAD_CENTER_X + 48 - CAR_W / 2,
        }
    }
}

/// The classic game's state.
pub struct Game {
    pub car_lane: Lane,
    pub donkey_lane: Lane,
    pub donkey_y: i32,
    pub score: u32,
    pub over: bool,
    pub started: bool,
    pub sound_on: bool,
    /// State of the linear congruential generator that picks lanes.
    pub rng: u32,
    pub move_frame_counter: u32,
}

/// One step of the linear congruential generator.
pub open spec fn lcg(x: u32) -> u32 {
    (((x as int) * 1664525 % 0x1_0000_0000 + 1013904223) % 0x1_0000_0000) as u32
}

/// Frames between two steps of the donkey: six, one fewer for every five
/// points, and never fewer than two.
pub open spec fn step_frames(score: u32) -> u32 {
    if score / 5 >= 4 {
        2
    } else {
        (6 - score / 5) as u32
    }
}

impl Game {
    /// The game with a fresh donkey drawn.
    pub open spec fn spawned(self) -> Game {
        let random = lcg(self.rng);
        Game {
            rng: random,
            donkey_lane: if random & 1 == 0 {
                Lane::Left
            } else {
                Lane::Right
            },
            donkey_y: (-DONKEY_H) as i32,
            move_frame_counter: 0,
            ..self
        }
    }

    /// A fresh game, not yet started, seeded with `seed` (zero counts as one).
    pub fn new(seed: u32) -> (game: Game)
        ensures
            game == (Game {
                car_lane: Lane::Left,
                donkey_lane: Lane::Right,
                donkey_y: (-DONKEY_H) as i32,
                score: 0,
                over: false,
                started: false,
                sound_on: true,
                rng: if seed == 0 {
                    1
                } else {
                    seed
                },
                move_frame_counter: 0,
            }),
    {
        Game {
            car_lane: Lane::Left,
            donkey_lane: Lane::Right,
            donkey_y: -DONKEY_H,
            score: 0,
            over: false,
            started: false,
            sound_on: true,
            rng: if seed == 0 {
                1
            } else {
                seed
            },
            move_frame_counter: 0,
        }
    }

    /// A started game with a fresh donkey, seeded with `seed`.
    pub fn reset(&mut self, seed: u32)
        ensures
            *final(self) == (Game { started: true, ..Game::new_spec(seed) }).spawned(),
    {
        *self = Game::new(seed);
        self.started = true;
        self.spawn_donkey();
    }

    /// The fresh game that `new` builds.
    pub open spec fn new_spec(seed: u32) -> Game {
        Game {
            car_lane: Lane::Left,
            donkey_lane: Lane::Right,
            donkey_y: (-DONKEY_H) as i32,
            score: 0,
            over: false,
            started: false,
            sound_on: true,
            rng: if seed == 0 {
                1
            } else {
                seed
            },
            move_frame_counter: 0,
        }
    }

    /// Draws the next number from the generator.
    fn next_u32(&mut self) -> (random: u32)
        ensures
            random == lcg(old(self).rng),
            *final(self) == (Game { rng: random, ..*old(self) }),
    {
        self.rng = self.rng.wrapping_mul(1664525).wrapping_add(1013904223);
        self.rng
    }

    /// Sends a fresh donkey down from above the screen, in the lane given by
    /// the low bit of the next random draw.
    pub fn spawn_donkey(&mut self)
        ensures
            *final(self) == old(self).spawned(),
    {
        self.donkey_lane = if self.next_u32() & 1 == 0 {
            Lane::Left
        } else {
            Lane::Right
        };
        self.donkey_y = -DONKEY_H;
        self.move_frame_counter = 0;
    }

    /// Frames between two steps of the donkey.
    pub fn donkey_step_frames(&self) -> (frames: u32)
        ensures
            frames == step_frames(self.score),
    {
        let speedup = self.score / 5;
        let frames = 6u32.saturating_sub(speedup);
        if frames > 2 {
            frames
        } else {
            2
        }
    }

    /// The donkey overlaps the car: same lane, and its rows meet the car's.
    pub open spec fn spec_collides(self) -> bool {
        self.car_lane == self.donkey_lane && self.donkey_y <= CAR_Y + CAR_H - 1 && self.donkey_y
            + DONKEY_H - 1 >= CAR_Y
    }

    /// No counter leaves its type on the next frame.
    ///
    /// The counter is always advanced; the donkey moves only on a step; its
    /// bottom row is computed only when it shares the car's lane; and the
    /// score is raised only when the donkey leaves the road, where it cannot
    /// meet the car.
    pub open spec fn update_in_range(self) -> bool {
        let steps = self.started && !self.over && self.move_frame_counter + 1 >= step_frames(
            self.score,
        );
        &&& self.started && !self.over ==> self.move_frame_counter < u32::MAX
        &&& steps ==> self.donkey_y + 2 <= i32::MAX
        &&& steps && self.car_lane == self.donkey_lane ==> self.donkey_y + 2 + DONKEY_H
            <= i32::MAX
        &&& steps && self.donkey_y + 2 > ROAD_BOTTOM ==> self.score < u32::MAX
    }

    /// The game after one frame, and how many beeps it sounds.
    pub open spec fn after_update(self) -> (Game, Option<u8>) {
        if !self.started || self.over {
            (self, None)
        } else if self.move_frame_counter + 1 < step_frames(self.score) {
            (Game { move_frame_counter: (self.move_frame_counter + 1) as u32, ..self }, None)
        } else {
            let moved = Game { move_frame_counter: 0, donkey_y: (self.donkey_y + 2) as i32, ..self };
            if moved.spec_collides() {
                (Game { over: true, ..moved }, Some(3u8))
            } else if moved.donkey_y > ROAD_BOTTOM {
                (Game { score: (self.score + 1) as u32, ..moved }.spawned(), Some(1u8))
            } else {
                (moved, None)
            }
        }
    }
}

/// Whether the donkey runs into the car.
pub fn collides(game: &Game) -> (hit: bool)
    requires
        game.car_lane == game.donkey_lane ==> fits_i32(game.donkey_y + DONKEY_H),
    ensures
        hit == game.spec_collides(),
{
    if game.car_lane != game.donkey_lane {
        return false;
    }
    let donkey_top = game.donkey_y;
    let donkey_bottom = game.donkey_y + DONKEY_H - 1;
    let car_top = CAR_Y;
    let car_bottom = CAR_Y + CAR_H - 1;
    donkey_top <= car_bottom && donkey_bottom >= car_top
}

/// Advances the game by one frame: every few frames the donkey steps two
/// pixels down; meeting the car ends the game with three beeps, leaving the
/// road scores a point with one beep and sends the next donkey. Returns the
/// beeps to sound, if any.
pub fn update_logic(game: &mut Game) -> (beeps: Option<u8>)
    requires
        old(game).update_in_range(),
    ensures
        (*final(game), beeps) == old(game).after_update(),
{
    if !game.started || game.over {
        return None;
    }
    game.move_frame_counter = game.move_frame_counter + 1;
    if game.move_frame_counter < game.donkey_step_frames() {
        return None;
    }
    game.move_frame_counter = 0;
    game.donkey_y = game.donkey_y + 2;
    if collides(game) {
        game.over = true;
        return Some(3);
    }
    if game.donkey_y > ROAD_BOTTOM {
        game.score = game.score + 1;
        game.spawn_donkey();
        return Some(1);
    }
    None
}

/// The donkey speeds up as the score grows, from a step every six frames to
/// one every two, and never slows down.
pub proof fn law_classic_speed(score: u32, later: u32)
    requires
        score <= later,
    ensures
        2 <= step_frames(score) <= 6,
        step_frames(later) <= step_frames(score),
        score < 5 ==> step_frames(score) == 6,
        score >= 20 ==> step_frames(score) == 2,
{
}

/// The classic lanes strictly alternate: the generator's multiplier and
/// increment are both odd, so the low bit that picks the lane flips on
/// every draw.
pub proof fn law_classic_lanes_alternate(game: Game)
    ensures
        game.spawned().donkey_lane != game.spawned().spawned().donkey_lane,
        lcg(game.rng) & 1 != game.rng & 1,
{
    let x = game.rng;
    lemma_lcg_flips_parity(x);
    let y = lcg(x);
    lemma_lcg_flips_parity(y);
    assert(x & 1 == x % 2) by (bit_vector);
    assert(y & 1 == y % 2) by (bit_vector);
    let z = lcg(y);
    assert(z & 1 == z % 2) by (bit_vector);
}

/// The generator's step turns an even state odd and an odd one even.
proof fn lemma_lcg_flips_parity(x: u32)
    ensures
        lcg(x) % 2 != x % 2,
{
    let a = (x as int) * 1664525;
    assert(a % 2 == (x as int) % 2) by (nonlinear_arith)
        requires
            a == (x as int) * 1664525,
            x >= 0,
    ;
    vstd::arithmetic::div_mod::lemma_mod_mod(a, 2, 0x8000_0000);
    let m = a % 0x1_0000_0000;
    vstd::arithmetic::div_mod::lemma_mod_mod(m + 1013904223, 2, 0x8000_0000);
}

/// The classic game ends only by a collision, and scores only as a donkey
/// leaves the road: a frame either leaves the game alone (not started, over,
/// or waiting for the next step), moves the donkey two pixels down, ends
/// the game with three beeps when the donkey meets the car, or scores one
/// point with one beep and sends a fresh donkey from above the screen.
pub proof fn law_classic_frame(game: Game)
    requires
        game.update_in_range(),
    ensures
        ({
            let (next, beeps) = game.after_update();
            &&& (!game.started || game.over) ==> next == game && beeps is None
            &&& next.over != game.over ==> beeps == Some(3u8) && next.spec_collides()
            &&& beeps == Some(1u8) ==> next.score == game.score + 1 && next.donkey_y == -DONKEY_H
                && !next.over
            &&& beeps is None ==> next.score == game.score && next.over == game.over
            &&& next.score == game.score || next.score == game.score + 1
        }),
{
}

/// Half the road's width on row `y`, widening evenly from 60 pixels at the
/// top row to 130 at the bottom one (rounded down).
pub open spec fn half_width(y: int) -> int {
    60 + 70 * (y - ROAD_TOP) / 170
}

/// Half the road's width on road row `y`: the linear interpolation from
/// half the top width to half the bottom width, truncated to a pixel.
pub fn road_half_width(y: i32) -> (half: i32)
    requires
        ROAD_TOP <= y <= ROAD_BOTTOM,
    ensures
        half == half_width(y as int),
        60 <= half <= 130,
{
    // Half widths 60 and 130, over 170 rows.
    let t: i32 = y - ROAD_TOP;
    ROAD_TOP_W / 2 + (70 * t) / (ROAD_BOTTOM - ROAD_TOP)
}

/// Row `y` of the road: black tarmac between cyan kerbs, and on alternate
/// stretches of fourteen rows the two magenta lane marks, which close in
/// with the road towards the horizon.
pub open spec fn road_row(y: int) -> Seq<Paint> {
    let half = half_width(y);
    let left = ROAD_CENTER_X - half;
    let right = ROAD_CENTER_X + half;
    let edges = seq![
        rect(left, y, right - left, 1, BLACK),
        rect(left - 2, y, 2, 1, CYAN),
        rect(right, y, 2, 1, CYAN),
    ];
    if ((y + 4) / 14) % 2 == 0 {
        let lane_sep = (half * 48) / (ROAD_BOTTOM_W / 2);
        edges + seq![
            rect(ROAD_CENTER_X - lane_sep / 2 - 1, y, 2, 1, MAGENTA),
            rect(ROAD_CENTER_X + lane_sep / 2 - 1, y, 2, 1, MAGENTA),
        ]
    } else {
        edges
    }
}

/// The first `n` rows of the road, from its top.
pub open spec fn road_rows(n: nat) -> Seq<Paint>
    decreases n,
{
    if n == 0 {
        Seq::empty()
    } else {
        road_rows((n - 1) as nat) + road_row(ROAD_TOP + n - 1)
    }
}

/// Paints one row of the road.
fn draw_road_row(buffer: &mut [u8], y: i32)
    requires
        old(buffer)@.len() >= FRAME_LEN,
        ROAD_TOP <= y <= ROAD_BOTTOM,
    ensures
        painted(final(buffer)@, old(buffer)@, road_row(y as int)),
{
    let ghost start = old(buffer)@;
    let half = road_half_width(y);
    let left = ROAD_CENTER_X - half;
    let right = ROAD_CENTER_X + half;
    fill_rect(buffer, left, y, right - left, 1, BLACK);
    let ghost b1 = buffer@;
    fill_rect(buffer, left - 2, y, 2, 1, CYAN);
    let ghost b2 = buffer@;
    fill_rect(buffer, right, y, 2, 1, CYAN);
    let ghost b3 = buffer@;
    let ghost l0 = rect(left as int, y as int, (right - left) as int, 1, BLACK);
    let ghost l1 = rect(left - 2, y as int, 2, 1, CYAN);
    let ghost l2 = rect(right as int, y as int, 2, 1, CYAN);
    proof {
        lemma_painted_then(start, b1, b2, seq![l0], seq![l1]);
        lemma_painted_then(start, b2, b3, seq![l0] + seq![l1], seq![l2]);
        assert(seq![l0] + seq![l1] + seq![l2] =~= seq![l0, l1, l2]);
    }
    let dash_period: i32 = 14;
    if ((y + 4) / dash_period) % 2 == 0 {
        let lane_sep = (half * 48) / (ROAD_BOTTOM_W / 2);
        let cx_l = ROAD_CENTER_X - lane_sep / 2;
        let cx_r = ROAD_CENTER_X + lane_sep / 2;
        fill_rect(buffer, cx_l - 1, y, 2, 1, MAGENTA);
        let ghost b4 = buffer@;
        fill_rect(buffer, cx_r - 1, y, 2, 1, MAGENTA);
        proof {
            let m0 = rect(cx_l - 1, y as int, 2, 1, MAGENTA);
            let m1 = rect(cx_r - 1, y as int, 2, 1, MAGENTA);
            lemma_painted_then(start, b3, b4, seq![l0, l1, l2], seq![m0]);
            lemma_painted_then(start, b4, buffer@, seq![l0, l1, l2] + seq![m0], seq![m1]);
            assert(seq![l0, l1, l2] + seq![m0] + seq![m1] =~= road_row(y as int));
        }
    } else {
        assert(seq![l0, l1, l2] =~= road_row(y as int));
    }
}

/// Paints the road from its top row to its bottom row.
pub fn draw_road(buffer: &mut [u8])
    requires
        old(buffer)@.len() >= FRAME_LEN,
    ensures
        painted(final(buffer)@, old(buffer)@, road_rows(171)),
{
    proof {
        lemma_painted_nothing(old(buffer)@);
    }
    let mut y = ROAD_TOP;
    while y <= ROAD_BOTTOM
        invariant
            ROAD_TOP <= y <= ROAD_BOTTOM + 1,
            buffer@.len() == old(buffer)@.len(),
            old(buffer)@.len() >= FRAME_LEN,
            painted(buffer@, old(buffer)@, road_rows((y - ROAD_TOP) as nat)),
        decreases ROAD_BOTTOM + 1 - y,
    {
        let ghost before = buffer@;
        draw_road_row(buffer, y);
        proof {
            lemma_painted_then(
                old(buffer)@,
                before,
                buffer@,
                road_rows((y - ROAD_TOP) as nat),
                road_row(y as int),
            );
        }
        y = y + 1;
    }
}

/// The byte rows of a sprite.
pub open spec fn sprite_bytes(sprite: Seq<&str>) -> Seq<Seq<u8>> {
    Seq::new(sprite.len(), |i: int| sprite[i].spec_bytes())
}

/// The pixels lit by the first `n` bytes of a sprite row drawn at (`x`, `y`):
/// one for every `'1'`.
pub open spec fn sprite_row(bytes: Seq<u8>, x: int, y: int, color: [u8; 3], n: nat) -> Seq<Paint>
    decreases n,
{
    if n == 0 {
        Seq::empty()
    } else if bytes[n - 1] == 49u8 {
        sprite_row(bytes, x, y, color, (n - 1) as nat).push(rect(x + n - 1, y, 1, 1, color))
    } else {
        sprite_row(bytes, x, y, color, (n - 1) as nat)
    }
}

/// The pixels lit by the first `n` rows of a sprite drawn at (`x`, `y`).
pub open spec fn sprite_layers(rows: Seq<Seq<u8>>, x: int, y: int, color: [u8; 3], n: nat) -> Seq<
    Paint,
>
    decreases n,
{
    if n == 0 {
        Seq::empty()
    } else {
        sprite_layers(rows, x, y, color, (n - 1) as nat) + sprite_row(
            rows[n - 1],
            x,
            y + n - 1,
            color,
            rows[n - 1].len(),
        )
    }
}

/// Drawing the sprite at (`x`, `y`) stays within `i32` and within a buffer
/// of `len` bytes.
pub open spec fn sprite_fits(len: int, rows: Seq<Seq<u8>>, x: int, y: int) -> bool {
    &&& rows.len() <= i32::MAX
    &&& forall|r: int| 0 <= r < rows.len() ==> #[trigger] rows[r].len() <= i32::MAX
    &&& forall|r: int, c: int|
        0 <= r < rows.len() && 0 <= c < rows[r].len() && #[trigger] rows[r][c] == 49u8
            ==> fits_i32(x + c) && fits_i32(y + r) && (on_screen(x + c, y + r) ==> len
            >= pixel_offset(x + c, y + r) + 3)
}

/// Draws a sprite given as rows of `'0'` and `'1'` characters: every `'1'`
/// lights one pixel in `color`, with the sprite's top left corner at (`x`, `y`).
pub fn draw_sprite(buffer: &mut [u8], sprite: &[&str], x: i32, y: i32, color: [u8; 3])
    requires
        sprite_fits(old(buffer)@.len() as int, sprite_bytes(sprite@), x as int, y as int),
    ensures
        painted(
            final(buffer)@,
            old(buffer)@,
            sprite_layers(sprite_bytes(sprite@), x as int, y as int, color, sprite@.len()),
        ),
{
    let ghost rows = sprite_bytes(sprite@);
    proof {
        lemma_painted_nothing(old(buffer)@);
    }
    let mut row: usize = 0;
    while row < sprite.len()
        invariant
            0 <= row <= sprite@.len(),
            rows == sprite_bytes(sprite@),
            sprite_fits(old(buffer)@.len() as int, rows, x as int, y as int),
            buffer@.len() == old(buffer)@.len(),
            painted(buffer@, old(buffer)@, sprite_layers(rows, x as int, y as int, color, row as nat)),
        decreases sprite@.len() - row,
    {
        let line: &str = sprite[row];
        let bytes = line.as_bytes();
        let ghost row_start = buffer@;
        let ghost done = sprite_layers(rows, x as int, y as int, color, row as nat);
        assert(bytes@ == rows[row as int]);
        proof {
            lemma_painted_nothing(row_start);
            assert(sprite_row(bytes@, x as int, y + row, color, 0) =~= Seq::<Paint>::empty());
        }
        let mut col: usize = 0;
        while col < bytes.len()
            invariant
                0 <= row < sprite@.len(),
                0 <= col <= bytes@.len(),
                rows == sprite_bytes(sprite@),
                bytes@ == rows[row as int],
                sprite_fits(old(buffer)@.len() as int, rows, x as int, y as int),
                buffer@.len() == old(buffer)@.len(),
                painted(buffer@, row_start, sprite_row(bytes@, x as int, y + row, color, col as nat)),
            decreases bytes@.len() - col,
        {
            if bytes[col] == 49u8 {
                assert(rows[row as int][col as int] == 49u8);
                let ghost before = buffer@;
                put_pixel(buffer, x + col as i32, y + row as i32, color);
                proof {
                    lemma_painted_then(
                        row_start,
                        before,
                        buffer@,
                        sprite_row(bytes@, x as int, y + row, color, col as nat),
                        seq![rect(x + col, y + row, 1, 1, color)],
                    );
                    assert(sprite_row(bytes@, x as int, y + row, color, col as nat) + seq![
                        rect(x + col, y + row, 1, 1, color),
                    ] =~= sprite_row(bytes@, x as int, y + row, color, (col + 1) as nat));
                }
            }
            col = col + 1;
        }
        proof {
            lemma_painted_then(
                old(buffer)@,
                row_start,
                buffer@,
                done,
                sprite_row(bytes@, x as int, y + row, color, bytes@.len()),
            );
        }
        row = row + 1;
    }
}

/// Both classic sprites are twelve rows of sixteen ASCII bytes.
proof fn lemma_classic_sprites()
    ensures
        sprite_bytes(CAR_SPRITE@).len() == 12,
        sprite_bytes(DONKEY_SPRITE@).len() == 12,
        forall|r: int| 0 <= r < 12 ==> #[trigger] sprite_bytes(CAR_SPRITE@)[r].len() == 16,
        forall|r: int| 0 <= r < 12 ==> #[trigger] sprite_bytes(DONKEY_SPRITE@)[r].len() == 16,
{
    broadcast use vstd::string::group_string_axioms;

    reveal_strlit("0000001111000000");
    reveal_strlit("0000011111100000");
    reveal_strlit("0000111111110000");
    reveal_strlit("0001111111111000");
    reveal_strlit("0011111111111100");
    reveal_strlit("0111111111111110");
    reveal_strlit("1111001111001111");
    reveal_strlit("1111111111111111");
    reveal_strlit("1111111111111111");
    reveal_strlit("0110000000000110");
    reveal_strlit("0110000000000110");
    reveal_strlit("0011000000001100");
    reveal_strlit("0000001100110000");
    reveal_strlit("0000011111110000");
    reveal_strlit("0000111111111000");
    reveal_strlit("0001111111111100");
    reveal_strlit("0011111111111110");
    reveal_strlit("0111111111111111");
    reveal_strlit("0111111111111111");
    reveal_strlit("0011111111111110");
    reveal_strlit("0001111111111100");
    reveal_strlit("0001111001111100");
    reveal_strlit("0000110000111000");
    reveal_strlit("0000110000111000");
    assert forall|r: int| 0 <= r < 12 implies #[trigger] sprite_bytes(CAR_SPRITE@)[r].len() == 16 by {
        assert(vstd::string::is_ascii(CAR_SPRITE@[r]));
    }
    assert forall|r: int| 0 <= r < 12 implies #[trigger] sprite_bytes(DONKEY_SPRITE@)[r].len() == 16 by {
        assert(vstd::string::is_ascii(DONKEY_SPRITE@[r]));
    }
}

/// The sound indicator: `SOUND ON ` or `SOUND OFF`.
pub open spec fn sound_label(sound_on: bool) -> Seq<char> {
    "SOUND "@ + if sound_on {
        "ON "@
    } else {
        "OFF"@
    }
}

/// The score line: `SCORE ` and the score in at least five digits.
pub open spec fn score_label(score: u32) -> Seq<char> {
    "SCORE "@ + zero_padded(score as nat, 5)
}

/// The message of the moment: how to start, or the crash notice, or none.
pub open spec fn status_layers(game: Game) -> Seq<Paint> {
    if !game.started {
        text_layers("PRESS SPACE TO START"@, 56, 92, 1, WHITE, "PRESS SPACE TO START"@.len())
    } else if game.over {
        text_layers("CRASH!"@, 68, 84, 2, WHITE, "CRASH!"@.len()) + text_layers(
            "R TO RESTART  Q TO QUIT"@,
            50,
            104,
            1,
            WHITE,
            "R TO RESTART  Q TO QUIT"@.len(),
        )
    } else {
        Seq::empty()
    }
}

/// The classic screen, painted over a magenta field: the road, the donkey in
/// white, the car in cyan, the title, the score, the sound setting and the
/// message of the moment.
pub open spec fn classic_layers(game: Game) -> Seq<Paint> {
    road_rows(171) + sprite_layers(
        sprite_bytes(DONKEY_SPRITE@),
        lane_x(game.donkey_lane) as int,
        game.donkey_y as int,
        WHITE,
        12,
    ) + sprite_layers(sprite_bytes(CAR_SPRITE@), lane_x(game.car_lane) as int, CAR_Y as int, CYAN, 12)
        + text_layers("DONKEY.BAS"@, 8, 4, 1, WHITE, "DONKEY.BAS"@.len()) + text_layers(
        score_label(game.score),
        160,
        4,
        1,
        WHITE,
        score_label(game.score).len(),
    ) + text_layers(sound_label(game.sound_on), 8, 14, 1, WHITE, sound_label(game.sound_on).len())
        + status_layers(game)
}

/// A sprite of twelve rows of sixteen bytes fits wherever its bottom row does.
proof fn lemma_classic_sprite_fits(len: int, rows: Seq<Seq<u8>>, x: int, y: int)
    requires
        len >= FRAME_LEN,
        rows.len() == 12,
        forall|r: int| 0 <= r < 12 ==> #[trigger] rows[r].len() == 16,
        0 <= x <= 320,
        fits_i32(y),
        y + 11 <= i32::MAX,
    ensures
        sprite_fits(len, rows, x, y),
{
}

/// Draws the classic screen.
pub fn draw(buffer: &mut [u8], game: &Game)
    requires
        old(buffer)@.len() >= FRAME_LEN,
        game.donkey_y + DONKEY_H - 1 <= i32::MAX,
    ensures
        painted(final(buffer)@, cleared(old(buffer)@, MAGENTA), classic_layers(*game)),
{
    broadcast use vstd::string::group_string_axioms;

    proof {
        lemma_classic_sprites();
        reveal_strlit("DONKEY.BAS");
        reveal_strlit("SCORE ");
        reveal_strlit("SOUND ");
        reveal_strlit("ON ");
        reveal_strlit("OFF");
        reveal_strlit("PRESS SPACE TO START");
        reveal_strlit("CRASH!");
        reveal_strlit("R TO RESTART  Q TO QUIT");
        crate::text::lemma_zero_padded_len(game.score, 5);
    }
    clear(buffer, MAGENTA);
    let ghost field = buffer@;
    draw_road(buffer);
    let ghost after_road = buffer@;
    let ghost road = road_rows(171);

    let donkey_x = game.donkey_lane.x();
    proof {
        lemma_classic_sprite_fits(buffer@.len() as int, sprite_bytes(DONKEY_SPRITE@), donkey_x as int, game.donkey_y as int);
    }
    draw_sprite(buffer, &DONKEY_SPRITE, donkey_x, game.donkey_y, WHITE);
    let ghost donkey = sprite_layers(
        sprite_bytes(DONKEY_SPRITE@),
        donkey_x as int,
        game.donkey_y as int,
        WHITE,
        12,
    );
    proof {
        lemma_painted_then(field, after_road, buffer@, road, donkey);
    }
    let ghost after_donkey = buffer@;

    let car_x = game.car_lane.x();
    proof {
        lemma_classic_sprite_fits(buffer@.len() as int, sprite_bytes(CAR_SPRITE@), car_x as int, CAR_Y as int);
    }
    draw_sprite(buffer, &CAR_SPRITE, car_x, CAR_Y, CYAN);
    let ghost car = sprite_layers(sprite_bytes(CAR_SPRITE@), car_x as int, CAR_Y as int, CYAN, 12);
    proof {
        lemma_painted_then(field, after_donkey, buffer@, road + donkey, car);
    }
    let ghost after_car = buffer@;

    let title = "DONKEY.BAS";
    proof {
        crate::text::lemma_small_text_fits(buffer@.len() as int, title@, 8, 4, 1);
    }
    draw_text(buffer, 8, 4, title, WHITE, 1);
    let ghost title_layers = text_layers(title@, 8, 4, 1, WHITE, title@.len());
    proof {
        lemma_painted_then(field, after_car, buffer@, road + donkey + car, title_layers);
    }
    let ghost after_title = buffer@;

    let score = labelled_number("SCORE ", game.score, 5);
    proof {
        crate::text::lemma_small_text_fits(buffer@.len() as int, score@, 160, 4, 1);
    }
    draw_text(buffer, 160, 4, score.as_str(), WHITE, 1);
    let ghost score_layers = text_layers(score@, 160, 4, 1, WHITE, score@.len());
    proof {
        lemma_painted_then(field, after_title, buffer@, road + donkey + car + title_layers, score_layers);
    }
    let ghost after_score = buffer@;

    let mut sound = String::from_str("SOUND ");
    sound.append(
        if game.sound_on {
            "ON "
        } else {
            "OFF"
        },
    );
    proof {
        crate::text::lemma_small_text_fits(buffer@.len() as int, sound@, 8, 14, 1);
    }
    draw_text(buffer, 8, 14, sound.as_str(), WHITE, 1);
    let ghost sound_layers = text_layers(sound@, 8, 14, 1, WHITE, sound@.len());
    let ghost shown = road + donkey + car + title_layers + score_layers + sound_layers;
    proof {
        lemma_painted_then(
            field,
            after_score,
            buffer@,
            road + donkey + car + title_layers + score_layers,
            sound_layers,
        );
    }
    let ghost after_sound = buffer@;

    if !game.started {
        let prompt = "PRESS SPACE TO START";
        proof {
            crate::text::lemma_small_text_fits(buffer@.len() as int, prompt@, 56, 92, 1);
        }
        draw_text(buffer, 56, 92, prompt, WHITE, 1);
        proof {
            lemma_painted_then(field, after_sound, buffer@, shown, status_layers(*game));
        }
    } else if game.over {
        let crash = "CRASH!";
        proof {
            crate::text::lemma_small_text_fits(buffer@.len() as int, crash@, 68, 84, 2);
        }
        draw_text(buffer, 68, 84, crash, WHITE, 2);
        let ghost mid = buffer@;
        let help = "R TO RESTART  Q TO QUIT";
        proof {
            crate::text::lemma_small_text_fits(buffer@.len() as int, help@, 50, 104, 1);
        }
        draw_text(buffer, 50, 104, help, WHITE, 1);
        proof {
            let a = text_layers(crash@, 68, 84, 2, WHITE, crash@.len());
            let b = text_layers(help@, 50, 104, 1, WHITE, help@.len());
            lemma_painted_then(after_sound, mid, buffer@, a, b);
            lemma_painted_then(field, after_sound, buffer@, shown, a + b);
        }
    } else {
        proof {
            lemma_painted_nothing(after_sound);
            lemma_painted_then(field, after_sound, buffer@, shown, Seq::<Paint>::empty());
            assert(shown + Seq::<Paint>::empty() =~= shown);
        }
    }
}

/// A key command of the classic game.
#[derive(Clone, Copy, Debug, PartialEq, Eq, Structural)]
pub enum Command {
    /// `M`: sound on or off.
    ToggleSound,
    /// `Space`: start the first game.
    Start,
    /// `R`: play again after a crash.
    Retry,
}

/// The game after `command`, and whether it beeps (with the new sound setting).
pub open spec fn after_command(game: Game, command: Command, seed: u32) -> (Game, bool) {
    match command {
        Command::ToggleSound => (Game { sound_on: !game.sound_on, ..game }, true),
        Command::Start => if !game.started {
            ((Game { started: true, ..game }).spawned(), true)
        } else {
            (game, false)
        },
        Command::Retry => if game.over {
            ((Game { started: true, ..Game::new_spec(seed) }).spawned(), true)
        } else {
            (game, false)
        },
    }
}

/// Carries out a key command: sound toggles at any time, the game starts
/// only before its first start, and a retry (seeded with `seed`) only after
/// a crash. Returns whether to beep.
pub fn apply_command(game: &mut Game, command: Command, seed: u32) -> (beep: bool)
    ensures
        (*final(game), beep) == after_command(*old(game), command, seed),
{
    match command {
        Command::ToggleSound => {
            game.sound_on = !game.sound_on;
            true
        },
        Command::Start => {
            if !game.started {
                game.started = true;
                game.spawn_donkey();
                true
            } else {
                false
            }
        },
        Command::Retry => {
            if game.over {
                game.reset(seed);
                true
            } else {
                false
            }
        },
    }
}

/// The car's lane after the arrow keys, and the beeps: while the game is in
/// play, an arrow just pressed moves the car into that lane, with a beep,
/// unless it is already there; left is handled before right.
pub open spec fn after_steering(
    game: Game,
    left_down: bool,
    left_was_down: bool,
    right_down: bool,
    right_was_down: bool,
) -> (Game, u8) {
    if game.started && !game.over {
        let to_left = left_down && !left_was_down && game.car_lane != Lane::Left;
        let lane = if to_left {
            Lane::Left
        } else {
            game.car_lane
        };
        let to_right = right_down && !right_was_down && lane != Lane::Right;
        let beeps: u8 = if to_left && to_right {
            2
        } else if to_left || to_right {
            1
        } else {
            0
        };
        (
            Game {
                car_lane: if to_right {
                    Lane::Right
                } else {
                    lane
                },
                ..game
            },
            beeps,
        )
    } else {
        (game, 0)
    }
}

/// Steers the car from the arrow keys' state now and on the previous frame.
/// Returns how many beeps to sound.
pub fn steer(
    game: &mut Game,
    left_down: bool,
    left_was_down: bool,
    right_down: bool,
    right_was_down: bool,
) -> (beeps: u8)
    ensures
        (*final(game), beeps) == after_steering(
            *old(game),
            left_down,
            left_was_down,
            right_down,
            right_was_down,
        ),
{
    let mut beeps: u8 = 0;
    if game.started && !game.over {
        if left_down && !left_was_down && game.car_lane != Lane::Left {
            game.car_lane = Lane::Left;
            beeps = beeps + 1;
        }
        if right_down && !right_was_down && game.car_lane != Lane::Right {
            game.car_lane = Lane::Right;
            beeps = beeps + 1;
        }
    }
    beeps
}

/// A donkey meets the car only where their rows overlap: in the car's lane,
/// with its top row no lower than the car's bottom row and its bottom row no
/// higher than the car's top row. A frame ends the game exactly when the
/// donkey steps into such a place; a donkey wholly above or below the car,
/// or in the other lane, never ends it.
pub proof fn law_classic_collision_needs_overlapping_rows(game: Game)
    requires
        game.update_in_range(),
    ensures
        game.spec_collides() <==> (game.car_lane == game.donkey_lane && CAR_Y - DONKEY_H + 1
            <= game.donkey_y <= CAR_Y + CAR_H - 1),
        ({
            let (next, beeps) = game.after_update();
            let stepped = game.started && !game.over && game.move_frame_counter + 1 >= step_frames(
                game.score,
            );
            let y = game.donkey_y + 2;
            &&& next.over && !game.over ==> stepped && game.car_lane == game.donkey_lane && CAR_Y
                - DONKEY_H + 1 <= y <= CAR_Y + CAR_H - 1 && beeps == Some(3u8)
            &&& stepped && game.car_lane == game.donkey_lane && CAR_Y - DONKEY_H + 1 <= y <= CAR_Y
                + CAR_H - 1 ==> next.over
            &&& stepped && y > CAR_Y + CAR_H - 1 ==> !next.over
        }),
{
}

/// Only an arrow just pressed steers: with no arrow newly down, the game is
/// left as it was and nothing beeps; the car only ever enters a lane whose
/// arrow has just been pressed, while the game is in play; nothing but the
/// car's lane changes, and each lane change beeps once.
pub proof fn law_classic_steering_needs_a_fresh_press(
    game: Game,
    left_down: bool,
    left_was_down: bool,
    right_down: bool,
    right_was_down: bool,
)
    ensures
        ({
            let (next, beeps) = after_steering(
                game,
                left_down,
                left_was_down,
                right_down,
                right_was_down,
            );
            let fresh_left = left_down && !left_was_down;
            let fresh_right = right_down && !right_was_down;
            &&& !fresh_left && !fresh_right ==> next == game && beeps == 0
            &&& !(game.started && !game.over) ==> next == game && beeps == 0
            &&& next == (Game { car_lane: next.car_lane, ..game })
            &&& next.car_lane == Lane::Left && game.car_lane != Lane::Left ==> fresh_left
                && !fresh_right && game.started && !game.over && beeps == 1
            &&& next.car_lane == Lane::Right && game.car_lane != Lane::Right ==> fresh_right
                && game.started && !game.over && beeps >= 1
            &&& next.car_lane == game.car_lane ==> (beeps == 0 || beeps == 2)
            &&& beeps == 2 ==> fresh_left && fresh_right && game.car_lane == Lane::Right
        }),
{
}

/// Key commands act only in their moment: a retry replaces the game with a
/// fresh one (started, score nought, not over) only after a crash and is
/// otherwise ignored without a beep; a start acts only before the first
/// start; the sound key flips the sound setting alone and always beeps.
pub proof fn law_classic_commands(game: Game, seed: u32)
    ensures
        ({
            let (next, beep) = after_command(game, Command::Retry, seed);
            &&& !game.over ==> next == game && !beep
            &&& game.over ==> beep && next.started && !next.over && next.score == 0
                && next.donkey_y == -DONKEY_H
        }),
        ({
            let (next, beep) = after_command(game, Command::Start, seed);
            &&& game.started ==> next == game && !beep
            &&& !game.started ==> beep && next.started && next.score == game.score
        }),
        ({
            let (next, beep) = after_command(game, Command::ToggleSound, seed);
            &&& beep && next.sound_on == !game.sound_on
            &&& next == (Game { sound_on: next.sound_on, ..game })
        }),
{
}

/// Every pixel lit by the first `n` bytes of a sprite row is a single pixel
/// in `color` on row `y`, between columns `x` and `x + n`; how many are lit
/// does not depend on where the row is drawn.
proof fn lemma_sprite_row_place(bytes: Seq<u8>, x: int, y: int, color: [u8; 3], n: nat)
    requires
        n <= bytes.len(),
    ensures
        sprite_row(bytes, x, y, color, n).len() == sprite_row(bytes, 0, 0, color, n).len(),
        forall|k: int|
            0 <= k < sprite_row(bytes, x, y, color, n).len() ==> {
                let p = #[trigger] sprite_row(bytes, x, y, color, n)[k];
                &&& x <= p.x < x + n
                &&& p.y == y
                &&& p.w == 1
                &&& p.h == 1
                &&& p.color == color
            },
        (exists|j: int| 0 <= j < n && bytes[j] == 49u8) ==> sprite_row(bytes, x, y, color, n).len()
            > 0,
    decreases n,
{
    if n > 0 {
        lemma_sprite_row_place(bytes, x, y, color, (n - 1) as nat);
        lemma_sprite_row_place(bytes, 0, 0, color, (n - 1) as nat);
    }
}

/// Every pixel lit by the first `n` rows of a sprite of rows sixteen bytes
/// long is a single pixel in `color` within the sixteen columns from `x` and
/// the `n` rows from `y`; how many are lit does not depend on where the
/// sprite is drawn, and never falls as rows are added.
proof fn lemma_sprite_place(rows: Seq<Seq<u8>>, x: int, y: int, color: [u8; 3], n: nat)
    requires
        n <= rows.len(),
        forall|r: int| 0 <= r < rows.len() ==> #[trigger] rows[r].len() == 16,
    ensures
        sprite_layers(rows, x, y, color, n).len() == sprite_layers(rows, 0, 0, color, n).len(),
        forall|k: int|
            0 <= k < sprite_layers(rows, x, y, color, n).len() ==> {
                let p = #[trigger] sprite_layers(rows, x, y, color, n)[k];
                &&& x <= p.x < x + 16
                &&& y <= p.y < y + n
                &&& p.w == 1
                &&& p.h == 1
                &&& p.color == color
            },
        forall|m: nat| m <= n ==> #[trigger] sprite_layers(rows, x, y, color, m).len() <= sprite_layers(
            rows,
            x,
            y,
            color,
            n,
        ).len(),
    decreases n,
{
    if n > 0 {
        let before = sprite_layers(rows, x, y, color, (n - 1) as nat);
        let last = sprite_row(rows[n - 1], x, y + n - 1, color, rows[n - 1].len());
        lemma_sprite_place(rows, x, y, color, (n - 1) as nat);
        lemma_sprite_place(rows, 0, 0, color, (n - 1) as nat);
        lemma_sprite_row_place(rows[n - 1], x, y + n - 1, color, rows[n - 1].len());
        lemma_sprite_row_place(rows[n - 1], 0, 0 + n - 1, color, rows[n - 1].len());
        lemma_sprite_row_place(rows[n - 1], 0, 0, color, rows[n - 1].len());
        assert forall|k: int| 0 <= k < sprite_layers(rows, x, y, color, n).len() implies {
            let p = #[trigger] sprite_layers(rows, x, y, color, n)[k];
            &&& x <= p.x < x + 16
            &&& y <= p.y < y + n
            &&& p.w == 1
            &&& p.h == 1
            &&& p.color == color
        } by {
            if k >= before.len() {
                assert(sprite_layers(rows, x, y, color, n)[k] == last[k - before.len()]);
            } else {
                assert(sprite_layers(rows, x, y, color, n)[k] == before[k]);
            }
        }
    }
}

/// The donkey is drawn in its own lane, the lane the rules test for a
/// collision, and the car in the car's: right after the road, the classic
/// picture paints the donkey's pixels in white within the sixteen columns
/// from 104 (left lane) or 200 (right lane) and its twelve rows from
/// `donkey_y`, then the car's pixels in cyan in the same columns of its
/// lane on rows 162 to 173.
pub proof fn law_classic_sprites_drawn_in_their_lanes(game: Game)
    ensures
        ({
            let layers = classic_layers(game);
            let r = road_rows(171).len();
            let n = sprite_layers(sprite_bytes(DONKEY_SPRITE@), 0, 0, WHITE, 12).len();
            let m = sprite_layers(sprite_bytes(CAR_SPRITE@), 0, 0, CYAN, 12).len();
            &&& n > 0
            &&& m > 0
            &&& r + n + m <= layers.len()
            &&& forall|k: int|
                0 <= k < n ==> {
                    let p = #[trigger] layers[r + k];
                    &&& p.color == WHITE
                    &&& p.w == 1
                    &&& p.h == 1
                    &&& game.donkey_y <= p.y < game.donkey_y + 12
                    &&& game.donkey_lane == Lane::Left ==> 104 <= p.x < 120
                    &&& game.donkey_lane == Lane::Right ==> 200 <= p.x < 216
                }
            &&& forall|k: int|
                0 <= k < m ==> {
                    let p = #[trigger] layers[r + n + k];
                    &&& p.color == CYAN
                    &&& p.w == 1
                    &&& p.h == 1
                    &&& 162 <= p.y < 174
                    &&& game.car_lane == Lane::Left ==> 104 <= p.x < 120
                    &&& game.car_lane == Lane::Right ==> 200 <= p.x < 216
                }
        }),
{
    lemma_classic_sprites();
    let donkey = sprite_bytes(DONKEY_SPRITE@);
    let car = sprite_bytes(CAR_SPRITE@);
    let dx = lane_x(game.donkey_lane) as int;
    let cx = lane_x(game.car_lane) as int;
    lemma_sprite_place(donkey, dx, game.donkey_y as int, WHITE, 12);
    lemma_sprite_place(donkey, 0, 0, WHITE, 12);
    lemma_sprite_place(car, cx, CAR_Y as int, CYAN, 12);
    lemma_sprite_place(car, 0, 0, CYAN, 12);
    lemma_sprite_rows_lit();
    lemma_sprite_row_place(donkey[0], 0, 0, WHITE, 16);
    lemma_sprite_row_place(car[0], 0, 0, CYAN, 16);
    assert(sprite_layers(donkey, 0, 0, WHITE, 1).len() > 0) by {
        assert(donkey[0][6] == 49u8);
        assert(sprite_layers(donkey, 0, 0, WHITE, 0).len() == 0);
    }
    assert(sprite_layers(car, 0, 0, CYAN, 1).len() > 0) by {
        assert(car[0][6] == 49u8);
        assert(sprite_layers(car, 0, 0, CYAN, 0).len() == 0);
    }
    let d = sprite_layers(donkey, dx, game.donkey_y as int, WHITE, 12);
    let c = sprite_layers(car, cx, CAR_Y as int, CYAN, 12);
    let road = road_rows(171);
    let layers = classic_layers(game);
    assert forall|k: int| 0 <= k < d.len() implies #[trigger] layers[road.len() + k] == d[k] by {
        assert((road + d)[road.len() + k] == d[k]);
    }
    assert forall|k: int| 0 <= k < c.len() implies #[trigger] layers[road.len() + d.len() + k]
        == c[k] by {
        assert((road + d + c)[road.len() + d.len() + k] == c[k]);
    }
}

/// The first row of each classic sprite lights its seventh pixel.
proof fn lemma_sprite_rows_lit()
    ensures
        sprite_bytes(DONKEY_SPRITE@)[0][6] == 49u8,
        sprite_bytes(CAR_SPRITE@)[0][6] == 49u8,
{
    broadcast use vstd::string::group_string_axioms;

    reveal_strlit("0000001111000000");
    reveal_strlit("0000001100110000");
    assert(vstd::string::is_ascii(DONKEY_SPRITE@[0]));
    assert(vstd::string::is_ascii(CAR_SPRITE@[0]));
    assert(DONKEY_SPRITE@[0]@[6] == '1');
    assert(CAR_SPRITE@[0]@[6] == '1');
}

} // verus!
