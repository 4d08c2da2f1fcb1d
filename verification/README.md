# Donkey Run

A neon arcade dodger in the spirit of `DONKEY.BAS`: drive at night, dodge the
oncoming donkeys, chase near-miss combos and keep a best score. The crate also
holds the classic four-colour two-lane game.

The rules, the pixel painting and the score file format live in `src/` and
are proved with Verus; `app/` is the SDL2 front end around them.

## Layout

- `src/game.rs` — lives, countdown, scoring, combos, difficulty and the
  traffic generator of the neon game, with the laws they keep.
- `src/frame.rs` — the 320 x 200 RGB frame and rectangle painting; every
  picture is specified as a list of rectangles painted in order.
- `src/text.rs` — bitmap text from font8x8's Basic Latin glyphs, and
  zero-padded numbers.
- `src/render.rs` — the night city (sky, sun, stars, skyline with flickering
  windows), roadside trees and the heads-up display.
- `src/cga.rs` — the classic game: rules, road, sprites and screen.
- `src/score.rs` — where the best score is kept and how it is written and
  read back.
- `src/audio.rs` — the tones, rests and noise of each sound effect.
- `app/` — window, input, frame clock, beeper, audio synthesis, the
  floating-point motion and perspective of the neon road, and file access.

## Controls

| Action | Keyboard |
| --- | --- |
| Steer | Left / Right arrows |
| Start | Space |
| Retry | R |
| Toggle sound | M |
| Quit | Escape or Q |

## High scores

The best score is kept in `~/.donkey-bas/high-score`, or in
`$DONKEY_BAS_DATA_DIR/high-score` when that variable is set.
