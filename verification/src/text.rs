//! Bitmap text: characters drawn from font8x8's Basic Latin glyphs, and the
//! zero-padded numbers of the scoreboard.
use vstd::prelude::*;
use crate::frame::{
    fill_rect, fill_rect_fits, fits_i32, lemma_painted_nothing, lemma_painted_then,
    lemma_painted_unique, painted, rect, Paint, FRAME_LEN,
};

verus! {

/// The eight rows of font8x8's Basic Latin glyph for `c`, top row first; bit
/// `n` of a row lights column `n`.
pub uninterp spec fn basic_glyph(c: char) -> Seq<u8>;

/// font8x8's `BASIC_FONTS.get(c)`: it holds a glyph for exactly the 128 Basic
/// Latin characters (U+0000 to U+007F), each of eight rows.
#[verifier::external_body]
fn font_glyph(c: char) -> (glyph: Option<[u8; 8]>)
    ensures
        glyph is Some <==> (c as u32) < 128,
        glyph matches Some(rows) ==> rows@ == basic_glyph(c),
{
    font8x8::UnicodeFonts::get(&font8x8::BASIC_FONTS, c)
}

/// The glyph's cell at `row`, `col` is lit.
pub open spec fn glyph_bit(rows: Seq<u8>, row: int, col: int) -> bool {
    (rows[row] >> (col as u8)) & 1u8 == 1u8
}

/// The squares painted for the first `n` cells, in reading order, of a glyph
/// drawn at (`x`, `y`) with `scale` pixels per cell.
pub open spec fn glyph_cells(rows: Seq<u8>, x: int, y: int, scale: int, color: [u8; 3], n: nat) -> Seq<
    Paint,
>
    decreases n,
{
    if n == 0 {
        Seq::empty()
    } else {
        let t = n - 1;
        let row = t / 8;
        let col = t % 8;
        let earlier = glyph_cells(rows, x, y, scale, color, (n - 1) as nat);
        if glyph_bit(rows, row, col) {
            earlier.push(rect(x + col * scale, y + row * scale, scale, scale, color))
        } else {
            earlier
        }
    }
}

/// The squares painted for character `c` drawn at (`x`, `y`): none for a
/// character outside Basic Latin.
pub open spec fn char_layers(c: char, x: int, y: int, scale: int, color: [u8; 3]) -> Seq<Paint> {
    if (c as u32) < 128 {
        glyph_cells(basic_glyph(c), x, y, scale, color, 64)
    } else {
        Seq::empty()
    }
}

/// Painting the square of one cell stays within `i32` and within a buffer
/// of `len` bytes.
pub open spec fn cell_fits(len: int, x: int, y: int, scale: int, row: int, col: int) -> bool {
    &&& fits_i32(col * scale)
    &&& fits_i32(x + col * scale)
    &&& fits_i32(row * scale)
    &&& fits_i32(y + row * scale)
    &&& fill_rect_fits(len, x + col * scale, y + row * scale, scale, scale)
}

/// Drawing `c` at (`x`, `y`) stays within `i32` and the buffer for every
/// lit cell.
pub open spec fn char_fits(len: int, c: char, x: int, y: int, scale: int) -> bool {
    (c as u32) < 128 ==> forall|row: int, col: int|
        0 <= row < 8 && 0 <= col < 8 && #[trigger] glyph_bit(basic_glyph(c), row, col) ==> cell_fits(
            len,
            x,
            y,
            scale,
            row,
            col,
        )
}

proof fn lemma_cell_index(row: int, col: int)
    requires
        0 <= row < 8,
        0 <= col < 8,
    ensures
        (row * 8 + col) / 8 == row,
        (row * 8 + col) % 8 == col,
{
}

/// Draws character `c` at (`x`, `y`), each glyph cell a `scale` x `scale`
/// square; a character without a Basic Latin glyph draws nothing.
pub fn draw_char(buffer: &mut [u8], x: i32, y: i32, c: char, color: [u8; 3], scale: i32)
    requires
        char_fits(old(buffer)@.len() as int, c, x as int, y as int, scale as int),
    ensures
        painted(final(buffer)@, old(buffer)@, char_layers(c, x as int, y as int, scale as int, color)),
{
    proof {
        lemma_painted_nothing(old(buffer)@);
    }
    if let Some(glyph) = font_glyph(c) {
        let ghost rows = glyph@;
        let mut row: usize = 0;
        while row < 8
            invariant
                0 <= row <= 8,
                rows == basic_glyph(c),
                rows == glyph@,
                (c as u32) < 128,
                buffer@.len() == old(buffer)@.len(),
                char_fits(old(buffer)@.len() as int, c, x as int, y as int, scale as int),
                painted(
                    buffer@,
                    old(buffer)@,
                    glyph_cells(rows, x as int, y as int, scale as int, color, (row * 8) as nat),
                ),
            decreases 8 - row,
        {
            let bits = glyph[row];
            let mut col: i32 = 0;
            while col < 8
                invariant
                    0 <= row < 8,
                    0 <= col <= 8,
                    rows == basic_glyph(c),
                    bits == rows[row as int],
                    buffer@.len() == old(buffer)@.len(),
                    char_fits(old(buffer)@.len() as int, c, x as int, y as int, scale as int),
                    (c as u32) < 128,
                    painted(
                        buffer@,
                        old(buffer)@,
                        glyph_cells(
                            rows,
                            x as int,
                            y as int,
                            scale as int,
                            color,
                            (row * 8 + col) as nat,
                        ),
                    ),
                decreases 8 - col,
            {
                let ghost n = (row * 8 + col) as nat;
                proof {
                    lemma_cell_index(row as int, col as int);
                }
                let ghost before = buffer@;
                if (bits >> (col as u8)) & 1 == 1 {
                    assert(glyph_bit(rows, row as int, col as int));
                    assert(cell_fits(
                        old(buffer)@.len() as int,
                        x as int,
                        y as int,
                        scale as int,
                        row as int,
                        col as int,
                    ));
                    let cell_x = x + col * scale;
                    let cell_y = y + (row as i32) * scale;
                    fill_rect(buffer, cell_x, cell_y, scale, scale, color);
                    proof {
                        let earlier = glyph_cells(rows, x as int, y as int, scale as int, color, n);
                        let square = rect(cell_x as int, cell_y as int, scale as int, scale as int, color);
                        lemma_painted_then(old(buffer)@, before, buffer@, earlier, seq![square]);
                        assert(earlier.push(square) =~= earlier + seq![square]);
                    }
                } else {
                    assert(!glyph_bit(rows, row as int, col as int));
                }
                col = col + 1;
            }
            row = row + 1;
        }
    } else {
        assert(char_layers(c, x as int, y as int, scale as int, color) =~= Seq::<Paint>::empty());
    }
}

/// The squares painted for the first `n` characters of `chars` drawn from
/// (`x`, `y`), each character `8 * scale` pixels right of the previous one.
pub open spec fn text_layers(chars: Seq<char>, x: int, y: int, scale: int, color: [u8; 3], n: nat) -> Seq<
    Paint,
>
    decreases n,
{
    if n == 0 {
        Seq::empty()
    } else {
        text_layers(chars, x, y, scale, color, (n - 1) as nat) + char_layers(
            chars[n - 1],
            x + 8 * scale * (n - 1),
            y,
            scale,
            color,
        )
    }
}

/// Drawing `chars` from (`x`, `y`) stays within `i32`, the cursor's final
/// advance included, and within a buffer of `len` bytes.
pub open spec fn text_fits(len: int, chars: Seq<char>, x: int, y: int, scale: int) -> bool {
    &&& chars.len() > 0 ==> fits_i32(8 * scale)
    &&& forall|k: int|
        0 <= k < chars.len() ==> #[trigger] char_fits(len, chars[k], x + 8 * scale * k, y, scale)
            && fits_i32(x + 8 * scale * (k + 1))
}

/// Draws `text` from (`x`, `y`), one character every `8 * scale` pixels.
pub fn draw_text(buffer: &mut [u8], x: i32, y: i32, text: &str, color: [u8; 3], scale: i32)
    requires
        text_fits(old(buffer)@.len() as int, text@, x as int, y as int, scale as int),
    ensures
        painted(
            final(buffer)@,
            old(buffer)@,
            text_layers(text@, x as int, y as int, scale as int, color, text@.len()),
        ),
{
    broadcast use vstd::string::group_string_axioms;

    proof {
        lemma_painted_nothing(old(buffer)@);
    }
    let mut cursor = x;
    for c in it: text.chars()
        invariant
            it.seq() == text@,
            buffer@.len() == old(buffer)@.len(),
            text_fits(old(buffer)@.len() as int, text@, x as int, y as int, scale as int),
            cursor == x + 8 * scale * it.index(),
            painted(
                buffer@,
                old(buffer)@,
                text_layers(text@, x as int, y as int, scale as int, color, it.index() as nat),
            ),
    {
        let ghost k = it.index();
        let ghost before = buffer@;
        assert(text@[k] == c);
        assert(char_fits(
            old(buffer)@.len() as int,
            text@[k],
            x + 8 * scale * k,
            y as int,
            scale as int,
        ));
        draw_char(buffer, cursor, y, c, color, scale);
        proof {
            lemma_painted_then(
                old(buffer)@,
                before,
                buffer@,
                text_layers(text@, x as int, y as int, scale as int, color, k as nat),
                char_layers(c, cursor as int, y as int, scale as int, color),
            );
            assert(x + 8 * scale * (k + 1) == x + 8 * scale * k + 8 * scale) by (nonlinear_arith);
        }
        cursor = cursor + 8 * scale;
    }
}

/// The character of decimal digit `d`.
pub open spec fn digit_char(d: int) -> char {
    if d == 0 {
        '0'
    } else if d == 1 {
        '1'
    } else if d == 2 {
        '2'
    } else if d == 3 {
        '3'
    } else if d == 4 {
        '4'
    } else if d == 5 {
        '5'
    } else if d == 6 {
        '6'
    } else if d == 7 {
        '7'
    } else if d == 8 {
        '8'
    } else {
        '9'
    }
}

/// The decimal digits of `n`, most significant first, without leading zeros.
pub open spec fn decimal(n: nat) -> Seq<char>
    decreases n,
{
    if n < 10 {
        seq![digit_char(n as int)]
    } else {
        decimal(n / 10).push(digit_char((n % 10) as int))
    }
}

/// `n` in decimal, with leading zeros up to `width` characters.
pub open spec fn zero_padded(n: nat, width: nat) -> Seq<char> {
    let digits = decimal(n);
    if digits.len() >= width {
        digits
    } else {
        Seq::new((width - digits.len()) as nat, |i: int| '0') + digits
    }
}

/// The one-character text of decimal digit `d`.
fn digit_text(d: u32) -> (text: &'static str)
    requires
        d < 10,
    ensures
        text@ == seq![digit_char(d as int)],
{
    proof {
        reveal_strlit("0");
        reveal_strlit("1");
        reveal_strlit("2");
        reveal_strlit("3");
        reveal_strlit("4");
        reveal_strlit("5");
        reveal_strlit("6");
        reveal_strlit("7");
        reveal_strlit("8");
        reveal_strlit("9");
    }
    match d {
        0 => "0",
        1 => "1",
        2 => "2",
        3 => "3",
        4 => "4",
        5 => "5",
        6 => "6",
        7 => "7",
        8 => "8",
        _ => "9",
    }
}

/// Appends the decimal digits of `n` to `out`.
fn append_decimal(out: &mut String, n: u32)
    ensures
        final(out)@ == old(out)@ + decimal(n as nat),
    decreases n,
{
    if n >= 10 {
        append_decimal(out, n / 10);
    }
    out.append(digit_text(n % 10));
    proof {
        if n >= 10 {
            assert(decimal(n as nat) == decimal((n / 10) as nat).push(digit_char((n % 10) as int)));
        }
    }
}

/// How many decimal digits `n` has.
fn decimal_len(n: u32) -> (count: usize)
    ensures
        count == decimal(n as nat).len(),
{
    proof {
        lemma_u32_digits(n);
        lemma_decimal_len(n as nat, 0);
    }
    let mut count: usize = 1;
    let mut rest = n;
    while rest >= 10
        invariant
            1 <= count <= 10,
            decimal(n as nat).len() == count - 1 + decimal(rest as nat).len(),
            count - 1 + decimal(rest as nat).len() <= 10,
        decreases rest,
    {
        proof {
            lemma_decimal_len(rest as nat, 0);
        }
        rest = rest / 10;
        count = count + 1;
    }
    count
}

/// Ten to the power `k`.
pub open spec fn pow10(k: nat) -> nat
    decreases k,
{
    if k == 0 {
        1
    } else {
        10 * pow10((k - 1) as nat)
    }
}

/// A number has at least one digit, one more than a tenth of it when it is
/// ten or more, and at most `k` digits when it is below ten to the `k`.
proof fn lemma_decimal_len(n: nat, k: nat)
    ensures
        decimal(n).len() >= 1,
        n >= 10 ==> decimal(n).len() == decimal(n / 10).len() + 1,
        k >= 1 && n < pow10(k) ==> decimal(n).len() <= k,
    decreases n,
{
    if n >= 10 {
        if k >= 1 && n < pow10(k) {
            assert(pow10(k) == 10 * pow10((k - 1) as nat));
            assert(n / 10 < pow10((k - 1) as nat));
            if k == 1 {
                assert(false);
            }
        }
        lemma_decimal_len(n / 10, (k - 1) as nat);
    }
}

/// Every `u32` has at most ten digits.
proof fn lemma_u32_digits(n: u32)
    ensures
        decimal(n as nat).len() <= 10,
{
    reveal_with_fuel(pow10, 11);
    assert(pow10(10) == 10_000_000_000);
    lemma_decimal_len(n as nat, 10);
}

/// `value` in decimal, padded with leading zeros to `width` characters, as
/// `format!("{:0width$}", value)` writes it.
pub fn zero_padded_text(value: u32, width: usize) -> (text: String)
    ensures
        text@ == zero_padded(value as nat, width as nat),
{
    let mut text = String::new();
    let digits = decimal_len(value);
    let mut pad: usize = 0;
    while pad + digits < width
        invariant
            text@ == Seq::new(pad as nat, |i: int| '0'),
            digits == decimal(value as nat).len(),
            pad + digits <= width || pad == 0,
        decreases width - pad,
    {
        proof {
            reveal_strlit("0");
        }
        text.append("0");
        assert(text@ =~= Seq::new((pad + 1) as nat, |i: int| '0'));
        pad = pad + 1;
    }
    append_decimal(&mut text, value);
    assert(text@ =~= zero_padded(value as nat, width as nat));
    text
}

/// `prefix` followed by `value` padded with zeros to `width` digits, as
/// `format!("{prefix}{value:0width$}")` writes it.
pub fn labelled_number(prefix: &str, value: u32, width: usize) -> (text: String)
    ensures
        text@ == prefix@ + zero_padded(value as nat, width as nat),
{
    let mut text = String::from_str(prefix);
    let number = zero_padded_text(value, width);
    text.append(number.as_str());
    text
}

/// Text of at most forty characters, at scale one or two, starting on
/// screen, stays within `i32`.
pub proof fn lemma_small_text_fits(len: int, chars: Seq<char>, x: int, y: int, scale: int)
    requires
        len >= FRAME_LEN,
        0 <= x <= 320,
        0 <= y <= 200,
        1 <= scale <= 2,
        chars.len() <= 40,
    ensures
        text_fits(len, chars, x, y, scale),
{
    assert forall|k: int| 0 <= k < chars.len() implies #[trigger] char_fits(
        len,
        chars[k],
        x + 8 * scale * k,
        y,
        scale,
    ) && fits_i32(x + 8 * scale * (k + 1)) by {
        assert(0 <= 8 * scale * k <= 640 && 0 <= 8 * scale * (k + 1) <= 656) by (nonlinear_arith)
            requires
                0 <= k < 40,
                1 <= scale <= 2,
        ;
        assert forall|row: int, col: int|
            0 <= row < 8 && 0 <= col < 8 && #[trigger] glyph_bit(
                basic_glyph(chars[k]),
                row,
                col,
            ) implies cell_fits(len, x + 8 * scale * k, y, scale, row, col) by {
            assert(0 <= col * scale <= 14 && 0 <= row * scale <= 14) by (nonlinear_arith)
                requires
                    0 <= row < 8,
                    0 <= col < 8,
                    1 <= scale <= 2,
            ;
        }
    }
}

/// A `u32` padded to `width` digits has `width` characters, or its own
/// digits when it has more, at most ten.
pub proof fn lemma_zero_padded_len(n: u32, width: nat)
    ensures
        zero_padded(n as nat, width).len() == (if decimal(n as nat).len() >= width {
            decimal(n as nat).len()
        } else {
            width
        }),
        zero_padded(n as nat, width).len() <= (if width > 10 {
            width
        } else {
            10
        }),
{
    lemma_u32_digits(n);
}

/// The squares of the first `n` characters depend only on those characters.
proof fn lemma_text_layers_prefix(
    a: Seq<char>,
    b: Seq<char>,
    x: int,
    y: int,
    scale: int,
    color: [u8; 3],
    n: nat,
)
    requires
        n <= a.len(),
        n <= b.len(),
        forall|i: int| 0 <= i < n ==> a[i] == b[i],
    ensures
        text_layers(a, x, y, scale, color, n) == text_layers(b, x, y, scale, color, n),
    decreases n,
{
    if n > 0 {
        lemma_text_layers_prefix(a, b, x, y, scale, color, (n - 1) as nat);
    }
}

/// The squares of `first + second` up to `first.len() + k` characters are
/// those of `first`, then those of the first `k` characters of `second`
/// drawn where `first` ends.
proof fn lemma_text_layers_concat(
    first: Seq<char>,
    second: Seq<char>,
    x: int,
    y: int,
    scale: int,
    color: [u8; 3],
    k: nat,
)
    requires
        k <= second.len(),
    ensures
        text_layers(first + second, x, y, scale, color, first.len() + k) == text_layers(
            first,
            x,
            y,
            scale,
            color,
            first.len(),
        ) + text_layers(second, x + 8 * scale * first.len(), y, scale, color, k),
    decreases k,
{
    let both = first + second;
    let start = x + 8 * scale * first.len();
    if k == 0 {
        lemma_text_layers_prefix(both, first, x, y, scale, color, first.len());
        assert(text_layers(second, start, y, scale, color, 0) =~= Seq::<Paint>::empty());
        assert(text_layers(first, x, y, scale, color, first.len()) + Seq::<Paint>::empty()
            =~= text_layers(first, x, y, scale, color, first.len()));
    } else {
        lemma_text_layers_concat(first, second, x, y, scale, color, (k - 1) as nat);
        let n: nat = (first.len() + k - 1) as nat;
        assert(both[n as int] == second[k - 1]);
        assert(x + 8 * scale * n == start + 8 * scale * (k - 1)) by (nonlinear_arith)
            requires
                n == first.len() + k - 1,
                start == x + 8 * scale * first.len(),
        ;
        assert(text_layers(both, x, y, scale, color, (n + 1) as nat) == text_layers(
            both,
            x,
            y,
            scale,
            color,
            n,
        ) + char_layers(both[n as int], x + 8 * scale * n, y, scale, color));
        assert(text_layers(first, x, y, scale, color, first.len()) + text_layers(
            second,
            start,
            y,
            scale,
            color,
            (k - 1) as nat,
        ) + char_layers(second[k - 1], start + 8 * scale * (k - 1), y, scale, color)
            =~= text_layers(first, x, y, scale, color, first.len()) + text_layers(
            second,
            start,
            y,
            scale,
            color,
            k,
        ));
    }
}

/// Text concatenates: drawing `first + second` paints the squares of
/// `first`, then those of `second` drawn `8 * scale` pixels per character of
/// `first` further right; and drawing no text paints nothing.
pub proof fn law_text_concatenates(
    first: Seq<char>,
    second: Seq<char>,
    x: int,
    y: int,
    scale: int,
    color: [u8; 3],
)
    ensures
        text_layers(first + second, x, y, scale, color, (first + second).len()) == text_layers(
            first,
            x,
            y,
            scale,
            color,
            first.len(),
        ) + text_layers(second, x + 8 * scale * first.len(), y, scale, color, second.len()),
        text_layers(Seq::<char>::empty(), x, y, scale, color, 0) == Seq::<Paint>::empty(),
{
    lemma_text_layers_concat(first, second, x, y, scale, color, second.len());
}

/// `draw_text` concatenates: drawing `first + second` at `x` leaves the
/// frame exactly as drawing `first` at `x` and then `second` where `first`
/// ends; and drawing empty text leaves the frame as it was.
pub proof fn law_draw_text_concatenates(
    start: Seq<u8>,
    after_first: Seq<u8>,
    after_second: Seq<u8>,
    after_both: Seq<u8>,
    after_nothing: Seq<u8>,
    first: Seq<char>,
    second: Seq<char>,
    x: int,
    y: int,
    scale: int,
    color: [u8; 3],
)
    requires
        painted(after_first, start, text_layers(first, x, y, scale, color, first.len())),
        painted(
            after_second,
            after_first,
            text_layers(second, x + 8 * scale * first.len(), y, scale, color, second.len()),
        ),
        painted(
            after_both,
            start,
            text_layers(first + second, x, y, scale, color, (first + second).len()),
        ),
        painted(after_nothing, start, text_layers(Seq::<char>::empty(), x, y, scale, color, 0)),
    ensures
        after_both == after_second,
        after_nothing == start,
{
    law_text_concatenates(first, second, x, y, scale, color);
    lemma_painted_then(
        start,
        after_first,
        after_second,
        text_layers(first, x, y, scale, color, first.len()),
        text_layers(second, x + 8 * scale * first.len(), y, scale, color, second.len()),
    );
    lemma_painted_unique(
        after_both,
        after_second,
        start,
        text_layers(first + second, x, y, scale, color, (first + second).len()),
    );
    lemma_painted_nothing(start);
    lemma_painted_unique(after_nothing, start, start, Seq::<Paint>::empty());
}

} // verus!
