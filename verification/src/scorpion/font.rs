//! Writing text into a frame with an 8 by 8 bitmap font.

use font8x8::UnicodeFonts;
use vstd::prelude::*;
use vstd::string::*;
use crate::scorpion::image_data::lemma_cell_index;
use crate::scorpion::screen::{HEIGHT, WIDTH};
use crate::text::to_chars;

verus! {

/// The glyph of `c` in the basic set of the `font8x8` crate: eight rows of
/// eight pixels, top row first, the leftmost pixel in the lowest bit; `None`
/// where the set has no such character.
pub uninterp spec fn basic_glyph(c: char) -> Option<Seq<u8>>;

/// Looks `c` up with `font8x8::BASIC_FONTS.get`. Trusted: the outcome
/// depends on `c` alone.
#[verifier::external_body]
pub(crate) fn glyph_of(c: char) -> (g: Option<[u8; 8]>)
    ensures
        match g {
            Some(rows) => basic_glyph(c) == Some(rows@),
            None => basic_glyph(c) is None,
        },
{
    font8x8::BASIC_FONTS.get(c)
}

/// Whether pixel `bit` of a glyph row is set, counted from the left.
pub open spec fn bit_set(row: u8, bit: int) -> bool {
    row & (1u8 << (bit as u8)) != 0
}

/// Whether a glyph with its top left corner at column `cx`, row `y` sets the
/// pixel at column `px`, row `py`. Nothing outside the window is set.
pub open spec fn glyph_covers(cx: int, y: int, rows: Seq<u8>, px: int, py: int) -> bool {
    &&& cx <= px < cx + 8
    &&& px < WIDTH
    &&& y <= py < y + 8
    &&& py < HEIGHT
    &&& bit_set(rows[py - y], px - cx)
}

/// [`glyph_covers`], of the part of the glyph above row `row_limit` and, in
/// that row, left of pixel `bit_limit`.
pub open spec fn glyph_covers_before(
    cx: int,
    y: int,
    rows: Seq<u8>,
    row_limit: int,
    bit_limit: int,
    px: int,
    py: int,
) -> bool {
    &&& glyph_covers(cx, y, rows, px, py)
    &&& (py - y < row_limit || (py - y == row_limit && px - cx < bit_limit))
}

/// The frame `buffer` with a glyph drawn in `color`, its top left corner at
/// column `cx`, row `y`.
pub open spec fn glyph_drawn(buffer: Seq<u32>, cx: int, y: int, rows: Seq<u8>, color: u32) -> Seq<
    u32,
> {
    Seq::new(
        buffer.len(),
        |i: int|
            if glyph_covers(cx, y, rows, i % (WIDTH as int), i / (WIDTH as int)) {
                color
            } else {
                buffer[i]
            },
    )
}

/// Whether pixel `bit` of row `row` of the glyph of `c` is set.
pub open spec fn glyph_bit(c: char, row: int, bit: int) -> bool {
    match basic_glyph(c) {
        Some(rows) => bit_set(rows[row], bit),
        None => false,
    }
}

/// Whether `text`, written from column `x`, row `y`, one character every
/// eight columns, sets the pixel at column `px`, row `py`. A character that
/// starts inside the window is cut at its right edge; one that would start
/// outside is not written, and none after it.
pub open spec fn text_covers(x: int, y: int, text: Seq<char>, px: int, py: int) -> bool {
    &&& x <= px < WIDTH
    &&& y <= py < y + 8
    &&& py < HEIGHT
    &&& (px - x) / 8 < text.len()
    &&& glyph_bit(text[(px - x) / 8], py - y, (px - x) % 8)
}

/// The frame `buffer` with `text` written in `color` from column `x`, row
/// `y`.
pub open spec fn text_drawn(buffer: Seq<u32>, x: int, y: int, text: Seq<char>, color: u32) -> Seq<
    u32,
> {
    Seq::new(
        buffer.len(),
        |i: int|
            if text_covers(x, y, text, i % (WIDTH as int), i / (WIDTH as int)) {
                color
            } else {
                buffer[i]
            },
    )
}

/// Tests one pixel of a glyph row.
pub fn is_bit_set(row: u8, bit: u8) -> (r: bool)
    requires
        bit < 8,
    ensures
        r == bit_set(row, bit as int),
{
    row & (1u8 << bit) != 0
}

/// Draws a glyph into `buffer`, its top left corner at column `cx`, row `y`.
/// What falls outside the window, or outside `buffer`, is left out.
pub fn draw_glyph(buffer: &mut Vec<u32>, cx: usize, y: usize, rows: &[u8; 8], color: u32)
    ensures
        final(buffer)@ == glyph_drawn(old(buffer)@, cx as int, y as int, rows@, color),
{
    let ghost start = buffer@;
    let mut r: usize = 0;
    while r < 8
        invariant
            r <= 8,
            start == old(buffer)@,
            buffer@.len() == start.len(),
            forall|i: int|
                0 <= i < start.len() ==> buffer@[i] == if glyph_covers_before(
                    cx as int,
                    y as int,
                    rows@,
                    r as int,
                    0,
                    i % (WIDTH as int),
                    i / (WIDTH as int),
                ) {
                    color
                } else {
                    start[i]
                },
        decreases 8 - r,
    {
        let mut b: usize = 0;
        while b < 8
            invariant
                r < 8,
                b <= 8,
                start == old(buffer)@,
                buffer@.len() == start.len(),
                forall|i: int|
                    0 <= i < start.len() ==> buffer@[i] == if glyph_covers_before(
                        cx as int,
                        y as int,
                        rows@,
                        r as int,
                        b as int,
                        i % (WIDTH as int),
                        i / (WIDTH as int),
                    ) {
                        color
                    } else {
                        start[i]
                    },
            decreases 8 - b,
        {
            let ghost before = buffer@;
            if y < HEIGHT && y + r < HEIGHT && cx < WIDTH && cx + b < WIDTH && is_bit_set(
                rows[r],
                b as u8,
            ) {
                let px: usize = cx + b;
                let py: usize = y + r;
                proof {
                    lemma_cell_index(px as int, py as int, WIDTH as int, HEIGHT as int);
                }
                let idx: usize = py * WIDTH + px;
                if idx < buffer.len() {
                    buffer[idx] = color;
                }
                assert forall|i: int| 0 <= i < start.len() implies buffer@[i]
                    == if glyph_covers_before(
                    cx as int,
                    y as int,
                    rows@,
                    r as int,
                    b + 1,
                    i % (WIDTH as int),
                    i / (WIDTH as int),
                ) {
                    color
                } else {
                    start[i]
                } by {
                    let qx = i % (WIDTH as int);
                    let qy = i / (WIDTH as int);
                    if i != idx {
                        assert(buffer@[i] == before[i]);
                        if qx == px && qy == py {
                            vstd::arithmetic::div_mod::lemma_fundamental_div_mod(i, WIDTH as int);
                            assert(i == idx) by (nonlinear_arith)
                                requires
                                    i == (WIDTH as int) * (i / (WIDTH as int)) + i % (WIDTH as int),
                                    i / (WIDTH as int) == py,
                                    i % (WIDTH as int) == px,
                                    idx == py * WIDTH + px,
                            ;
                        }
                    }
                }
            } else {
                assert forall|i: int| 0 <= i < start.len() implies buffer@[i]
                    == if glyph_covers_before(
                    cx as int,
                    y as int,
                    rows@,
                    r as int,
                    b + 1,
                    i % (WIDTH as int),
                    i / (WIDTH as int),
                ) {
                    color
                } else {
                    start[i]
                } by {
                    assert(buffer@[i] == before[i]);
                }
            }
            b += 1;
        }
        r += 1;
    }
    assert(buffer@ =~= glyph_drawn(start, cx as int, y as int, rows@, color));
}

/// Writing one more character is drawing its glyph in its cell, where the
/// font has one, and nothing where it has none.
proof fn lemma_text_grows_by_glyph(
    buffer: Seq<u32>,
    x: int,
    y: int,
    text: Seq<char>,
    n: int,
    color: u32,
)
    requires
        0 <= n < text.len(),
        0 <= x,
    ensures
        text_drawn(buffer, x, y, text.take(n + 1), color) == match basic_glyph(text[n]) {
            Some(rows) => glyph_drawn(
                text_drawn(buffer, x, y, text.take(n), color),
                x + 8 * n,
                y,
                rows,
                color,
            ),
            None => text_drawn(buffer, x, y, text.take(n), color),
        },
{
    let shorter = text.take(n);
    let longer = text.take(n + 1);
    let before = text_drawn(buffer, x, y, shorter, color);
    let after = text_drawn(buffer, x, y, longer, color);
    let w = WIDTH as int;
    assert forall|px: int, py: int| text_covers(x, y, longer, px, py) == (text_covers(
        x,
        y,
        shorter,
        px,
        py,
    ) || (x + 8 * n <= px < x + 8 * n + 8 && px < WIDTH && y <= py < y + 8 && py < HEIGHT
        && glyph_bit(text[n], py - y, px - (x + 8 * n)))) by {
        if x <= px {
            let k = (px - x) / 8;
            assert(k == n <==> x + 8 * n <= px < x + 8 * n + 8);
            if k == n {
                assert((px - x) % 8 == px - (x + 8 * n));
                assert(longer[k] == text[n]);
            } else if k < n {
                assert(longer[k] == shorter[k]);
            }
        }
    }
    match basic_glyph(text[n]) {
        Some(rows) => {
            let drawn = glyph_drawn(before, x + 8 * n, y, rows, color);
            assert forall|i: int| 0 <= i < buffer.len() implies after[i] == drawn[i] by {
                assert(glyph_covers(x + 8 * n, y, rows, i % w, i / w) == (x + 8 * n <= i % w < x
                    + 8 * n + 8 && i % w < WIDTH && y <= i / w < y + 8 && i / w < HEIGHT
                    && glyph_bit(text[n], i / w - y, i % w - (x + 8 * n))));
            }
            assert(after =~= drawn);
        },
        None => {
            assert(after =~= before);
        },
    }
}

/// Characters that would start right of the window write nothing.
proof fn lemma_text_cut_at_edge(
    buffer: Seq<u32>,
    x: int,
    y: int,
    text: Seq<char>,
    n: int,
    color: u32,
)
    requires
        0 <= n <= text.len(),
        0 <= x,
        n == text.len() || x + 8 * n >= WIDTH,
    ensures
        text_drawn(buffer, x, y, text.take(n), color) == text_drawn(buffer, x, y, text, color),
{
    let shorter = text.take(n);
    assert forall|px: int, py: int| text_covers(x, y, text, px, py) == text_covers(
        x,
        y,
        shorter,
        px,
        py,
    ) by {
        if x <= px < WIDTH {
            let k = (px - x) / 8;
            if n < text.len() {
                assert(k < n);
            }
            if k < n {
                assert(shorter[k] == text[k]);
            }
        }
    }
    assert(text_drawn(buffer, x, y, shorter, color) =~= text_drawn(buffer, x, y, text, color));
}

/// Writes `text` into `buffer` in `color`, from column `x`, row `y`, one
/// character every eight columns. A character that the font does not have
/// leaves its cell as it was.
pub fn draw_text(buffer: &mut Vec<u32>, x: usize, y: usize, text: &str, color: u32)
    ensures
        final(buffer)@ == text_drawn(old(buffer)@, x as int, y as int, text@, color),
{
    let chars = to_chars(text);
    let ghost start = buffer@;
    let n: usize = chars.len();
    let mut i: usize = 0;
    let mut char_x: usize = x;
    assert(text_drawn(start, x as int, y as int, chars@.take(0), color) =~= start);
    while i < n && char_x < WIDTH
        invariant
            n == chars.len(),
            chars@ == text@,
            start == old(buffer)@,
            i <= n,
            char_x == x + 8 * i || (char_x >= WIDTH && x + 8 * i >= WIDTH),
            buffer@ == text_drawn(start, x as int, y as int, chars@.take(i as int), color),
        decreases n - i,
    {
        proof {
            lemma_text_grows_by_glyph(start, x as int, y as int, chars@, i as int, color);
        }
        match glyph_of(chars[i]) {
            Some(rows) => {
                draw_glyph(buffer, char_x, y, &rows, color);
            },
            None => {},
        }
        i += 1;
        char_x = char_x + 8;
    }
    proof {
        lemma_text_cut_at_edge(start, x as int, y as int, chars@, i as int, color);
    }
}

} // verus!
