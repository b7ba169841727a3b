//! 8 x 16 glyphs drawn into the frame buffer.
use vstd::prelude::*;
use crate::graphics::{
    fits, lemma_other_index, lemma_pixel_index, lemma_row_col, pixel_index, pixel_value, Graphics,
    PixelColor,
};

verus! {

pub const GLYPH_WIDTH: usize = 8;
pub const GLYPH_HEIGHT: usize = 16;

/// Bit `7 - dx` of row `dy` of a glyph marks a pixel of the glyph.
pub open spec fn glyph_bit(glyph: [u8; 16], dx: int, dy: int) -> bool {
    (glyph@[dy] >> ((7 - dx) as u8)) & 1 == 1
}

/// Index `i` is a visible pixel of the glyph box at `(x, y)` among its rows
/// before `dy` and the cells of row `dy` before `dx`.
pub open spec fn glyph_cell_before(g: Graphics, x: usize, y: usize, i: int, dy: int, dx: int) -> bool {
    let s = g.cfg.pixels_per_scan_line as int;
    let row = i / s;
    let col = i % s;
    &&& s > 0
    &&& i >= 0
    &&& row < g.cfg.vertical_resolution
    &&& col < g.cfg.horizontal_resolution
    &&& x <= col < x + GLYPH_WIDTH
    &&& y <= row
    &&& (row - y < dy || (row - y == dy && col - x < dx))
}

/// The frame buffer `fb` with `glyph` drawn in `color` at `(x, y)`: the
/// glyph's pixels that are on the screen take the color, the rest keep their
/// value.
pub open spec fn glyph_drawn(g: Graphics, x: usize, y: usize, glyph: [u8; 16], color: PixelColor, fb: Seq<u32>) -> Seq<u32> {
    let s = g.cfg.pixels_per_scan_line as int;
    Seq::new(
        fb.len(),
        |i: int|
            if glyph_cell_before(g, x, y, i, GLYPH_HEIGHT as int, 0) && glyph_bit(glyph, i % s - x, i / s - y) {
                pixel_value(g.cfg.pixel_format, color)
            } else {
                fb[i]
            },
    )
}

/// What drawing character `c` gives: its glyph when the font has one, else
/// nothing.
pub open spec fn char_drawn(g: Graphics, font: Seq<[u8; 16]>, x: usize, y: usize, c: char, color: PixelColor, fb: Seq<u32>) -> Seq<u32> {
    if (c as int) < font.len() {
        glyph_drawn(g, x, y, font[c as int], color, fb)
    } else {
        fb
    }
}

/// Draws the glyph of `c` from `font` with its top left corner at `(x, y)`;
/// a character beyond the font is not drawn.
pub fn write_ascii(g: &Graphics, fb: &mut [u32], font: &Vec<[u8; 16]>, x: usize, y: usize, c: char, color: &PixelColor)
    requires
        fits(g.cfg, old(fb)@.len() as int),
    ensures
        final(fb)@ == char_drawn(*g, font@, x, y, c, *color, old(fb)@),
{
    if c as usize >= font.len() {
        return;
    }
    let glyph = font[c as usize];
    let ghost f0 = fb@;
    let ghost s = g.cfg.pixels_per_scan_line as int;
    let ghost target = glyph_drawn(*g, x, y, glyph, *color, f0);
    let mut dy: usize = 0;
    while dy < GLYPH_HEIGHT
        invariant
            dy <= GLYPH_HEIGHT,
            s == g.cfg.pixels_per_scan_line,
            target == glyph_drawn(*g, x, y, glyph, *color, f0),
            fits(g.cfg, f0.len() as int),
            fb@.len() == f0.len(),
            forall|i: int| 0 <= i < f0.len() ==> fb@[i] == if glyph_cell_before(*g, x, y, i, dy as int, 0) {
                target[i]
            } else {
                f0[i]
            },
        decreases GLYPH_HEIGHT - dy,
    {
        let bits = glyph[dy];
        let mut dx: usize = 0;
        while dx < GLYPH_WIDTH
            invariant
                dy < GLYPH_HEIGHT,
                dx <= GLYPH_WIDTH,
                s == g.cfg.pixels_per_scan_line,
                bits == glyph@[dy as int],
                target == glyph_drawn(*g, x, y, glyph, *color, f0),
                fits(g.cfg, f0.len() as int),
                fb@.len() == f0.len(),
                forall|i: int| 0 <= i < f0.len() ==> fb@[i] == if glyph_cell_before(*g, x, y, i, dy as int, dx as int) {
                    target[i]
                } else {
                    f0[i]
                },
            decreases GLYPH_WIDTH - dx,
        {
            let visible = x < g.cfg.horizontal_resolution && dx < g.cfg.horizontal_resolution - x
                && y < g.cfg.vertical_resolution && dy < g.cfg.vertical_resolution - y;
            let set = (bits >> (7 - dx as u8)) & 1 == 1;
            if visible {
                let px = x + dx;
                let py = y + dy;
                proof {
                    lemma_pixel_index(g.cfg, f0.len() as int, px as int, py as int);
                    lemma_row_col(g.cfg, px as int, py as int);
                }
                if set {
                    g.write_pixel(fb, px, py, color);
                }
                proof {
                    let idx = pixel_index(g.cfg, px as int, py as int);
                    assert forall|i: int| 0 <= i < f0.len() implies fb@[i] == if glyph_cell_before(
                        *g,
                        x,
                        y,
                        i,
                        dy as int,
                        dx + 1,
                    ) {
                        target[i]
                    } else {
                        f0[i]
                    } by {
                        if i != idx {
                            lemma_other_index(g.cfg, px as int, py as int, i);
                        }
                    }
                }
            } else {
                proof {
                    assert forall|i: int| 0 <= i < f0.len() implies fb@[i] == if glyph_cell_before(
                        *g,
                        x,
                        y,
                        i,
                        dy as int,
                        dx + 1,
                    ) {
                        target[i]
                    } else {
                        f0[i]
                    } by {
                        if glyph_cell_before(*g, x, y, i, dy as int, dx + 1) && !glyph_cell_before(*g, x, y, i, dy as int, dx as int) {
                            assert(i / s - y == dy && i % s - x == dx);
                        }
                    }
                }
            }
            dx = dx + 1;
        }
        proof {
            assert forall|i: int| 0 <= i < f0.len() implies fb@[i] == if glyph_cell_before(*g, x, y, i, dy + 1, 0) {
                target[i]
            } else {
                f0[i]
            } by {}
        }
        dy = dy + 1;
    }
    proof {
        assert(fb@ =~= target);
    }
}

} // verus!

verus! {

/// What drawing the characters `s` from `(x, y)` gives, each glyph 8 pixels
/// right of the one before.
pub open spec fn string_drawn(g: Graphics, font: Seq<[u8; 16]>, x: usize, y: usize, s: Seq<char>, color: PixelColor, fb: Seq<u32>) -> Seq<u32>
    decreases s.len(),
{
    if s.len() == 0 {
        fb
    } else {
        char_drawn(
            g,
            font,
            (x + GLYPH_WIDTH * (s.len() - 1)) as usize,
            y,
            s.last(),
            color,
            string_drawn(g, font, x, y, s.drop_last(), color, fb),
        )
    }
}

/// Draws the characters `s` side by side from `(x, y)`.
pub fn write_string(g: &Graphics, fb: &mut [u32], font: &Vec<[u8; 16]>, x: usize, y: usize, s: &[char], color: &PixelColor)
    requires
        fits(g.cfg, old(fb)@.len() as int),
        x + GLYPH_WIDTH * s@.len() <= usize::MAX,
    ensures
        final(fb)@ == string_drawn(*g, font@, x, y, s@, *color, old(fb)@),
{
    let ghost f0 = fb@;
    let mut i: usize = 0;
    let mut cx = x;
    while i < s.len()
        invariant
            i <= s@.len(),
            cx == x + GLYPH_WIDTH * i,
            x + GLYPH_WIDTH * s@.len() <= usize::MAX,
            fits(g.cfg, f0.len() as int),
            fb@.len() == f0.len(),
            fb@ == string_drawn(*g, font@, x, y, s@.take(i as int), *color, f0),
        decreases s@.len() - i,
    {
        write_ascii(g, fb, font, cx, y, s[i], color);
        proof {
            assert(s@.take(i + 1).drop_last() =~= s@.take(i as int));
        }
        cx = cx + GLYPH_WIDTH;
        i = i + 1;
    }
    proof {
        assert(s@.take(s@.len() as int) =~= s@);
    }
}

} // verus!
