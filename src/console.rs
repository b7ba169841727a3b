//! A text console of 25 rows over the frame buffer: characters are kept in a
//! text buffer and drawn as they arrive; a line feed on the last row scrolls
//! every row up by one.
use vstd::prelude::*;
use crate::font::{char_drawn, write_ascii, GLYPH_HEIGHT, GLYPH_WIDTH};
use crate::graphics::{filled, fits, pixel_value, Graphics, PixelColor, Vector2D};

verus! {

pub const N_ROWS: usize = 25;
pub const N_COLS: usize = 80;
/// Each row of the text buffer holds one more cell than the console shows.
pub const ROW_LEN: usize = 81;

/// A row of blanks.
pub open spec fn blank_row() -> Seq<char> {
    Seq::new(ROW_LEN as nat, |i: int| ' ')
}

/// The text and cursor row after a line feed on row `row`: the next row, or,
/// on the last row, every row moved up by one and a blank last row.
pub open spec fn new_line_text(text: Seq<char>, row: int) -> (Seq<char>, int) {
    if row < N_ROWS - 1 {
        (text, row + 1)
    } else {
        (text.subrange(ROW_LEN as int, (N_ROWS * ROW_LEN) as int) + blank_row(), row)
    }
}

/// The whole screen painted in the background color `bg`.
pub open spec fn cleared(g: Graphics, bg: PixelColor, fb: Seq<u32>) -> Seq<u32> {
    filled(
        g.cfg,
        Vector2D { x: 0, y: 0 },
        Vector2D { x: g.cfg.horizontal_resolution, y: g.cfg.vertical_resolution },
        pixel_value(g.cfg.pixel_format, bg),
        fb,
    )
}

/// The frame buffer after drawing the first `n` cells of `text`, row by row,
/// each cell's character at its place in the grid.
pub open spec fn cells_drawn(g: Graphics, font: Seq<[u8; 16]>, fg: PixelColor, text: Seq<char>, n: int, fb: Seq<u32>) -> Seq<u32>
    decreases n,
{
    if n <= 0 {
        fb
    } else {
        let k = n - 1;
        char_drawn(
            g,
            font,
            ((k % ROW_LEN as int) * GLYPH_WIDTH) as usize,
            ((k / ROW_LEN as int) * GLYPH_HEIGHT) as usize,
            text[k],
            fg,
            cells_drawn(g, font, fg, text, k, fb),
        )
    }
}

proof fn lemma_cells_drawn_len(g: Graphics, font: Seq<[u8; 16]>, fg: PixelColor, text: Seq<char>, n: int, fb: Seq<u32>)
    ensures
        cells_drawn(g, font, fg, text, n, fb).len() == fb.len(),
    decreases n,
{
    if n > 0 {
        lemma_cells_drawn_len(g, font, fg, text, n - 1, fb);
    }
}

/// What the console holds: its text, cursor row and column, and the frame
/// buffer.
pub type ConsoleState = (Seq<char>, int, int, Seq<u32>);

/// The state after a line feed: the cursor moves to the start of the next
/// row; on the last row the text scrolls and the screen is cleared and every
/// cell redrawn.
pub open spec fn new_line_state(c: Console, st: ConsoleState) -> ConsoleState {
    let (text, row, col, fb) = st;
    let (t, r) = new_line_text(text, row);
    if row < N_ROWS - 1 {
        (t, r, 0, fb)
    } else {
        (t, r, 0, cells_drawn(c.graphics, c.font@, c.fg_color, t, (N_ROWS * ROW_LEN) as int, cleared(c.graphics, c.bg_color, fb)))
    }
}

/// The state after one character: a line feed starts a new line; another
/// character is drawn and stored at the cursor, after a new line when the
/// row is full.
pub open spec fn put_char_state(c: Console, st: ConsoleState, ch: char) -> ConsoleState {
    let (text, row, col, fb) = st;
    if ch == '\n' {
        new_line_state(c, st)
    } else if col < N_COLS - 1 {
        (
            text.update(row * ROW_LEN + col, ch),
            row,
            col + 1,
            char_drawn(c.graphics, c.font@, (col * GLYPH_WIDTH) as usize, (row * GLYPH_HEIGHT) as usize, ch, c.fg_color, fb),
        )
    } else {
        let (t, r, k, f) = new_line_state(c, st);
        (
            t.update(r * ROW_LEN, ch),
            r,
            1,
            char_drawn(c.graphics, c.font@, 0, (r * GLYPH_HEIGHT) as usize, ch, c.fg_color, f),
        )
    }
}

/// The state after the characters `s`, one after the other.
pub open spec fn put_string_state(c: Console, st: ConsoleState, s: Seq<char>) -> ConsoleState
    decreases s.len(),
{
    if s.len() == 0 {
        st
    } else {
        put_char_state(c, put_string_state(c, st, s.drop_last()), s.last())
    }
}

/// The desktop drawn under the console: the background above a 50-pixel
/// bar at the bottom, the bar in dark blue, a grey block over its left fifth,
/// and a light grey 30-pixel button 10 pixels in.
pub open spec fn desktop(g: Graphics, bg: PixelColor, fb: Seq<u32>) -> Seq<u32> {
    let w = g.cfg.horizontal_resolution;
    let h = g.cfg.vertical_resolution;
    let f = g.cfg.pixel_format;
    let f1 = filled(g.cfg, Vector2D { x: 0, y: 0 }, Vector2D { x: w, y: (h - 50) as usize }, pixel_value(f, bg), fb);
    let f2 = filled(
        g.cfg,
        Vector2D { x: 0, y: (h - 50) as usize },
        Vector2D { x: w, y: 50 },
        pixel_value(f, PixelColor { r: 1, g: 8, b: 17 }),
        f1,
    );
    let f3 = filled(
        g.cfg,
        Vector2D { x: 0, y: (h - 50) as usize },
        Vector2D { x: w / 5, y: 50 },
        pixel_value(f, PixelColor { r: 80, g: 80, b: 80 }),
        f2,
    );
    filled(
        g.cfg,
        Vector2D { x: 10, y: (h - 40) as usize },
        Vector2D { x: 30, y: 30 },
        pixel_value(f, PixelColor { r: 160, g: 160, b: 160 }),
        f3,
    )
}

pub struct Console {
    pub n_rows: usize,
    pub n_cols: usize,
    pub graphics: Graphics,
    pub fg_color: PixelColor,
    pub bg_color: PixelColor,
    /// Row `r`, column `c` of the text is `buffer[r * ROW_LEN + c]`.
    pub buffer: Vec<char>,
    pub cursor_row: usize,
    pub cursor_col: usize,
    pub font: Vec<[u8; 16]>,
}

impl Console {
    pub open spec fn wf(&self) -> bool {
        &&& self.n_rows == N_ROWS
        &&& self.n_cols == N_COLS
        &&& self.buffer@.len() == N_ROWS * ROW_LEN
        &&& self.cursor_row < N_ROWS
        &&& self.cursor_col < N_COLS
    }

    /// A blank console with the cursor at the top left.
    pub fn new(g: Graphics, fg_color: PixelColor, bg_color: PixelColor, font: Vec<[u8; 16]>) -> (r: Console)
        ensures
            r.wf(),
            r.graphics == g,
            r.fg_color == fg_color,
            r.bg_color == bg_color,
            r.font@ == font@,
            r.cursor_row == 0,
            r.cursor_col == 0,
            forall|i: int| 0 <= i < r.buffer@.len() ==> r.buffer@[i] == ' ',
    {
        let mut buffer: Vec<char> = Vec::new();
        let mut i: usize = 0;
        while i < N_ROWS * ROW_LEN
            invariant
                i <= N_ROWS * ROW_LEN,
                buffer@.len() == i,
                forall|k: int| 0 <= k < i ==> buffer@[k] == ' ',
            decreases N_ROWS * ROW_LEN - i,
        {
            buffer.push(' ');
            i = i + 1;
        }
        Console {
            n_rows: N_ROWS,
            n_cols: N_COLS,
            graphics: g,
            fg_color,
            bg_color,
            buffer,
            cursor_row: 0,
            cursor_col: 0,
            font,
        }
    }

    /// A blank console over a freshly drawn desktop: the background above a
    /// 50-pixel bar, the bar, a block at its left and a square button.
    pub fn initialize(g: Graphics, fg_color: PixelColor, bg_color: PixelColor, font: Vec<[u8; 16]>, fb: &mut [u32]) -> (r: Console)
        requires
            fits(g.cfg, old(fb)@.len() as int),
            g.cfg.horizontal_resolution >= 40,
            g.cfg.vertical_resolution >= 50,
        ensures
            r.wf(),
            r.graphics == g,
            r.fg_color == fg_color,
            r.bg_color == bg_color,
            r.font@ == font@,
            r.cursor_row == 0,
            r.cursor_col == 0,
            forall|i: int| 0 <= i < r.buffer@.len() ==> r.buffer@[i] == ' ',
            final(fb)@ == desktop(g, bg_color, old(fb)@),
    {
        let console = Console::new(g, fg_color, bg_color, font);
        let w = console.frame_width();
        let h = console.frame_height();
        g.fill_regtangle(fb, Vector2D::new(0, 0), Vector2D::new(w, h - 50), &console.bg_color);
        g.fill_regtangle(fb, Vector2D::new(0, h - 50), Vector2D::new(w, 50), &PixelColor::new(1, 8, 17));
        g.fill_regtangle(fb, Vector2D::new(0, h - 50), Vector2D::new(w / 5, 50), &PixelColor::new(80, 80, 80));
        g.fill_regtangle(fb, Vector2D::new(10, h - 40), Vector2D::new(30, 30), &PixelColor::new(160, 160, 160));
        console
    }

    pub fn frame_width(&self) -> (r: usize)
        ensures
            r == self.graphics.cfg.horizontal_resolution,
    {
        self.graphics.width()
    }

    pub fn frame_height(&self) -> (r: usize)
        ensures
            r == self.graphics.cfg.vertical_resolution,
    {
        self.graphics.height()
    }

    /// Paints the whole screen in the background color.
    pub fn clear(&self, fb: &mut [u32])
        requires
            fits(self.graphics.cfg, old(fb)@.len() as int),
        ensures
            final(fb)@ == cleared(self.graphics, self.bg_color, old(fb)@),
    {
        self.graphics.clear(fb, &self.bg_color);
    }

    /// The console's text, cursor and frame buffer `fb`, together.
    pub open spec fn state(&self, fb: Seq<u32>) -> ConsoleState {
        (self.buffer@, self.cursor_row as int, self.cursor_col as int, fb)
    }

    /// The settings that stay: screen, colors and font.
    pub open spec fn same_settings(&self, other: &Console) -> bool {
        &&& self.graphics == other.graphics
        &&& self.fg_color == other.fg_color
        &&& self.bg_color == other.bg_color
        &&& self.font@ == other.font@
    }

    /// Moves to the start of the next line; on the last line the text
    /// scrolls up by one line and the screen is redrawn.
    pub fn new_line(&mut self, fb: &mut [u32])
        requires
            old(self).wf(),
            fits(old(self).graphics.cfg, old(fb)@.len() as int),
        ensures
            final(self).wf(),
            final(self).same_settings(old(self)),
            final(self).state(final(fb)@) == new_line_state(*old(self), old(self).state(old(fb)@)),
            final(fb)@.len() == old(fb)@.len(),
    {
        self.cursor_col = 0;
        if self.cursor_row < self.n_rows - 1 {
            self.cursor_row = self.cursor_row + 1;
            return;
        }
        self.clear(fb);
        let ghost t0 = self.buffer@;
        let ghost f0 = fb@;
        let ghost t1 = new_line_text(t0, self.cursor_row as int).0;
        let mut i: usize = 0;
        while i < (N_ROWS - 1) * ROW_LEN
            invariant
                self.wf(),
                self.same_settings(old(self)),
                fits(self.graphics.cfg, fb@.len() as int),
                fb@.len() == old(fb)@.len(),
                self.cursor_row == old(self).cursor_row,
                self.cursor_col == 0,
                i <= (N_ROWS - 1) * ROW_LEN,
                t0 == old(self).buffer@,
                t0.len() == N_ROWS * ROW_LEN,
                t1 == t0.subrange(ROW_LEN as int, (N_ROWS * ROW_LEN) as int) + blank_row(),
                forall|k: int| 0 <= k < i ==> self.buffer@[k] == t0[k + ROW_LEN],
                forall|k: int| i <= k < N_ROWS * ROW_LEN ==> self.buffer@[k] == t0[k],
                fb@ == cells_drawn(self.graphics, self.font@, self.fg_color, t1, i as int, f0),
            decreases (N_ROWS - 1) * ROW_LEN - i,
        {
            let c = self.buffer[i + ROW_LEN];
            proof {
                lemma_cells_drawn_len(self.graphics, self.font@, self.fg_color, t1, i as int, f0);
                assert(t1[i as int] == t0[i + ROW_LEN]);
            }
            self.buffer.set(i, c);
            write_ascii(
                &self.graphics,
                fb,
                &self.font,
                (i % ROW_LEN) * GLYPH_WIDTH,
                (i / ROW_LEN) * GLYPH_HEIGHT,
                c,
                &self.fg_color,
            );
            i = i + 1;
        }
        while i < N_ROWS * ROW_LEN
            invariant
                self.wf(),
                self.same_settings(old(self)),
                fits(self.graphics.cfg, fb@.len() as int),
                fb@.len() == old(fb)@.len(),
                self.cursor_row == old(self).cursor_row,
                self.cursor_col == 0,
                (N_ROWS - 1) * ROW_LEN <= i <= N_ROWS * ROW_LEN,
                t0 == old(self).buffer@,
                t0.len() == N_ROWS * ROW_LEN,
                t1 == t0.subrange(ROW_LEN as int, (N_ROWS * ROW_LEN) as int) + blank_row(),
                forall|k: int| 0 <= k < (N_ROWS - 1) * ROW_LEN ==> self.buffer@[k] == t0[k + ROW_LEN],
                forall|k: int| (N_ROWS - 1) * ROW_LEN <= k < i ==> self.buffer@[k] == ' ',
                fb@ == cells_drawn(self.graphics, self.font@, self.fg_color, t1, i as int, f0),
            decreases N_ROWS * ROW_LEN - i,
        {
            self.buffer.set(i, ' ');
            proof {
                lemma_cells_drawn_len(self.graphics, self.font@, self.fg_color, t1, i as int, f0);
                assert(t1[i as int] == blank_row()[i - (N_ROWS - 1) * ROW_LEN]);
                assert(t1[i as int] == ' ');
                assert(i / ROW_LEN == N_ROWS - 1);
            }
            write_ascii(
                &self.graphics,
                fb,
                &self.font,
                (i % ROW_LEN) * GLYPH_WIDTH,
                (N_ROWS - 1) * GLYPH_HEIGHT,
                ' ',
                &self.fg_color,
            );
            i = i + 1;
        }
        proof {
            assert(self.buffer@ =~= t1);
            lemma_cells_drawn_len(self.graphics, self.font@, self.fg_color, t1, i as int, f0);
        }
    }

    fn put_char(&mut self, fb: &mut [u32], c: char)
        requires
            old(self).wf(),
            fits(old(self).graphics.cfg, old(fb)@.len() as int),
        ensures
            final(self).wf(),
            final(self).same_settings(old(self)),
            final(self).state(final(fb)@) == put_char_state(*old(self), old(self).state(old(fb)@), c),
            final(fb)@.len() == old(fb)@.len(),
    {
        if c == '\n' {
            self.new_line(fb);
        } else if self.cursor_col < self.n_cols - 1 {
            write_ascii(
                &self.graphics,
                fb,
                &self.font,
                self.cursor_col * GLYPH_WIDTH,
                self.cursor_row * GLYPH_HEIGHT,
                c,
                &self.fg_color,
            );
            let at = self.cursor_row * ROW_LEN + self.cursor_col;
            self.buffer.set(at, c);
            self.cursor_col = self.cursor_col + 1;
        } else {
            self.new_line(fb);
            write_ascii(
                &self.graphics,
                fb,
                &self.font,
                self.cursor_col * GLYPH_WIDTH,
                self.cursor_row * GLYPH_HEIGHT,
                c,
                &self.fg_color,
            );
            let at = self.cursor_row * ROW_LEN + self.cursor_col;
            self.buffer.set(at, c);
            self.cursor_col = self.cursor_col + 1;
        }
    }

    /// Writes the characters `s` at the cursor, one after the other.
    pub fn put_string(&mut self, fb: &mut [u32], s: &[char])
        requires
            old(self).wf(),
            fits(old(self).graphics.cfg, old(fb)@.len() as int),
        ensures
            final(self).wf(),
            final(self).same_settings(old(self)),
            final(self).state(final(fb)@) == put_string_state(*old(self), old(self).state(old(fb)@), s@),
            final(fb)@.len() == old(fb)@.len(),
    {
        let mut i: usize = 0;
        while i < s.len()
            invariant
                i <= s@.len(),
                self.wf(),
                self.same_settings(old(self)),
                fits(self.graphics.cfg, fb@.len() as int),
                self.state(fb@) == put_string_state(*old(self), old(self).state(old(fb)@), s@.take(i as int)),
                fb@.len() == old(fb)@.len(),
            decreases s@.len() - i,
        {
            proof {
                assert(s@.take(i + 1).drop_last() =~= s@.take(i as int));
            }
            self.put_char(fb, s[i]);
            i = i + 1;
        }
        proof {
            assert(s@.take(s@.len() as int) =~= s@);
        }
    }
}

} // verus!
