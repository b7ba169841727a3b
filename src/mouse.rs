//! The mouse cursor: a 15 x 24 arrow drawn into the frame buffer, moved by
//! relative displacements.
use vstd::prelude::*;
use crate::graphics::{
    fits, lemma_other_index, lemma_pixel_index, lemma_row_col, pixel_index, pixel_value, Graphics,
    PixelColor, Vector2D,
};

verus! {

pub const CURSOR_WIDTH: usize = 15;
pub const CURSOR_HEIGHT: usize = 24;

/// Row `dy` of the arrow: bit `dx` of the first mask marks an outline pixel,
/// bit `dx` of the second a fill pixel.
pub open spec fn shape_row(dy: int) -> (u16, u16) {
    if dy == 0 { (0x0001, 0x0000) }
    else if dy == 1 { (0x0003, 0x0000) }
    else if dy == 2 { (0x0005, 0x0002) }
    else if dy == 3 { (0x0009, 0x0006) }
    else if dy == 4 { (0x0011, 0x000e) }
    else if dy == 5 { (0x0021, 0x001e) }
    else if dy == 6 { (0x0041, 0x003e) }
    else if dy == 7 { (0x0081, 0x007e) }
    else if dy == 8 { (0x0101, 0x00fe) }
    else if dy == 9 { (0x0201, 0x01fe) }
    else if dy == 10 { (0x0401, 0x03fe) }
    else if dy == 11 { (0x0801, 0x07fe) }
    else if dy == 12 { (0x1001, 0x0ffe) }
    else if dy == 13 { (0x2001, 0x1ffe) }
    else if dy == 14 { (0x7f81, 0x007e) }
    else if dy == 15 { (0x0081, 0x007e) }
    else if dy == 16 { (0x0161, 0x009e) }
    else if dy == 17 { (0x0151, 0x008e) }
    else if dy == 18 { (0x0289, 0x0106) }
    else if dy == 19 { (0x0285, 0x0102) }
    else if dy == 20 { (0x0503, 0x0200) }
    else if dy == 21 { (0x0501, 0x0200) }
    else if dy == 22 { (0x0a00, 0x0400) }
    else { (0x0e00, 0x0000) }
}

fn cursor_shape_row(dy: usize) -> (r: (u16, u16))
    ensures
        r == shape_row(dy as int),
{
    if dy == 0 { (0x0001, 0x0000) }
    else if dy == 1 { (0x0003, 0x0000) }
    else if dy == 2 { (0x0005, 0x0002) }
    else if dy == 3 { (0x0009, 0x0006) }
    else if dy == 4 { (0x0011, 0x000e) }
    else if dy == 5 { (0x0021, 0x001e) }
    else if dy == 6 { (0x0041, 0x003e) }
    else if dy == 7 { (0x0081, 0x007e) }
    else if dy == 8 { (0x0101, 0x00fe) }
    else if dy == 9 { (0x0201, 0x01fe) }
    else if dy == 10 { (0x0401, 0x03fe) }
    else if dy == 11 { (0x0801, 0x07fe) }
    else if dy == 12 { (0x1001, 0x0ffe) }
    else if dy == 13 { (0x2001, 0x1ffe) }
    else if dy == 14 { (0x7f81, 0x007e) }
    else if dy == 15 { (0x0081, 0x007e) }
    else if dy == 16 { (0x0161, 0x009e) }
    else if dy == 17 { (0x0151, 0x008e) }
    else if dy == 18 { (0x0289, 0x0106) }
    else if dy == 19 { (0x0285, 0x0102) }
    else if dy == 20 { (0x0503, 0x0200) }
    else if dy == 21 { (0x0501, 0x0200) }
    else if dy == 22 { (0x0a00, 0x0400) }
    else { (0x0e00, 0x0000) }
}

pub open spec fn black() -> PixelColor {
    PixelColor { r: 0, g: 0, b: 0 }
}

pub open spec fn white() -> PixelColor {
    PixelColor { r: 255, g: 255, b: 255 }
}

/// The color of cell `(dx, dy)` of the arrow: black outline, white fill,
/// nothing elsewhere.
pub open spec fn cell_color(dx: int, dy: int) -> Option<PixelColor> {
    let (outline, fill) = shape_row(dy);
    if (outline >> (dx as u16)) & 1 == 1 {
        Some(black())
    } else if (fill >> (dx as u16)) & 1 == 1 {
        Some(white())
    } else {
        None
    }
}

/// Index `i` of the frame buffer is a visible pixel of the arrow's box at
/// `pos`, among its rows before `dy` and the cells of row `dy` before `dx`.
pub open spec fn box_cell_before(g: Graphics, pos: Vector2D<usize>, i: int, dy: int, dx: int) -> bool {
    let s = g.cfg.pixels_per_scan_line as int;
    let row = i / s;
    let col = i % s;
    &&& s > 0
    &&& i >= 0
    &&& row < g.cfg.vertical_resolution
    &&& col < g.cfg.horizontal_resolution
    &&& pos.x <= col < pos.x + CURSOR_WIDTH
    &&& pos.y <= row
    &&& (row - pos.y < dy || (row - pos.y == dy && col - pos.x < dx))
}

/// Index `i` is a visible pixel of the arrow's box at `pos`.
pub open spec fn in_box(g: Graphics, pos: Vector2D<usize>, i: int) -> bool {
    box_cell_before(g, pos, i, CURSOR_HEIGHT as int, 0)
}

/// The arrow's color at index `i` for an arrow at `pos`, if it has one there.
pub open spec fn cursor_pixel(g: Graphics, pos: Vector2D<usize>, i: int) -> Option<PixelColor> {
    let s = g.cfg.pixels_per_scan_line as int;
    if in_box(g, pos, i) {
        cell_color(i % s - pos.x, i / s - pos.y)
    } else {
        None
    }
}

/// The frame buffer `fb` with the arrow drawn at `pos`.
pub open spec fn drawn(g: Graphics, pos: Vector2D<usize>, fb: Seq<u32>) -> Seq<u32> {
    Seq::new(
        fb.len(),
        |i: int|
            match cursor_pixel(g, pos, i) {
                Some(c) => pixel_value(g.cfg.pixel_format, c),
                None => fb[i],
            },
    )
}

/// The frame buffer `fb` with the arrow's box at `pos` painted black.
pub open spec fn erased(g: Graphics, pos: Vector2D<usize>, fb: Seq<u32>) -> Seq<u32> {
    Seq::new(fb.len(), |i: int| if in_box(g, pos, i) { pixel_value(g.cfg.pixel_format, black()) } else { fb[i] })
}

/// A coordinate moved by `d` and kept within `[0, limit)`.
pub open spec fn moved(p: usize, d: i8, limit: usize) -> usize {
    if p + d < 0 {
        0
    } else if p + d >= limit {
        if limit == 0 { 0 } else { (limit - 1) as usize }
    } else {
        (p + d) as usize
    }
}

pub struct MouseCursor {
    pub position: Vector2D<usize>,
    pub graphics: Graphics,
}

impl MouseCursor {
    pub fn new(g: Graphics, init_pos: Vector2D<usize>) -> (r: MouseCursor)
        ensures
            r.position == init_pos,
            r.graphics == g,
    {
        MouseCursor { position: init_pos, graphics: g }
    }

    /// Paints the arrow's box with `color_of(cell)`: the arrow itself when
    /// `erase` is false, black everywhere when it is true. Cells off the
    /// screen are skipped.
    fn paint(&self, fb: &mut [u32], erase: bool)
        requires
            fits(self.graphics.cfg, old(fb)@.len() as int),
        ensures
            final(fb)@ == if erase {
                erased(self.graphics, self.position, old(fb)@)
            } else {
                drawn(self.graphics, self.position, old(fb)@)
            },
    {
        let ghost f0 = fb@;
        let g = self.graphics;
        let pos = self.position;
        let ghost s = g.cfg.pixels_per_scan_line as int;
        let ghost target = if erase { erased(g, pos, f0) } else { drawn(g, pos, f0) };
        let dark = PixelColor::new(0, 0, 0);
        let light = PixelColor::new(255, 255, 255);
        let mut dy: usize = 0;
        while dy < CURSOR_HEIGHT
            invariant
                dy <= CURSOR_HEIGHT,
                g == self.graphics,
                pos == self.position,
                s == g.cfg.pixels_per_scan_line,
                dark == black(),
                light == white(),
                target == if erase { erased(g, pos, f0) } else { drawn(g, pos, f0) },
                fits(g.cfg, f0.len() as int),
                fb@.len() == f0.len(),
                forall|i: int| 0 <= i < f0.len() ==> fb@[i] == if box_cell_before(g, pos, i, dy as int, 0) {
                    target[i]
                } else {
                    f0[i]
                },
            decreases CURSOR_HEIGHT - dy,
        {
            let (outline, fill) = cursor_shape_row(dy);
            let mut dx: usize = 0;
            while dx < CURSOR_WIDTH
                invariant
                    dy < CURSOR_HEIGHT,
                    dx <= CURSOR_WIDTH,
                    g == self.graphics,
                    pos == self.position,
                    s == g.cfg.pixels_per_scan_line,
                    dark == black(),
                    light == white(),
                    (outline, fill) == shape_row(dy as int),
                    target == if erase { erased(g, pos, f0) } else { drawn(g, pos, f0) },
                    fits(g.cfg, f0.len() as int),
                    fb@.len() == f0.len(),
                    forall|i: int| 0 <= i < f0.len() ==> fb@[i] == if box_cell_before(g, pos, i, dy as int, dx as int) {
                        target[i]
                    } else {
                        f0[i]
                    },
                decreases CURSOR_WIDTH - dx,
            {
                let visible = pos.x < g.cfg.horizontal_resolution && dx < g.cfg.horizontal_resolution - pos.x
                    && pos.y < g.cfg.vertical_resolution && dy < g.cfg.vertical_resolution - pos.y;
                let ghost prev = fb@;
                if visible {
                    let x = pos.x + dx;
                    let y = pos.y + dy;
                    proof {
                        lemma_pixel_index(g.cfg, f0.len() as int, x as int, y as int);
                        lemma_row_col(g.cfg, x as int, y as int);
                    }
                    let is_outline = (outline >> (dx as u16)) & 1 == 1;
                    let is_fill = (fill >> (dx as u16)) & 1 == 1;
                    if erase || is_outline {
                        g.write_pixel(fb, x, y, &dark);
                    } else if is_fill {
                        g.write_pixel(fb, x, y, &light);
                    }
                    proof {
                        let idx = pixel_index(g.cfg, x as int, y as int);
                        assert forall|i: int| 0 <= i < f0.len() implies fb@[i] == if box_cell_before(
                            g,
                            pos,
                            i,
                            dy as int,
                            dx + 1,
                        ) {
                            target[i]
                        } else {
                            f0[i]
                        } by {
                            if i != idx {
                                lemma_other_index(g.cfg, x as int, y as int, i);
                            } else {
                                assert(in_box(g, pos, i));
                            }
                        }
                    }
                } else {
                    proof {
                        assert forall|i: int| 0 <= i < f0.len() implies fb@[i] == if box_cell_before(
                            g,
                            pos,
                            i,
                            dy as int,
                            dx + 1,
                        ) {
                            target[i]
                        } else {
                            f0[i]
                        } by {
                            if box_cell_before(g, pos, i, dy as int, dx + 1) && !box_cell_before(g, pos, i, dy as int, dx as int) {
                                assert(i / s - pos.y == dy && i % s - pos.x == dx);
                            }
                        }
                    }
                }
                dx = dx + 1;
            }
            proof {
                assert forall|i: int| 0 <= i < f0.len() implies fb@[i] == if box_cell_before(g, pos, i, dy + 1, 0) {
                    target[i]
                } else {
                    f0[i]
                } by {}
            }
            dy = dy + 1;
        }
        proof {
            assert(fb@ =~= target);
        }
    }

    /// Draws the arrow at the cursor's position.
    pub fn draw(&self, fb: &mut [u32])
        requires
            fits(self.graphics.cfg, old(fb)@.len() as int),
        ensures
            final(fb)@ == drawn(self.graphics, self.position, old(fb)@),
    {
        self.paint(fb, false);
    }

    /// Paints the arrow's box at the cursor's position black.
    pub fn erase(&self, fb: &mut [u32])
        requires
            fits(self.graphics.cfg, old(fb)@.len() as int),
        ensures
            final(fb)@ == erased(self.graphics, self.position, old(fb)@),
    {
        self.paint(fb, true);
    }

    /// Erases the arrow, moves it by the displacement, kept on the screen,
    /// and draws it there.
    pub fn move_relative(&mut self, fb: &mut [u32], displacement_x: i8, displacement_y: i8)
        requires
            fits(old(self).graphics.cfg, old(fb)@.len() as int),
        ensures
            final(self).graphics == old(self).graphics,
            final(self).position == (Vector2D {
                x: moved(old(self).position.x, displacement_x, old(self).graphics.cfg.horizontal_resolution),
                y: moved(old(self).position.y, displacement_y, old(self).graphics.cfg.vertical_resolution),
            }),
            final(fb)@ == drawn(
                final(self).graphics,
                final(self).position,
                erased(old(self).graphics, old(self).position, old(fb)@),
            ),
    {
        self.erase(fb);
        let x = move_coordinate(self.position.x, displacement_x, self.graphics.cfg.horizontal_resolution);
        let y = move_coordinate(self.position.y, displacement_y, self.graphics.cfg.vertical_resolution);
        self.position = Vector2D::new(x, y);
        self.draw(fb);
    }
}

fn move_coordinate(p: usize, d: i8, limit: usize) -> (r: usize)
    ensures
        r == moved(p, d, limit),
{
    if d < 0 {
        let back = (0 - (d as i16)) as usize;
        if p < back {
            return 0;
        }
        let q = p - back;
        if q >= limit {
            if limit == 0 { 0 } else { limit - 1 }
        } else {
            q
        }
    } else {
        let ahead = d as usize;
        if p >= limit || ahead >= limit - p {
            if limit == 0 { 0 } else { limit - 1 }
        } else {
            p + ahead
        }
    }
}

} // verus!
