//! The frame buffer handed over by the loader, and pixel writes into it.
use vstd::prelude::*;


verus! {

#[derive(Debug, Clone, Copy, PartialEq, Eq, Structural)]
pub struct Vector2D<T> {
    pub x: T,
    pub y: T,
}

impl<T> Vector2D<T> {
    pub fn new(x: T, y: T) -> (r: Vector2D<T>)
        ensures
            r.x == x,
            r.y == y,
    {
        Vector2D { x, y }
    }
}

#[derive(Debug, Clone, Copy, PartialEq, Eq, Structural)]
pub struct PixelColor {
    pub r: u8,
    pub g: u8,
    pub b: u8,
}

impl PixelColor {
    pub fn new(r: u8, g: u8, b: u8) -> (c: PixelColor)
        ensures
            c.r == r,
            c.g == g,
            c.b == b,
    {
        PixelColor { r, g, b }
    }
}

/// How the firmware lays out a pixel in its 32 bits.
#[derive(Debug, Clone, Copy, PartialEq, Eq, Structural)]
pub enum PixelFormat {
    Rgb,
    Bgr,
    Bitmask,
    BltOnly,
}

/// The frame buffer that the loader hands to the kernel: where it is, its
/// size in bytes, its resolution, the pixels per scan line and the pixel
/// format.
#[derive(Debug, Clone, Copy, PartialEq, Eq, Structural)]
pub struct FrameBufferConfig {
    pub frame_buffer: u64,
    pub frame_buffer_size: u64,
    pub horizontal_resolution: usize,
    pub vertical_resolution: usize,
    pub pixels_per_scan_line: usize,
    pub pixel_format: PixelFormat,
}

/// Pixel writes into a frame buffer in one of the two direct pixel formats.
#[derive(Debug, Clone, Copy, PartialEq, Eq, Structural)]
pub struct Graphics {
    pub cfg: FrameBufferConfig,
}

/// The formats whose pixels are written directly: `Rgb` and `Bgr`.
pub open spec fn direct_format(format: PixelFormat) -> bool {
    format == PixelFormat::Rgb || format == PixelFormat::Bgr
}

/// Whether pixels of `format` can be written directly.
pub fn is_direct_format(format: PixelFormat) -> (r: bool)
    ensures
        r == direct_format(format),
{
    match format {
        PixelFormat::Rgb => true,
        PixelFormat::Bgr => true,
        _ => false,
    }
}

/// The 32-bit value of a color: red, green and blue from bit 16 down for
/// `Rgb`, blue, green and red for `Bgr`.
pub open spec fn pixel_value(format: PixelFormat, c: PixelColor) -> u32 {
    if format == PixelFormat::Rgb {
        ((c.r as u32) * 0x1_0000 + (c.g as u32) * 0x100 + c.b as u32) as u32
    } else {
        ((c.b as u32) * 0x1_0000 + (c.g as u32) * 0x100 + c.r as u32) as u32
    }
}

/// A frame buffer, seen as 32-bit pixels, that holds every visible pixel.
pub open spec fn fits(cfg: FrameBufferConfig, fb_len: int) -> bool {
    &&& cfg.horizontal_resolution <= cfg.pixels_per_scan_line
    &&& cfg.vertical_resolution * cfg.pixels_per_scan_line <= fb_len
}

/// The index, in 32-bit pixels, of the pixel at `(x, y)`.
pub open spec fn pixel_index(cfg: FrameBufferConfig, x: int, y: int) -> int {
    y * cfg.pixels_per_scan_line + x
}

pub(crate) proof fn lemma_pixel_index(cfg: FrameBufferConfig, fb_len: int, x: int, y: int)
    requires
        fits(cfg, fb_len),
        0 <= x < cfg.horizontal_resolution,
        0 <= y < cfg.vertical_resolution,
    ensures
        0 <= pixel_index(cfg, x, y) < fb_len,
{
    let s = cfg.pixels_per_scan_line as int;
    assert(y * s + x < cfg.vertical_resolution * s) by (nonlinear_arith)
        requires
            0 <= x < s,
            0 <= y < cfg.vertical_resolution,
    ;
    assert(0 <= y * s) by (nonlinear_arith)
        requires
            0 <= y,
            0 <= s,
    ;
}

impl Graphics {
    /// Pixel writes for a frame buffer in `Rgb` or `Bgr` format.
    pub fn new(cfg: FrameBufferConfig) -> (r: Graphics)
        requires
            direct_format(cfg.pixel_format),
        ensures
            r.cfg == cfg,
    {
        Graphics { cfg }
    }

    /// Whether a frame buffer of `fb_len` 32-bit pixels holds every visible
    /// pixel.
    pub fn fits_buffer(&self, fb_len: usize) -> (r: bool)
        ensures
            r == fits(self.cfg, fb_len as int),
    {
        let w = self.cfg.horizontal_resolution;
        let h = self.cfg.vertical_resolution;
        let s = self.cfg.pixels_per_scan_line;
        if w > s {
            return false;
        }
        if s == 0 {
            return true;
        }
        proof {
            assert(h * s <= fb_len <==> h <= fb_len / s) by (nonlinear_arith)
                requires
                    s > 0,
                    h >= 0,
                    fb_len >= 0,
            ;
        }
        h <= fb_len / s
    }

    pub fn width(&self) -> (r: usize)
        ensures
            r == self.cfg.horizontal_resolution,
    {
        self.cfg.horizontal_resolution
    }

    pub fn height(&self) -> (r: usize)
        ensures
            r == self.cfg.vertical_resolution,
    {
        self.cfg.vertical_resolution
    }

    /// The 32-bit value that this frame buffer's format gives a color.
    pub fn pixel_value(&self, color: &PixelColor) -> (r: u32)
        ensures
            r == pixel_value(self.cfg.pixel_format, *color),
    {
        if self.cfg.pixel_format == PixelFormat::Rgb {
            (color.r as u32) * 0x1_0000 + (color.g as u32) * 0x100 + color.b as u32
        } else {
            (color.b as u32) * 0x1_0000 + (color.g as u32) * 0x100 + color.r as u32
        }
    }

    /// Sets the pixel at `(x, y)` of `fb`, the frame buffer seen as 32-bit
    /// pixels.
    pub fn write_pixel(&self, fb: &mut [u32], x: usize, y: usize, color: &PixelColor)
        requires
            fits(self.cfg, old(fb)@.len() as int),
            x < self.cfg.horizontal_resolution,
            y < self.cfg.vertical_resolution,
        ensures
            final(fb)@ == old(fb)@.update(
                pixel_index(self.cfg, x as int, y as int),
                pixel_value(self.cfg.pixel_format, *color),
            ),
    {
        proof {
            lemma_pixel_index(self.cfg, fb@.len() as int, x as int, y as int);
        }
        let v = self.pixel_value(color);
        let n = fb.len();
        let i = y * self.cfg.pixels_per_scan_line + x;
        fb[i] = v;
    }

    /// Sets every pixel of the rectangle at `pos` of the given size; the
    /// other pixels keep their values.
    pub fn fill_regtangle(&self, fb: &mut [u32], pos: Vector2D<usize>, size: Vector2D<usize>, color: &PixelColor)
        requires
            fits(self.cfg, old(fb)@.len() as int),
            pos.x + size.x <= self.cfg.horizontal_resolution,
            pos.y + size.y <= self.cfg.vertical_resolution,
        ensures
            final(fb)@ == filled(self.cfg, pos, size, pixel_value(self.cfg.pixel_format, *color), old(fb)@),
    {
        let ghost f0 = fb@;
        let ghost v = pixel_value(self.cfg.pixel_format, *color);
        let mut y = pos.y;
        while y < pos.y + size.y
            invariant
                pos.y <= y <= pos.y + size.y,
                pos.x + size.x <= self.cfg.horizontal_resolution,
                pos.y + size.y <= self.cfg.vertical_resolution,
                fits(self.cfg, f0.len() as int),
                fb@.len() == f0.len(),
                v == pixel_value(self.cfg.pixel_format, *color),
                forall|i: int|
                    0 <= i < f0.len() ==> fb@[i] == if in_rect(self.cfg, pos, Vector2D { x: size.x, y: (y - pos.y) as usize }, i) {
                        v
                    } else {
                        f0[i]
                    },
            decreases pos.y + size.y - y,
        {
            let mut x = pos.x;
            while x < pos.x + size.x
                invariant
                    pos.y <= y < pos.y + size.y,
                    pos.x <= x <= pos.x + size.x,
                    pos.x + size.x <= self.cfg.horizontal_resolution,
                    pos.y + size.y <= self.cfg.vertical_resolution,
                    fits(self.cfg, f0.len() as int),
                    fb@.len() == f0.len(),
                    v == pixel_value(self.cfg.pixel_format, *color),
                    forall|i: int|
                        0 <= i < f0.len() ==> fb@[i] == if in_rect(self.cfg, pos, Vector2D { x: size.x, y: (y - pos.y) as usize }, i)
                            || in_rect(self.cfg, Vector2D { x: pos.x, y }, Vector2D { x: (x - pos.x) as usize, y: 1 }, i) {
                            v
                        } else {
                            f0[i]
                        },
                decreases pos.x + size.x - x,
            {
                proof {
                    lemma_pixel_index(self.cfg, f0.len() as int, x as int, y as int);
                    lemma_row_col(self.cfg, x as int, y as int);
                }
                let ghost prev = fb@;
                self.write_pixel(fb, x, y, color);
                proof {
                    assert forall|i: int| 0 <= i < f0.len() implies fb@[i] == if in_rect(self.cfg, pos, Vector2D { x: size.x, y: (y - pos.y) as usize }, i)
                        || in_rect(self.cfg, Vector2D { x: pos.x, y }, Vector2D { x: (x + 1 - pos.x) as usize, y: 1 }, i) {
                        v
                    } else {
                        f0[i]
                    } by {
                        if i == pixel_index(self.cfg, x as int, y as int) {
                            assert(fb@[i] == v);
                        } else {
                            lemma_other_index(self.cfg, x as int, y as int, i);
                            assert(fb@[i] == prev[i]);
                        }
                    }
                }
                x = x + 1;
            }
            proof {
                assert forall|i: int| 0 <= i < f0.len() implies fb@[i] == if in_rect(self.cfg, pos, Vector2D { x: size.x, y: (y + 1 - pos.y) as usize }, i) {
                    v
                } else {
                    f0[i]
                } by {
                }
            }
            y = y + 1;
        }
        proof {
            assert(fb@ =~= filled(self.cfg, pos, size, v, f0));
        }
    }

    /// Sets every visible pixel.
    pub fn clear(&self, fb: &mut [u32], color: &PixelColor)
        requires
            fits(self.cfg, old(fb)@.len() as int),
        ensures
            final(fb)@ == filled(
                self.cfg,
                Vector2D { x: 0, y: 0 },
                Vector2D { x: self.cfg.horizontal_resolution, y: self.cfg.vertical_resolution },
                pixel_value(self.cfg.pixel_format, *color),
                old(fb)@,
            ),
    {
        self.fill_regtangle(
            fb,
            Vector2D::new(0, 0),
            Vector2D::new(self.width(), self.height()),
            color,
        );
    }
}

/// The frame buffer `fb` with the rectangle at `pos` of the given size set to
/// `value`.
pub open spec fn filled(cfg: FrameBufferConfig, pos: Vector2D<usize>, size: Vector2D<usize>, value: u32, fb: Seq<u32>) -> Seq<u32> {
    Seq::new(fb.len(), |i: int| if in_rect(cfg, pos, size, i) { value } else { fb[i] })
}

/// Index `i` of the frame buffer is a pixel of the rectangle at `pos` of the
/// given size.
pub open spec fn in_rect(cfg: FrameBufferConfig, pos: Vector2D<usize>, size: Vector2D<usize>, i: int) -> bool {
    let s = cfg.pixels_per_scan_line as int;
    &&& s > 0
    &&& i >= 0
    &&& pos.y <= i / s < pos.y + size.y
    &&& pos.x <= i % s < pos.x + size.x
}

pub(crate) proof fn lemma_row_col(cfg: FrameBufferConfig, x: int, y: int)
    requires
        0 <= x < cfg.pixels_per_scan_line,
        0 <= y,
    ensures
        pixel_index(cfg, x, y) / (cfg.pixels_per_scan_line as int) == y,
        pixel_index(cfg, x, y) % (cfg.pixels_per_scan_line as int) == x,
{
    let s = cfg.pixels_per_scan_line as int;
    vstd::arithmetic::div_mod::lemma_fundamental_div_mod_converse(y * s + x, s, y, x);
}

pub(crate) proof fn lemma_other_index(cfg: FrameBufferConfig, x: int, y: int, i: int)
    requires
        0 <= x < cfg.pixels_per_scan_line,
        0 <= y,
        0 <= i,
        i != pixel_index(cfg, x, y),
    ensures
        i / (cfg.pixels_per_scan_line as int) != y || i % (cfg.pixels_per_scan_line as int) != x,
{
    let s = cfg.pixels_per_scan_line as int;
    vstd::arithmetic::div_mod::lemma_fundamental_div_mod(i, s);
    if i / s == y && i % s == x {
        assert(i == s * y + x);
        assert(s * y == y * s) by (nonlinear_arith);
    }
}

} // verus!
