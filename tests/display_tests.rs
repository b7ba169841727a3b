use kernel::console::{Console, N_ROWS, ROW_LEN};
use kernel::font::{write_ascii, write_string};
use kernel::graphics::{FrameBufferConfig, Graphics, PixelColor, PixelFormat, Vector2D};
use kernel::mouse::MouseCursor;

fn screen(width: usize, height: usize) -> Graphics {
    Graphics::new(FrameBufferConfig {
        frame_buffer: 0,
        frame_buffer_size: (width * height * 4) as u64,
        horizontal_resolution: width,
        vertical_resolution: height,
        pixels_per_scan_line: width,
        pixel_format: PixelFormat::Rgb,
    })
}

const MARK: u32 = 0x1234;

#[test]
fn cursor_draws_outline_and_fill() {
    let g = screen(20, 30);
    let mut fb = vec![MARK; 600];
    let c = MouseCursor::new(g, Vector2D::new(2, 3));
    c.draw(&mut fb);
    assert_eq!(fb[3 * 20 + 2], 0);
    assert_eq!(fb[3 * 20 + 3], MARK);
    assert_eq!(fb[5 * 20 + 3], 0xff_ffff);
    assert_eq!(fb[5 * 20 + 4], 0);
    assert_eq!(fb[(3 + 14) * 20 + 2 + 14], 0);
    assert_eq!(fb[0], MARK);
}

#[test]
fn cursor_off_the_edge_is_clipped() {
    let g = screen(20, 30);
    let mut fb = vec![MARK; 600];
    let c = MouseCursor::new(g, Vector2D::new(18, 25));
    c.erase(&mut fb);
    let painted = fb.iter().filter(|&&p| p == 0).count();
    assert_eq!(painted, 2 * 5);
    assert_eq!(fb[25 * 20 + 17], MARK);
}

#[test]
fn cursor_moves_and_stays_on_screen() {
    let g = screen(20, 30);
    let mut fb = vec![MARK; 600];
    let mut c = MouseCursor::new(g, Vector2D::new(5, 5));
    c.move_relative(&mut fb, -10, 3);
    assert_eq!((c.position.x, c.position.y), (0, 8));
    c.move_relative(&mut fb, 127, -128);
    assert_eq!((c.position.x, c.position.y), (19, 0));
    c.move_relative(&mut fb, -4, 100);
    assert_eq!((c.position.x, c.position.y), (15, 29));
    assert_eq!(fb[29 * 20 + 15], 0);
    assert_eq!(fb[8 * 20], 0);
}

fn font_with(code: usize, glyph: [u8; 16]) -> Vec<[u8; 16]> {
    let mut font = vec![[0u8; 16]; code + 1];
    font[code] = glyph;
    font
}

#[test]
fn glyph_bits_become_pixels() {
    let g = screen(20, 20);
    let mut fb = vec![0u32; 400];
    let mut glyph = [0u8; 16];
    glyph[0] = 0x81;
    glyph[15] = 0x40;
    let font = font_with('A' as usize, glyph);
    write_ascii(&g, &mut fb, &font, 2, 1, 'A', &PixelColor::new(0, 0, 9));
    assert_eq!(fb[1 * 20 + 2], 9);
    assert_eq!(fb[1 * 20 + 9], 9);
    assert_eq!(fb[16 * 20 + 3], 9);
    assert_eq!(fb.iter().filter(|&&p| p == 9).count(), 3);
    write_ascii(&g, &mut fb, &font, 0, 0, 'B', &PixelColor::new(0, 0, 7));
    assert!(!fb.contains(&7));
}

#[test]
fn string_glyphs_are_eight_pixels_apart() {
    let g = screen(24, 16);
    let mut fb = vec![0u32; 24 * 16];
    let mut glyph = [0u8; 16];
    glyph[0] = 0x80;
    let font = font_with('x' as usize, glyph);
    write_string(&g, &mut fb, &font, 1, 0, &['x', 'x', 'y'], &PixelColor::new(0, 0, 5));
    assert_eq!(fb[1], 5);
    assert_eq!(fb[9], 5);
    assert_eq!(fb.iter().filter(|&&p| p == 5).count(), 2);
}

fn console() -> (Console, Vec<u32>) {
    let g = screen(640, 400);
    let mut fb = vec![MARK; 640 * 400];
    let c = Console::initialize(g, PixelColor::new(255, 255, 255), PixelColor::new(0, 0, 0), vec![[0u8; 16]; 128], &mut fb);
    (c, fb)
}

fn text_at(c: &Console, row: usize, col: usize) -> char {
    c.buffer[row * ROW_LEN + col]
}

#[test]
fn console_desktop_layout() {
    let (c, fb) = console();
    assert_eq!(c.cursor_row, 0);
    assert_eq!(c.cursor_col, 0);
    assert!(c.buffer.iter().all(|&ch| ch == ' '));
    assert_eq!(fb[0], 0);
    assert_eq!(fb[349 * 640 + 639], 0);
    assert_eq!(fb[350 * 640 + 639], 0x01_0811);
    assert_eq!(fb[350 * 640 + 127], 0x50_5050);
    assert_eq!(fb[370 * 640 + 10], 0xa0_a0a0);
    assert_eq!(fb[370 * 640 + 40], 0x50_5050);
    assert_eq!(fb[399 * 640 + 128], 0x01_0811);
}

#[test]
fn console_writes_and_breaks_lines() {
    let (mut c, mut fb) = console();
    c.put_string(&mut fb, &['a', 'b', '\n', 'c', 'd']);
    assert_eq!(text_at(&c, 0, 0), 'a');
    assert_eq!(text_at(&c, 0, 1), 'b');
    assert_eq!(text_at(&c, 1, 0), 'c');
    assert_eq!(text_at(&c, 1, 1), 'd');
    assert_eq!((c.cursor_row, c.cursor_col), (1, 2));
}

#[test]
fn console_wraps_a_full_row() {
    let (mut c, mut fb) = console();
    let mut line = vec!['x'; 79];
    line.push('y');
    c.put_string(&mut fb, &line);
    assert_eq!(text_at(&c, 0, 78), 'x');
    assert_eq!(text_at(&c, 0, 79), ' ');
    assert_eq!(text_at(&c, 1, 0), 'y');
    assert_eq!((c.cursor_row, c.cursor_col), (1, 1));
}

#[test]
fn console_scrolls_on_the_last_row() {
    let (mut c, mut fb) = console();
    c.put_string(&mut fb, &['t']);
    c.put_string(&mut fb, &vec!['\n'; N_ROWS - 1]);
    assert_eq!(c.cursor_row, N_ROWS - 1);
    c.put_string(&mut fb, &['z', '\n']);
    assert_eq!(c.cursor_row, N_ROWS - 1);
    assert_eq!(c.cursor_col, 0);
    assert_eq!(text_at(&c, N_ROWS - 2, 0), 'z');
    assert_eq!(text_at(&c, N_ROWS - 1, 0), ' ');
    assert!(c.buffer[..(N_ROWS - 2) * ROW_LEN].iter().all(|&ch| ch == ' '));
    assert_eq!(fb[0], 0);
}

#[test]
fn console_draws_and_redraws_glyphs() {
    let g = screen(640, 400);
    let mut fb = vec![MARK; 640 * 400];
    let mut font = vec![[0u8; 16]; 128];
    font['q' as usize][0] = 0x80;
    let mut c = Console::initialize(g, PixelColor::new(0, 0, 0x77), PixelColor::new(0, 0, 0), font, &mut fb);
    c.put_string(&mut fb, &['a', 'q']);
    assert_eq!(fb[8], 0x77);
    assert_eq!(fb[0], 0);
    c.put_string(&mut fb, &vec!['\n'; N_ROWS]);
    assert_eq!(text_at(&c, N_ROWS - 2, 1), ' ');
    assert_eq!(fb[8], 0);
    let moved_up = (N_ROWS - 1) * 16 * 640;
    assert_eq!(fb[moved_up + 8], 0);
    c.put_string(&mut fb, &['q']);
    assert_eq!(fb[(N_ROWS - 1) * 16 * 640], 0x77);
}
