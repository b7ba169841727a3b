use kernel::graphics::{is_direct_format, FrameBufferConfig, Graphics, PixelColor, PixelFormat, Vector2D};
use kernel::memory_map::is_available;

fn config(format: PixelFormat) -> FrameBufferConfig {
    FrameBufferConfig {
        frame_buffer: 0x8000_0000,
        frame_buffer_size: 4 * 8 * 4,
        horizontal_resolution: 6,
        vertical_resolution: 4,
        pixels_per_scan_line: 8,
        pixel_format: format,
    }
}

#[test]
fn constructors_keep_fields() {
    let v = Vector2D::new(3usize, 4usize);
    assert_eq!((v.x, v.y), (3, 4));
    let c = PixelColor::new(1, 2, 3);
    assert_eq!((c.r, c.g, c.b), (1, 2, 3));
}

#[test]
fn pixel_formats() {
    let rgb = Graphics::new(config(PixelFormat::Rgb));
    let bgr = Graphics::new(config(PixelFormat::Bgr));
    let c = PixelColor::new(0x11, 0x22, 0x33);
    assert_eq!(rgb.pixel_value(&c), 0x0011_2233);
    assert_eq!(bgr.pixel_value(&c), 0x0033_2211);
    assert!(is_direct_format(PixelFormat::Rgb));
    assert!(is_direct_format(PixelFormat::Bgr));
    assert!(!is_direct_format(PixelFormat::Bitmask));
    assert!(!is_direct_format(PixelFormat::BltOnly));
    assert_eq!(rgb.width(), 6);
    assert_eq!(rgb.height(), 4);
}

#[test]
fn write_pixel_uses_stride() {
    let g = Graphics::new(config(PixelFormat::Rgb));
    let mut fb = vec![0u32; 32];
    g.write_pixel(&mut fb, 2, 3, &PixelColor::new(0, 0, 0xff));
    assert_eq!(fb[3 * 8 + 2], 0xff);
    assert_eq!(fb.iter().filter(|&&p| p != 0).count(), 1);
}

#[test]
fn fill_rectangle_and_clear() {
    let g = Graphics::new(config(PixelFormat::Bgr));
    let mut fb = vec![7u32; 32];
    g.fill_regtangle(&mut fb, Vector2D::new(1, 1), Vector2D::new(2, 2), &PixelColor::new(0xff, 0, 0));
    for y in 0..4 {
        for x in 0..8 {
            let inside = (1..3).contains(&x) && (1..3).contains(&y);
            assert_eq!(fb[y * 8 + x], if inside { 0xff } else { 7 });
        }
    }
    g.clear(&mut fb, &PixelColor::new(0, 0, 0));
    for y in 0..4 {
        for x in 0..8 {
            assert_eq!(fb[y * 8 + x], if x < 6 { 0 } else { 7 });
        }
    }
}

#[test]
fn available_memory_types() {
    assert!(is_available(3));
    assert!(is_available(4));
    assert!(is_available(7));
    assert!(!is_available(0));
    assert!(!is_available(1));
    assert!(!is_available(2));
    assert!(!is_available(9));
}
