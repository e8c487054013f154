use photon::encode::{braille_glyph, braille_pattern, encode_ppm, ramp_glyph};
use photon::framebuffer::{render_pixels, Framebuffer};

#[test]
fn framebuffer_set_and_get() {
    let mut fb = Framebuffer::new(3, 2, 0u32);
    assert_eq!(fb.pixels.len(), 6);
    fb.set(2, 1, 7);
    fb.set(0, 1, 5);
    assert_eq!(fb.get(2, 1), 7);
    assert_eq!(fb.get(0, 1), 5);
    assert_eq!(fb.get(1, 1), 0);
    assert_eq!(fb.pixels, vec![0, 0, 0, 5, 0, 7]);
}

#[test]
fn render_pixels_flips_rows() {
    let fb = render_pixels(3, 2, (0u32, 0u32), &|x: u32, y: u32| (x, y));
    // shade's y counts from the bottom row, the buffer's from the top
    assert_eq!(fb.get(0, 0), (0, 1));
    assert_eq!(fb.get(2, 0), (2, 1));
    assert_eq!(fb.get(1, 1), (1, 0));
}

#[test]
fn render_pixels_empty_image() {
    let fb = render_pixels(0, 5, 0u8, &|_x: u32, _y: u32| 1u8);
    assert!(fb.pixels.is_empty());
}

#[test]
fn ppm_bytes() {
    let mut fb = Framebuffer::new(2, 1, (0u8, 0u8, 0u8));
    fb.set(0, 0, (255, 128, 1));
    fb.set(1, 0, (10, 20, 30));
    let bytes = encode_ppm(&fb);
    let mut expected = b"P6\n2 1\n255\n".to_vec();
    expected.extend_from_slice(&[255, 128, 1, 10, 20, 30]);
    assert_eq!(bytes, expected);
}

#[test]
fn ppm_header_multi_digit() {
    let fb = Framebuffer::new(160, 80, (0u8, 0u8, 0u8));
    let bytes = encode_ppm(&fb);
    assert!(bytes.starts_with(b"P6\n160 80\n255\n"));
    assert_eq!(bytes.len(), 14 + 160 * 80 * 3);
}

#[test]
fn braille_dots_map_to_bits() {
    // a 2 by 4 cell with one lit dot at a time
    let expected: [(u32, u32, u8); 8] = [
        (0, 0, 0x01),
        (0, 1, 0x02),
        (0, 2, 0x04),
        (1, 0, 0x08),
        (1, 1, 0x10),
        (1, 2, 0x20),
        (0, 3, 0x40),
        (1, 3, 0x80),
    ];
    for &(x, y, bit) in &expected {
        let mut lit = Framebuffer::new(2, 4, false);
        lit.set(x, y, true);
        assert_eq!(braille_pattern(&lit, 0, 0), bit);
    }
    let all = Framebuffer::new(2, 4, true);
    assert_eq!(braille_pattern(&all, 0, 0), 0xff);
    let none = Framebuffer::new(2, 4, false);
    assert_eq!(braille_pattern(&none, 0, 0), 0);
}

#[test]
fn braille_second_cell() {
    let mut lit = Framebuffer::new(4, 8, false);
    lit.set(3, 7, true);
    lit.set(2, 4, true);
    assert_eq!(braille_pattern(&lit, 1, 1), 0x81);
    assert_eq!(braille_pattern(&lit, 0, 0), 0);
}

#[test]
fn braille_glyphs() {
    assert_eq!(braille_glyph(0), '\u{2800}');
    assert_eq!(braille_glyph(0xff), '\u{28ff}');
    assert_eq!(braille_glyph(0x41), '\u{2841}');
}

#[test]
fn ascii_ramp() {
    let s: String = (0..10).map(ramp_glyph).collect();
    assert_eq!(s, " .:-=+*#%@");
}
