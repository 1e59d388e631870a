use si_img::GlyphEntry;
use si_img::GlyphRaster;
use si_img::ScaleMetrics;
use si_img::SiFont;
use si_img::SiImage;
use si_img::TextOptions;

/// A `w` by `h` image filled with one RGBA value.
fn solid(w: u32, h: u32, rgba: [u8; 4]) -> SiImage {
    let mut buf = Vec::new();
    for _ in 0..(w * h) {
        buf.extend_from_slice(&rgba);
    }
    SiImage::from_pixels(w, h, buf).unwrap()
}

/// The RGBA value of the pixel at `(x, y)`.
fn px(img: &SiImage, x: u32, y: u32) -> [u8; 4] {
    let b = img.pixel_bytes();
    let i = 4 * ((y * img.width() + x) as usize);
    [b[i], b[i + 1], b[i + 2], b[i + 3]]
}

/// A font with a fully covered 8 by 10 glyph for `A` at scale 32 and a
/// half-covered one for `B`, under an ascent of 20.
fn test_font() -> SiFont {
    let full = GlyphRaster {
        bearing_x: 2,
        bearing_y: -20,
        width: 8,
        height: 10,
        coverage: vec![255u8; 80],
    };
    let half = GlyphRaster {
        bearing_x: 2,
        bearing_y: -20,
        width: 8,
        height: 10,
        coverage: vec![128u8; 80],
    };
    SiFont::new(
        vec![ScaleMetrics { scale: 32, ascent: 20 }],
        vec![
            GlyphEntry { ch: 'A', scale: 32, raster: Some(full) },
            GlyphEntry { ch: 'B', scale: 32, raster: Some(half) },
        ],
    )
}

#[test]
fn from_pixels_stores_dimensions() {
    let img = solid(5, 3, [1, 2, 3, 4]);
    assert_eq!(img.width(), 5);
    assert_eq!(img.height(), 3);
    assert_eq!(img.pixel_bytes().len(), 60);
}

#[test]
fn from_pixels_rejects_wrong_length() {
    assert!(SiImage::from_pixels(2, 2, vec![0u8; 15]).is_none());
    assert!(SiImage::from_pixels(2, 2, vec![0u8; 17]).is_none());
}

#[test]
fn from_vec_rejects_garbage() {
    assert!(SiImage::from_vec(vec![1, 2, 3, 4, 5]).is_err());
}

#[test]
fn resize_sets_requested_dimensions() {
    let img = solid(10, 10, [9, 9, 9, 255]);
    let resized = img.resize(30, 20);
    assert_eq!(resized.width(), 30);
    assert_eq!(resized.height(), 20);
    assert_eq!(resized.pixel_bytes().len(), 4 * 30 * 20);
}

#[test]
fn resize_to_one_pixel() {
    let img = solid(8, 8, [100, 150, 200, 255]);
    let resized = img.resize(1, 1);
    assert_eq!(resized.width(), 1);
    assert_eq!(resized.height(), 1);
}

#[test]
fn png_round_trip_keeps_pixels() {
    let mut buf = Vec::new();
    for i in 0..(4 * 3 * 4) {
        buf.push((i * 7 % 251) as u8);
    }
    // Opaque alpha so the codec has nothing to premultiply away.
    for p in 0..(4 * 3) {
        buf[4 * p + 3] = 255;
    }
    let img = SiImage::from_pixels(4, 3, buf.clone()).unwrap();
    let bytes = img.to_bytes().unwrap();
    let back = SiImage::from_vec(bytes).unwrap();
    assert_eq!(back.width(), 4);
    assert_eq!(back.height(), 3);
    assert_eq!(back.pixel_bytes(), &buf);
}

#[test]
fn new_matches_from_vec() {
    let img = solid(3, 2, [10, 20, 30, 255]);
    let bytes = img.to_bytes().unwrap();
    let via_new = SiImage::new(bytes.clone()).unwrap();
    let via_from_vec = SiImage::from_vec(bytes).unwrap();
    assert_eq!(via_new.width(), via_from_vec.width());
    assert_eq!(via_new.height(), via_from_vec.height());
    assert_eq!(via_new.pixel_bytes(), via_from_vec.pixel_bytes());
}

#[test]
fn encode_refuses_zero_dimensions() {
    let img = SiImage::from_pixels(0, 0, Vec::new()).unwrap();
    assert!(img.to_bytes().is_err());
}

#[test]
fn overlay_at_origin_reproduces_source() {
    let canvas = solid(2, 2, [0, 0, 0, 0]);
    let mut src_buf = Vec::new();
    for v in 0u8..16 {
        src_buf.push(v * 10);
    }
    let source = SiImage::from_pixels(2, 2, src_buf.clone()).unwrap();
    let out = canvas.render_image(&source, 0, 0);
    assert_eq!(out.pixel_bytes(), &src_buf);
}

#[test]
fn overlay_clips_at_the_edges() {
    let canvas = solid(4, 4, [1, 1, 1, 255]);
    let source = solid(2, 2, [9, 9, 9, 255]);
    let out = canvas.render_image(&source, -1, -1);
    // Only the source's bottom-right pixel lands inside.
    assert_eq!(out.width(), 4);
    assert_eq!(out.height(), 4);
    assert_eq!(px(&out, 0, 0), [9, 9, 9, 255]);
    assert_eq!(px(&out, 1, 0), [1, 1, 1, 255]);
    assert_eq!(px(&out, 0, 1), [1, 1, 1, 255]);
    assert_eq!(px(&out, 1, 1), [1, 1, 1, 255]);
}

#[test]
fn overlay_fully_outside_changes_nothing() {
    let canvas = solid(4, 4, [1, 2, 3, 255]);
    let source = solid(2, 2, [9, 9, 9, 255]);
    let out = canvas.render_image(&source, 100, -100);
    for y in 0..4 {
        for x in 0..4 {
            assert_eq!(px(&out, x, y), [1, 2, 3, 255]);
        }
    }
}

#[test]
fn render_text_end_to_end_red_on_white() {
    let canvas = solid(100, 100, [255, 255, 255, 255]);
    let font = test_font();
    let opts = TextOptions::default();
    let out = canvas.render_text(
        "A",
        32,
        10,
        10,
        Some("#ff0000".to_string()),
        &font,
        &opts,
    );
    assert_eq!(out.width(), 100);
    assert_eq!(out.height(), 100);
    // The glyph box starts at (12, 10); full coverage gives pure red.
    assert_eq!(px(&out, 12, 10), [255, 0, 0, 255]);
    assert_eq!(px(&out, 19, 19), [255, 0, 0, 255]);
    // Everything outside the box stays white.
    assert_eq!(px(&out, 11, 10), [255, 255, 255, 255]);
    assert_eq!(px(&out, 20, 10), [255, 255, 255, 255]);
    assert_eq!(px(&out, 12, 9), [255, 255, 255, 255]);
    assert_eq!(px(&out, 12, 20), [255, 255, 255, 255]);
    assert_eq!(px(&out, 50, 50), [255, 255, 255, 255]);
}

#[test]
fn render_text_half_coverage_blends() {
    let canvas = solid(100, 100, [255, 255, 255, 255]);
    let font = test_font();
    let opts = TextOptions::default();
    let out = canvas.render_text("B", 32, 10, 10, Some("#000000".to_string()), &font, &opts);
    // round((0 * 128 + 255 * 127) / 255) = 127 on every color channel.
    assert_eq!(px(&out, 12, 10), [127, 127, 127, 255]);
}

#[test]
fn render_text_clips_partly_outside_glyph() {
    let canvas = solid(20, 20, [255, 255, 255, 255]);
    let font = test_font();
    let opts = TextOptions::default();
    // Box corner at (17, 15): only a 3 by 5 corner lands inside.
    let out = canvas.render_text("A", 32, 15, 15, Some("#ff0000".to_string()), &font, &opts);
    assert_eq!(out.width(), 20);
    assert_eq!(out.height(), 20);
    assert_eq!(px(&out, 17, 15), [255, 0, 0, 255]);
    assert_eq!(px(&out, 19, 19), [255, 0, 0, 255]);
    assert_eq!(px(&out, 16, 15), [255, 255, 255, 255]);
}

#[test]
fn render_text_fully_outside_changes_nothing() {
    let canvas = solid(10, 10, [255, 255, 255, 255]);
    let font = test_font();
    let opts = TextOptions::default();
    let out = canvas.render_text("A", 32, 5000, 5000, Some("#ff0000".to_string()), &font, &opts);
    for y in 0..10 {
        for x in 0..10 {
            assert_eq!(px(&out, x, y), [255, 255, 255, 255]);
        }
    }
}

#[test]
fn render_text_without_color_uses_black() {
    let canvas = solid(50, 50, [255, 255, 255, 255]);
    let font = test_font();
    let opts = TextOptions::default();
    let out = canvas.render_text("A", 32, 10, 10, None, &font, &opts);
    assert_eq!(px(&out, 12, 10), [0, 0, 0, 255]);
}

#[test]
fn render_text_with_malformed_color_uses_black() {
    let canvas = solid(50, 50, [255, 255, 255, 255]);
    let font = test_font();
    let opts = TextOptions::default();
    let out = canvas.render_text("A", 32, 10, 10, Some("#zzzzzz".to_string()), &font, &opts);
    assert_eq!(px(&out, 12, 10), [0, 0, 0, 255]);
}

#[test]
fn render_text_with_unsupported_length_color_uses_white() {
    let canvas = solid(50, 50, [0, 0, 0, 255]);
    let font = test_font();
    let opts = TextOptions::default();
    let out = canvas.render_text("A", 32, 10, 10, Some("#12345".to_string()), &font, &opts);
    assert_eq!(px(&out, 12, 10), [255, 255, 255, 255]);
}
