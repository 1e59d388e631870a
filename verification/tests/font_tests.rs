use si_img::GlyphEntry;
use si_img::GlyphRaster;
use si_img::ScaleMetrics;
use si_img::SiFont;
use si_img::TextOptions;

/// A font whose table holds one glyph, `A` at scale 32: an 8 by 10 box with
/// full coverage, bearing (2, -20), under an ascent of 20 at that scale.
fn test_font() -> SiFont {
    let raster = GlyphRaster {
        bearing_x: 2,
        bearing_y: -20,
        width: 8,
        height: 10,
        coverage: vec![255u8; 80],
    };
    SiFont::new(
        vec![ScaleMetrics { scale: 32, ascent: 20 }],
        vec![GlyphEntry { ch: 'A', scale: 32, raster: Some(raster) }],
    )
}

#[test]
fn default_options_values() {
    let opts = TextOptions::default();
    assert_eq!(opts.letter_spacing, 2);
    assert_eq!(opts.space_width, 10);
}

#[test]
fn layout_empty_text_is_empty() {
    let font = test_font();
    let opts = TextOptions::default();
    let placements = font.layout("", 32, 10, 10, &opts);
    assert_eq!(placements.len(), 0);
}

#[test]
fn layout_places_glyph_at_cursor_plus_bearing() {
    let font = test_font();
    let opts = TextOptions::default();
    let placements = font.layout("A", 32, 10, 10, &opts);
    assert_eq!(placements.len(), 1);
    // Baseline 10 + ascent 20 = 30; box corner at cursor + bearing.
    assert_eq!(placements[0].min_x, 12);
    assert_eq!(placements[0].min_y, 10);
    assert_eq!(placements[0].width, 8);
    assert_eq!(placements[0].height, 10);
}

#[test]
fn layout_advances_by_width_plus_letter_spacing() {
    let font = test_font();
    let opts = TextOptions::default();
    let placements = font.layout("AA", 32, 10, 10, &opts);
    assert_eq!(placements.len(), 2);
    assert_eq!(placements[0].min_x, 12);
    // Cursor moved by width 8 + letter_spacing 2.
    assert_eq!(placements[1].min_x, 22);
    assert_eq!(placements[1].min_y, 10);
}

#[test]
fn layout_whitespace_advances_without_placement() {
    let font = test_font();
    let opts = TextOptions::default();
    let placements = font.layout("A A", 32, 10, 10, &opts);
    assert_eq!(placements.len(), 2);
    assert_eq!(placements[0].min_x, 12);
    // Cursor moved by width 8 + spacing 2, then space_width 10.
    assert_eq!(placements[1].min_x, 32);
}

#[test]
fn layout_skips_characters_without_glyphs() {
    let font = test_font();
    let opts = TextOptions::default();
    let with_gap = font.layout("AZA", 32, 10, 10, &opts);
    let without = font.layout("AA", 32, 10, 10, &opts);
    assert_eq!(with_gap.len(), 2);
    assert_eq!(with_gap[0].min_x, without[0].min_x);
    assert_eq!(with_gap[1].min_x, without[1].min_x);
}

#[test]
fn layout_unknown_scale_has_ascent_zero_and_no_glyphs() {
    let font = test_font();
    let opts = TextOptions::default();
    let placements = font.layout("A", 16, 10, 10, &opts);
    assert_eq!(placements.len(), 0);
}

#[test]
fn layout_saturates_at_the_coordinate_range() {
    let font = test_font();
    let opts = TextOptions::default();
    let placements = font.layout("AA", 32, i64::MAX - 1, 0, &opts);
    assert_eq!(placements.len(), 2);
    assert_eq!(placements[0].min_x, i64::MAX);
    assert_eq!(placements[1].min_x, i64::MAX);
}

#[test]
fn layout_is_deterministic_and_restartable() {
    let font = test_font();
    let opts = TextOptions::default();
    let first = font.layout("A AA", 32, 7, 3, &opts);
    let second = font.layout("A AA", 32, 7, 3, &opts);
    assert_eq!(first.len(), second.len());
    for (a, b) in first.iter().zip(second.iter()) {
        assert_eq!(a.min_x, b.min_x);
        assert_eq!(a.min_y, b.min_y);
        assert_eq!(a.width, b.width);
        assert_eq!(a.height, b.height);
        assert_eq!(a.coverage, b.coverage);
    }
}
