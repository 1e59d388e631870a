//! Fonts and glyph layout.
//!
//! A [`SiFont`] is a table of pre-rasterized glyphs: for a character at an
//! integer pixel scale it holds an optional [`GlyphRaster`] (the pixel
//! bounding box relative to the pen position, plus an alpha coverage mask),
//! and for each scale the font's ascent. An external rasterizer fills the
//! table once; layout and compositing then work on these plain values alone.
//!
//! [`SiFont::layout`] walks a text left to right, keeping a cursor: a
//! whitespace character advances the cursor by the configured space width and
//! emits nothing; a character whose glyph is absent from the table is skipped
//! silently; any other character emits a [`Placement`] at the cursor and
//! advances the cursor by the glyph's bounding-box width plus the configured
//! letter spacing. Cursor arithmetic saturates at the `i64` range.

use vstd::prelude::*;

verus! {

/// Spacing configuration for text layout: extra pixels after each glyph, and
/// the cursor advance for a whitespace character.
#[derive(Clone, Copy, PartialEq, Eq, Structural, Debug)]
pub struct TextOptions {
    pub letter_spacing: u32,
    pub space_width: u32,
}

impl TextOptions {
    /// The default spacing: 2 pixels between letters, 10 pixels per space.
    pub fn default() -> (r: TextOptions)
        ensures
            r == (TextOptions { letter_spacing: 2u32, space_width: 10u32 }),
    {
        TextOptions { letter_spacing: 2, space_width: 10 }
    }
}

/// One glyph's rasterization at one scale, relative to the pen position on
/// the baseline: the offset of the pixel bounding box's top-left corner, the
/// box's size, and a row-major coverage mask with one alpha value per pixel
/// (0 = no ink, 255 = full ink).
pub struct GlyphRaster {
    pub bearing_x: i64,
    pub bearing_y: i64,
    pub width: u32,
    pub height: u32,
    pub coverage: Vec<u8>,
}

/// The mathematical value of a [`GlyphRaster`].
pub ghost struct RasterView {
    pub bearing_x: i64,
    pub bearing_y: i64,
    pub width: u32,
    pub height: u32,
    pub coverage: Seq<u8>,
}

impl View for GlyphRaster {
    type V = RasterView;

    open spec fn view(&self) -> RasterView {
        RasterView {
            bearing_x: self.bearing_x,
            bearing_y: self.bearing_y,
            width: self.width,
            height: self.height,
            coverage: self.coverage@,
        }
    }
}

impl RasterView {
    /// The coverage mask covers the bounding box exactly.
    pub open spec fn wf(&self) -> bool {
        self.coverage.len() == self.width * self.height
    }
}

/// One row of the glyph table: the raster for `ch` at `scale`, or `None`
/// where the font has no glyph for `ch`.
pub struct GlyphEntry {
    pub ch: char,
    pub scale: u32,
    pub raster: Option<GlyphRaster>,
}

/// The mathematical value of a [`GlyphEntry`].
pub ghost struct GlyphEntryView {
    pub ch: char,
    pub scale: u32,
    pub raster: Option<RasterView>,
}

impl View for GlyphEntry {
    type V = GlyphEntryView;

    open spec fn view(&self) -> GlyphEntryView {
        GlyphEntryView {
            ch: self.ch,
            scale: self.scale,
            raster: match self.raster {
                Some(r) => Some(r@),
                None => None,
            },
        }
    }
}

/// The font's ascent at one scale: how far the baseline sits below the top
/// of a rendered line.
#[derive(Clone, Copy, PartialEq, Eq, Structural, Debug)]
pub struct ScaleMetrics {
    pub scale: u32,
    pub ascent: i64,
}

/// A font: per-scale metrics and a table of pre-rasterized glyphs. An
/// external rasterizer builds the table; a scale or character it does not
/// cover behaves as a character the font has no glyph for.
pub struct SiFont {
    pub metrics: Vec<ScaleMetrics>,
    pub glyphs: Vec<GlyphEntry>,
}

/// The mathematical value of a [`SiFont`].
pub ghost struct FontView {
    pub metrics: Seq<ScaleMetrics>,
    pub glyphs: Seq<GlyphEntryView>,
}

impl View for SiFont {
    type V = FontView;

    open spec fn view(&self) -> FontView {
        FontView { metrics: self.metrics@, glyphs: self.glyphs@.map_values(|e: GlyphEntry| e@) }
    }
}

impl FontView {
    /// Every raster in the table covers its bounding box exactly.
    pub open spec fn wf(&self) -> bool {
        forall|i: int|
            0 <= i < self.glyphs.len() ==> match #[trigger] self.glyphs[i].raster {
                Some(r) => r.wf(),
                None => true,
            }
    }
}

/// The raster of the first table row matching `ch` at `scale`; `None` when
/// no row matches or the matching row records that the font has no glyph.
pub open spec fn spec_glyph(glyphs: Seq<GlyphEntryView>, ch: char, scale: u32) -> Option<RasterView>
    decreases glyphs.len(),
{
    if glyphs.len() == 0 {
        None
    } else if glyphs[0].ch == ch && glyphs[0].scale == scale {
        glyphs[0].raster
    } else {
        spec_glyph(glyphs.drop_first(), ch, scale)
    }
}

/// The ascent of the first metrics row matching `scale`, or 0 when the table
/// has none for that scale.
pub open spec fn spec_ascent(metrics: Seq<ScaleMetrics>, scale: u32) -> i64
    decreases metrics.len(),
{
    if metrics.len() == 0 {
        0
    } else if metrics[0].scale == scale {
        metrics[0].ascent
    } else {
        spec_ascent(metrics.drop_first(), scale)
    }
}

/// Addition clamped to the `i64` range.
pub open spec fn sat_add64(a: int, b: int) -> int {
    if a + b > i64::MAX {
        i64::MAX as int
    } else if a + b < i64::MIN {
        i64::MIN as int
    } else {
        a + b
    }
}

/// Whether `c` has the Unicode `White_Space` property.
pub open spec fn is_space_char(c: char) -> bool {
    let n = c as int;
    (9 <= n && n <= 13) || n == 32 || n == 133 || n == 160 || n == 5760 || (8192 <= n && n
        <= 8202) || n == 8232 || n == 8233 || n == 8239 || n == 8287 || n == 12288
}

/// A glyph placed on the image: the absolute pixel bounding box's top-left
/// corner, its size, and the glyph's coverage mask.
pub struct Placement {
    pub min_x: i64,
    pub min_y: i64,
    pub width: u32,
    pub height: u32,
    pub coverage: Vec<u8>,
}

/// The mathematical value of a [`Placement`].
pub ghost struct PlacementView {
    pub min_x: i64,
    pub min_y: i64,
    pub width: u32,
    pub height: u32,
    pub coverage: Seq<u8>,
}

impl View for Placement {
    type V = PlacementView;

    open spec fn view(&self) -> PlacementView {
        PlacementView {
            min_x: self.min_x,
            min_y: self.min_y,
            width: self.width,
            height: self.height,
            coverage: self.coverage@,
        }
    }
}

impl PlacementView {
    /// The coverage mask covers the bounding box exactly.
    pub open spec fn wf(&self) -> bool {
        self.coverage.len() == self.width * self.height
    }
}

/// The views of a sequence of placements.
pub open spec fn placement_views(s: Seq<Placement>) -> Seq<PlacementView> {
    s.map_values(|p: Placement| p@)
}

/// `r` placed with its pen position at `(x, y)`.
pub open spec fn spec_place(r: RasterView, x: int, y: int) -> PlacementView {
    PlacementView {
        min_x: sat_add64(x, r.bearing_x as int) as i64,
        min_y: sat_add64(y, r.bearing_y as int) as i64,
        width: r.width,
        height: r.height,
        coverage: r.coverage,
    }
}

/// The placements laid out for `text` with the cursor starting at `x` on the
/// baseline `y`: whitespace advances the cursor by `opts.space_width`, a
/// character without a glyph is skipped, and every other character is placed
/// at the cursor, which then advances by the glyph's width plus
/// `opts.letter_spacing`.
pub open spec fn spec_layout_rec(
    glyphs: Seq<GlyphEntryView>,
    text: Seq<char>,
    scale: u32,
    x: int,
    y: int,
    opts: TextOptions,
) -> Seq<PlacementView>
    decreases text.len(),
{
    if text.len() == 0 {
        Seq::empty()
    } else {
        let c = text[0];
        let rest = text.drop_first();
        if is_space_char(c) {
            spec_layout_rec(glyphs, rest, scale, sat_add64(x, opts.space_width as int), y, opts)
        } else {
            match spec_glyph(glyphs, c, scale) {
                None => spec_layout_rec(glyphs, rest, scale, x, y, opts),
                Some(r) => seq![spec_place(r, x, y)] + spec_layout_rec(
                    glyphs,
                    rest,
                    scale,
                    sat_add64(x, r.width as int + opts.letter_spacing as int),
                    y,
                    opts,
                ),
            }
        }
    }
}

/// The placements for `text` at `scale`, starting at `(x, y)`: the baseline
/// is `y` plus the font's ascent at `scale`, and the cursor starts at `x`.
pub open spec fn spec_layout(
    font: FontView,
    text: Seq<char>,
    scale: u32,
    x: int,
    y: int,
    opts: TextOptions,
) -> Seq<PlacementView> {
    spec_layout_rec(
        font.glyphs,
        text,
        scale,
        x,
        sat_add64(y, spec_ascent(font.metrics, scale) as int),
        opts,
    )
}

proof fn lemma_spec_glyph_wf(glyphs: Seq<GlyphEntryView>, ch: char, scale: u32)
    requires
        forall|i: int|
            0 <= i < glyphs.len() ==> match #[trigger] glyphs[i].raster {
                Some(r) => r.wf(),
                None => true,
            },
    ensures
        match spec_glyph(glyphs, ch, scale) {
            Some(r) => r.wf(),
            None => true,
        },
    decreases glyphs.len(),
{
    if glyphs.len() == 0 {
    } else if glyphs[0].ch == ch && glyphs[0].scale == scale {
    } else {
        assert forall|i: int|
            0 <= i < glyphs.drop_first().len() implies match #[trigger] glyphs.drop_first()[i].raster {
            Some(r) => r.wf(),
            None => true,
        } by {
            assert(glyphs.drop_first()[i] == glyphs[i + 1]);
        }
        lemma_spec_glyph_wf(glyphs.drop_first(), ch, scale);
    }
}

proof fn lemma_layout_rec_wf(
    glyphs: Seq<GlyphEntryView>,
    text: Seq<char>,
    scale: u32,
    x: int,
    y: int,
    opts: TextOptions,
)
    requires
        forall|i: int|
            0 <= i < glyphs.len() ==> match #[trigger] glyphs[i].raster {
                Some(r) => r.wf(),
                None => true,
            },
    ensures
        forall|k: int|
            0 <= k < spec_layout_rec(glyphs, text, scale, x, y, opts).len() ==> (
            #[trigger] spec_layout_rec(glyphs, text, scale, x, y, opts)[k]).wf(),
    decreases text.len(),
{
    if text.len() == 0 {
    } else {
        let c = text[0];
        let rest = text.drop_first();
        if is_space_char(c) {
            lemma_layout_rec_wf(glyphs, rest, scale, sat_add64(x, opts.space_width as int), y, opts);
            assert(spec_layout_rec(glyphs, text, scale, x, y, opts) == spec_layout_rec(
                glyphs,
                rest,
                scale,
                sat_add64(x, opts.space_width as int),
                y,
                opts,
            ));
        } else {
            lemma_spec_glyph_wf(glyphs, c, scale);
            match spec_glyph(glyphs, c, scale) {
                None => {
                    lemma_layout_rec_wf(glyphs, rest, scale, x, y, opts);
                    assert(spec_layout_rec(glyphs, text, scale, x, y, opts) == spec_layout_rec(
                        glyphs,
                        rest,
                        scale,
                        x,
                        y,
                        opts,
                    ));
                },
                Some(r) => {
                    let x2 = sat_add64(x, r.width as int + opts.letter_spacing as int);
                    lemma_layout_rec_wf(glyphs, rest, scale, x2, y, opts);
                    let whole = spec_layout_rec(glyphs, text, scale, x, y, opts);
                    let tail = spec_layout_rec(glyphs, rest, scale, x2, y, opts);
                    assert forall|k: int| 0 <= k < whole.len() implies (#[trigger] whole[k]).wf() by {
                        if k == 0 {
                            assert(whole[0] == spec_place(r, x, y));
                        } else {
                            assert(whole[k] == tail[k - 1]);
                        }
                    }
                },
            }
        }
    }
}

/// Every placement a layout yields is well formed: its coverage mask covers
/// its bounding box exactly, provided every raster in the font's table does.
pub proof fn lemma_layout_placements_wf(
    font: FontView,
    text: Seq<char>,
    scale: u32,
    x: int,
    y: int,
    opts: TextOptions,
)
    requires
        font.wf(),
    ensures
        forall|k: int|
            0 <= k < spec_layout(font, text, scale, x, y, opts).len() ==> (#[trigger] spec_layout(
                font,
                text,
                scale,
                x,
                y,
                opts,
            )[k]).wf(),
{
    lemma_layout_rec_wf(
        font.glyphs,
        text,
        scale,
        x,
        sat_add64(y, spec_ascent(font.metrics, scale) as int),
        opts,
    );
}

/// Laying out the empty text yields no placements, whatever the font, the
/// scale, the position and the options.
pub proof fn lemma_layout_empty(font: FontView, scale: u32, x: int, y: int, opts: TextOptions)
    ensures
        spec_layout(font, Seq::<char>::empty(), scale, x, y, opts) == Seq::<PlacementView>::empty(),
{
}

/// Layout is deterministic and restartable: two layouts of the same text,
/// font, scale, position and options place the same glyphs, in the same
/// order, with the same bounding boxes and coverage.
pub proof fn lemma_layout_deterministic(
    r1: Seq<Placement>,
    r2: Seq<Placement>,
    font: FontView,
    text: Seq<char>,
    scale: u32,
    x: int,
    y: int,
    opts: TextOptions,
)
    requires
        placement_views(r1) == spec_layout(font, text, scale, x, y, opts),
        placement_views(r2) == spec_layout(font, text, scale, x, y, opts),
    ensures
        placement_views(r1) == placement_views(r2),
        r1.len() == r2.len(),
        forall|k: int| 0 <= k < r1.len() ==> r1[k]@ == r2[k]@,
{
    assert(placement_views(r1).len() == r1.len());
    assert(placement_views(r2).len() == r2.len());
    assert forall|k: int| 0 <= k < r1.len() implies r1[k]@ == r2[k]@ by {
        assert(placement_views(r1)[k] == r1[k]@);
        assert(placement_views(r2)[k] == r2[k]@);
    }
}

/// Addition of `i64` values, clamped to the `i64` range.
fn sat_add(a: i64, b: i64) -> (r: i64)
    ensures
        r as int == sat_add64(a as int, b as int),
{
    match a.checked_add(b) {
        Some(v) => v,
        None => if b > 0 {
            i64::MAX
        } else {
            i64::MIN
        },
    }
}

/// Whether `c` has the Unicode `White_Space` property.
fn is_space(c: char) -> (r: bool)
    ensures
        r == is_space_char(c),
{
    let n = c as u32;
    (9 <= n && n <= 13) || n == 32 || n == 133 || n == 160 || n == 5760 || (8192 <= n && n
        <= 8202) || n == 8232 || n == 8233 || n == 8239 || n == 8287 || n == 12288
}

impl SiFont {
    /// A font from its per-scale metrics and its glyph table.
    pub fn new(metrics: Vec<ScaleMetrics>, glyphs: Vec<GlyphEntry>) -> (r: SiFont)
        ensures
            r@ == (FontView {
                metrics: metrics@,
                glyphs: glyphs@.map_values(|e: GlyphEntry| e@),
            }),
    {
        SiFont { metrics, glyphs }
    }

    /// The raster for `ch` at `scale`, when the table has one.
    fn glyph_for(&self, ch: char, scale: u32) -> (r: Option<&GlyphRaster>)
        ensures
            match r {
                Some(g) => spec_glyph(self@.glyphs, ch, scale) == Some(g@),
                None => spec_glyph(self@.glyphs, ch, scale) is None,
            },
    {
        let n = self.glyphs.len();
        let ghost gv = self@.glyphs;
        proof {
            assert(gv.skip(0) =~= gv);
        }
        let mut j: usize = 0;
        while j < n
            invariant
                n == self.glyphs@.len(),
                gv == self@.glyphs,
                gv.len() == n,
                0 <= j <= n,
                spec_glyph(gv, ch, scale) == spec_glyph(gv.skip(j as int), ch, scale),
            decreases n - j,
        {
            proof {
                assert(gv.skip(j as int).drop_first() =~= gv.skip(j as int + 1));
                assert(gv.skip(j as int)[0] == gv[j as int]);
            }
            let e = &self.glyphs[j];
            if e.ch == ch && e.scale == scale {
                return match &e.raster {
                    Some(g) => Some(g),
                    None => None,
                };
            }
            j = j + 1;
        }
        proof {
            assert(gv.skip(n as int) =~= Seq::<GlyphEntryView>::empty());
        }
        None
    }

    /// The font's ascent at `scale`, or 0 when the table has no metrics for
    /// that scale.
    fn ascent_for(&self, scale: u32) -> (r: i64)
        ensures
            r == spec_ascent(self@.metrics, scale),
    {
        let n = self.metrics.len();
        let ghost mv = self@.metrics;
        proof {
            assert(mv.skip(0) =~= mv);
        }
        let mut j: usize = 0;
        while j < n
            invariant
                n == self.metrics@.len(),
                mv == self@.metrics,
                0 <= j <= n,
                spec_ascent(mv, scale) == spec_ascent(mv.skip(j as int), scale),
            decreases n - j,
        {
            proof {
                assert(mv.skip(j as int).drop_first() =~= mv.skip(j as int + 1));
                assert(mv.skip(j as int)[0] == mv[j as int]);
            }
            let m = self.metrics[j];
            if m.scale == scale {
                return m.ascent;
            }
            j = j + 1;
        }
        proof {
            assert(mv.skip(n as int) =~= Seq::<ScaleMetrics>::empty());
        }
        0
    }

    /// Lays `text` out at `scale` starting at `(pos_x, pos_y)`: one placement
    /// per character that has a glyph, in reading order, as
    /// [`spec_layout`] describes.
    pub fn layout(
        &self,
        text: &str,
        scale: u32,
        pos_x: i64,
        pos_y: i64,
        options: &TextOptions,
    ) -> (res: Vec<Placement>)
        ensures
            placement_views(res@) == spec_layout(
                self@,
                text@,
                scale,
                pos_x as int,
                pos_y as int,
                *options,
            ),
    {
        let cs = crate::color::chars_of(text);
        let base_y = sat_add(pos_y, self.ascent_for(scale));
        let ghost total = spec_layout(self@, text@, scale, pos_x as int, pos_y as int, *options);
        let mut cursor: i64 = pos_x;
        let mut res: Vec<Placement> = Vec::new();
        let mut k: usize = 0;
        proof {
            assert(cs@.skip(0) =~= cs@);
            assert(placement_views(res@) =~= Seq::<PlacementView>::empty());
        }
        while k < cs.len()
            invariant
                cs@ == text@,
                0 <= k <= cs@.len(),
                total == spec_layout(self@, text@, scale, pos_x as int, pos_y as int, *options),
                total == placement_views(res@) + spec_layout_rec(
                    self@.glyphs,
                    cs@.skip(k as int),
                    scale,
                    cursor as int,
                    base_y as int,
                    *options,
                ),
            decreases cs@.len() - k,
        {
            proof {
                assert(cs@.skip(k as int).drop_first() =~= cs@.skip(k as int + 1));
                assert(cs@.skip(k as int)[0] == cs@[k as int]);
            }
            let c = cs[k];
            if is_space(c) {
                cursor = sat_add(cursor, options.space_width as i64);
            } else {
                match self.glyph_for(c, scale) {
                    None => {},
                    Some(r) => {
                        let cov = r.coverage.clone();
                        proof {
                            assert(cov@ =~= r.coverage@);
                        }
                        let p = Placement {
                            min_x: sat_add(cursor, r.bearing_x),
                            min_y: sat_add(base_y, r.bearing_y),
                            width: r.width,
                            height: r.height,
                            coverage: cov,
                        };
                        let ghost old_res = res@;
                        res.push(p);
                        proof {
                            assert(placement_views(res@) =~= placement_views(old_res).push(p@));
                            assert(placement_views(old_res).push(p@) =~= placement_views(old_res)
                                + seq![p@]);
                        }
                        cursor = sat_add(cursor, (r.width as i64) + (options.letter_spacing as i64));
                    },
                }
            }
            k = k + 1;
        }
        proof {
            assert(cs@.skip(cs@.len() as int) =~= Seq::<char>::empty());
            assert(total =~= placement_views(res@));
        }
        res
    }
}

} // verus!
