//! Pixel compositing.
//!
//! [`composite`] blends a solid foreground color into an RGBA pixel buffer
//! through the coverage masks of a sequence of glyph placements, in sequence
//! order. For every covered pixel that lies inside the buffer each color
//! channel becomes `round((color * a + old * (255 - a)) / 255)` for the
//! pixel's coverage `a`, and the alpha channel becomes fully opaque; pixels
//! outside the buffer are skipped silently, and pixels outside every
//! placement's bounding box are left untouched.

use vstd::arithmetic::div_mod::lemma_fundamental_div_mod;
use vstd::arithmetic::div_mod::lemma_fundamental_div_mod_converse;
use vstd::prelude::*;

use crate::color::Rgb;
use crate::font::Placement;
use crate::font::PlacementView;
use crate::font::placement_views;

verus! {

/// One channel alpha-blended: `over` weighted by `a`, `base` weighted by
/// `255 - a`, rounded to nearest (coverage `a` runs over `0..=255`).
pub open spec fn blend_channel_spec(base: int, over: int, a: int) -> int {
    (over * a + base * (255 - a) + 127) / 255
}

/// Whether the pixel `(x, y)` lies inside `g`'s bounding box.
pub open spec fn covers(g: PlacementView, x: int, y: int) -> bool {
    g.min_x as int <= x < g.min_x as int + g.width as int && g.min_y as int <= y < g.min_y as int
        + g.height as int
}

/// Channel `c` (0 red, 1 green, 2 blue, 3 alpha) of the pixel at `(x, y)`,
/// which `g` covers, after blending `color` over the old channel value
/// `base`.
pub open spec fn channel_blend(
    base: u8,
    g: PlacementView,
    color: Rgb,
    x: int,
    y: int,
    c: int,
) -> u8 {
    let a = g.coverage[(y - g.min_y as int) * (g.width as int) + (x - g.min_x as int)];
    if c == 0 {
        blend_channel_spec(base as int, color.r as int, a as int) as u8
    } else if c == 1 {
        blend_channel_spec(base as int, color.g as int, a as int) as u8
    } else if c == 2 {
        blend_channel_spec(base as int, color.b as int, a as int) as u8
    } else {
        255u8
    }
}

/// Byte `i` of a `w`-pixel-wide RGBA buffer after compositing `g` in
/// `color`: blended where the byte's pixel lies inside `g`'s bounding box,
/// the old byte everywhere else.
pub open spec fn blended_at(orig: Seq<u8>, w: int, g: PlacementView, color: Rgb, i: int) -> u8 {
    let x = (i / 4) % w;
    let y = (i / 4) / w;
    if covers(g, x, y) {
        channel_blend(orig[i], g, color, x, y, i % 4)
    } else {
        orig[i]
    }
}

/// A `w`-pixel-wide RGBA buffer after compositing one glyph.
pub open spec fn composite_glyph_spec(
    orig: Seq<u8>,
    w: int,
    g: PlacementView,
    color: Rgb,
) -> Seq<u8> {
    Seq::new(orig.len(), |i: int| blended_at(orig, w, g, color, i))
}

/// A `w`-pixel-wide RGBA buffer after compositing a sequence of glyphs, in
/// sequence order.
pub open spec fn composite_spec(
    orig: Seq<u8>,
    w: int,
    ps: Seq<PlacementView>,
    color: Rgb,
) -> Seq<u8>
    decreases ps.len(),
{
    if ps.len() == 0 {
        orig
    } else {
        composite_spec(composite_glyph_spec(orig, w, ps[0], color), w, ps.drop_first(), color)
    }
}

/// Compositing is bounds-safe in what it leaves alone: the buffer keeps its
/// length, and a byte whose pixel lies inside no placement's bounding box
/// keeps its value, however many glyphs are composited and wherever their
/// boxes fall.
pub proof fn lemma_composite_untouched(
    orig: Seq<u8>,
    w: int,
    ps: Seq<PlacementView>,
    color: Rgb,
    i: int,
)
    requires
        0 <= i < orig.len(),
        forall|k: int| 0 <= k < ps.len() ==> !covers(#[trigger] ps[k], (i / 4) % w, (i / 4) / w),
    ensures
        composite_spec(orig, w, ps, color).len() == orig.len(),
        composite_spec(orig, w, ps, color)[i] == orig[i],
    decreases ps.len(),
{
    if ps.len() == 0 {
    } else {
        let step = composite_glyph_spec(orig, w, ps[0], color);
        assert(step[i] == orig[i]);
        assert forall|k: int| 0 <= k < ps.drop_first().len() implies !covers(
            #[trigger] ps.drop_first()[k],
            (i / 4) % w,
            (i / 4) / w,
        ) by {
            assert(ps.drop_first()[k] == ps[k + 1]);
        }
        lemma_composite_untouched(step, w, ps.drop_first(), color, i);
    }
}

/// A pixel inside the buffer that one composited glyph covers fully (alpha
/// 255) takes the foreground color exactly, and becomes opaque: rendering in
/// red leaves such a pixel red-dominant, whatever the buffer held there.
pub proof fn lemma_full_coverage_writes_color(
    orig: Seq<u8>,
    w: int,
    h: int,
    g: PlacementView,
    color: Rgb,
    x: int,
    y: int,
)
    requires
        orig.len() == 4 * w * h,
        g.wf(),
        0 <= x < w,
        0 <= y < h,
        covers(g, x, y),
        g.coverage[(y - g.min_y as int) * (g.width as int) + (x - g.min_x as int)] == 255,
    ensures
        composite_spec(orig, w, seq![g], color)[4 * (y * w + x)] == color.r,
        composite_spec(orig, w, seq![g], color)[4 * (y * w + x) + 1] == color.g,
        composite_spec(orig, w, seq![g], color)[4 * (y * w + x) + 2] == color.b,
        composite_spec(orig, w, seq![g], color)[4 * (y * w + x) + 3] == 255,
{
    let ps = seq![g];
    assert(ps.drop_first() =~= Seq::<PlacementView>::empty());
    let out = composite_glyph_spec(orig, w, g, color);
    assert(composite_spec(orig, w, ps, color) == composite_spec(out, w, ps.drop_first(), color));
    lemma_pixel_in_buffer(w, h, x, y);
    let pix = y * w + x;
    lemma_pixel_bytes(w, x, y, 4 * pix);
    lemma_pixel_bytes(w, x, y, 4 * pix + 1);
    lemma_pixel_bytes(w, x, y, 4 * pix + 2);
    lemma_pixel_bytes(w, x, y, 4 * pix + 3);
    lemma_blend_full(orig[4 * pix] as int, color.r as int);
    lemma_blend_full(orig[4 * pix + 1] as int, color.g as int);
    lemma_blend_full(orig[4 * pix + 2] as int, color.b as int);
}

/// Blending any channel at full coverage yields the foreground channel.
proof fn lemma_blend_full(base: int, over: int)
    ensures
        blend_channel_spec(base, over, 255) == over,
{
    lemma_fundamental_div_mod_converse(over * 255 + base * (255 - 255) + 127, 255, over, 127);
}

/// Byte `i` after the pixels of `g`'s box before row `dy`, and before column
/// `dx` within row `dy`, have been composited.
spec fn partial_at(
    orig: Seq<u8>,
    w: int,
    g: PlacementView,
    color: Rgb,
    i: int,
    dy: int,
    dx: int,
) -> u8 {
    let x = (i / 4) % w;
    let y = (i / 4) / w;
    let row = y - g.min_y as int;
    let col = x - g.min_x as int;
    if covers(g, x, y) && ((row < dy) || (row == dy && col < dx)) {
        channel_blend(orig[i], g, color, x, y, i % 4)
    } else {
        orig[i]
    }
}

/// A byte index of a `w` by `h` RGBA buffer decomposes into its pixel
/// coordinates and channel: with `x = (i / 4) % w`, `y = (i / 4) / w` and
/// `c = i % 4`, the pixel lies inside the buffer and
/// `i == 4 * (y * w + x) + c`.
pub(crate) proof fn lemma_byte_coords(w: int, h: int, i: int)
    requires
        w >= 0,
        h >= 0,
        0 <= i < 4 * w * h,
    ensures
        0 < w,
        0 < h,
        0 <= i % 4 < 4,
        0 <= (i / 4) % w < w,
        0 <= (i / 4) / w < h,
        i == 4 * (((i / 4) / w) * w + (i / 4) % w) + i % 4,
{
    assert(w > 0 && h > 0) by (nonlinear_arith)
        requires
            0 <= i && i < 4 * w * h,
            w >= 0,
            h >= 0,
    ;
    lemma_fundamental_div_mod(i, 4);
    lemma_fundamental_div_mod(i / 4, w);
    assert(0 <= i / 4 && i / 4 < w * h) by (nonlinear_arith)
        requires
            0 <= i && i < 4 * w * h,
            i / 4 * 4 + i % 4 == i,
            0 <= i % 4 && i % 4 < 4,
    ;
    assert(0 <= (i / 4) / w && (i / 4) / w < h) by (nonlinear_arith)
        requires
            0 <= i / 4 && i / 4 < w * h,
            i / 4 == w * ((i / 4) / w) + (i / 4) % w,
            0 <= (i / 4) % w && (i / 4) % w < w,
    ;
    assert(w * ((i / 4) / w) == ((i / 4) / w) * w) by (nonlinear_arith);
}

/// A pixel `(x, y)` inside a `w` by `h` buffer owns the four bytes from
/// `4 * (y * w + x)` on, all of them within the buffer.
pub(crate) proof fn lemma_pixel_in_buffer(w: int, h: int, x: int, y: int)
    requires
        0 <= x < w,
        0 <= y < h,
    ensures
        0 <= y * w + x,
        y * w + x < w * h,
        4 * (y * w + x) + 4 <= 4 * w * h,
{
    assert(0 <= y * w + x && y * w + x < w * h) by (nonlinear_arith)
        requires
            0 <= x && x < w,
            0 <= y && y < h,
    ;
    assert(4 * (y * w + x) + 4 <= 4 * w * h) by (nonlinear_arith)
        requires
            0 <= y * w + x,
            y * w + x < w * h,
    ;
}

/// The four bytes of the pixel `(x, y)` map back to it: for `i` among them,
/// `i / 4` is the pixel's index, `i % 4` its channel, and division by `w`
/// recovers `x` and `y`.
pub(crate) proof fn lemma_pixel_bytes(w: int, x: int, y: int, i: int)
    requires
        0 <= x < w,
        0 <= y,
        4 * (y * w + x) <= i < 4 * (y * w + x) + 4,
    ensures
        i / 4 == y * w + x,
        i % 4 == i - 4 * (y * w + x),
        (i / 4) / w == y,
        (i / 4) % w == x,
{
    lemma_fundamental_div_mod_converse(i, 4, y * w + x, i - 4 * (y * w + x));
    lemma_fundamental_div_mod_converse(y * w + x, w, y, x);
}

/// One channel alpha-blended, as [`blend_channel_spec`].
fn blend_channel(base: u8, over: u8, alpha: u8) -> (r: u8)
    ensures
        r as int == blend_channel_spec(base as int, over as int, alpha as int),
{
    let o = over as u32;
    let a = alpha as u32;
    let b = base as u32;
    proof {
        assert(o * a + b * (255 - a) <= 65025) by (nonlinear_arith)
            requires
                o <= 255,
                a <= 255,
                b <= 255,
        ;
    }
    let n: u32 = o * a + b * (255 - a) + 127;
    let r: u32 = n / 255;
    proof {
        assert(r <= 255) by (nonlinear_arith)
            requires
                n <= 65152,
                r == n / 255,
        ;
    }
    r as u8
}

/// Blends `color` at coverage `alpha` into the four bytes of the pixel that
/// starts at `idx`, making it fully opaque.
fn blend_pixel(buf: &mut Vec<u8>, idx: usize, color: Rgb, alpha: u8)
    requires
        idx + 4 <= old(buf)@.len(),
    ensures
        final(buf)@.len() == old(buf)@.len(),
        final(buf)@[idx as int] as int == blend_channel_spec(
            old(buf)@[idx as int] as int,
            color.r as int,
            alpha as int,
        ),
        final(buf)@[idx as int + 1] as int == blend_channel_spec(
            old(buf)@[idx as int + 1] as int,
            color.g as int,
            alpha as int,
        ),
        final(buf)@[idx as int + 2] as int == blend_channel_spec(
            old(buf)@[idx as int + 2] as int,
            color.b as int,
            alpha as int,
        ),
        final(buf)@[idx as int + 3] == 255u8,
        forall|i: int|
            0 <= i < final(buf)@.len() && !(idx <= i < idx + 4) ==> final(buf)@[i] == old(
                buf,
            )@[i],
{
    let _len = buf.len();
    let v0 = blend_channel(buf[idx], color.r, alpha);
    let v1 = blend_channel(buf[idx + 1], color.g, alpha);
    let v2 = blend_channel(buf[idx + 2], color.b, alpha);
    buf[idx] = v0;
    buf[idx + 1] = v1;
    buf[idx + 2] = v2;
    buf[idx + 3] = 255;
}

/// Composites one glyph placement into a `w` by `h` RGBA buffer: every pixel
/// of the placement's bounding box that lies inside the buffer is blended,
/// every pixel outside the buffer is skipped, and no other byte changes.
fn composite_glyph(buf: &mut Vec<u8>, w: u32, h: u32, g: &Placement, color: Rgb)
    requires
        old(buf)@.len() == 4 * (w as int) * (h as int),
        g@.wf(),
    ensures
        final(buf)@ == composite_glyph_spec(old(buf)@, w as int, g@, color),
{
    let _len = buf.len();
    let _cov_len = g.coverage.len();
    let ghost orig = buf@;
    let ghost gv = g@;
    let ghost wi = w as int;
    proof {
        assert forall|i: int| 0 <= i < orig.len() implies orig[i] == partial_at(
            orig,
            wi,
            gv,
            color,
            i,
            0,
            0,
        ) by {}
    }
    let mut dy: u32 = 0;
    while dy < g.height
        invariant
            orig == old(buf)@,
            gv == g@,
            wi == w as int,
            gv.wf(),
            orig.len() == 4 * (w as int) * (h as int),
            orig.len() <= usize::MAX,
            gv.coverage.len() <= usize::MAX,
            buf@.len() == orig.len(),
            0 <= dy <= g.height,
            forall|i: int|
                0 <= i < buf@.len() ==> buf@[i] == partial_at(
                    orig,
                    wi,
                    gv,
                    color,
                    i,
                    dy as int,
                    0,
                ),
        decreases g.height - dy,
    {
        let mut dx: u32 = 0;
        while dx < g.width
            invariant
                orig == old(buf)@,
                gv == g@,
                wi == w as int,
                gv.wf(),
                orig.len() == 4 * (w as int) * (h as int),
                orig.len() <= usize::MAX,
                gv.coverage.len() <= usize::MAX,
                buf@.len() == orig.len(),
                dy < g.height,
                0 <= dx <= g.width,
                forall|i: int|
                    0 <= i < buf@.len() ==> buf@[i] == partial_at(
                        orig,
                        wi,
                        gv,
                        color,
                        i,
                        dy as int,
                        dx as int,
                    ),
            decreases g.width - dx,
        {
            let px: i128 = (g.min_x as i128) + (dx as i128);
            let py: i128 = (g.min_y as i128) + (dy as i128);
            if 0 <= px && px < (w as i128) && 0 <= py && py < (h as i128) {
                let x = px as usize;
                let y = py as usize;
                proof {
                    lemma_pixel_in_buffer(wi, h as int, x as int, y as int);
                    lemma_pixel_in_buffer(
                        gv.width as int,
                        gv.height as int,
                        dx as int,
                        dy as int,
                    );
                }
                let idx: usize = 4 * (y * (w as usize) + x);
                let cidx: usize = (dy as usize) * (g.width as usize) + (dx as usize);
                let a = g.coverage[cidx];
                let ghost pre = buf@;
                blend_pixel(buf, idx, color, a);
                proof {
                    let xi = x as int;
                    let yi = y as int;
                    assert forall|i: int| 0 <= i < buf@.len() implies buf@[i] == partial_at(
                        orig,
                        wi,
                        gv,
                        color,
                        i,
                        dy as int,
                        dx as int + 1,
                    ) by {
                        lemma_byte_coords(wi, h as int, i);
                        if idx <= i < idx + 4 {
                            lemma_pixel_bytes(wi, xi, yi, i);
                            assert(covers(gv, xi, yi));
                            assert(partial_at(orig, wi, gv, color, i, dy as int, dx as int)
                                == orig[i]);
                            assert(buf@[i] == channel_blend(orig[i], gv, color, xi, yi, i % 4));
                        } else {
                            if (i / 4) % wi == xi && (i / 4) / wi == yi {
                                assert(idx <= i < idx + 4);
                            }
                            assert(buf@[i] == pre[i]);
                        }
                    }
                }
            } else {
                proof {
                    assert forall|i: int| 0 <= i < buf@.len() implies partial_at(
                        orig,
                        wi,
                        gv,
                        color,
                        i,
                        dy as int,
                        dx as int,
                    ) == partial_at(orig, wi, gv, color, i, dy as int, dx as int + 1) by {
                        lemma_byte_coords(wi, h as int, i);
                        let x2 = (i / 4) % wi;
                        let y2 = (i / 4) / wi;
                        if covers(gv, x2, y2) && y2 - gv.min_y as int == dy as int && x2
                            - gv.min_x as int == dx as int {
                            assert(false);
                        }
                    }
                }
            }
            dx = dx + 1;
        }
        proof {
            assert forall|i: int| 0 <= i < buf@.len() implies partial_at(
                orig,
                wi,
                gv,
                color,
                i,
                dy as int,
                gv.width as int,
            ) == partial_at(orig, wi, gv, color, i, dy as int + 1, 0) by {}
        }
        dy = dy + 1;
    }
    proof {
        assert forall|i: int| 0 <= i < buf@.len() implies buf@[i] == blended_at(
            orig,
            wi,
            gv,
            color,
            i,
        ) by {}
        assert(buf@ =~= composite_glyph_spec(orig, wi, gv, color));
    }
}

/// Composites a sequence of glyph placements into a `w` by `h` RGBA buffer,
/// in sequence order, clipping each placement to the buffer as
/// [`composite_spec`] describes.
pub fn composite(buf: &mut Vec<u8>, w: u32, h: u32, placements: &Vec<Placement>, color: Rgb)
    requires
        old(buf)@.len() == 4 * (w as int) * (h as int),
        forall|k: int| 0 <= k < placements@.len() ==> (#[trigger] placements@[k]@).wf(),
    ensures
        final(buf)@ == composite_spec(old(buf)@, w as int, placement_views(placements@), color),
        final(buf)@.len() == old(buf)@.len(),
{
    let ghost views = placement_views(placements@);
    let ghost total = composite_spec(old(buf)@, w as int, views, color);
    let n = placements.len();
    proof {
        assert(views.skip(0) =~= views);
    }
    let mut k: usize = 0;
    while k < n
        invariant
            n == placements@.len(),
            views == placement_views(placements@),
            forall|j: int| 0 <= j < placements@.len() ==> (#[trigger] placements@[j]@).wf(),
            0 <= k <= n,
            buf@.len() == old(buf)@.len(),
            old(buf)@.len() == 4 * (w as int) * (h as int),
            total == composite_spec(old(buf)@, w as int, views, color),
            total == composite_spec(buf@, w as int, views.skip(k as int), color),
        decreases n - k,
    {
        proof {
            assert(views.skip(k as int).drop_first() =~= views.skip(k as int + 1));
            assert(views.skip(k as int)[0] == views[k as int]);
            assert(views[k as int] == placements@[k as int]@);
        }
        composite_glyph(buf, w, h, &placements[k], color);
        k = k + 1;
    }
    proof {
        assert(views.skip(n as int) =~= Seq::<PlacementView>::empty());
    }
}

} // verus!
