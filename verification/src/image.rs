//! The image value model.
//!
//! A [`SiImage`] is an RGBA pixel buffer together with its dimensions; the
//! buffer always holds exactly four bytes per pixel. Every operation
//! consumes the value (or borrows it) and returns a new value; nothing is
//! mutated in place from the caller's point of view. Container decoding and
//! encoding and resampling are delegated to the `image` codec crate; text
//! layout and compositing are this crate's own verified logic.

use vstd::prelude::*;

use crate::color::Rgb;
use crate::color::hex_to_rgb;
use crate::color::parse_hex_color;
use crate::compose::composite;
use crate::compose::composite_spec;
use crate::compose::lemma_byte_coords;
use crate::compose::lemma_pixel_bytes;
use crate::compose::lemma_pixel_in_buffer;
use crate::font::SiFont;
use crate::font::TextOptions;
use crate::font::placement_views;
use crate::font::spec_layout;

verus! {

/// The error for bytes that no recognized image container format can
/// decode. Construction from bytes has no partial success: this error is
/// fatal for that construction.
#[derive(Clone, Copy, PartialEq, Eq, Structural, Debug)]
pub struct DecodeError;

/// The error for a pixel buffer that the PNG encoder refuses.
#[derive(Clone, Copy, PartialEq, Eq, Structural, Debug)]
pub struct EncodeError;

#[verifier::external_type_specification]
#[verifier::external_body]
pub struct ExImageError(image::ImageError);

/// What decoding container bytes yields: the RGBA buffer, the width and the
/// height, or `None` for bytes no recognized container format can decode.
/// Decoding is a function of the bytes alone.
pub uninterp spec fn rgba_decode_of(bytes: Seq<u8>) -> Option<(Seq<u8>, u32, u32)>;

/// The PNG serialization of an RGBA buffer with the given dimensions. The
/// encoder is deterministic: the bytes are a function of the pixels and the
/// dimensions alone.
pub uninterp spec fn png_encoding_of(pixels: Seq<u8>, w: int, h: int) -> Seq<u8>;

/// The triangle-filter resampling of a `w` by `h` RGBA buffer to `nw` by
/// `nh`. A function of the buffer and the four dimensions alone.
pub uninterp spec fn resampled(pixels: Seq<u8>, w: int, h: int, nw: int, nh: int) -> Seq<u8>;

/// Relies on `image::load_from_memory` and `DynamicImage::to_rgba8`: whether
/// the bytes decode, and to which buffer and dimensions, is a function of
/// the bytes alone, and a successful decode yields an RGBA buffer holding
/// exactly four bytes per pixel of its dimensions.
#[verifier::external_body]
fn decode_rgba(bytes: &Vec<u8>) -> (r: Result<(Vec<u8>, u32, u32), image::ImageError>)
    ensures
        match r {
            Ok(d) => rgba_decode_of(bytes@) == Some((d.0@, d.1, d.2)) && d.0@.len() == 4 * (
            d.1 as int) * (d.2 as int),
            Err(_) => rgba_decode_of(bytes@) is None,
        },
{
    match image::load_from_memory(bytes.as_slice()) {
        Ok(img) => {
            let rgba = img.to_rgba8();
            let (w, h) = rgba.dimensions();
            Ok((rgba.into_raw(), w, h))
        },
        Err(e) => Err(e),
    }
}

/// Relies on `ImageBuffer::write_to` with the PNG format: the encoding is a
/// function of the pixel buffer and the dimensions alone. The buffer length
/// matches the dimensions, so `ImageBuffer::from_raw` accepts it and the
/// encoder's length check is satisfied; for positive dimensions the PNG
/// writer accepts the header and the in-memory sink cannot fail, so success
/// is owed.
#[verifier::external_body]
fn encode_png(buf: &Vec<u8>, w: u32, h: u32) -> (r: Result<Vec<u8>, image::ImageError>)
    requires
        buf@.len() == 4 * (w as int) * (h as int),
    ensures
        w >= 1 && h >= 1 ==> r is Ok,
        match r {
            Ok(bytes) => bytes@ == png_encoding_of(buf@, w as int, h as int),
            Err(_) => true,
        },
{
    let img: image::RgbaImage = image::RgbaImage::from_raw(w, h, buf.clone()).unwrap();
    let mut out = std::io::Cursor::new(Vec::new());
    match img.write_to(&mut out, image::ImageFormat::Png) {
        Ok(()) => Ok(out.into_inner()),
        Err(e) => Err(e),
    }
}

/// Relies on `image::imageops::resize` with `FilterType::Triangle`:
/// resampling is a function of the buffer and the dimensions alone, and the
/// result holds exactly four bytes per target pixel. The bounds keep the
/// resampler's buffer allocations within `usize`, so it does not panic.
#[verifier::external_body]
fn resize_rgba(buf: &Vec<u8>, w: u32, h: u32, nw: u32, nh: u32) -> (r: Vec<u8>)
    requires
        buf@.len() == 4 * (w as int) * (h as int),
        nw >= 1,
        nh >= 1,
        4 * (nw as int) * (nh as int) <= usize::MAX,
        4 * (w as int) * (nh as int) <= usize::MAX,
    ensures
        r@ == resampled(buf@, w as int, h as int, nw as int, nh as int),
        r@.len() == 4 * (nw as int) * (nh as int),
{
    let img: image::RgbaImage = image::RgbaImage::from_raw(w, h, buf.clone()).unwrap();
    let out = image::imageops::resize(&img, nw, nh, image::imageops::FilterType::Triangle);
    out.into_raw()
}

/// An image: an RGBA pixel buffer and its dimensions.
pub struct SiImage {
    buf: Vec<u8>,
    width: u32,
    height: u32,
}

/// The mathematical value of a [`SiImage`].
pub ghost struct ImageView {
    pub width: u32,
    pub height: u32,
    pub pixels: Seq<u8>,
}

impl View for SiImage {
    type V = ImageView;

    closed spec fn view(&self) -> ImageView {
        ImageView { width: self.width, height: self.height, pixels: self.buf@ }
    }
}

impl ImageView {
    /// The buffer holds exactly four bytes per pixel.
    pub open spec fn wf(&self) -> bool {
        self.pixels.len() == 4 * (self.width as int) * (self.height as int)
    }
}

/// The color a text render uses: black when none is given, the parsed color
/// when the hex string parses, and black again when it does not.
pub open spec fn chosen_color(c: Option<Seq<char>>) -> Rgb {
    match c {
        None => Rgb { r: 0, g: 0, b: 0 },
        Some(s) => match parse_hex_color(s) {
            Ok(col) => col,
            Err(_) => Rgb { r: 0, g: 0, b: 0 },
        },
    }
}

/// The view of an optional color string.
pub open spec fn color_view(c: Option<String>) -> Option<Seq<char>> {
    match c {
        Some(s) => Some(s@),
        None => None,
    }
}

/// Byte `i` of `base`'s buffer after overlaying `top` at the signed offset
/// `(px, py)`: `top`'s byte where the byte's pixel falls under `top`, the
/// old byte everywhere else.
pub open spec fn overlay_at(base: ImageView, top: ImageView, px: int, py: int, i: int) -> u8 {
    let w = base.width as int;
    let x = (i / 4) % w;
    let y = (i / 4) / w;
    let c = i % 4;
    if px <= x < px + top.width as int && py <= y < py + top.height as int {
        top.pixels[4 * ((y - py) * (top.width as int) + (x - px)) + c]
    } else {
        base.pixels[i]
    }
}

/// `base`'s buffer after overlaying `top` at the signed offset `(px, py)`,
/// clipped to `base`'s bounds.
pub open spec fn overlay_spec(base: ImageView, top: ImageView, px: int, py: int) -> Seq<u8> {
    Seq::new(base.pixels.len(), |i: int| overlay_at(base, top, px, py, i))
}

/// Byte `i` after the pixels of `top` before row `dy`, and before column
/// `dx` within row `dy`, have been overlaid.
spec fn overlay_partial_at(
    base: ImageView,
    top: ImageView,
    px: int,
    py: int,
    i: int,
    dy: int,
    dx: int,
) -> u8 {
    let w = base.width as int;
    let x = (i / 4) % w;
    let y = (i / 4) / w;
    let c = i % 4;
    let row = y - py;
    let col = x - px;
    if px <= x < px + top.width as int && py <= y < py + top.height as int && ((row < dy) || (row
        == dy && col < dx)) {
        top.pixels[4 * ((y - py) * (top.width as int) + (x - px)) + c]
    } else {
        base.pixels[i]
    }
}

/// Overlaying an image at offset `(0, 0)` onto a base of exactly the same
/// dimensions reproduces the overlaid image pixel for pixel, whatever the
/// base held.
pub proof fn lemma_overlay_identity(base: ImageView, top: ImageView)
    requires
        base.wf(),
        top.wf(),
        base.width == top.width,
        base.height == top.height,
    ensures
        overlay_spec(base, top, 0, 0) == top.pixels,
{
    let w = base.width as int;
    let h = base.height as int;
    assert forall|i: int| 0 <= i < base.pixels.len() implies overlay_at(base, top, 0, 0, i)
        == top.pixels[i] by {
        lemma_byte_coords(w, h, i);
    }
    assert(overlay_spec(base, top, 0, 0) =~= top.pixels);
}

/// Copies the four bytes of the pixel starting at `sidx` of `src` over the
/// four bytes of the pixel starting at `idx`.
fn copy_pixel(buf: &mut Vec<u8>, idx: usize, src: &Vec<u8>, sidx: usize)
    requires
        idx + 4 <= old(buf)@.len(),
        sidx + 4 <= src@.len(),
    ensures
        final(buf)@.len() == old(buf)@.len(),
        forall|c: int| 0 <= c < 4 ==> final(buf)@[idx + c] == #[trigger] src@[sidx + c],
        forall|i: int|
            0 <= i < final(buf)@.len() && !(idx <= i < idx + 4) ==> final(buf)@[i] == old(
                buf,
            )@[i],
{
    let _len = buf.len();
    let _src_len = src.len();
    buf[idx] = src[sidx];
    buf[idx + 1] = src[sidx + 1];
    buf[idx + 2] = src[sidx + 2];
    buf[idx + 3] = src[sidx + 3];
}

impl SiImage {
    /// An image from its dimensions and its raw RGBA buffer, which must hold
    /// exactly four bytes per pixel; `None` otherwise.
    pub fn from_pixels(width: u32, height: u32, pixels: Vec<u8>) -> (r: Option<SiImage>)
        ensures
            match r {
                Some(img) => img@ == (ImageView { width, height, pixels: pixels@ }) && img@.wf(),
                None => pixels@.len() != 4 * (width as int) * (height as int),
            },
    {
        proof {
            assert(4 * (width as int) * (height as int) <= 4 * 0xffff_ffff * 0xffff_ffff)
                by (nonlinear_arith)
                requires
                    0 <= (width as int) && (width as int) <= 0xffff_ffff,
                    0 <= (height as int) && (height as int) <= 0xffff_ffff,
            ;
        }
        let need: u128 = 4 * (width as u128) * (height as u128);
        if (pixels.len() as u128) == need {
            Some(SiImage { buf: pixels, width, height })
        } else {
            None
        }
    }

    /// An image decoded from container bytes; this build of the codec
    /// recognizes the PNG container. Construction succeeds exactly when the
    /// bytes decode, yielding the decoded buffer and dimensions, and fails
    /// with a [`DecodeError`] otherwise — there is no partial success.
    pub fn from_vec(vec: Vec<u8>) -> (r: Result<SiImage, DecodeError>)
        ensures
            r is Ok <==> rgba_decode_of(vec@) is Some,
            match r {
                Ok(img) => img@.wf() && (rgba_decode_of(vec@) matches Some(d)
                    && img@.pixels == d.0 && img@.width == d.1 && img@.height == d.2),
                Err(e) => e == DecodeError,
            },
    {
        match decode_rgba(&vec) {
            Ok(d) => Ok(SiImage { buf: d.0, width: d.1, height: d.2 }),
            Err(_) => Err(DecodeError),
        }
    }

    /// An image decoded from container bytes, identical to
    /// [`SiImage::from_vec`]: the same bytes give the same pixels, the same
    /// dimensions, and the same failure.
    pub fn new(src: Vec<u8>) -> (r: Result<SiImage, DecodeError>)
        ensures
            r is Ok <==> rgba_decode_of(src@) is Some,
            match r {
                Ok(img) => img@.wf() && (rgba_decode_of(src@) matches Some(d)
                    && img@.pixels == d.0 && img@.width == d.1 && img@.height == d.2),
                Err(e) => e == DecodeError,
            },
    {
        Self::from_vec(src)
    }

    /// The width of the image in pixels.
    pub fn width(&self) -> (r: u32)
        ensures
            r == self@.width,
    {
        self.width
    }

    /// The height of the image in pixels.
    pub fn height(&self) -> (r: u32)
        ensures
            r == self@.height,
    {
        self.height
    }

    /// The raw RGBA pixel buffer, row-major, four bytes per pixel.
    pub fn pixel_bytes(&self) -> (r: &Vec<u8>)
        ensures
            r@ == self@.pixels,
    {
        &self.buf
    }

    /// Renders `text` onto the image at `(pos_x, pos_y)` in the given scale
    /// and color, using `using_font`'s glyph table and `options`' spacing,
    /// and returns the rendered image; the dimensions stay the same. A
    /// missing or malformed color means black; glyphs falling partly or
    /// fully outside the image are clipped silently.
    pub fn render_text(
        self,
        text: &str,
        text_scale: u32,
        pos_x: i64,
        pos_y: i64,
        color: Option<String>,
        using_font: &SiFont,
        options: &TextOptions,
    ) -> (r: SiImage)
        requires
            self@.wf(),
            using_font@.wf(),
        ensures
            r@.width == self@.width,
            r@.height == self@.height,
            r@.pixels == composite_spec(
                self@.pixels,
                self@.width as int,
                spec_layout(using_font@, text@, text_scale, pos_x as int, pos_y as int, *options),
                chosen_color(color_view(color)),
            ),
            r@.wf(),
    {
        let parsed = match &color {
            Some(c) => match hex_to_rgb(c.as_str()) {
                Ok(col) => col,
                Err(_) => Rgb { r: 0, g: 0, b: 0 },
            },
            None => Rgb { r: 0, g: 0, b: 0 },
        };
        proof {
            assert(parsed == chosen_color(color_view(color)));
        }
        let placements = using_font.layout(text, text_scale, pos_x, pos_y, options);
        let ghost views = spec_layout(
            using_font@,
            text@,
            text_scale,
            pos_x as int,
            pos_y as int,
            *options,
        );
        proof {
            crate::font::lemma_layout_placements_wf(
                using_font@,
                text@,
                text_scale,
                pos_x as int,
                pos_y as int,
                *options,
            );
            assert forall|k: int| 0 <= k < placements@.len() implies (
            #[trigger] placements@[k]@).wf() by {
                assert(placement_views(placements@)[k] == placements@[k]@);
                assert(views[k].wf());
            }
        }
        let SiImage { buf: mut buf, width, height } = self;
        composite(&mut buf, width, height, &placements, parsed);
        SiImage { buf, width, height }
    }

    /// Copies `image`'s pixels onto this image at the signed offset
    /// `(pos_x, pos_y)`, clipping whatever falls outside this image's
    /// bounds; the dimensions stay the same.
    pub fn render_image(self, image: &SiImage, pos_x: i64, pos_y: i64) -> (r: SiImage)
        requires
            self@.wf(),
            image@.wf(),
        ensures
            r@.width == self@.width,
            r@.height == self@.height,
            r@.pixels == overlay_spec(self@, image@, pos_x as int, pos_y as int),
            r@.wf(),
    {
        let ghost base = self@;
        let ghost top = image@;
        let ghost pxi = pos_x as int;
        let ghost pyi = pos_y as int;
        let SiImage { buf: mut buf, width, height } = self;
        let ghost wi = width as int;
        let _src_len = image.buf.len();
        let _len = buf.len();
        proof {
            assert forall|i: int| 0 <= i < buf@.len() implies buf@[i] == overlay_partial_at(
                base,
                top,
                pxi,
                pyi,
                i,
                0,
                0,
            ) by {}
        }
        let mut dy: u32 = 0;
        while dy < image.height
            invariant
                base.width == width,
                base.height == height,
                top == image@,
                base.wf(),
                top.wf(),
                wi == width as int,
                pxi == pos_x as int,
                pyi == pos_y as int,
                base.pixels.len() <= usize::MAX,
                top.pixels.len() <= usize::MAX,
                buf@.len() == base.pixels.len(),
                0 <= dy <= image@.height,
                forall|i: int|
                    0 <= i < buf@.len() ==> buf@[i] == overlay_partial_at(
                        base,
                        top,
                        pxi,
                        pyi,
                        i,
                        dy as int,
                        0,
                    ),
            decreases image@.height - dy,
        {
            let mut dx: u32 = 0;
            while dx < image.width
                invariant
                    base.width == width,
                    base.height == height,
                    top == image@,
                    base.wf(),
                    top.wf(),
                    wi == width as int,
                    pxi == pos_x as int,
                    pyi == pos_y as int,
                    base.pixels.len() <= usize::MAX,
                    top.pixels.len() <= usize::MAX,
                    buf@.len() == base.pixels.len(),
                    dy < image@.height,
                    0 <= dx <= image@.width,
                    forall|i: int|
                        0 <= i < buf@.len() ==> buf@[i] == overlay_partial_at(
                            base,
                            top,
                            pxi,
                            pyi,
                            i,
                            dy as int,
                            dx as int,
                        ),
                decreases image@.width - dx,
            {
                let px: i128 = (pos_x as i128) + (dx as i128);
                let py: i128 = (pos_y as i128) + (dy as i128);
                if 0 <= px && px < (width as i128) && 0 <= py && py < (height as i128) {
                    let x = px as usize;
                    let y = py as usize;
                    proof {
                        lemma_pixel_in_buffer(wi, height as int, x as int, y as int);
                        lemma_pixel_in_buffer(
                            top.width as int,
                            top.height as int,
                            dx as int,
                            dy as int,
                        );
                    }
                    let idx: usize = 4 * (y * (width as usize) + x);
                    let sidx: usize = 4 * ((dy as usize) * (image.width as usize) + (dx as usize));
                    let ghost pre = buf@;
                    copy_pixel(&mut buf, idx, &image.buf, sidx);
                    proof {
                        let xi = x as int;
                        let yi = y as int;
                        assert forall|i: int| 0 <= i < buf@.len() implies buf@[i]
                            == overlay_partial_at(base, top, pxi, pyi, i, dy as int, dx as int
                            + 1) by {
                            lemma_byte_coords(wi, height as int, i);
                            if idx <= i < idx + 4 {
                                lemma_pixel_bytes(wi, xi, yi, i);
                                assert(buf@[i] == top.pixels[sidx as int + (i - idx)]);
                                assert(sidx as int + (i - idx) == 4 * ((yi - pyi) * (
                                top.width as int) + (xi - pxi)) + (i % 4));
                            } else {
                                if (i / 4) % wi == xi && (i / 4) / wi == yi {
                                    assert(idx <= i < idx + 4);
                                }
                                assert(buf@[i] == pre[i]);
                            }
                        }
                    }
                } else {
                    proof {
                        assert forall|i: int| 0 <= i < buf@.len() implies overlay_partial_at(
                            base,
                            top,
                            pxi,
                            pyi,
                            i,
                            dy as int,
                            dx as int,
                        ) == overlay_partial_at(base, top, pxi, pyi, i, dy as int, dx as int
                            + 1) by {
                            lemma_byte_coords(wi, height as int, i);
                            let x2 = (i / 4) % wi;
                            let y2 = (i / 4) / wi;
                            if pxi <= x2 < pxi + top.width as int && pyi <= y2 < pyi
                                + top.height as int && y2 - pyi == dy as int && x2 - pxi
                                == dx as int {
                                assert(false);
                            }
                        }
                    }
                }
                dx = dx + 1;
            }
            proof {
                assert forall|i: int| 0 <= i < buf@.len() implies overlay_partial_at(
                    base,
                    top,
                    pxi,
                    pyi,
                    i,
                    dy as int,
                    top.width as int,
                ) == overlay_partial_at(base, top, pxi, pyi, i, dy as int + 1, 0) by {}
            }
            dy = dy + 1;
        }
        proof {
            assert forall|i: int| 0 <= i < buf@.len() implies buf@[i] == overlay_at(
                base,
                top,
                pxi,
                pyi,
                i,
            ) by {}
            assert(buf@ =~= overlay_spec(base, top, pxi, pyi));
        }
        SiImage { buf, width, height }
    }

    /// The image resampled to `width` by `height` with a triangle filter;
    /// the stored dimensions become exactly the requested ones.
    pub fn resize(self, width: u32, height: u32) -> (r: SiImage)
        requires
            self@.wf(),
            width >= 1,
            height >= 1,
            4 * (width as int) * (height as int) <= usize::MAX,
            4 * (self@.width as int) * (height as int) <= usize::MAX,
        ensures
            r@.width == width,
            r@.height == height,
            r@.pixels == resampled(
                self@.pixels,
                self@.width as int,
                self@.height as int,
                width as int,
                height as int,
            ),
            r@.wf(),
    {
        let buf = resize_rgba(&self.buf, self.width, self.height, width, height);
        SiImage { buf, width, height }
    }

    /// The image serialized as PNG container bytes: a pure query, owed to
    /// succeed whenever both dimensions are positive (so repeated calls on
    /// one value return identical byte sequences); an [`EncodeError`] only
    /// when a dimension is zero, which the PNG format refuses.
    pub fn to_bytes(&self) -> (r: Result<Vec<u8>, EncodeError>)
        requires
            self@.wf(),
        ensures
            self@.width >= 1 && self@.height >= 1 ==> r is Ok,
            match r {
                Ok(bytes) => bytes@ == png_encoding_of(
                    self@.pixels,
                    self@.width as int,
                    self@.height as int,
                ),
                Err(e) => e == EncodeError,
            },
    {
        match encode_png(&self.buf, self.width, self.height) {
            Ok(bytes) => Ok(bytes),
            Err(_) => Err(EncodeError),
        }
    }
}

} // verus!
