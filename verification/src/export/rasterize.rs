use vstd::prelude::*;
use crate::export::ExportError;
use crate::text::push_str;

verus! {

/// An 8-bit RGBA raster, rows top to bottom, four bytes per pixel.
pub struct RgbaImage {
    pub width: u32,
    pub height: u32,
    pub pixels: Vec<u8>,
}

/// Offset of channel `c` of pixel `(x, y)` in a raster `w` pixels wide.
pub open spec fn byte_index(w: int, x: int, y: int, c: int) -> int {
    4 * (y * w + x) + c
}

/// A raster as plain values: width, height and RGBA bytes.
pub type Raster = (u32, u32, Seq<u8>);

/// Channel `c` of pixel `(x, y)` of a raster.
pub open spec fn raster_byte(r: Raster, x: int, y: int, c: int) -> u8 {
    r.2[byte_index(r.0 as int, x, y, c)]
}

impl View for RgbaImage {
    type V = Raster;

    open spec fn view(&self) -> Raster {
        (self.width, self.height, self.pixels@)
    }
}

impl RgbaImage {
    /// The buffer holds at least every pixel of the raster.
    pub open spec fn covers(self) -> bool {
        self.pixels@.len() >= 4 * self.width * self.height
    }

    pub open spec fn byte(self, x: int, y: int, c: int) -> u8 {
        self.pixels@[byte_index(self.width as int, x, y, c)]
    }
}

pub proof fn lemma_byte_index_bounds(w: int, h: int, x: int, y: int, c: int)
    requires
        0 <= x < w,
        0 <= y < h,
        0 <= c < 4,
    ensures
        0 <= byte_index(w, x, y, c) < 4 * w * h,
        byte_index(w, x, y, c) + 4 - c <= 4 * w * h,
{
    assert(y * w + x < h * w) by (nonlinear_arith)
        requires 0 <= x < w, 0 <= y < h;
    assert(0 <= y * w) by (nonlinear_arith)
        requires 0 <= y, 0 <= w;
    assert(h * w == w * h) by (nonlinear_arith);
    assert(4 * (w * h) == 4 * w * h) by (nonlinear_arith);
}

pub proof fn lemma_byte_index_distinct(w: int, x1: int, y1: int, c1: int, x2: int, y2: int, c2: int)
    requires
        0 <= x1 < w,
        0 <= x2 < w,
        0 <= y1,
        0 <= y2,
        0 <= c1 < 4,
        0 <= c2 < 4,
        (x1, y1, c1) != (x2, y2, c2),
    ensures
        byte_index(w, x1, y1, c1) != byte_index(w, x2, y2, c2),
{
    if y1 != y2 {
        if y1 < y2 {
            assert(y1 * w + x1 < y2 * w + x2) by (nonlinear_arith)
                requires y1 < y2, 0 <= x1 < w, 0 <= x2;
        } else {
            assert(y2 * w + x2 < y1 * w + x1) by (nonlinear_arith)
                requires y2 < y1, 0 <= x2 < w, 0 <= x1;
        }
    }
}

/// A fully transparent `width` x `height` raster.
pub fn blank_image(width: u32, height: u32) -> (img: RgbaImage)
    requires
        4 * width * height <= usize::MAX,
    ensures
        img.width == width,
        img.height == height,
        img.pixels@.len() == 4 * width * height,
        forall|k: int| 0 <= k < img.pixels@.len() ==> img.pixels@[k] == 0,
{
    assert(4 * (width as int) * (height as int) == 4 * ((width as int) * (height as int))) by (nonlinear_arith);
    let n: usize = 4 * ((width as usize) * (height as usize));
    let mut pixels: Vec<u8> = Vec::new();
    let mut i: usize = 0;
    while i < n
        invariant
            i <= n,
            pixels@.len() == i,
            forall|k: int| 0 <= k < i ==> pixels@[k] == 0,
        decreases n - i,
    {
        pixels.push(0);
        i = i + 1;
    }
    RgbaImage { width, height, pixels }
}

/// Channel `c` of `dst` at `(x, y)` after copying the `cw` x `ch` block of `src`
/// at `(sx, sy)` to `(dx, dy)`.
pub open spec fn blit_byte(
    dst: RgbaImage,
    src: RgbaImage,
    sx: int,
    sy: int,
    dx: int,
    dy: int,
    cw: int,
    ch: int,
    x: int,
    y: int,
    c: int,
) -> u8 {
    if dx <= x < dx + cw && dy <= y < dy + ch {
        src.byte(sx + x - dx, sy + y - dy, c)
    } else {
        dst.byte(x, y, c)
    }
}

/// Copy the `cw` x `ch` block of `src` at `(sx, sy)` into `dst` at `(dx, dy)`;
/// pixels that would land outside `dst` are skipped.
pub fn blit(dst: &mut RgbaImage, src: &RgbaImage, sx: u32, sy: u32, dx: u64, dy: u64, cw: u32, ch: u32)
    requires
        old(dst).pixels@.len() == 4 * old(dst).width * old(dst).height,
        src.covers(),
        sx + cw <= src.width,
        sy + ch <= src.height,
        dx + cw <= u64::MAX,
        dy + ch <= u64::MAX,
    ensures
        final(dst).width == old(dst).width,
        final(dst).height == old(dst).height,
        final(dst).pixels@.len() == old(dst).pixels@.len(),
        forall|x: int, y: int, c: int|
            0 <= x < old(dst).width && 0 <= y < old(dst).height && 0 <= c < 4 ==> #[trigger] final(dst).byte(x, y, c)
                == blit_byte(*old(dst), *src, sx as int, sy as int, dx as int, dy as int, cw as int, ch as int, x, y, c),
{
    let ghost d0 = *dst;
    let dw = dst.width;
    let dh = dst.height;
    let sw = src.width;
    let dlen: usize = dst.pixels.len();
    let slen: usize = src.pixels.len();
    let mut py: u32 = 0;
    while py < ch
        invariant
            d0 == *old(dst),
            dst.width == dw,
            dst.height == dh,
            dst.pixels@.len() == 4 * dw * dh,
            dst.pixels@.len() == dlen,
            src.pixels@.len() == slen,
            src.covers(),
            sw == src.width,
            sx + cw <= src.width,
            sy + ch <= src.height,
            dx + cw <= u64::MAX,
            dy + ch <= u64::MAX,
            py <= ch,
            forall|x: int, y: int, c: int|
                0 <= x < dw && 0 <= y < dh && 0 <= c < 4 ==> #[trigger] dst.byte(x, y, c)
                    == blit_byte(d0, *src, sx as int, sy as int, dx as int, dy as int, cw as int, py as int, x, y, c),
        decreases ch - py,
    {
        let mut px: u32 = 0;
        while px < cw
            invariant
                d0 == *old(dst),
                dst.width == dw,
                dst.height == dh,
                dst.pixels@.len() == 4 * dw * dh,
                dst.pixels@.len() == dlen,
                src.pixels@.len() == slen,
                src.covers(),
                sw == src.width,
                sx + cw <= src.width,
                sy + ch <= src.height,
                dx + cw <= u64::MAX,
                dy + ch <= u64::MAX,
                py < ch,
                px <= cw,
                forall|x: int, y: int, c: int|
                    0 <= x < dw && 0 <= y < dh && 0 <= c < 4 ==> #[trigger] dst.byte(x, y, c) == (
                    if (dx <= x < dx + cw && dy <= y < dy + py) || (dx <= x < dx + px && y == dy + py) {
                        src.byte(sx + x - dx, sy + y - dy, c)
                    } else {
                        d0.byte(x, y, c)
                    }),
            decreases cw - px,
        {
            let ax: u64 = dx + px as u64;
            let ay: u64 = dy + py as u64;
            if ax < dw as u64 && ay < dh as u64 {
                let ax = ax as usize;
                let ay = ay as usize;
                let qx = (sx + px) as usize;
                let qy = (sy + py) as usize;
                proof {
                    lemma_byte_index_bounds(dw as int, dh as int, ax as int, ay as int, 0);
                    lemma_byte_index_bounds(sw as int, src.height as int, qx as int, qy as int, 0);
                }
                let di: usize = 4 * (ay * (dw as usize) + ax);
                let si: usize = 4 * (qy * (sw as usize) + qx);
                let mut c: usize = 0;
                while c < 4
                    invariant
                        d0 == *old(dst),
                        dst.width == dw,
                        dst.height == dh,
                        dst.pixels@.len() == 4 * dw * dh,
                        src.covers(),
                        sw == src.width,
                        ax < dw,
                        ay < dh,
                        ax == dx + px,
                        ay == dy + py,
                        qx == sx + px,
                        qy == sy + py,
                        qx < src.width,
                        qy < src.height,
                        di == byte_index(dw as int, ax as int, ay as int, 0),
                        si == byte_index(sw as int, qx as int, qy as int, 0),
                        di + 4 <= dst.pixels@.len(),
                        si + 4 <= src.pixels@.len(),
                        py < ch,
                        px < cw,
                        c <= 4,
                        forall|x: int, y: int, k: int|
                            0 <= x < dw && 0 <= y < dh && 0 <= k < 4 ==> #[trigger] dst.byte(x, y, k) == (
                            if (dx <= x < dx + cw && dy <= y < dy + py) || (dx <= x < dx + px && y == dy + py)
                                || (x == ax && y == ay && k < c) {
                                src.byte(sx + x - dx, sy + y - dy, k)
                            } else {
                                d0.byte(x, y, k)
                            }),
                    decreases 4 - c,
                {
                    let v = src.pixels[si + c];
                    let ghost before = *dst;
                    dst.pixels.set(di + c, v);
                    assert(dst.pixels@ == before.pixels@.update((di + c) as int, v));
                    proof {
                        assert forall|x: int, y: int, k: int|
                            0 <= x < dw && 0 <= y < dh && 0 <= k < 4 implies #[trigger] dst.byte(x, y, k) == (
                            if (dx <= x < dx + cw && dy <= y < dy + py) || (dx <= x < dx + px && y == dy + py)
                                || (x == ax && y == ay && k < c + 1) {
                                src.byte(sx + x - dx, sy + y - dy, k)
                            } else {
                                d0.byte(x, y, k)
                            }) by {
                            if (x, y, k) != (ax as int, ay as int, c as int) {
                                lemma_byte_index_distinct(dw as int, x, y, k, ax as int, ay as int, c as int);
                                let bi = byte_index(dw as int, x, y, k);
                                lemma_byte_index_bounds(dw as int, dh as int, x, y, k);
                                assert(bi != di + c);
                                assert(dst.pixels@[bi] == before.pixels@[bi]);
                                assert(before.byte(x, y, k) == (
                                    if (dx <= x < dx + cw && dy <= y < dy + py) || (dx <= x < dx + px && y == dy + py)
                                        || (x == ax && y == ay && k < c) {
                                        src.byte(sx + x - dx, sy + y - dy, k)
                                    } else {
                                        d0.byte(x, y, k)
                                    }));
                            } else {
                                assert(byte_index(dw as int, x, y, k) == di + c);
                                assert(byte_index(sw as int, sx + x - dx, sy + y - dy, k) == si + c);
                                assert(dst.byte(x, y, k) == v);
                                assert(src.byte(sx + x - dx, sy + y - dy, k) == v);
                            }
                        }
                    }
                    c = c + 1;
                }
            }
            px = px + 1;
        }
        py = py + 1;
    }
}

/// Name for the raster that the `image` crate decodes from PNG bytes:
/// (width, height, RGBA bytes), or None when the bytes do not decode.
pub uninterp spec fn png_pixels(bytes: Seq<u8>) -> Option<(u32, u32, Seq<u8>)>;

/// Name for the PNG file that the `image` crate's PNG encoder writes for an RGBA raster.
pub uninterp spec fn png_encoding(width: u32, height: u32, pixels: Seq<u8>) -> Seq<u8>;

/// Calls `image::load_from_memory_with_format` with `ImageFormat::Png` and converts the
/// image with `to_rgba8`. The result depends on the bytes alone and is named
/// `png_pixels`; the buffer of an `ImageBuffer` always covers all its pixels. On
/// failure the decoder's message is returned.
#[verifier::external_body]
pub fn decode_png(bytes: &[u8]) -> (r: Result<RgbaImage, String>)
    ensures
        match r {
            Ok(img) => png_pixels(bytes@) == Some((img.width, img.height, img.pixels@)) && img.covers(),
            Err(_) => png_pixels(bytes@) is None,
        },
{
    match image::load_from_memory_with_format(bytes, image::ImageFormat::Png) {
        Ok(img) => {
            let rgba = img.to_rgba8();
            Ok(RgbaImage { width: rgba.width(), height: rgba.height(), pixels: rgba.into_raw() })
        },
        Err(e) => Err(e.to_string()),
    }
}

/// Calls `image::ImageEncoder::write_image` on a `PngEncoder` writing into a new
/// buffer, with `ExtendedColorType::Rgba8`. `write_image` panics unless the buffer holds
/// exactly four bytes per pixel. The `png` encoder it drives refuses a zero width or
/// height (its only error when writing into a `Vec`), so encoding succeeds exactly when
/// both sides are positive. The written bytes depend on the raster alone and are named
/// `png_encoding`; an RGBA8 PNG read back by `decode_png` gives the same raster (for
/// rasters of at most 2^24 pixels, well within the decoder's default memory limit).
/// On failure the encoder's message is returned.
#[verifier::external_body]
pub fn encode_png(img: &RgbaImage) -> (r: Result<Vec<u8>, String>)
    requires
        img.pixels@.len() == 4 * img.width * img.height,
    ensures
        r is Ok <==> (img.width > 0 && img.height > 0),
        r matches Ok(b) ==> b@ == png_encoding(img.width, img.height, img.pixels@),
        r matches Ok(b) ==> (img.width * img.height <= 0x100_0000
            ==> png_pixels(b@) == Some((img.width, img.height, img.pixels@))),
{
    let mut buf: Vec<u8> = Vec::new();
    let encoder = image::codecs::png::PngEncoder::new(&mut buf);
    match image::ImageEncoder::write_image(encoder, &img.pixels, img.width, img.height, image::ExtendedColorType::Rgba8) {
        Ok(()) => Ok(buf),
        Err(e) => Err(e.to_string()),
    }
}

#[verifier::external_type_specification]
#[verifier::external_body]
pub struct ExSvgTree(resvg::usvg::Tree);

#[verifier::external_type_specification]
#[verifier::external_body]
pub struct ExPixmap(resvg::tiny_skia::Pixmap);

/// Name for whether `usvg` parses an SVG text into a tree (default options).
pub uninterp spec fn svg_parses(svg: Seq<char>) -> bool;

/// Calls `usvg::Tree::from_str` with default options. Whether the text parses
/// depends on the text alone and is named `svg_parses`; on failure the parser's
/// message is returned.
#[verifier::external_body]
fn parse_svg(svg: &str) -> (r: Result<resvg::usvg::Tree, String>)
    ensures
        r is Ok <==> svg_parses(svg@),
{
    match resvg::usvg::Tree::from_str(svg, &resvg::usvg::Options::default()) {
        Ok(t) => Ok(t),
        Err(e) => Err(e.to_string()),
    }
}

/// A pixel buffer of `width` x `height` can be made: both sides positive, a row's
/// bytes within `i32`, all bytes within `usize`.
pub open spec fn pixmap_size_ok(width: u32, height: u32) -> bool {
    width > 0 && height > 0 && 4 * width <= 0x7fff_ffff && 4 * width * height <= usize::MAX
}

/// Name for the (width, height) that a `tiny_skia::Pixmap` pixel buffer was made with.
pub uninterp spec fn pixmap_size(p: resvg::tiny_skia::Pixmap) -> (u32, u32);

/// Calls `tiny_skia::Pixmap::new`, a transparent pixel buffer of the given size. Its
/// source returns one exactly when `pixmap_size_ok` holds (positive sides,
/// `4 * width` within `i32`, the byte count within `usize`).
#[verifier::external_body]
fn new_pixmap(width: u32, height: u32) -> (r: Option<resvg::tiny_skia::Pixmap>)
    ensures
        r is Some <==> pixmap_size_ok(width, height),
        r matches Some(p) ==> pixmap_size(p) == (width, height),
{
    resvg::tiny_skia::Pixmap::new(width, height)
}

/// Calls `resvg::render` with the identity transform, drawing the tree into the
/// pixmap through a `PixmapMut`, which keeps its size. Nothing is stated of the pixels
/// drawn (rendering may read image files that the SVG names).
#[verifier::external_body]
fn render_svg(tree: &resvg::usvg::Tree, pixmap: &mut resvg::tiny_skia::Pixmap)
    ensures
        pixmap_size(*final(pixmap)) == pixmap_size(*old(pixmap)),
{
    resvg::render(tree, resvg::tiny_skia::Transform::default(), &mut pixmap.as_mut());
}

/// Calls `tiny_skia::Pixmap::encode_png`, which writes an RGBA8 PNG of the pixmap's
/// size into a new `Vec` with the `png` encoder. A pixmap's sides are positive, so the
/// encoder's only errors on a `Vec` (zero width or height) cannot occur: it succeeds.
/// Read back by `decode_png`, the PNG has the pixmap's width and height (for images of
/// at most 2^24 pixels, within the decoder's default memory limit). The pixel bytes
/// (un-premultiplied) are not stated.
#[verifier::external_body]
fn encode_pixmap(pixmap: &resvg::tiny_skia::Pixmap) -> (r: Result<Vec<u8>, String>)
    ensures
        r is Ok,
        r matches Ok(b) ==> (pixmap_size(*pixmap).0 * pixmap_size(*pixmap).1 <= 0x100_0000 ==>
            (png_pixels(b@) matches Some((w, h, _)) && w == pixmap_size(*pixmap).0 && h == pixmap_size(*pixmap).1)),
{
    match pixmap.encode_png() {
        Ok(b) => Ok(b),
        Err(e) => Err(e.to_string()),
    }
}

pub(crate) fn rasterize_error(prefix: &str, detail: String) -> (e: ExportError)
    ensures
        e matches ExportError::Rasterize(m) && m@ == prefix@ + detail@,
{
    let mut m = String::from_str(prefix);
    push_str(&mut m, detail.as_str());
    ExportError::Rasterize(m)
}

/// Rasterize an SVG document to PNG bytes at `width` x `height`.
/// A parse failure gives `Rasterize("Failed to parse SVG: ...")`, a pixel buffer that
/// cannot be made (see `pixmap_size_ok`) `Rasterize("Failed to create pixel buffer")`.
/// Otherwise it succeeds with a PNG of `width` x `height` pixels (the encoder's
/// error branch, `Failed to encode PNG`, is never taken).
pub fn svg_to_png(svg_string: &str, width: u32, height: u32) -> (r: Result<Vec<u8>, ExportError>)
    ensures
        !svg_parses(svg_string@) ==> (r matches Err(ExportError::Rasterize(m))
            && exists|d: Seq<char>| m@ == "Failed to parse SVG: "@ + d),
        svg_parses(svg_string@) && !pixmap_size_ok(width, height) ==> (r matches Err(ExportError::Rasterize(m))
            && m@ == "Failed to create pixel buffer"@),
        svg_parses(svg_string@) && pixmap_size_ok(width, height) ==> (r matches Ok(b)
            && (width * height <= 0x100_0000 ==> (png_pixels(b@) matches Some((w, h, _)) && w == width && h == height))),
{
    let tree = match parse_svg(svg_string) {
        Ok(t) => t,
        Err(d) => {
            let e = rasterize_error("Failed to parse SVG: ", d);
            return Err(e);
        },
    };
    let mut pixmap = match new_pixmap(width, height) {
        Some(p) => p,
        None => return Err(ExportError::Rasterize(String::from_str("Failed to create pixel buffer"))),
    };
    render_svg(&tree, &mut pixmap);
    match encode_pixmap(&pixmap) {
        Ok(bytes) => Ok(bytes),
        Err(d) => Err(rasterize_error("Failed to encode PNG: ", d)),
    }
}

} // verus!
