use vstd::prelude::*;
use crate::model::project::ExportLayout;
use crate::export::bone_export::{ceil_root, ceil_sqrt, is_ceil_sqrt};
use crate::text::{decimal, push_char, push_decimal, push_str};
use crate::export::rasterize::{
    Raster, RgbaImage, blank_image, blit, decode_png, encode_png, lemma_byte_index_bounds, png_encoding,
    png_pixels, raster_byte,
};
use crate::export::ExportError;
use crate::model::project::ExportSettings;

verus! {

broadcast use vstd::string::axiom_spec_iter;

/// Columns and rows of a spritesheet with `n` frames: one row, one column, or a
/// grid as square as possible (`ceil(sqrt(n))` columns, enough rows; at least 1 each).
pub open spec fn sheet_shape(layout: ExportLayout, n: int) -> (int, int) {
    match layout {
        ExportLayout::Row => (n, 1),
        ExportLayout::Column => (1, n),
        ExportLayout::Grid => {
            let c = ceil_root(n);
            let cols = if c > 1 { c } else { 1 };
            let r = (n + cols - 1) / cols;
            (cols, if r > 1 { r } else { 1 })
        },
    }
}

/// The number of columns and rows for `frame_count` frames.
pub fn compute_layout(layout: ExportLayout, frame_count: usize) -> (r: (usize, usize))
    requires
        frame_count <= 0x10_0000_0000_0000,
    ensures
        r.0 == sheet_shape(layout, frame_count as int).0,
        r.1 == sheet_shape(layout, frame_count as int).1,
        frame_count <= r.0 * r.1,
        frame_count > 0 ==> r.0 >= 1,
        r.0 <= frame_count || r.0 == 1,
        r.1 <= frame_count || r.1 == 1,
{
    match layout {
        ExportLayout::Row => (frame_count, 1),
        ExportLayout::Column => (1, frame_count),
        ExportLayout::Grid => {
            let s = ceil_sqrt(frame_count as u64);
            proof {
                let t = frame_count as int;
                assert(is_ceil_sqrt(t, ceil_root(t))) by {
                    assert(is_ceil_sqrt(t, s as int));
                }
                crate::export::bone_export::lemma_ceil_sqrt_unique(t, s as int, ceil_root(t));
            }
            let cols: u64 = if s > 1 { s } else { 1 };
            let r: u64 = (frame_count as u64 + cols - 1) / cols;
            let rows: u64 = if r > 1 { r } else { 1 };
            assert(r <= frame_count || r <= 1) by (nonlinear_arith)
                requires cols >= 1, r == (frame_count + cols - 1) / (cols as int);
            assert(cols <= 0x400_0000);
            assert(s <= frame_count || s <= 1) by (nonlinear_arith)
                requires s >= 0, s == 0 || (s - 1) * (s - 1) < frame_count;
            proof {
                let nn = frame_count as int;
                let c = cols as int;
                vstd::arithmetic::div_mod::lemma_fundamental_div_mod(nn + c - 1, c);
                vstd::arithmetic::div_mod::lemma_mod_bound(nn + c - 1, c);
                assert(nn <= c * r) by (nonlinear_arith)
                    requires nn + c - 1 == c * (r as int) + (nn + c - 1) % c, (nn + c - 1) % c < c, c >= 1;
                assert(c * r <= c * rows) by (nonlinear_arith)
                    requires r <= rows, c >= 1;
            }
            (cols as usize, rows as usize)
        },
    }
}

/// The RON text that describes a spritesheet grid for a texture-atlas loader.
pub open spec fn atlas_ron_text(tile_w: u32, tile_h: u32, columns: u32, rows: u32, padding_x: u32, padding_y: u32) -> Seq<char> {
    let tw = decimal(tile_w as nat);
    let th = decimal(tile_h as nat);
    let cols = decimal(columns as nat);
    let rs = decimal(rows as nat);
    let px = decimal(padding_x as nat);
    let py = decimal(padding_y as nat);
    "// TextureAtlasLayout::from_grid() parameters\n// Usage: TextureAtlasLayout::from_grid(\n//     UVec2::new("@
        + tw + ", "@ + th + "),  // tile_size\n//     "@
        + cols + ",                         // columns\n//     "@
        + rs + ",                            // rows\n//     Some(UVec2::new("@
        + px + ", "@ + py + ")),  // padding\n//     Some(UVec2::new("@
        + px + ", "@ + py + ")),  // offset\n// )\n(\ntile_size: ("@
        + tw + ", "@ + th + "),\ncolumns: "@
        + cols + ",\nrows: "@
        + rs + ",\npadding: ("@
        + px + ", "@ + py + "),\noffset: ("@
        + px + ", "@ + py + "),\n)\n"@
}

/// RON metadata for a grid texture atlas.
pub fn generate_texture_atlas_ron(
    tile_w: u32,
    tile_h: u32,
    columns: u32,
    rows: u32,
    padding_x: u32,
    padding_y: u32,
) -> (s: String)
    ensures
        s@ == atlas_ron_text(tile_w, tile_h, columns, rows, padding_x, padding_y),
{
    let mut s = String::from_str("// TextureAtlasLayout::from_grid() parameters\n// Usage: TextureAtlasLayout::from_grid(\n//     UVec2::new(");
    push_decimal(&mut s, tile_w as u64);
    push_str(&mut s, ", ");
    push_decimal(&mut s, tile_h as u64);
    push_str(&mut s, "),  // tile_size\n//     ");
    push_decimal(&mut s, columns as u64);
    push_str(&mut s, ",                         // columns\n//     ");
    push_decimal(&mut s, rows as u64);
    push_str(&mut s, ",                            // rows\n//     Some(UVec2::new(");
    push_decimal(&mut s, padding_x as u64);
    push_str(&mut s, ", ");
    push_decimal(&mut s, padding_y as u64);
    push_str(&mut s, ")),  // padding\n//     Some(UVec2::new(");
    push_decimal(&mut s, padding_x as u64);
    push_str(&mut s, ", ");
    push_decimal(&mut s, padding_y as u64);
    push_str(&mut s, ")),  // offset\n// )\n(\ntile_size: (");
    push_decimal(&mut s, tile_w as u64);
    push_str(&mut s, ", ");
    push_decimal(&mut s, tile_h as u64);
    push_str(&mut s, "),\ncolumns: ");
    push_decimal(&mut s, columns as u64);
    push_str(&mut s, ",\nrows: ");
    push_decimal(&mut s, rows as u64);
    push_str(&mut s, ",\npadding: (");
    push_decimal(&mut s, padding_x as u64);
    push_str(&mut s, ", ");
    push_decimal(&mut s, padding_y as u64);
    push_str(&mut s, "),\noffset: (");
    push_decimal(&mut s, padding_x as u64);
    push_str(&mut s, ", ");
    push_decimal(&mut s, padding_y as u64);
    push_str(&mut s, "),\n)\n");
    s
}

/// Name for what `char::is_alphanumeric` says of a character (Unicode `Alphabetic`
/// or `Numeric`).
pub uninterp spec fn alphanumeric(c: char) -> bool;

/// Calls `char::is_alphanumeric`. Among ASCII characters exactly the letters and the
/// digits are alphanumeric.
#[verifier::external_body]
fn is_alphanumeric(c: char) -> (b: bool)
    ensures
        b == alphanumeric(c),
        (c as u32) < 128 ==> (b <==> (('a' <= c && c <= 'z') || ('A' <= c && c <= 'Z') || ('0' <= c && c <= '9'))),
{
    c.is_alphanumeric()
}

/// A character that may stay in a file name.
pub open spec fn filename_safe(c: char) -> bool {
    alphanumeric(c) || c == '-' || c == '_'
}

/// Each character that may not stay in a file name becomes `_`.
pub open spec fn sanitized(s: Seq<char>) -> Seq<char> {
    s.map_values(|c: char| if filename_safe(c) { c } else { '_' })
}

/// Make a string usable as a file name: letters, digits, `-` and `_` stay, every
/// other character becomes `_`.
pub fn sanitize_filename(name: &str) -> (r: String)
    ensures
        r@ == sanitized(name@),
{
    let mut out = String::new();
    for c in it: name.chars()
        invariant
            it.seq() == name@,
            out@ == sanitized(it.seq().take(it.index() as int)),
    {
        let keep = is_alphanumeric(c) || c == '-' || c == '_';
        proof {
            assert(it.seq().take(it.index() + 1) =~= it.seq().take(it.index() as int).push(c));
        }
        push_char(&mut out, if keep { c } else { '_' });
        assert(out@ =~= sanitized(it.seq().take(it.index() + 1)));
    }
    assert(name@.take(name@.len() as int) =~= name@);
    out
}

/// Sanitizing twice changes nothing more, and keeps the number of characters.
pub proof fn lemma_sanitize_idempotent(s: Seq<char>)
    ensures
        sanitized(sanitized(s)) == sanitized(s),
        sanitized(s).len() == s.len(),
{
    assert(sanitized(sanitized(s)) =~= sanitized(s));
}


/// Pixel `(x, y)` of `img` is not fully transparent.
pub open spec fn opaque(img: Raster, x: int, y: int) -> bool {
    0 <= x < img.0 && 0 <= y < img.1 && raster_byte(img, x, y, 3) > 0
}

/// The frames as plain rasters.
pub open spec fn rasters(frames: Seq<RgbaImage>) -> Seq<Raster> {
    frames.map_values(|f: RgbaImage| f@)
}

/// Some frame has a pixel that is not fully transparent.
pub open spec fn any_opaque(frames: Seq<Raster>) -> bool {
    exists|i: int, x: int, y: int| 0 <= i < frames.len() && #[trigger] opaque(frames[i], x, y)
}

/// `t = (x, y, w, h)` is the box shared by all frames that holds every visible pixel:
/// `x` is the least visible column (at most `canvas_w`), `x + w - 1` the greatest,
/// and the same for rows. When nothing is visible the box is the whole canvas
/// (1 x 1 for an empty canvas).
pub open spec fn is_uniform_trim(frames: Seq<Raster>, canvas_w: u32, canvas_h: u32, t: (u32, u32, u32, u32)) -> bool {
    if !any_opaque(frames) {
        t == if canvas_w == 0 && canvas_h == 0 { (0u32, 0u32, 1u32, 1u32) } else { (0u32, 0u32, canvas_w, canvas_h) }
    } else {
        let x1 = t.0 + t.2 - 1;
        let y1 = t.1 + t.3 - 1;
        &&& t.2 >= 1 && t.3 >= 1
        &&& t.0 <= canvas_w && t.1 <= canvas_h
        &&& forall|i: int, x: int, y: int| 0 <= i < frames.len() && #[trigger] opaque(frames[i], x, y)
            ==> t.0 <= x <= x1 && t.1 <= y <= y1
        &&& t.0 == canvas_w || exists|i: int, y: int| 0 <= i < frames.len() && #[trigger] opaque(frames[i], t.0 as int, y)
        &&& t.1 == canvas_h || exists|i: int, x: int| 0 <= i < frames.len() && #[trigger] opaque(frames[i], x, t.1 as int)
        &&& exists|i: int, y: int| 0 <= i < frames.len() && #[trigger] opaque(frames[i], x1, y)
        &&& exists|i: int, x: int| 0 <= i < frames.len() && #[trigger] opaque(frames[i], x, y1)
    }
}

/// The uniform trim box of the frames (unique, see `lemma_uniform_trim_unique`).
pub open spec fn uniform_trim(frames: Seq<Raster>, canvas_w: u32, canvas_h: u32) -> (u32, u32, u32, u32) {
    choose|t: (u32, u32, u32, u32)| is_uniform_trim(frames, canvas_w, canvas_h, t)
}

/// There is only one uniform trim box.
pub proof fn lemma_uniform_trim_unique(frames: Seq<Raster>, canvas_w: u32, canvas_h: u32, a: (u32, u32, u32, u32), b: (u32, u32, u32, u32))
    requires
        is_uniform_trim(frames, canvas_w, canvas_h, a),
        is_uniform_trim(frames, canvas_w, canvas_h, b),
    ensures
        a == b,
{
    if any_opaque(frames) {
        if a.0 != canvas_w {
            let (i, y) = choose|i: int, y: int| 0 <= i < frames.len() && #[trigger] opaque(frames[i], a.0 as int, y);
            assert(b.0 <= a.0);
        }
        if b.0 != canvas_w {
            let (i, y) = choose|i: int, y: int| 0 <= i < frames.len() && #[trigger] opaque(frames[i], b.0 as int, y);
            assert(a.0 <= b.0);
        }
        if a.1 != canvas_h {
            let (i, x) = choose|i: int, x: int| 0 <= i < frames.len() && #[trigger] opaque(frames[i], x, a.1 as int);
            assert(b.1 <= a.1);
        }
        if b.1 != canvas_h {
            let (i, x) = choose|i: int, x: int| 0 <= i < frames.len() && #[trigger] opaque(frames[i], x, b.1 as int);
            assert(a.1 <= b.1);
        }
        let (i1, y1) = choose|i: int, y: int| 0 <= i < frames.len() && #[trigger] opaque(frames[i], a.0 + a.2 - 1, y);
        let (i2, y2) = choose|i: int, y: int| 0 <= i < frames.len() && #[trigger] opaque(frames[i], b.0 + b.2 - 1, y);
        let (i3, x3) = choose|i: int, x: int| 0 <= i < frames.len() && #[trigger] opaque(frames[i], x, a.1 + a.3 - 1);
        let (i4, x4) = choose|i: int, x: int| 0 <= i < frames.len() && #[trigger] opaque(frames[i], x, b.1 + b.3 - 1);
    }
}

/// Pixel `(x, y)` of frame `i` comes before the scan cursor `(ci, cy, cx)`.
pub open spec fn scanned_before(ci: int, cy: int, cx: int, i: int, y: int, x: int) -> bool {
    i < ci || (i == ci && (y < cy || (y == cy && x < cx)))
}

/// What the trim scan knows with its cursor at `(ci, cy, cx)`.
pub open spec fn scan_state(
    frames: Seq<Raster>,
    canvas_w: u32,
    canvas_h: u32,
    ci: int,
    cy: int,
    cx: int,
    mnx: u32,
    mny: u32,
    mxx: u32,
    mxy: u32,
    found: bool,
) -> bool {
    &&& mnx <= canvas_w && mny <= canvas_h
    &&& forall|i: int, x: int, y: int| 0 <= i < frames.len() && scanned_before(ci, cy, cx, i, y, x)
        && #[trigger] opaque(frames[i], x, y) ==> mnx <= x <= mxx && mny <= y <= mxy
    &&& found == exists|i: int, x: int, y: int| 0 <= i < frames.len() && scanned_before(ci, cy, cx, i, y, x)
        && #[trigger] opaque(frames[i], x, y)
    &&& !found ==> mnx == canvas_w && mny == canvas_h && mxx == 0 && mxy == 0
    &&& found ==> (mnx == canvas_w || exists|i: int, y: int| 0 <= i < frames.len()
        && scanned_before(ci, cy, cx, i, y, mnx as int) && #[trigger] opaque(frames[i], mnx as int, y))
    &&& found ==> (mny == canvas_h || exists|i: int, x: int| 0 <= i < frames.len()
        && scanned_before(ci, cy, cx, i, mny as int, x) && #[trigger] opaque(frames[i], x, mny as int))
    &&& found ==> exists|i: int, y: int| 0 <= i < frames.len()
        && scanned_before(ci, cy, cx, i, y, mxx as int) && #[trigger] opaque(frames[i], mxx as int, y)
    &&& found ==> exists|i: int, x: int| 0 <= i < frames.len()
        && scanned_before(ci, cy, cx, i, mxy as int, x) && #[trigger] opaque(frames[i], x, mxy as int)
}

/// Two cursors that have passed the same visible pixels give the same scan state.
proof fn lemma_scan_cursor_move(
    frames: Seq<Raster>,
    canvas_w: u32,
    canvas_h: u32,
    c1: (int, int, int),
    c2: (int, int, int),
    mnx: u32,
    mny: u32,
    mxx: u32,
    mxy: u32,
    found: bool,
)
    requires
        scan_state(frames, canvas_w, canvas_h, c1.0, c1.1, c1.2, mnx, mny, mxx, mxy, found),
        forall|i: int, x: int, y: int| 0 <= i < frames.len() && #[trigger] opaque(frames[i], x, y)
            ==> (scanned_before(c1.0, c1.1, c1.2, i, y, x) <==> scanned_before(c2.0, c2.1, c2.2, i, y, x)),
    ensures
        scan_state(frames, canvas_w, canvas_h, c2.0, c2.1, c2.2, mnx, mny, mxx, mxy, found),
{
    if found {
        let (i, x, y) = choose|i: int, x: int, y: int| 0 <= i < frames.len() && scanned_before(c1.0, c1.1, c1.2, i, y, x)
            && #[trigger] opaque(frames[i], x, y);
        assert(scanned_before(c2.0, c2.1, c2.2, i, y, x));
        if mnx != canvas_w {
            let (i, y) = choose|i: int, y: int| 0 <= i < frames.len()
                && scanned_before(c1.0, c1.1, c1.2, i, y, mnx as int) && #[trigger] opaque(frames[i], mnx as int, y);
            assert(scanned_before(c2.0, c2.1, c2.2, i, y, mnx as int));
        }
        if mny != canvas_h {
            let (i, x) = choose|i: int, x: int| 0 <= i < frames.len()
                && scanned_before(c1.0, c1.1, c1.2, i, mny as int, x) && #[trigger] opaque(frames[i], x, mny as int);
            assert(scanned_before(c2.0, c2.1, c2.2, i, mny as int, x));
        }
        let (i, y) = choose|i: int, y: int| 0 <= i < frames.len()
            && scanned_before(c1.0, c1.1, c1.2, i, y, mxx as int) && #[trigger] opaque(frames[i], mxx as int, y);
        assert(scanned_before(c2.0, c2.1, c2.2, i, y, mxx as int));
        let (i, x) = choose|i: int, x: int| 0 <= i < frames.len()
            && scanned_before(c1.0, c1.1, c1.2, i, mxy as int, x) && #[trigger] opaque(frames[i], x, mxy as int);
        assert(scanned_before(c2.0, c2.1, c2.2, i, mxy as int, x));
    } else {
        if exists|i: int, x: int, y: int| 0 <= i < frames.len() && scanned_before(c2.0, c2.1, c2.2, i, y, x)
            && #[trigger] opaque(frames[i], x, y) {
            let (i, x, y) = choose|i: int, x: int, y: int| 0 <= i < frames.len() && scanned_before(c2.0, c2.1, c2.2, i, y, x)
                && #[trigger] opaque(frames[i], x, y);
            assert(scanned_before(c1.0, c1.1, c1.2, i, y, x));
        }
    }
}

/// The box of all visible pixels across the frames, or the whole canvas when every
/// frame is fully transparent.
pub fn compute_uniform_trim(frames: &Vec<RgbaImage>, canvas_w: u32, canvas_h: u32) -> (t: (u32, u32, u32, u32))
    requires
        forall|i: int| 0 <= i < frames@.len() ==> (#[trigger] frames@[i]).covers(),
    ensures
        is_uniform_trim(rasters(frames@), canvas_w, canvas_h, t),
        t == uniform_trim(rasters(frames@), canvas_w, canvas_h),
{
    let n = frames.len();
    let mut mnx: u32 = canvas_w;
    let mut mny: u32 = canvas_h;
    let mut mxx: u32 = 0;
    let mut mxy: u32 = 0;
    let ghost mut found = false;
    let mut i: usize = 0;
    while i < n
        invariant
            n == frames@.len(),
            i <= n,
            forall|k: int| 0 <= k < frames@.len() ==> (#[trigger] frames@[k]).covers(),
            scan_state(rasters(frames@), canvas_w, canvas_h, i as int, 0, 0, mnx, mny, mxx, mxy, found),
        decreases n - i,
    {
        let img = &frames[i];
        let w = img.width;
        let h = img.height;
        let plen: usize = img.pixels.len();
        assert(img.covers());
        let mut y: u32 = 0;
        while y < h
            invariant
                n == frames@.len(),
                i < n,
                *img == frames@[i as int],
                w == img.width,
                h == img.height,
                plen == img.pixels@.len(),
                img.covers(),
                y <= h,
                scan_state(rasters(frames@), canvas_w, canvas_h, i as int, y as int, 0, mnx, mny, mxx, mxy, found),
            decreases h - y,
        {
            let mut x: u32 = 0;
            while x < w
                invariant
                    n == frames@.len(),
                    i < n,
                    *img == frames@[i as int],
                    w == img.width,
                    h == img.height,
                    plen == img.pixels@.len(),
                    img.covers(),
                    y < h,
                    x <= w,
                    scan_state(rasters(frames@), canvas_w, canvas_h, i as int, y as int, x as int, mnx, mny, mxx, mxy, found),
                decreases w - x,
            {
                proof {
                    lemma_byte_index_bounds(w as int, h as int, x as int, y as int, 3);
                }
                let a = img.pixels[4 * ((y as usize) * (w as usize) + (x as usize)) + 3];
                let ghost before = (mnx, mny, mxx, mxy, found);
                assert(a > 0 <==> opaque(rasters(frames@)[i as int], x as int, y as int));
                if a > 0 {
                    if x < mnx { mnx = x; }
                    if y < mny { mny = y; }
                    if x > mxx { mxx = x; }
                    if y > mxy { mxy = y; }
                    proof { found = true; }
                }
                proof {
                    let fr = rasters(frames@);
                    let (ci, cy, cx) = (i as int, y as int, x as int);
                    assert forall|k: int, xx: int, yy: int| 0 <= k < fr.len() && scanned_before(ci, cy, cx + 1, k, yy, xx)
                        && #[trigger] opaque(fr[k], xx, yy) implies mnx <= xx <= mxx && mny <= yy <= mxy by {
                        if !(k == ci && yy == cy && xx == cx) {
                            assert(scanned_before(ci, cy, cx, k, yy, xx));
                        }
                    }
                    if a > 0 {
                        assert(scanned_before(ci, cy, cx + 1, ci, cy, cx));
                        assert(opaque(fr[ci], cx, cy));
                        if before.4 {
                            if mnx != canvas_w {
                                if mnx == before.0 {
                                    let (k, yy) = choose|k: int, yy: int| 0 <= k < fr.len()
                                        && scanned_before(ci, cy, cx, k, yy, before.0 as int) && #[trigger] opaque(fr[k], before.0 as int, yy);
                                    assert(scanned_before(ci, cy, cx + 1, k, yy, mnx as int));
                                }
                            }
                            if mny != canvas_h {
                                if mny == before.1 {
                                    let (k, xx) = choose|k: int, xx: int| 0 <= k < fr.len()
                                        && scanned_before(ci, cy, cx, k, before.1 as int, xx) && #[trigger] opaque(fr[k], xx, before.1 as int);
                                    assert(scanned_before(ci, cy, cx + 1, k, mny as int, xx));
                                }
                            }
                            if mxx == before.2 {
                                let (k, yy) = choose|k: int, yy: int| 0 <= k < fr.len()
                                    && scanned_before(ci, cy, cx, k, yy, before.2 as int) && #[trigger] opaque(fr[k], before.2 as int, yy);
                                assert(scanned_before(ci, cy, cx + 1, k, yy, mxx as int));
                            }
                            if mxy == before.3 {
                                let (k, xx) = choose|k: int, xx: int| 0 <= k < fr.len()
                                    && scanned_before(ci, cy, cx, k, before.3 as int, xx) && #[trigger] opaque(fr[k], xx, before.3 as int);
                                assert(scanned_before(ci, cy, cx + 1, k, mxy as int, xx));
                            }
                        }
                    } else {
                        if found {
                            let (k, xx, yy) = choose|k: int, xx: int, yy: int| 0 <= k < fr.len() && scanned_before(ci, cy, cx, k, yy, xx)
                                && #[trigger] opaque(fr[k], xx, yy);
                            assert(scanned_before(ci, cy, cx + 1, k, yy, xx));
                            if mnx != canvas_w {
                                let (k, yy) = choose|k: int, yy: int| 0 <= k < fr.len()
                                    && scanned_before(ci, cy, cx, k, yy, mnx as int) && #[trigger] opaque(fr[k], mnx as int, yy);
                                assert(scanned_before(ci, cy, cx + 1, k, yy, mnx as int));
                            }
                            if mny != canvas_h {
                                let (k, xx) = choose|k: int, xx: int| 0 <= k < fr.len()
                                    && scanned_before(ci, cy, cx, k, mny as int, xx) && #[trigger] opaque(fr[k], xx, mny as int);
                                assert(scanned_before(ci, cy, cx + 1, k, mny as int, xx));
                            }
                            let (k, yy) = choose|k: int, yy: int| 0 <= k < fr.len()
                                && scanned_before(ci, cy, cx, k, yy, mxx as int) && #[trigger] opaque(fr[k], mxx as int, yy);
                            assert(scanned_before(ci, cy, cx + 1, k, yy, mxx as int));
                            let (k, xx) = choose|k: int, xx: int| 0 <= k < fr.len()
                                && scanned_before(ci, cy, cx, k, mxy as int, xx) && #[trigger] opaque(fr[k], xx, mxy as int);
                            assert(scanned_before(ci, cy, cx + 1, k, mxy as int, xx));
                        } else {
                            if exists|k: int, xx: int, yy: int| 0 <= k < fr.len() && scanned_before(ci, cy, cx + 1, k, yy, xx)
                                && #[trigger] opaque(fr[k], xx, yy) {
                                let (k, xx, yy) = choose|k: int, xx: int, yy: int| 0 <= k < fr.len()
                                    && scanned_before(ci, cy, cx + 1, k, yy, xx) && #[trigger] opaque(fr[k], xx, yy);
                                assert(scanned_before(ci, cy, cx, k, yy, xx));
                            }
                        }
                    }
                }
                x = x + 1;
            }
            proof {
                lemma_scan_cursor_move(rasters(frames@), canvas_w, canvas_h, (i as int, y as int, w as int), (i as int, y + 1, 0),
                    mnx, mny, mxx, mxy, found);
            }
            y = y + 1;
        }
        proof {
            lemma_scan_cursor_move(rasters(frames@), canvas_w, canvas_h, (i as int, h as int, 0), (i + 1, 0, 0),
                mnx, mny, mxx, mxy, found);
        }
        i = i + 1;
    }
    proof {
        let fr = rasters(frames@);
        assert(found == any_opaque(fr)) by {
            if any_opaque(fr) {
                let (k, xx, yy) = choose|k: int, xx: int, yy: int| 0 <= k < fr.len() && #[trigger] opaque(fr[k], xx, yy);
                assert(scanned_before(n as int, 0, 0, k, yy, xx));
            }
        }
    }
    let t = if mxx < mnx || mxy < mny {
        (0, 0, canvas_w, canvas_h)
    } else {
        let w0 = mxx - mnx + 1;
        let h0 = mxy - mny + 1;
        (mnx, mny, if w0 > 1 { w0 } else { 1 }, if h0 > 1 { h0 } else { 1 })
    };
    proof {
        let fr = rasters(frames@);
        if found {
            let (k, xx, yy) = choose|k: int, xx: int, yy: int| 0 <= k < fr.len() && scanned_before(n as int, 0, 0, k, yy, xx)
                && #[trigger] opaque(fr[k], xx, yy);
            assert(mnx <= xx <= mxx && mny <= yy <= mxy);
            let (k, yy) = choose|k: int, yy: int| 0 <= k < fr.len()
                && scanned_before(n as int, 0, 0, k, yy, mxx as int) && #[trigger] opaque(fr[k], mxx as int, yy);
            let (k, xx) = choose|k: int, xx: int| 0 <= k < fr.len()
                && scanned_before(n as int, 0, 0, k, mxy as int, xx) && #[trigger] opaque(fr[k], xx, mxy as int);
            if mnx != canvas_w {
                let (k, yy) = choose|k: int, yy: int| 0 <= k < fr.len()
                    && scanned_before(n as int, 0, 0, k, yy, mnx as int) && #[trigger] opaque(fr[k], mnx as int, yy);
            }
            if mny != canvas_h {
                let (k, xx) = choose|k: int, xx: int| 0 <= k < fr.len()
                    && scanned_before(n as int, 0, 0, k, mny as int, xx) && #[trigger] opaque(fr[k], xx, mny as int);
            }
            assert(t.0 == mnx && t.1 == mny && t.0 + t.2 - 1 == mxx && t.1 + t.3 - 1 == mxy);
            assert forall|k: int, xx: int, yy: int| 0 <= k < fr.len() && #[trigger] opaque(fr[k], xx, yy)
                implies t.0 <= xx <= t.0 + t.2 - 1 && t.1 <= yy <= t.1 + t.3 - 1 by {
                assert(scanned_before(n as int, 0, 0, k, yy, xx));
            }
        }
        assert(is_uniform_trim(fr, canvas_w, canvas_h, t));
        lemma_uniform_trim_unique(fr, canvas_w, canvas_h, t, uniform_trim(fr, canvas_w, canvas_h));
    }
    t
}


/// Where a crop of `len` starting at `start` begins inside a side of `size`.
pub open spec fn crop_start(start: u32, size: u32) -> int {
    if start < size { start as int } else { size as int }
}

/// How much of a crop of `len` starting at `start` lies inside a side of `size`.
pub open spec fn crop_len(start: u32, len: u32, size: u32) -> int {
    let s = crop_start(start, size);
    if len < size - s { len as int } else { size - s }
}

/// Top-left corner of tile `k` in a sheet of `cols` columns of `t.2` x `t.3` tiles,
/// `pad` pixels apart and from the edges.
pub open spec fn tile_origin(k: int, cols: int, t: (u32, u32, u32, u32), pad: int) -> (int, int) {
    (pad + (k % cols) * (t.2 + pad), pad + (k / cols) * (t.3 + pad))
}

/// Width and height of a sheet of `cols` x `rows` tiles.
pub open spec fn sheet_size(t: (u32, u32, u32, u32), cols: int, rows: int, pad: int) -> (int, int) {
    (cols * (t.2 + pad) + pad, rows * (t.3 + pad) + pad)
}

/// Channel `c` of sheet pixel `(x, y)` once frames `0..k` are cropped to the trim
/// box `t` and copied to their tiles (the sheet starts transparent).
pub open spec fn sheet_byte(
    frames: Seq<Raster>,
    t: (u32, u32, u32, u32),
    cols: int,
    pad: int,
    k: int,
    x: int,
    y: int,
    c: int,
) -> u8
    decreases k,
{
    if k <= 0 {
        0
    } else {
        let f = frames[k - 1];
        let sx = crop_start(t.0, f.0);
        let sy = crop_start(t.1, f.1);
        let cw = crop_len(t.0, t.2, f.0);
        let ch = crop_len(t.1, t.3, f.1);
        let (dx, dy) = tile_origin(k - 1, cols, t, pad);
        if dx <= x < dx + cw && dy <= y < dy + ch {
            raster_byte(f, sx + x - dx, sy + y - dy, c)
        } else {
            sheet_byte(frames, t, cols, pad, k - 1, x, y, c)
        }
    }
}

/// The RGBA bytes of the whole sheet.
pub open spec fn sheet_pixels(frames: Seq<Raster>, t: (u32, u32, u32, u32), cols: int, rows: int, pad: int) -> Seq<u8> {
    let (w, h) = sheet_size(t, cols, rows, pad);
    Seq::new(
        (4 * w * h) as nat,
        |b: int| sheet_byte(frames, t, cols, pad, frames.len() as int, (b / 4) % w, (b / 4) / w, b % 4),
    )
}

proof fn lemma_tile_row(k: int, n: int, cols: int, rows: int)
    requires
        0 <= k < n <= cols * rows,
        cols >= 1,
    ensures
        0 <= k / cols < rows,
        0 <= k % cols < cols,
{
    vstd::arithmetic::div_mod::lemma_fundamental_div_mod(k, cols);
    vstd::arithmetic::div_mod::lemma_mod_bound(k, cols);
    vstd::arithmetic::div_mod::lemma_div_pos_is_pos(k, cols);
    let q = k / cols;
    assert(q < rows) by (nonlinear_arith)
        requires k == cols * q + k % cols, 0 <= k % cols, k < cols * rows, cols >= 1;
}

/// Copy each frame, cropped to the trim box `t`, into its tile of a sheet of
/// `columns` x `rows` tiles, left to right and top to bottom.
pub fn assemble_sheet(frames: &Vec<RgbaImage>, t: (u32, u32, u32, u32), columns: u32, rows: u32, padding: u32) -> (img: RgbaImage)
    requires
        forall|i: int| 0 <= i < frames@.len() ==> (#[trigger] frames@[i]).covers(),
        frames@.len() > 0 ==> columns >= 1,
        frames@.len() <= columns * rows,
        sheet_size(t, columns as int, rows as int, padding as int).0 <= u32::MAX,
        sheet_size(t, columns as int, rows as int, padding as int).1 <= u32::MAX,
        4 * sheet_size(t, columns as int, rows as int, padding as int).0
            * sheet_size(t, columns as int, rows as int, padding as int).1 <= usize::MAX,
    ensures
        img.width == sheet_size(t, columns as int, rows as int, padding as int).0,
        img.height == sheet_size(t, columns as int, rows as int, padding as int).1,
        img.pixels@ == sheet_pixels(rasters(frames@), t, columns as int, rows as int, padding as int),
{
    let ghost fr = rasters(frames@);
    let n = frames.len();
    let tw = t.2;
    let th = t.3;
    let aw: u32 = (columns as u64 * (tw as u64 + padding as u64) + padding as u64) as u32;
    let ah: u32 = (rows as u64 * (th as u64 + padding as u64) + padding as u64) as u32;
    let mut atlas = blank_image(aw, ah);
    proof {
        assert forall|x: int, y: int, c: int| 0 <= x < aw && 0 <= y < ah && 0 <= c < 4 implies
            #[trigger] atlas.byte(x, y, c) == sheet_byte(fr, t, columns as int, padding as int, 0, x, y, c) by {
            lemma_byte_index_bounds(aw as int, ah as int, x, y, c);
        }
    }
    let mut k: usize = 0;
    while k < n
        invariant
            n == frames@.len(),
            fr == rasters(frames@),
            k <= n,
            forall|i: int| 0 <= i < frames@.len() ==> (#[trigger] frames@[i]).covers(),
            n > 0 ==> columns >= 1,
            n <= columns * rows,
            tw == t.2,
            th == t.3,
            aw == sheet_size(t, columns as int, rows as int, padding as int).0,
            ah == sheet_size(t, columns as int, rows as int, padding as int).1,
            atlas.width == aw,
            atlas.height == ah,
            atlas.pixels@.len() == 4 * aw * ah,
            forall|x: int, y: int, c: int| 0 <= x < aw && 0 <= y < ah && 0 <= c < 4 ==>
                #[trigger] atlas.byte(x, y, c) == sheet_byte(fr, t, columns as int, padding as int, k as int, x, y, c),
        decreases n - k,
    {
        let f = &frames[k];
        proof {
            lemma_tile_row(k as int, n as int, columns as int, rows as int);
            assert(f.covers());
            assert((k as int / columns as int) * (th + padding) <= (rows - 1) * (th + padding)) by (nonlinear_arith)
                requires 0 <= k as int / columns as int <= rows - 1, th + padding >= 0;
            assert((k as int % columns as int) * (tw + padding) <= (columns - 1) * (tw + padding)) by (nonlinear_arith)
                requires 0 <= k as int % columns as int <= columns - 1, tw + padding >= 0;
            assert(columns * (tw + padding) == (columns - 1) * (tw + padding) + (tw + padding)) by (nonlinear_arith);
            assert(rows * (th + padding) == (rows - 1) * (th + padding) + (th + padding)) by (nonlinear_arith);
        }
        let col = (k % (columns as usize)) as u64;
        let row = (k / (columns as usize)) as u64;
        let dx: u64 = padding as u64 + col * (tw as u64 + padding as u64);
        let dy: u64 = padding as u64 + row * (th as u64 + padding as u64);
        let sx: u32 = if t.0 < f.width { t.0 } else { f.width };
        let sy: u32 = if t.1 < f.height { t.1 } else { f.height };
        let cw: u32 = if tw < f.width - sx { tw } else { f.width - sx };
        let ch: u32 = if th < f.height - sy { th } else { f.height - sy };
        let ghost before = atlas;
        blit(&mut atlas, f, sx, sy, dx, dy, cw, ch);
        proof {
            assert(fr[k as int] == f@);
            assert((dx as int, dy as int) == tile_origin(k as int, columns as int, t, padding as int));
            assert forall|x: int, y: int, c: int| 0 <= x < aw && 0 <= y < ah && 0 <= c < 4 implies
                #[trigger] atlas.byte(x, y, c) == sheet_byte(fr, t, columns as int, padding as int, k + 1, x, y, c) by {
                assert(before.byte(x, y, c) == sheet_byte(fr, t, columns as int, padding as int, k as int, x, y, c));
            }
        }
        k = k + 1;
    }
    proof {
        let target = sheet_pixels(fr, t, columns as int, rows as int, padding as int);
        assert forall|b: int| 0 <= b < atlas.pixels@.len() implies atlas.pixels@[b] == target[b] by {
            assert(aw > 0) by (nonlinear_arith)
                requires 0 <= b < 4 * aw * ah, ah >= 0;
            crate::export::bone_export::lemma_byte_index_split(aw as int, ah as int, b);
            assert(atlas.byte((b / 4) % (aw as int), (b / 4) / (aw as int), b % 4) == target[b]);
        }
        assert(atlas.pixels@ =~= target);
    }
    atlas
}


/// A spritesheet ready to be written: its PNG, its grid and its RON description.
pub struct Spritesheet {
    pub png: Vec<u8>,
    pub tile_w: u32,
    pub tile_h: u32,
    pub columns: u32,
    pub rows: u32,
    pub width: u32,
    pub height: u32,
    pub ron: String,
}

/// The frames' PNGs all decode.
pub open spec fn all_frames_decode(frames: Seq<Vec<u8>>) -> bool {
    forall|i: int| 0 <= i < frames.len() ==> #[trigger] png_pixels(frames[i]@) is Some
}

/// The decoded frames.
pub open spec fn frame_rasters(frames: Seq<Vec<u8>>) -> Seq<Raster> {
    Seq::new(frames.len(), |i: int| match png_pixels(frames[i]@) {
        Some(r) => r,
        None => (0u32, 0u32, Seq::empty()),
    })
}

/// The box every frame is cropped to: the uniform trim, or the whole canvas.
pub open spec fn trim_box(frames: Seq<Raster>, canvas_w: u32, canvas_h: u32, trim: bool) -> (u32, u32, u32, u32) {
    if trim { uniform_trim(frames, canvas_w, canvas_h) } else { (0u32, 0u32, canvas_w, canvas_h) }
}

/// The sheet's grid and size fit the integer types it is built with.
pub open spec fn sheet_fits(t: (u32, u32, u32, u32), cols: int, rows: int, pad: int) -> bool {
    let (w, h) = sheet_size(t, cols, rows, pad);
    cols <= u32::MAX && rows <= u32::MAX && w <= u32::MAX && h <= u32::MAX && 4 * w * h <= usize::MAX
}

/// Build a spritesheet from rendered frames (PNG bytes, in frame order): decode
/// them, crop them all to one box (the uniform trim when `settings.trim`, else the
/// canvas), lay them out as `settings.layout` says, `settings.padding` pixels apart,
/// and encode the sheet. A frame that does not decode gives
/// `Rasterize("Failed to decode frame PNG: ...")`, a sheet with a zero side (which
/// the PNG encoder refuses) `Rasterize("Failed to encode atlas PNG: ...")`, and a sheet whose size does not
/// fit in `u32` or in memory `Rasterize("Spritesheet atlas too large")`.
pub fn build_spritesheet(
    frames: &Vec<Vec<u8>>,
    canvas_w: u32,
    canvas_h: u32,
    settings: &ExportSettings,
) -> (r: Result<Spritesheet, ExportError>)
    requires
        frames@.len() <= 0x10_0000_0000_0000,
    ensures
        !all_frames_decode(frames@) ==> (r matches Err(ExportError::Rasterize(m))
            && exists|d: Seq<char>| m@ == "Failed to decode frame PNG: "@ + d),
        all_frames_decode(frames@) ==> ({
            let fr = frame_rasters(frames@);
            let t = trim_box(fr, canvas_w, canvas_h, settings.trim);
            let (cols, rows) = sheet_shape(settings.layout, frames@.len() as int);
            let pad = settings.padding as int;
            let (w, h) = sheet_size(t, cols, rows, pad);
            if !sheet_fits(t, cols, rows, pad) {
                r matches Err(ExportError::Rasterize(m)) && m@ == "Spritesheet atlas too large"@
            } else {
                match r {
                    Ok(sheet) => sheet.tile_w == t.2 && sheet.tile_h == t.3 && sheet.columns == cols
                        && sheet.rows == rows && sheet.width == w && sheet.height == h
                        && sheet.png@ == png_encoding(w as u32, h as u32, sheet_pixels(fr, t, cols, rows, pad))
                        && sheet.ron@ == atlas_ron_text(t.2, t.3, cols as u32, rows as u32, settings.padding, settings.padding),
                    Err(ExportError::Rasterize(m)) => (w == 0 || h == 0)
                        && exists|d: Seq<char>| m@ == "Failed to encode atlas PNG: "@ + d,
                    Err(_) => false,
                }
            }
        }),
{
    let n = frames.len();
    let ghost fr = frame_rasters(frames@);
    let mut images: Vec<RgbaImage> = Vec::new();
    let mut i: usize = 0;
    while i < n
        invariant
            n == frames@.len(),
            fr == frame_rasters(frames@),
            i <= n,
            images@.len() == i,
            forall|j: int| 0 <= j < i ==> (#[trigger] images@[j]).covers() && images@[j]@ == fr[j],
            forall|j: int| 0 <= j < i ==> #[trigger] png_pixels(frames@[j]@) is Some,
        decreases n - i,
    {
        match decode_png(frames[i].as_slice()) {
            Ok(img) => {
                images.push(img);
            },
            Err(d) => {
                let ghost dv = d@;
                let mut m = String::from_str("Failed to decode frame PNG: ");
                push_str(&mut m, d.as_str());
                proof {
                    assert(png_pixels(frames@[i as int]@) is None);
                    assert(m@ == "Failed to decode frame PNG: "@ + dv);
                }
                return Err(ExportError::Rasterize(m));
            },
        }
        i = i + 1;
    }
    assert(rasters(images@) =~= fr);
    let t = if settings.trim {
        compute_uniform_trim(&images, canvas_w, canvas_h)
    } else {
        (0, 0, canvas_w, canvas_h)
    };
    let (cols, rows) = compute_layout(settings.layout, n);
    let pad = settings.padding;
    proof {
        assert(cols as int * (t.2 + pad) <= 0x10_0000_0000_0000 * 0x2_0000_0000) by (nonlinear_arith)
            requires cols <= 0x10_0000_0000_0000, 0 <= t.2 + pad <= 0x2_0000_0000;
        assert(rows as int * (t.3 + pad) <= 0x10_0000_0000_0000 * 0x2_0000_0000) by (nonlinear_arith)
            requires rows <= 0x10_0000_0000_0000, 0 <= t.3 + pad <= 0x2_0000_0000;
    }
    let w: u128 = cols as u128 * (t.2 as u128 + pad as u128) + pad as u128;
    let h: u128 = rows as u128 * (t.3 as u128 + pad as u128) + pad as u128;
    if cols > 0xffff_ffff || rows > 0xffff_ffff || w > 0xffff_ffff || h > 0xffff_ffff {
        return Err(ExportError::Rasterize(String::from_str("Spritesheet atlas too large")));
    }
    assert(4 * w * h <= 4 * 0xffff_ffffu128 * 0xffff_ffffu128) by (nonlinear_arith)
        requires w <= 0xffff_ffff, h <= 0xffff_ffff;
    if 4 * w * h > usize::MAX as u128 {
        return Err(ExportError::Rasterize(String::from_str("Spritesheet atlas too large")));
    }
    let img = assemble_sheet(&images, t, cols as u32, rows as u32, pad);
    let ron = generate_texture_atlas_ron(t.2, t.3, cols as u32, rows as u32, pad, pad);
    match encode_png(&img) {
        Ok(png) => Ok(Spritesheet {
            png,
            tile_w: t.2,
            tile_h: t.3,
            columns: cols as u32,
            rows: rows as u32,
            width: img.width,
            height: img.height,
            ron,
        }),
        Err(d) => {
            let ghost dv = d@;
            let mut m = String::from_str("Failed to encode atlas PNG: ");
            push_str(&mut m, d.as_str());
            assert(m@ == "Failed to encode atlas PNG: "@ + dv);
            Err(ExportError::Rasterize(m))
        },
    }
}


/// Frames of a sheet never overlap and stay inside it: for two different frames
/// `k` and `j` of a grid that holds them, their `t.2` x `t.3` tiles share no pixel,
/// and each tile ends within the sheet, `pad` pixels from its right and bottom edges.
pub proof fn lemma_tiles_apart(t: (u32, u32, u32, u32), cols: int, rows: int, pad: int, k: int, j: int)
    requires
        cols >= 1,
        pad >= 0,
        0 <= k < cols * rows,
        0 <= j < cols * rows,
        k != j,
    ensures
        ({
            let (kx, ky) = tile_origin(k, cols, t, pad);
            let (jx, jy) = tile_origin(j, cols, t, pad);
            let (w, h) = sheet_size(t, cols, rows, pad);
            &&& kx + t.2 <= jx || jx + t.2 <= kx || ky + t.3 <= jy || jy + t.3 <= ky
            &&& pad <= kx && kx + t.2 + pad <= w
            &&& pad <= ky && ky + t.3 + pad <= h
        }),
{
    lemma_tile_row(k, cols * rows, cols, rows);
    lemma_tile_row(j, cols * rows, cols, rows);
    let (kc, kr) = (k % cols, k / cols);
    let (jc, jr) = (j % cols, j / cols);
    let tw = t.2 as int;
    let th = t.3 as int;
    vstd::arithmetic::div_mod::lemma_fundamental_div_mod(k, cols);
    vstd::arithmetic::div_mod::lemma_fundamental_div_mod(j, cols);
    assert(kr != jr || kc != jc);
    if kr < jr {
        assert(kr * (th + pad) + th + pad <= jr * (th + pad)) by (nonlinear_arith)
            requires kr + 1 <= jr, th + pad >= 0;
    } else if jr < kr {
        assert(jr * (th + pad) + th + pad <= kr * (th + pad)) by (nonlinear_arith)
            requires jr + 1 <= kr, th + pad >= 0;
    } else if kc < jc {
        assert(kc * (tw + pad) + tw + pad <= jc * (tw + pad)) by (nonlinear_arith)
            requires kc + 1 <= jc, tw + pad >= 0;
    } else {
        assert(jc * (tw + pad) + tw + pad <= kc * (tw + pad)) by (nonlinear_arith)
            requires jc + 1 <= kc, tw + pad >= 0;
    }
    assert(kc * (tw + pad) + tw + pad <= cols * (tw + pad)) by (nonlinear_arith)
        requires kc + 1 <= cols, tw + pad >= 0;
    assert(kr * (th + pad) + th + pad <= rows * (th + pad)) by (nonlinear_arith)
        requires kr + 1 <= rows, th + pad >= 0;
    assert(0 <= kc * (tw + pad)) by (nonlinear_arith)
        requires kc >= 0, tw + pad >= 0;
    assert(0 <= kr * (th + pad)) by (nonlinear_arith)
        requires kr >= 0, th + pad >= 0;
}

} // verus!
