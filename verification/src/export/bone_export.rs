use vstd::prelude::*;
use crate::export::ExportError;
use crate::order::{stable_order, stable_sorted};
use crate::export::rasterize::{
    RgbaImage, lemma_byte_index_bounds, blank_image, rasterize_error, blit, byte_index, decode_png, encode_png, png_encoding, png_pixels,
};
use crate::export::ron_meta::{AtlasRegion, SkinManifestEntry};
use crate::export::spritesheet::{sanitize_filename, sanitized};
use crate::model::sprite::Sprite;
use crate::text::{decimal, push_decimal};
use crate::text::push_str;

verus! {

/// `p` is a power of two.
pub open spec fn is_power_of_two(p: u32) -> bool {
    p != 0 && p & ((p - 1) as u32) == 0
}

/// Round up to the next power of two (1 for 0 and 1).
pub fn next_power_of_two(n: u32) -> (p: u32)
    requires
        n <= 0x8000_0000,
    ensures
        is_power_of_two(p),
        p >= n,
        p >= 1,
        n <= 1 ==> p == 1,
        n > 1 ==> p / 2 < n,
{
    let m: u32 = if n > 1 { n } else { 1 };
    let v0: u32 = m - 1;
    let v1: u32 = v0 | (v0 >> 1u32);
    let v2: u32 = v1 | (v1 >> 2u32);
    let v3: u32 = v2 | (v2 >> 4u32);
    let v4: u32 = v3 | (v3 >> 8u32);
    let v5: u32 = v4 | (v4 >> 16u32);
    assert(v5 < 0xffff_ffff && (v5 & ((v5 + 1) as u32)) == 0 && v5 >= v0 && (m == 1 ==> v5 == 0)
        && (m > 1 ==> ((v5 + 1) as u32) / 2 <= v0)) by (bit_vector)
        requires
            1 <= m <= 0x8000_0000,
            v0 == m - 1,
            v1 == v0 | (v0 >> 1u32),
            v2 == v1 | (v1 >> 2u32),
            v3 == v2 | (v2 >> 4u32),
            v4 == v3 | (v3 >> 8u32),
            v5 == v4 | (v4 >> 16u32),
    ;
    let p = v5 + 1;
    assert(p != 0 && p & ((p - 1) as u32) == 0 && p / 2 <= v5 / 2 + 1) by (bit_vector)
        requires v5 < 0xffff_ffff, (v5 & ((v5 + 1) as u32)) == 0, p == v5 + 1;
    p
}

/// Smallest `s` with `s * s >= t`.
pub open spec fn is_ceil_sqrt(t: int, s: int) -> bool {
    s >= 0 && s * s >= t && (s == 0 || (s - 1) * (s - 1) < t)
}

/// The ceiling of the square root of `t`.
pub fn ceil_sqrt(t: u64) -> (s: u64)
    requires
        t <= 0x10_0000_0000_0000,
    ensures
        is_ceil_sqrt(t as int, s as int),
        s <= 0x400_0000,
{
    let mut lo: u64 = 0;
    let mut hi: u64 = 0x400_0000;
    assert(hi * hi >= t) by (nonlinear_arith)
        requires hi == 0x400_0000, t <= 0x10_0000_0000_0000;
    while lo < hi
        invariant
            lo <= hi <= 0x400_0000,
            hi * hi >= t,
            lo == 0 || (lo - 1) * (lo - 1) < t,
        decreases hi - lo,
    {
        let mid = lo + (hi - lo) / 2;
        assert(mid * mid <= 0x400_0000 * 0x400_0000) by (nonlinear_arith)
            requires mid <= 0x400_0000;
        if mid * mid >= t {
            hi = mid;
        } else {
            lo = mid + 1;
        }
    }
    lo
}

/// Shelf-packing state after placing the first `k` parts: the cursor `(x, y)`,
/// the height of the current shelf, and where each part went.
pub struct ShelfState {
    pub x: int,
    pub y: int,
    pub shelf_height: int,
    pub spots: Seq<(int, int)>,
}

/// Place parts (width, height) left to right in rows of an `aw` x `ah` atlas,
/// `pad` pixels apart and from the edges; a part that does not fit in the row
/// starts a new row; None when a part goes past the bottom.
pub open spec fn shelves(sizes: Seq<(u32, u32)>, pad: int, aw: int, ah: int, k: int) -> Option<ShelfState>
    decreases k,
{
    if k <= 0 {
        Some(ShelfState { x: pad, y: pad, shelf_height: 0, spots: Seq::empty() })
    } else {
        match shelves(sizes, pad, aw, ah, k - 1) {
            None => None,
            Some(s) => {
                let pw = sizes[k - 1].0 + pad;
                let ph = sizes[k - 1].1 + pad;
                let wrap = s.x + pw > aw;
                let x = if wrap { pad } else { s.x };
                let y = if wrap { s.y + s.shelf_height + pad } else { s.y };
                let sh = if wrap { 0 } else { s.shelf_height };
                if y + ph > ah {
                    None
                } else {
                    Some(ShelfState {
                        x: x + pw,
                        y,
                        shelf_height: if sh > ph { sh } else { ph },
                        spots: s.spots.push((x, y)),
                    })
                }
            },
        }
    }
}

/// Packing with retries: when the parts do not fit, the shorter side (the width
/// on a tie) doubles, until a side would exceed 8192 (None).
pub open spec fn shelf_pack_from(sizes: Seq<(u32, u32)>, pad: int, aw: int, ah: int) -> Option<(int, int, Seq<(int, int)>)>
    decreases 16385 - aw - ah,
{
    match shelves(sizes, pad, aw, ah, sizes.len() as int) {
        Some(s) => Some((aw, ah, s.spots)),
        None => {
            let aw2 = if aw <= ah { 2 * aw } else { aw };
            let ah2 = if aw <= ah { ah } else { 2 * ah };
            if aw2 > 8192 || ah2 > 8192 || aw < 1 || ah < 1 {
                None
            } else {
                shelf_pack_from(sizes, pad, aw2, ah2)
            }
        },
    }
}

/// Padded area of all parts.
pub open spec fn padded_area(sizes: Seq<(u32, u32)>, pad: int) -> int
    decreases sizes.len(),
{
    if sizes.len() == 0 {
        0
    } else {
        padded_area(sizes.drop_last(), pad) + (sizes.last().0 + pad) * (sizes.last().1 + pad)
    }
}

/// Sort keys that put taller parts first.
pub open spec fn height_keys(sizes: Seq<(u32, u32)>) -> Seq<u64> {
    sizes.map_values(|s: (u32, u32)| (0xffff_ffffu32 - s.1) as u64)
}

/// The positions of the parts, tallest first (stable).
pub open spec fn by_height(sizes: Seq<(u32, u32)>) -> Seq<usize> {
    stable_sorted(height_keys(sizes))
}

/// The part sizes, tallest first (stable).
pub open spec fn sorted_by_height(sizes: Seq<(u32, u32)>) -> Seq<(u32, u32)> {
    by_height(sizes).map_values(|i: usize| sizes[i as int])
}

/// The ceiling of the square root of `t`.
pub open spec fn ceil_root(t: int) -> int {
    choose|s: int| is_ceil_sqrt(t, s)
}

/// The side the packer tries first: the smallest power of two that is at least
/// 64 and at least the square root of the padded area.
pub open spec fn starting_side(sizes: Seq<(u32, u32)>, pad: int) -> int {
    let side = ceil_root(padded_area(sizes, pad));
    let m = if side > 64 { side } else { 64 };
    (choose|p: u32| is_power_of_two(p) && p >= m && p / 2 < m) as int
}

/// Every non-negative number has a ceiling square root, so `ceil_root` always names it.
pub proof fn lemma_ceil_sqrt_exists(t: int)
    requires
        t >= 0,
    ensures
        is_ceil_sqrt(t, ceil_root(t)),
    decreases t,
{
    if t == 0 {
        assert(is_ceil_sqrt(0, 0));
    } else {
        lemma_ceil_sqrt_exists(t - 1);
        let s = ceil_root(t - 1);
        if s * s >= t {
            assert(is_ceil_sqrt(t, s));
        } else {
            assert((s + 1) * (s + 1) >= t) by (nonlinear_arith)
                requires s >= 0, s * s >= t - 1;
            assert(is_ceil_sqrt(t, s + 1));
        }
    }
}

pub proof fn lemma_ceil_sqrt_unique(t: int, a: int, b: int)
    requires
        is_ceil_sqrt(t, a),
        is_ceil_sqrt(t, b),
    ensures
        a == b,
{
    if a < b {
        assert((b - 1) * (b - 1) >= a * a) by (nonlinear_arith)
            requires 0 <= a <= b - 1;
    } else if b < a {
        assert((a - 1) * (a - 1) >= b * b) by (nonlinear_arith)
            requires 0 <= b <= a - 1;
    }
}

proof fn lemma_power_of_two_unique(p: u32, q: u32, m: int)
    requires
        is_power_of_two(p),
        is_power_of_two(q),
        p >= m,
        p / 2 < m,
        q >= m,
        q / 2 < m,
    ensures
        p == q,
{
    assert(p != 0 && p & ((p - 1) as u32) == 0 && q != 0 && q & ((q - 1) as u32) == 0 && p < q ==> q / 2 >= p)
        by (bit_vector);
    assert(p != 0 && p & ((p - 1) as u32) == 0 && q != 0 && q & ((q - 1) as u32) == 0 && q < p ==> p / 2 >= q)
        by (bit_vector);
}

/// Where the atlas packer puts each part, and the atlas size.
pub struct AtlasLayout {
    pub width: u32,
    pub height: u32,
    /// Top-left corner of each part, in the parts' own order.
    pub spots: Vec<(u32, u32)>,
}

/// Result of packing: the atlas size and the corner of each part in input order.
pub open spec fn atlas_layout(sizes: Seq<(u32, u32)>, pad: int, start: int) -> Option<(int, int, Seq<(int, int)>)> {
    let order = by_height(sizes);
    match shelf_pack_from(sorted_by_height(sizes), pad, start, start) {
        None => None,
        Some((aw, ah, spots)) => Some((
            aw,
            ah,
            Seq::new(sizes.len(), |i: int| spots[choose|k: int| 0 <= k < order.len() && order[k] == i]),
        )),
    }
}

/// Every part's padded width and height (`width + pad`, `height + pad`) fit in `u32`.
pub open spec fn sizes_in_range(sizes: Seq<(u32, u32)>, pad: int) -> bool {
    &&& 0 <= pad <= u32::MAX
    &&& forall|i: int| 0 <= i < sizes.len() ==> #[trigger] sizes[i].0 + pad <= u32::MAX && sizes[i].1 + pad <= u32::MAX
}

proof fn lemma_shelves_len(sizes: Seq<(u32, u32)>, pad: int, aw: int, ah: int, k: int)
    requires
        k >= 0,
        shelves(sizes, pad, aw, ah, k) is Some,
    ensures
        shelves(sizes, pad, aw, ah, k)->0.spots.len() == k,
    decreases k,
{
    if k > 0 {
        lemma_shelves_len(sizes, pad, aw, ah, k - 1);
    }
}

/// The positions of a stable order are distinct.
proof fn lemma_order_distinct(keys: Seq<u64>, order: Seq<usize>, a: int, b: int)
    requires
        crate::order::is_stable_order(keys, order),
        0 <= a < order.len(),
        0 <= b < order.len(),
        a != b,
    ensures
        order[a] != order[b],
{
    if a < b {
        assert(crate::order::key_before(keys, order[a] as int, order[b] as int));
    } else {
        assert(crate::order::key_before(keys, order[b] as int, order[a] as int));
    }
}

proof fn lemma_shelves_stuck(sizes: Seq<(u32, u32)>, pad: int, aw: int, ah: int, k: int, n: int)
    requires
        1 <= k <= n,
        shelves(sizes, pad, aw, ah, k) is None,
    ensures
        shelves(sizes, pad, aw, ah, n) is None,
    decreases n - k,
{
    if k < n {
        lemma_shelves_stuck(sizes, pad, aw, ah, k + 1, n);
    }
}

fn place_on_shelves(sorted: &Vec<(u32, u32)>, pad: u32, aw: u32, ah: u32) -> (r: Option<Vec<(u32, u32)>>)
    requires
        sizes_in_range(sorted@, pad as int),
        1 <= aw <= 0x800_0000,
        1 <= ah <= 0x800_0000,
    ensures
        match shelves(sorted@, pad as int, aw as int, ah as int, sorted@.len() as int) {
            None => r is None,
            Some(st) => r matches Some(v) && v@.len() == st.spots.len()
                && forall|i: int| 0 <= i < v@.len() ==> (#[trigger] v@[i]).0 == st.spots[i].0 && v@[i].1 == st.spots[i].1,
        },
{
    let n = sorted.len();
    let mut spots: Vec<(u32, u32)> = Vec::new();
    let mut x: u64 = pad as u64;
    let mut y: u64 = pad as u64;
    let mut sh: u64 = 0;
    let mut k: usize = 0;
    while k < n
        invariant
            n == sorted@.len(),
            sizes_in_range(sorted@, pad as int),
            1 <= aw <= 0x800_0000,
            1 <= ah <= 0x800_0000,
            k <= n,
            x <= 0x2_0000_0000,
            y <= 0xffff_ffff,
            sh <= 0xffff_ffff,
            shelves(sorted@, pad as int, aw as int, ah as int, k as int) matches Some(st) && st.x == x && st.y == y
                && st.shelf_height == sh && st.spots.len() == spots@.len()
                && forall|i: int| 0 <= i < spots@.len() ==> (#[trigger] spots@[i]).0 == st.spots[i].0 && spots@[i].1 == st.spots[i].1,
        decreases n - k,
    {
        let (w, h) = sorted[k];
        assert(w + pad <= 0xffff_ffff && h + pad <= 0xffff_ffff) by {
            assert(sorted@[k as int].0 + pad <= u32::MAX && sorted@[k as int].1 + pad <= u32::MAX);
        }
        let pw: u64 = w as u64 + pad as u64;
        let ph: u64 = h as u64 + pad as u64;
        let wrap = x + pw > aw as u64;
        let nx: u64 = if wrap { pad as u64 } else { x };
        let ny: u64 = if wrap { y + sh + pad as u64 } else { y };
        let nsh: u64 = if wrap { 0 } else { sh };
        if ny + ph > ah as u64 {
            proof {
                lemma_shelves_stuck(sorted@, pad as int, aw as int, ah as int, k as int + 1, n as int);
            }
            return None;
        }
        spots.push((nx as u32, ny as u32));
        x = nx + pw;
        y = ny;
        sh = if nsh > ph { nsh } else { ph };
        k = k + 1;
    }
    Some(spots)
}

/// The positions of the parts, tallest first; parts of equal height keep their order.
fn height_order(sizes: &Vec<(u32, u32)>) -> (order: Vec<usize>)
    ensures
        order@ == by_height(sizes@),
        crate::order::is_stable_order(height_keys(sizes@), order@),
{
    let n = sizes.len();
    let mut keys: Vec<u64> = Vec::new();
    let mut i: usize = 0;
    while i < n
        invariant
            n == sizes@.len(),
            i <= n,
            keys@.len() == i,
            forall|j: int| 0 <= j < i ==> #[trigger] keys@[j] == (0xffff_ffffu32 - sizes@[j].1) as u64,
        decreases n - i,
    {
        keys.push((0xffff_ffffu32 - sizes[i].1) as u64);
        i = i + 1;
    }
    assert(keys@ =~= height_keys(sizes@));
    stable_order(&keys)
}

/// Shelf-pack parts into an atlas that starts as the smallest power of two (at least
/// 64) whose square holds their padded area, and grows as `shelf_pack_from` says.
/// Parts are placed tallest first; the corners are returned in the parts' order.
pub fn shelf_pack(sizes: &Vec<(u32, u32)>, padding: u32) -> (r: Result<AtlasLayout, ExportError>)
    requires
        sizes_in_range(sizes@, padding as int),
        padded_area(sizes@, padding as int) <= 0x10_0000_0000_0000,
    ensures
        match atlas_layout(sizes@, padding as int, starting_side(sizes@, padding as int)) {
            None => r matches Err(ExportError::Rasterize(m))
                && m@ == "Atlas too large (>8192px). Reduce element count or size."@,
            Some((aw, ah, spots)) => r matches Ok(l) && l.width == aw && l.height == ah
                && l.spots@.len() == spots.len()
                && forall|i: int| 0 <= i < spots.len() ==> (#[trigger] l.spots@[i]).0 == spots[i].0 && l.spots@[i].1 == spots[i].1,
        },
        // the packed parts never overlap and stay inside the atlas
        r matches Ok(l) ==> {
            &&& l.width >= 1 && l.height >= 1
            &&& l.spots@.len() == sizes@.len()
            &&& forall|i: int, j: int| 0 <= i < sizes@.len() && 0 <= j < sizes@.len() && i != j ==> apart(
                ((#[trigger] l.spots@[i]).0 as int, l.spots@[i].1 as int), sizes@[i],
                ((#[trigger] l.spots@[j]).0 as int, l.spots@[j].1 as int), sizes@[j])
            &&& forall|j: int| 0 <= j < sizes@.len() ==> (#[trigger] l.spots@[j]).1 + sizes@[j].1 <= l.height
            &&& forall|j: int| 0 <= j < sizes@.len() && sizes@[j].0 + padding <= l.width
                ==> (#[trigger] l.spots@[j]).0 + sizes@[j].0 <= l.width
        },
{
    let n = sizes.len();
    let ghost spec_keys = height_keys(sizes@);
    let order = height_order(sizes);
    let ghost sorted_spec = sorted_by_height(sizes@);
    let mut sorted: Vec<(u32, u32)> = Vec::new();
    let mut k: usize = 0;
    while k < n
        invariant
            n == sizes@.len(),
            order@.len() == n,
            forall|q: int| 0 <= q < n ==> #[trigger] order@[q] < n,
            k <= n,
            sorted@.len() == k,
            forall|q: int| 0 <= q < k ==> #[trigger] sorted@[q] == sizes@[order@[q] as int],
        decreases n - k,
    {
        sorted.push(sizes[order[k]]);
        k = k + 1;
    }
    assert(sorted@ =~= sorted_spec);
    assert(sizes_in_range(sorted@, padding as int)) by {
        assert forall|q: int| 0 <= q < sorted@.len() implies #[trigger] sorted@[q].0 + padding <= u32::MAX
            && sorted@[q].1 + padding <= u32::MAX by {
            assert(sizes@[order@[q] as int].0 + padding <= u32::MAX);
        }
    }
    // padded area
    let mut area: u64 = 0;
    let mut a: usize = 0;
    while a < n
        invariant
            n == sizes@.len(),
            a <= n,
            sizes_in_range(sizes@, padding as int),
            padded_area(sizes@, padding as int) <= 0x10_0000_0000_0000,
            area == padded_area(sizes@.subrange(0, a as int), padding as int),
        decreases n - a,
    {
        proof {
            assert(sizes@.subrange(0, a + 1).drop_last() =~= sizes@.subrange(0, a as int));
            lemma_padded_area_prefix(sizes@, padding as int, a + 1);
            assert((sizes@[a as int].0 + padding) * (sizes@[a as int].1 + padding) >= 0) by (nonlinear_arith)
                requires sizes@[a as int].0 >= 0, sizes@[a as int].1 >= 0, padding >= 0;
        }
        let (w, h) = sizes[a];
        let term: u64 = (w as u64 + padding as u64) * (h as u64 + padding as u64);
        area = area + term;
        a = a + 1;
    }
    assert(sizes@.subrange(0, n as int) =~= sizes@);
    let side = ceil_sqrt(area);
    let m: u32 = if side > 64 { side as u32 } else { 64 };
    let start = next_power_of_two(m);
    proof {
        let t = padded_area(sizes@, padding as int);
        assert(is_ceil_sqrt(t, ceil_root(t))) by {
            assert(is_ceil_sqrt(t, side as int));
        }
        lemma_ceil_sqrt_unique(t, side as int, ceil_root(t));
        let mm: int = if side > 64 { side as int } else { 64 };
        let p = choose|p: u32| is_power_of_two(p) && p >= mm && p / 2 < mm;
        assert(is_power_of_two(p) && p >= mm && p / 2 < mm) by {
            assert(is_power_of_two(start) && start >= mm && start / 2 < mm);
        }
        lemma_power_of_two_unique(start, p, mm);
        assert(starting_side(sizes@, padding as int) == start as int);
    }
    let mut aw = start;
    let mut ah = start;
    loop
        invariant
            is_ceil_sqrt(padded_area(sizes@, padding as int), side as int),
            is_power_of_two(start),
            start >= side && start >= 64,
            start / 2 < (if side > 64 { side } else { 64 }),
            starting_side(sizes@, padding as int) == start as int,
            n == sizes@.len(),
            sorted@.len() == n,
            sorted@ == sorted_by_height(sizes@),
            spec_keys == height_keys(sizes@),
            order@ == stable_sorted(spec_keys),
            crate::order::is_stable_order(spec_keys, order@),
            sizes_in_range(sorted@, padding as int),
            1 <= aw <= 0x800_0000,
            1 <= ah <= 0x800_0000,
            shelf_pack_from(sorted@, padding as int, start as int, start as int)
                == shelf_pack_from(sorted@, padding as int, aw as int, ah as int),
        decreases (if aw + ah <= 16384 { 16385 - aw - ah } else { 0 }),
    {
        match place_on_shelves(&sorted, padding, aw, ah) {
            Some(spots) => {
                proof {
                    lemma_shelves_len(sorted@, padding as int, aw as int, ah as int, n as int);
                }
                // scatter back to the parts' order
                let mut out: Vec<(u32, u32)> = Vec::new();
                let mut z: usize = 0;
                while z < n
                    invariant
                        z <= n,
                        out@.len() == z,
                    decreases n - z,
                {
                    out.push((0, 0));
                    z = z + 1;
                }
                let mut q: usize = 0;
                while q < n
                    invariant
                        n == sizes@.len(),
                        order@.len() == n,
                        order@ == stable_sorted(spec_keys),
                        crate::order::is_stable_order(spec_keys, order@),
                        forall|t: int| 0 <= t < n ==> #[trigger] order@[t] < n,
                        spots@.len() == n,
                        out@.len() == n,
                        q <= n,
                        forall|t: int| 0 <= t < q ==> #[trigger] out@[order@[t] as int] == spots@[t],
                    decreases n - q,
                {
                    let ghost before = out@;
                    out.set(order[q], spots[q]);
                    proof {
                        assert forall|t: int| 0 <= t < q + 1 implies #[trigger] out@[order@[t] as int] == spots@[t] by {
                            if t < q {
                                assert(order@[t] != order@[q as int]) by {
                                    assert(crate::order::key_before(spec_keys, order@[t] as int, order@[q as int] as int));
                                }
                            }
                        }
                    }
                    q = q + 1;
                }
                let lay = AtlasLayout { width: aw, height: ah, spots: out };
                proof {
                    let st = shelves(sorted@, padding as int, aw as int, ah as int, n as int)->0;
                    let order_s = by_height(sizes@);
                    assert(order_s == order@);
                    let expect = Seq::new(n as nat, |i: int| st.spots[choose|k: int| 0 <= k < order_s.len() && order_s[k] == i]);
                    assert(atlas_layout(sizes@, padding as int, start as int) == Some((aw as int, ah as int, expect)));
                    assert forall|i: int| 0 <= i < expect.len() implies (#[trigger] lay.spots@[i]).0 == expect[i].0
                        && lay.spots@[i].1 == expect[i].1 by {
                        assert(order@.contains(i as usize));
                        let k = choose|k: int| 0 <= k < order_s.len() && order_s[k] == i;
                        let j = choose|j: int| 0 <= j < order@.len() && order@[j] == i as usize;
                        if j != k {
                            lemma_order_distinct(spec_keys, order@, j, k);
                        }
                        assert(lay.spots@[order@[j] as int] == spots@[j]);
                    }
                    assert(is_ceil_sqrt(padded_area(sizes@, padding as int), side as int));
                    lemma_shelf_spots_apart(sorted@, padding as int, aw as int, ah as int);
                    // the corner of part `i` is the spot of its place in the sorted order
                    assert forall|i: int| #![trigger lay.spots@[i]] 0 <= i < n implies exists|k: int| 0 <= k < n && #[trigger] order@[k] == i as usize
                        && lay.spots@[i].0 == st.spots[k].0 && lay.spots@[i].1 == st.spots[k].1
                        && sorted@[k] == sizes@[i] by {
                        assert(order@.contains(i as usize));
                        let j = choose|j: int| 0 <= j < order@.len() && order@[j] == i as usize;
                        assert(lay.spots@[order@[j] as int] == spots@[j]);
                    }
                    assert forall|i: int, j: int| 0 <= i < sizes@.len() && 0 <= j < sizes@.len() && i != j implies apart(
                        ((#[trigger] lay.spots@[i]).0 as int, lay.spots@[i].1 as int), sizes@[i],
                        ((#[trigger] lay.spots@[j]).0 as int, lay.spots@[j].1 as int), sizes@[j]) by {
                        let ki = choose|k: int| 0 <= k < n && #[trigger] order@[k] == i as usize
                            && lay.spots@[i].0 == st.spots[k].0 && lay.spots@[i].1 == st.spots[k].1 && sorted@[k] == sizes@[i];
                        let kj = choose|k: int| 0 <= k < n && #[trigger] order@[k] == j as usize
                            && lay.spots@[j].0 == st.spots[k].0 && lay.spots@[j].1 == st.spots[k].1 && sorted@[k] == sizes@[j];
                        assert(ki != kj);
                        assert(apart(st.spots[ki], sorted@[ki], st.spots[kj], sorted@[kj]));
                    }
                    assert forall|j: int| 0 <= j < sizes@.len() implies (#[trigger] lay.spots@[j]).1 + sizes@[j].1 <= lay.height
                        && (sizes@[j].0 + padding <= lay.width ==> lay.spots@[j].0 + sizes@[j].0 <= lay.width) by {
                        let kj = choose|k: int| 0 <= k < n && #[trigger] order@[k] == j as usize
                            && lay.spots@[j].0 == st.spots[k].0 && lay.spots@[j].1 == st.spots[k].1 && sorted@[k] == sizes@[j];
                        assert(st.spots[kj].1 + sorted@[kj].1 <= ah);
                    }
                }
                return Ok(lay);
            },
            None => {},
        }
        let aw2: u32 = if aw <= ah { 2 * aw } else { aw };
        let ah2: u32 = if aw <= ah { ah } else { 2 * ah };
        if aw2 > 8192 || ah2 > 8192 {
            proof {
                assert(shelf_pack_from(sorted@, padding as int, aw as int, ah as int) is None);
                assert(atlas_layout(sizes@, padding as int, start as int) is None);
                assert(is_ceil_sqrt(padded_area(sizes@, padding as int), side as int));
            }
            return Err(ExportError::Rasterize(String::from_str("Atlas too large (>8192px). Reduce element count or size.")));
        }
        aw = aw2;
        ah = ah2;
    }
}

proof fn lemma_padded_area_prefix(sizes: Seq<(u32, u32)>, pad: int, k: int)
    requires
        0 <= k <= sizes.len(),
        pad >= 0,
    ensures
        padded_area(sizes.subrange(0, k), pad) <= padded_area(sizes, pad),
    decreases sizes.len(),
{
    if k < sizes.len() {
        assert(sizes.drop_last().subrange(0, k) =~= sizes.subrange(0, k));
        lemma_padded_area_prefix(sizes.drop_last(), pad, k);
        assert((sizes.last().0 + pad) * (sizes.last().1 + pad) >= 0) by (nonlinear_arith)
            requires sizes.last().0 >= 0, sizes.last().1 >= 0, pad >= 0;
    } else {
        assert(sizes.subrange(0, k) =~= sizes);
    }
}

/// Rectangles `(x, y, w, h)` that share no pixel.
pub open spec fn apart(a: (int, int), sa: (u32, u32), b: (int, int), sb: (u32, u32)) -> bool {
    a.0 + sa.0 <= b.0 || b.0 + sb.0 <= a.0 || a.1 + sa.1 <= b.1 || b.1 + sb.1 <= a.1
}

/// What holds after placing the first `k` parts on shelves.
pub open spec fn shelf_invariant(sizes: Seq<(u32, u32)>, pad: int, aw: int, ah: int, k: int, st: ShelfState) -> bool {
    &&& st.spots.len() == k
    &&& st.shelf_height >= 0
    &&& forall|j: int| 0 <= j < k ==> {
        let (x, y) = #[trigger] st.spots[j];
        let pw = sizes[j].0 + pad;
        let ph = sizes[j].1 + pad;
        &&& ((y == st.y && x + pw <= st.x && ph <= st.shelf_height) || y + ph + pad <= st.y)
        &&& y + ph <= ah
        &&& (sizes[j].0 + pad <= aw ==> x + sizes[j].0 <= aw)
    }
    &&& forall|a: int, b: int| 0 <= a < b < k ==> apart(#[trigger] st.spots[a], sizes[a], #[trigger] st.spots[b], sizes[b])
}

proof fn lemma_shelf_invariant(sizes: Seq<(u32, u32)>, pad: int, aw: int, ah: int, k: int)
    requires
        pad >= 0,
        0 <= k <= sizes.len(),
        shelves(sizes, pad, aw, ah, k) is Some,
    ensures
        shelf_invariant(sizes, pad, aw, ah, k, shelves(sizes, pad, aw, ah, k)->0),
    decreases k,
{
    if k > 0 {
        lemma_shelf_invariant(sizes, pad, aw, ah, k - 1);
        let s = shelves(sizes, pad, aw, ah, k - 1)->0;
        let st = shelves(sizes, pad, aw, ah, k)->0;
        let pw = sizes[k - 1].0 + pad;
        let ph = sizes[k - 1].1 + pad;
        let wrap = s.x + pw > aw;
        assert forall|j: int| 0 <= j < k implies {
            let (x, y) = #[trigger] st.spots[j];
            let pwj = sizes[j].0 + pad;
            let phj = sizes[j].1 + pad;
            &&& ((y == st.y && x + pwj <= st.x && phj <= st.shelf_height) || y + phj + pad <= st.y)
            &&& y + phj <= ah
            &&& (sizes[j].0 + pad <= aw ==> x + sizes[j].0 <= aw)
        } by {
            if j < k - 1 {
                assert(st.spots[j] == s.spots[j]);
            }
        }
        assert forall|a: int, b: int| 0 <= a < b < k implies apart(#[trigger] st.spots[a], sizes[a], #[trigger] st.spots[b], sizes[b]) by {
            assert(st.spots[a] == s.spots[a]);
            if b < k - 1 {
                assert(st.spots[b] == s.spots[b]);
            }
        }
    }
}

/// Parts placed on shelves never overlap, end above the bottom of the atlas, and
/// end within its width whenever they are, with the padding, no wider than it.
pub proof fn lemma_shelf_spots_apart(sizes: Seq<(u32, u32)>, pad: int, aw: int, ah: int)
    requires
        pad >= 0,
        shelves(sizes, pad, aw, ah, sizes.len() as int) is Some,
    ensures
        ({
            let spots = shelves(sizes, pad, aw, ah, sizes.len() as int)->0.spots;
            &&& spots.len() == sizes.len()
            &&& forall|a: int, b: int| 0 <= a < sizes.len() && 0 <= b < sizes.len() && a != b
                ==> apart(#[trigger] spots[a], sizes[a], #[trigger] spots[b], sizes[b])
            &&& forall|j: int| 0 <= j < sizes.len() ==> (#[trigger] spots[j]).1 + sizes[j].1 <= ah
            &&& forall|j: int| 0 <= j < sizes.len() && sizes[j].0 + pad <= aw ==> (#[trigger] spots[j]).0 + sizes[j].0 <= aw
        }),
{
    lemma_shelf_invariant(sizes, pad, aw, ah, sizes.len() as int);
    let spots = shelves(sizes, pad, aw, ah, sizes.len() as int)->0.spots;
    assert forall|a: int, b: int| 0 <= a < sizes.len() && 0 <= b < sizes.len() && a != b
        implies apart(#[trigger] spots[a], sizes[a], #[trigger] spots[b], sizes[b]) by {
        if b < a {
            assert(apart(spots[b], sizes[b], spots[a], sizes[a]));
        }
    }
}

/// Packing retries only change the atlas size: whatever layout comes out is a
/// successful shelf placement at that size.
pub proof fn lemma_shelf_pack_places(sizes: Seq<(u32, u32)>, pad: int, aw: int, ah: int)
    requires
        shelf_pack_from(sizes, pad, aw, ah) is Some,
    ensures
        ({
            let (w, h, spots) = shelf_pack_from(sizes, pad, aw, ah)->0;
            shelves(sizes, pad, w, h, sizes.len() as int) matches Some(st) && st.spots == spots
        }),
    decreases 16385 - aw - ah,
{
    if shelves(sizes, pad, aw, ah, sizes.len() as int) is None {
        let aw2 = if aw <= ah { 2 * aw } else { aw };
        let ah2 = if aw <= ah { ah } else { 2 * ah };
        lemma_shelf_pack_places(sizes, pad, aw2, ah2);
    }
}


/// A rasterized part on its way into the atlas: its PNG and its size in pixels.
pub struct AtlasPart {
    pub png_bytes: Vec<u8>,
    pub width: u32,
    pub height: u32,
}

/// The sizes of the parts, in order.
pub open spec fn part_sizes(parts: Seq<AtlasPart>) -> Seq<(u32, u32)> {
    parts.map_values(|p: AtlasPart| (p.width, p.height))
}

/// Channel `c` of atlas pixel `(x, y)` once the parts at positions `order[0..k]`
/// have been copied to their corners `spots` (a part copies at most its own size
/// of its decoded image; later copies win; the atlas starts transparent).
pub open spec fn packed_byte(
    parts: Seq<AtlasPart>,
    order: Seq<usize>,
    spots: Seq<(int, int)>,
    k: int,
    x: int,
    y: int,
    c: int,
) -> u8
    decreases k,
{
    if k <= 0 {
        0
    } else {
        let i = order[k - 1] as int;
        match png_pixels(parts[i].png_bytes@) {
            Some((iw, ih, px)) => {
                let cw = if parts[i].width < iw { parts[i].width as int } else { iw as int };
                let ch = if parts[i].height < ih { parts[i].height as int } else { ih as int };
                let (dx, dy) = spots[i];
                if dx <= x < dx + cw && dy <= y < dy + ch {
                    px[byte_index(iw as int, x - dx, y - dy, c)]
                } else {
                    packed_byte(parts, order, spots, k - 1, x, y, c)
                }
            },
            None => packed_byte(parts, order, spots, k - 1, x, y, c),
        }
    }
}

/// The RGBA bytes of a `w` x `h` atlas with every part copied in.
pub open spec fn packed_pixels(parts: Seq<AtlasPart>, order: Seq<usize>, spots: Seq<(int, int)>, w: int, h: int) -> Seq<u8> {
    Seq::new(
        (4 * w * h) as nat,
        |b: int| packed_byte(parts, order, spots, order.len() as int, (b / 4) % w, (b / 4) / w, b % 4),
    )
}

/// The region each part takes in the atlas.
pub open spec fn part_regions(parts: Seq<AtlasPart>, spots: Seq<(int, int)>) -> Seq<AtlasRegion> {
    Seq::new(
        parts.len(),
        |i: int| AtlasRegion { x: spots[i].0 as u32, y: spots[i].1 as u32, width: parts[i].width, height: parts[i].height },
    )
}

/// Every part's PNG decodes.
pub open spec fn all_decode(parts: Seq<AtlasPart>) -> bool {
    forall|i: int| 0 <= i < parts.len() ==> #[trigger] png_pixels(parts[i].png_bytes@) is Some
}

pub proof fn lemma_byte_index_split(w: int, h: int, b: int)
    requires
        w > 0,
        0 <= b < 4 * w * h,
    ensures
        0 <= (b / 4) % w < w,
        0 <= (b / 4) / w < h,
        0 <= b % 4 < 4,
        byte_index(w, (b / 4) % w, (b / 4) / w, b % 4) == b,
{
    let p = b / 4;
    assert(b == 4 * p + b % 4);
    vstd::arithmetic::div_mod::lemma_fundamental_div_mod(p, w);
    assert(p < w * h) by (nonlinear_arith)
        requires 0 <= b < 4 * w * h, b == 4 * p + b % 4, 0 <= b % 4 < 4;
    let q = p / w;
    let r = p % w;
    assert(0 <= r < w) by {
        vstd::arithmetic::div_mod::lemma_mod_bound(p, w);
    }
    assert(0 <= q < h) by (nonlinear_arith)
        requires p == w * q + r, 0 <= r < w, 0 <= p < w * h, w > 0;
    assert(q * w + r == p) by (nonlinear_arith)
        requires p == w * q + r;
}

/// The packer's shelf arithmetic, done in `u32` by the packer this follows, does not
/// overflow while it places the first `k` (sorted) parts into an `aw` x `ah` atlas.
pub open spec fn shelf_sums_fit(sizes: Seq<(u32, u32)>, pad: int, aw: int, ah: int, k: int) -> bool
    decreases k,
{
    if k <= 0 {
        true
    } else {
        shelf_sums_fit(sizes, pad, aw, ah, k - 1) && match shelves(sizes, pad, aw, ah, k - 1) {
            None => true,
            Some(s) => {
                let pw = sizes[k - 1].0 + pad;
                let ph = sizes[k - 1].1 + pad;
                let wrap = s.x + pw > aw;
                let x = if wrap { pad } else { s.x };
                let y = if wrap { s.y + s.shelf_height + pad } else { s.y };
                &&& s.x + pw <= u32::MAX
                &&& y <= u32::MAX
                &&& y + ph <= u32::MAX
                &&& (y + ph <= ah ==> x + pw <= u32::MAX)
            },
        }
    }
}

/// `shelf_sums_fit` for every atlas size the packer tries (see `shelf_pack_from`).
pub open spec fn packing_sums_fit(sizes: Seq<(u32, u32)>, pad: int, aw: int, ah: int) -> bool
    decreases 16385 - aw - ah,
{
    &&& shelf_sums_fit(sizes, pad, aw, ah, sizes.len() as int)
    &&& (shelves(sizes, pad, aw, ah, sizes.len() as int) is None ==> {
        let aw2 = if aw <= ah { 2 * aw } else { aw };
        let ah2 = if aw <= ah { ah } else { 2 * ah };
        aw2 > 8192 || ah2 > 8192 || aw < 1 || ah < 1 || packing_sums_fit(sizes, pad, aw2, ah2)
    })
}

/// The padded area from which an atlas is too large to hold in any memory: its
/// square side would exceed 2^26 pixels.
pub open spec fn area_limit() -> int {
    0x10_0000_0000_0000
}

/// Pack rasterized parts into one texture atlas (see `shelf_pack`) and return its
/// PNG with the region of each part, in the parts' order. With no parts the atlas is
/// a single transparent pixel, whatever the padding. A padded area over 2^52 gives
/// `Rasterize("Atlas too large ...")` at once (its first atlas side would be over
/// 8192: either the parts do not fit it, which gives that error, or the atlas would
/// need over 2^54 bytes). A part's PNG that does not decode gives
/// `Rasterize("Failed to decode part PNG: ...")`. The atlas always has positive
/// sides, so encoding it succeeds (the encoder's error branches, `PNG encode error`
/// and `Failed to encode atlas PNG`, are never taken). With parts, the padded part
/// sizes, their area sum (in `u64`) and the shelf sums (in `u32`) must not overflow.
pub fn pack_atlas(parts: &Vec<AtlasPart>, padding: u32) -> (r: Result<(Vec<u8>, Vec<AtlasRegion>), ExportError>)
    requires
        parts@.len() > 0 ==> sizes_in_range(part_sizes(parts@), padding as int),
        parts@.len() > 0 ==> padded_area(part_sizes(parts@), padding as int) <= u64::MAX,
        parts@.len() > 0 && padded_area(part_sizes(parts@), padding as int) <= area_limit() ==> packing_sums_fit(
            sorted_by_height(part_sizes(parts@)),
            padding as int,
            starting_side(part_sizes(parts@), padding as int),
            starting_side(part_sizes(parts@), padding as int),
        ),
        parts@.len() > 0 && padded_area(part_sizes(parts@), padding as int) <= area_limit() ==> (atlas_layout(
            part_sizes(parts@),
            padding as int,
            starting_side(part_sizes(parts@), padding as int),
        ) matches Some((w, h, _)) ==> 4 * w * h <= usize::MAX),
    ensures
        parts@.len() == 0 ==> (r matches Ok((bytes, regions)) && regions@.len() == 0
            && bytes@ == png_encoding(1, 1, seq![0u8, 0u8, 0u8, 0u8])
            && png_pixels(bytes@) == Some((1u32, 1u32, seq![0u8, 0u8, 0u8, 0u8]))),
        parts@.len() > 0 && padded_area(part_sizes(parts@), padding as int) > area_limit() ==> (r matches Err(
            ExportError::Rasterize(m),
        ) && m@ == "Atlas too large (>8192px). Reduce element count or size."@),
        parts@.len() > 0 && padded_area(part_sizes(parts@), padding as int) <= area_limit() ==> match atlas_layout(
            part_sizes(parts@),
            padding as int,
            starting_side(part_sizes(parts@), padding as int),
        ) {
            None => r matches Err(ExportError::Rasterize(m))
                && m@ == "Atlas too large (>8192px). Reduce element count or size."@,
            Some((aw, ah, spots)) => if !all_decode(parts@) {
                r matches Err(ExportError::Rasterize(m)) && exists|d: Seq<char>| m@ == "Failed to decode part PNG: "@ + d
            } else {
                r matches Ok((bytes, regions)) && regions@ == part_regions(parts@, spots)
                    && bytes@ == png_encoding(
                        aw as u32,
                        ah as u32,
                        packed_pixels(parts@, by_height(part_sizes(parts@)), spots, aw, ah),
                    )
            },
        },
        // no two parts share a pixel of the atlas
        r matches Ok((_, regions)) ==> forall|i: int, j: int| 0 <= i < regions@.len() && 0 <= j < regions@.len() && i != j
            ==> apart(((#[trigger] regions@[i]).x as int, regions@[i].y as int), (regions@[i].width, regions@[i].height),
                ((#[trigger] regions@[j]).x as int, regions@[j].y as int), (regions@[j].width, regions@[j].height)),
{
    let n = parts.len();
    if n == 0 {
        let img = blank_image(1, 1);
        assert(img.pixels@ =~= seq![0u8, 0u8, 0u8, 0u8]);
        return match encode_png(&img) {
            Ok(bytes) => Ok((bytes, Vec::new())),
            Err(d) => {
                let ghost dv = d@;
                let e = rasterize_error("PNG encode error: ", d);
                assert(e matches ExportError::Rasterize(m) && m@ == "PNG encode error: "@ + dv);
                Err(e)
            },
        };
    }
    // the padded area, up to the limit
    let ghost all_sizes = part_sizes(parts@);
    let mut area: u128 = 0;
    let mut a: usize = 0;
    while a < n
        invariant
            n == parts@.len(),
            a <= n,
            all_sizes == part_sizes(parts@),
            sizes_in_range(all_sizes, padding as int),
            area <= 0x10_0000_0000_0000,
            area == padded_area(all_sizes.subrange(0, a as int), padding as int),
        decreases n - a,
    {
        proof {
            assert(all_sizes.subrange(0, a + 1).drop_last() =~= all_sizes.subrange(0, a as int));
            assert(all_sizes[a as int] == (parts@[a as int].width, parts@[a as int].height));
            assert(all_sizes[a as int].0 + padding <= u32::MAX && all_sizes[a as int].1 + padding <= u32::MAX);
        }
        let pw: u128 = parts[a].width as u128 + padding as u128;
        let ph: u128 = parts[a].height as u128 + padding as u128;
        assert(pw * ph <= 0xffff_ffffu128 * 0xffff_ffffu128) by (nonlinear_arith)
            requires pw <= 0xffff_ffff, ph <= 0xffff_ffff;
        area = area + pw * ph;
        if area > 0x10_0000_0000_0000 {
            proof {
                lemma_padded_area_prefix(all_sizes, padding as int, a + 1);
            }
            return Err(ExportError::Rasterize(String::from_str("Atlas too large (>8192px). Reduce element count or size.")));
        }
        a = a + 1;
    }
    assert(all_sizes.subrange(0, n as int) =~= all_sizes);
    assert(padded_area(part_sizes(parts@), padding as int) <= area_limit());
    let ghost sizes_s = part_sizes(parts@);
    let mut sizes: Vec<(u32, u32)> = Vec::new();
    let mut i: usize = 0;
    while i < n
        invariant
            n == parts@.len(),
            i <= n,
            sizes@.len() == i,
            sizes_s == part_sizes(parts@),
            forall|j: int| 0 <= j < i ==> #[trigger] sizes@[j] == sizes_s[j],
        decreases n - i,
    {
        sizes.push((parts[i].width, parts[i].height));
        i = i + 1;
    }
    assert(sizes@ =~= sizes_s);
    let layout = match shelf_pack(&sizes, padding) {
        Ok(l) => l,
        Err(e) => return Err(e),
    };
    let ghost spots_s: Seq<(int, int)> = match atlas_layout(sizes_s, padding as int, starting_side(sizes_s, padding as int)) {
        Some((_, _, sp)) => sp,
        None => Seq::empty(),
    };
    let aw = layout.width;
    let ah = layout.height;
    let order = height_order(&sizes);
    let mut atlas = blank_image(aw, ah);
    proof {
        assert forall|x: int, y: int, c: int| 0 <= x < aw && 0 <= y < ah && 0 <= c < 4 implies
            #[trigger] atlas.byte(x, y, c) == packed_byte(parts@, order@, spots_s, 0, x, y, c) by {
            lemma_byte_index_bounds(aw as int, ah as int, x, y, c);
        }
    }
    let mut k: usize = 0;
    while k < n
        invariant
            n == parts@.len(),
            k <= n,
            padded_area(part_sizes(parts@), padding as int) <= area_limit(),
            order@ == by_height(sizes_s),
            crate::order::is_stable_order(height_keys(sizes_s), order@),
            sizes_s == part_sizes(parts@),
            atlas_layout(sizes_s, padding as int, starting_side(sizes_s, padding as int))
                == Some((aw as int, ah as int, spots_s)),
            layout.spots@.len() == n,
            spots_s.len() == n,
            forall|t: int| 0 <= t < n ==> (#[trigger] layout.spots@[t]).0 == spots_s[t].0 && layout.spots@[t].1 == spots_s[t].1,
            atlas.width == aw,
            atlas.height == ah,
            atlas.pixels@.len() == 4 * aw * ah,
            forall|t: int| 0 <= t < k ==> #[trigger] png_pixels(parts@[order@[t] as int].png_bytes@) is Some,
            forall|x: int, y: int, c: int| 0 <= x < aw && 0 <= y < ah && 0 <= c < 4 ==>
                #[trigger] atlas.byte(x, y, c) == packed_byte(parts@, order@, spots_s, k as int, x, y, c),
        decreases n - k,
    {
        let p = order[k];
        let img = match decode_png(parts[p].png_bytes.as_slice()) {
            Ok(img) => img,
            Err(d) => {
                let ghost dv = d@;
                let e = rasterize_error("Failed to decode part PNG: ", d);
                proof {
                    assert(!all_decode(parts@)) by {
                        assert(png_pixels(parts@[p as int].png_bytes@) is None);
                    }
                    assert(e matches ExportError::Rasterize(m) && m@ == "Failed to decode part PNG: "@ + dv);
                }
                return Err(e);
            },
        };
        let cw: u32 = if parts[p].width < img.width { parts[p].width } else { img.width };
        let ch: u32 = if parts[p].height < img.height { parts[p].height } else { img.height };
        let (dx, dy) = layout.spots[p];
        let ghost before = atlas;
        blit(&mut atlas, &img, 0, 0, dx as u64, dy as u64, cw, ch);
        proof {
            assert forall|x: int, y: int, c: int| 0 <= x < aw && 0 <= y < ah && 0 <= c < 4 implies
                #[trigger] atlas.byte(x, y, c) == packed_byte(parts@, order@, spots_s, k + 1, x, y, c) by {
                assert(before.byte(x, y, c) == packed_byte(parts@, order@, spots_s, k as int, x, y, c));
            }
        }
        k = k + 1;
    }
    proof {
        assert(all_decode(parts@)) by {
            assert forall|j: int| 0 <= j < parts@.len() implies #[trigger] png_pixels(parts@[j].png_bytes@) is Some by {
                assert(order@.contains(j as usize));
                let t = choose|t: int| 0 <= t < order@.len() && order@[t] == j as usize;
                assert(png_pixels(parts@[order@[t] as int].png_bytes@) is Some);
            }
        }
        let target = packed_pixels(parts@, order@, spots_s, aw as int, ah as int);
        assert forall|b: int| 0 <= b < atlas.pixels@.len() implies atlas.pixels@[b] == target[b] by {
            assert(aw > 0) by (nonlinear_arith)
                requires 0 <= b < 4 * aw * ah, ah >= 0;
            lemma_byte_index_split(aw as int, ah as int, b);
            assert(atlas.byte((b / 4) % (aw as int), (b / 4) / (aw as int), b % 4) == target[b]);
        }
        assert(atlas.pixels@ =~= target);
    }
    let mut regions: Vec<AtlasRegion> = Vec::new();
    let mut q: usize = 0;
    while q < n
        invariant
            n == parts@.len(),
            q <= n,
            layout.spots@.len() == n,
            spots_s.len() == n,
            forall|t: int| 0 <= t < n ==> (#[trigger] layout.spots@[t]).0 == spots_s[t].0 && layout.spots@[t].1 == spots_s[t].1,
            regions@.len() == q,
            forall|t: int| 0 <= t < q ==> #[trigger] regions@[t] == part_regions(parts@, spots_s)[t],
        decreases n - q,
    {
        let (x, y) = layout.spots[q];
        regions.push(AtlasRegion { x, y, width: parts[q].width, height: parts[q].height });
        q = q + 1;
    }
    assert(regions@ =~= part_regions(parts@, spots_s));
    proof {
        assert forall|i: int, j: int| 0 <= i < regions@.len() && 0 <= j < regions@.len() && i != j
            implies apart(((#[trigger] regions@[i]).x as int, regions@[i].y as int), (regions@[i].width, regions@[i].height),
                ((#[trigger] regions@[j]).x as int, regions@[j].y as int), (regions@[j].width, regions@[j].height)) by {
            assert(apart(((layout.spots@[i]).0 as int, layout.spots@[i].1 as int), sizes@[i],
                ((layout.spots@[j]).0 as int, layout.spots@[j].1 as int), sizes@[j]));
            assert(sizes@[i] == (parts@[i].width, parts@[i].height));
            assert(sizes@[j] == (parts@[j].width, parts@[j].height));
        }
    }
    match encode_png(&atlas) {
        Ok(bytes) => Ok((bytes, regions)),
        Err(d) => {
            let ghost dv = d@;
            let e = rasterize_error("Failed to encode atlas PNG: ", d);
            assert(e matches ExportError::Rasterize(m) && m@ == "Failed to encode atlas PNG: "@ + dv);
            Err(e)
        },
    }
}


/// Where a part to rasterize comes from, and its drawing order.
#[derive(Debug, Clone, Copy, PartialEq, Eq, Structural)]
pub struct PartSlot {
    pub layer_index: usize,
    pub element_index: usize,
    pub z_order: usize,
}

/// The elements to rasterize among the first `upto` layers: every element with
/// vertices on a visible layer, in layer then element order, with z-order
/// `layer * 1000 + element`.
pub open spec fn part_slots(sprite: Sprite, upto: int) -> Seq<PartSlot>
    decreases upto,
{
    if upto <= 0 {
        Seq::empty()
    } else {
        let prev = part_slots(sprite, upto - 1);
        let l = sprite.layers@[upto - 1];
        if l.visible { prev + layer_slots(sprite, upto - 1, l.elements@.len() as int) } else { prev }
    }
}

/// The slots of the first `upto` elements of layer `li` that have vertices.
pub open spec fn layer_slots(sprite: Sprite, li: int, upto: int) -> Seq<PartSlot>
    decreases upto,
{
    if upto <= 0 {
        Seq::empty()
    } else {
        let prev = layer_slots(sprite, li, upto - 1);
        if sprite.layers@[li].elements@[upto - 1].vertex_ids@.len() > 0 {
            prev.push(PartSlot { layer_index: li as usize, element_index: (upto - 1) as usize, z_order: (li * 1000 + upto - 1) as usize })
        } else {
            prev
        }
    }
}

/// The elements of a sprite to rasterize for a bone export (see `part_slots`).
pub fn plan_parts(sprite: &Sprite) -> (r: Vec<PartSlot>)
    requires
        sprite.layers@.len() * 1000 <= usize::MAX,
        forall|i: int| 0 <= i < sprite.layers@.len() ==> (#[trigger] sprite.layers@[i]).elements@.len() <= 1000,
    ensures
        r@ == part_slots(*sprite, sprite.layers@.len() as int),
{
    let mut out: Vec<PartSlot> = Vec::new();
    let n = sprite.layers.len();
    let mut li: usize = 0;
    while li < n
        invariant
            n == sprite.layers@.len(),
            n * 1000 <= usize::MAX,
            forall|i: int| 0 <= i < n ==> (#[trigger] sprite.layers@[i]).elements@.len() <= 1000,
            li <= n,
            out@ == part_slots(*sprite, li as int),
        decreases n - li,
    {
        let layer = &sprite.layers[li];
        if layer.visible {
            let ghost before = out@;
            let m = layer.elements.len();
            assert(m <= 1000);
            let mut ei: usize = 0;
            while ei < m
                invariant
                    n == sprite.layers@.len(),
                    n * 1000 <= usize::MAX,
                    li < n,
                    m == sprite.layers@[li as int].elements@.len(),
                    m <= 1000,
                    *layer == sprite.layers@[li as int],
                    ei <= m,
                    out@ == before + layer_slots(*sprite, li as int, ei as int),
                decreases m - ei,
            {
                if layer.elements[ei].vertex_ids.len() > 0 {
                    assert(li * 1000 + ei <= (n - 1) * 1000 + 1000) by (nonlinear_arith)
                        requires li < n, ei < 1000;
                    out.push(PartSlot { layer_index: li, element_index: ei, z_order: li * 1000 + ei });
                }
                ei = ei + 1;
            }
        }
        li = li + 1;
    }
    out
}

/// The name of a part: the element's name, or `part_` and the number of parts
/// made before it.
pub fn part_name(element_name: &Option<String>, parts_before: usize) -> (s: String)
    ensures
        element_name matches Some(n) ==> s@ == n@,
        element_name is None ==> s@ == "part_"@ + decimal(parts_before as nat),
{
    match element_name {
        Some(n) => n.clone(),
        None => {
            let mut s = String::from_str("part_");
            push_decimal(&mut s, parts_before as u64);
            s
        },
    }
}

/// File name `<sanitized base>_<sanitized tag><suffix>`, or `<sanitized base><suffix>`
/// without a tag.
pub open spec fn export_file_name(base: Seq<char>, tag: Option<Seq<char>>, suffix: Seq<char>) -> Seq<char> {
    match tag {
        Some(t) => sanitized(base) + "_"@ + sanitized(t) + suffix,
        None => sanitized(base) + suffix,
    }
}

/// Build an export file name (see `export_file_name`).
pub fn export_file(base: &str, tag: Option<&str>, suffix: &str) -> (s: String)
    ensures
        s@ == export_file_name(base@, match tag { Some(t) => Some(t@), None => None }, suffix@),
{
    let mut s = sanitize_filename(base);
    match tag {
        Some(t) => {
            push_str(&mut s, "_");
            let st = sanitize_filename(t);
            push_str(&mut s, st.as_str());
        },
        None => {},
    }
    push_str(&mut s, suffix);
    s
}

/// The skin manifest of a bone export: the default skin's atlas first, then one
/// entry per skin, in order.
pub fn skin_manifest(sprite_name: &str, skin_names: &Vec<String>) -> (r: Vec<SkinManifestEntry>)
    ensures
        r@.len() == skin_names@.len() + 1,
        r@[0].name@ == "default"@,
        r@[0].atlas_file@ == export_file_name(sprite_name@, Some("default"@), ".png"@),
        forall|i: int| 0 <= i < skin_names@.len() ==> (#[trigger] r@[i + 1]).name@ == skin_names@[i]@
            && r@[i + 1].atlas_file@ == export_file_name(sprite_name@, Some(skin_names@[i]@), ".png"@),
{
    let mut out: Vec<SkinManifestEntry> = Vec::new();
    proof { reveal_strlit("default"); }
    let f = export_file(sprite_name, Some("default"), ".png");
    assert(f@ == export_file_name(sprite_name@, Some("default"@), ".png"@));
    out.push(SkinManifestEntry { name: String::from_str("default"), atlas_file: f });
    let mut i: usize = 0;
    while i < skin_names.len()
        invariant
            i <= skin_names@.len(),
            out@.len() == i + 1,
            out@[0].name@ == "default"@,
            out@[0].atlas_file@ == export_file_name(sprite_name@, Some("default"@), ".png"@),
            forall|k: int| 0 <= k < i ==> (#[trigger] out@[k + 1]).name@ == skin_names@[k]@
                && out@[k + 1].atlas_file@ == export_file_name(sprite_name@, Some(skin_names@[k]@), ".png"@),
        decreases skin_names@.len() - i,
    {
        let file = export_file(sprite_name, Some(skin_names[i].as_str()), ".png");
        out.push(SkinManifestEntry { name: skin_names[i].clone(), atlas_file: file });
        i = i + 1;
    }
    out
}

} // verus!
