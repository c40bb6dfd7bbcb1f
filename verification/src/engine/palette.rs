use vstd::prelude::*;
use crate::model::project::{color_at, Palette, PaletteColor};
use crate::order::{stable_order, stable_sorted, key_before, lemma_stable_order_exists};

verus! {

// Hue, saturation and lightness are kept as exact ratios of integers:
// lightness = light_sum / 510, saturation = chroma / saturation_base,
// hue (degrees) = hue_times_chroma / chroma.

pub open spec fn max3(c: PaletteColor) -> int {
    if c.r >= c.g && c.r >= c.b { c.r as int } else if c.g >= c.b { c.g as int } else { c.b as int }
}

pub open spec fn min3(c: PaletteColor) -> int {
    if c.r <= c.g && c.r <= c.b { c.r as int } else if c.g <= c.b { c.g as int } else { c.b as int }
}

/// Largest minus smallest channel.
pub open spec fn chroma(c: PaletteColor) -> int {
    max3(c) - min3(c)
}

/// Largest plus smallest channel (twice the lightness, on a 0..255 scale).
pub open spec fn light_sum(c: PaletteColor) -> int {
    max3(c) + min3(c)
}

/// Denominator of the HSL saturation.
pub open spec fn saturation_base(c: PaletteColor) -> int {
    if light_sum(c) < 255 { light_sum(c) } else { 510 - light_sum(c) }
}

/// Saturation strictly below `num / den` (a gray has saturation 0).
pub open spec fn saturation_below(c: PaletteColor, num: int, den: int) -> bool {
    chroma(c) == 0 || chroma(c) * den < num * saturation_base(c)
}

/// Saturation strictly above `num / den`.
pub open spec fn saturation_above(c: PaletteColor, num: int, den: int) -> bool {
    chroma(c) != 0 && chroma(c) * den > num * saturation_base(c)
}

/// Hue in degrees, in [0, 360), multiplied by the chroma (defined when chroma > 0).
pub open spec fn hue_times_chroma(c: PaletteColor) -> int {
    let d = chroma(c);
    if max3(c) == c.r {
        let v = 60 * (c.g - c.b);
        if v < 0 { v + 360 * d } else { v }
    } else if max3(c) == c.g {
        60 * (c.b - c.r) + 120 * d
    } else {
        60 * (c.r - c.g) + 240 * d
    }
}

/// The circular hue distance of two chromatic colors is at most `limit` degrees.
pub open spec fn hues_within(a: PaletteColor, c: PaletteColor, limit: int) -> bool {
    let da = chroma(a);
    let dc = chroma(c);
    let diff = hue_times_chroma(a) * dc - hue_times_chroma(c) * da;
    let abs_diff = if diff < 0 { -diff } else { diff };
    let around = 360 * da * dc - abs_diff;
    let dist = if abs_diff < around { abs_diff } else { around };
    dist <= limit * da * dc
}

/// Whether a palette color belongs in the ramp of `anchor`: for a nearly gray
/// anchor (saturation < 0.1) the low-saturation colors (< 0.15); otherwise the
/// colors within 35 degrees of hue with saturation above 0.05.
pub open spec fn ramp_accepts(anchor: PaletteColor, c: PaletteColor) -> bool {
    if saturation_below(anchor, 1, 10) {
        saturation_below(c, 15, 100)
    } else {
        hues_within(anchor, c, 35) && saturation_above(c, 5, 100)
    }
}

/// Positions `i < upto` of visible colors accepted in the ramp, skipping every
/// position whose 8-bit index is 0.
pub open spec fn ramp_candidates(colors: Seq<PaletteColor>, anchor: PaletteColor, upto: int) -> Seq<int>
    decreases upto,
{
    if upto <= 0 {
        Seq::empty()
    } else {
        let prev = ramp_candidates(colors, anchor, upto - 1);
        let i = upto - 1;
        if (i as u8) != 0 && colors[i].a != 0 && ramp_accepts(anchor, colors[i]) {
            prev.push(i)
        } else {
            prev
        }
    }
}

/// The related colors of the anchor, lightest first (ties in palette order),
/// at most `max_results` of them; empty for a transparent anchor.
pub open spec fn color_ramp(colors: Seq<PaletteColor>, anchor_index: u8, max_results: int) -> Seq<u8> {
    let anchor = color_at(colors, anchor_index as int);
    if anchor.a == 0 {
        Seq::empty()
    } else {
        let cands = ramp_candidates(colors, anchor, colors.len() as int);
        let keys = cands.map_values(|i: int| (510 - light_sum(colors[i])) as u64);
        let ranked = stable_sorted(keys).map_values(|k: usize| cands[k as int] as u8);
        if max_results < ranked.len() { ranked.take(max_results) } else { ranked }
    }
}

proof fn lemma_candidates_bounds(colors: Seq<PaletteColor>, anchor: PaletteColor, upto: int)
    requires
        0 <= upto <= colors.len(),
    ensures
        ramp_candidates(colors, anchor, upto).len() <= upto,
        forall|k: int| 0 <= k < ramp_candidates(colors, anchor, upto).len()
            ==> 1 <= #[trigger] ramp_candidates(colors, anchor, upto)[k] < upto
                && colors[ramp_candidates(colors, anchor, upto)[k]].a != 0,
        forall|k: int, j: int| 0 <= k < j < ramp_candidates(colors, anchor, upto).len()
            ==> #[trigger] ramp_candidates(colors, anchor, upto)[k] < #[trigger] ramp_candidates(colors, anchor, upto)[j],
    decreases upto,
{
    if upto > 0 {
        lemma_candidates_bounds(colors, anchor, upto - 1);
        let prev = ramp_candidates(colors, anchor, upto - 1);
        let cur = ramp_candidates(colors, anchor, upto);
        assert forall|k: int| 0 <= k < cur.len() implies 1 <= #[trigger] cur[k] < upto && colors[cur[k]].a != 0 by {
            if k < prev.len() {
                assert(cur[k] == prev[k]);
            } else {
                assert(((upto - 1) as u8) != 0);
            }
        }
        assert forall|k: int, j: int| 0 <= k < j < cur.len() implies #[trigger] cur[k] < #[trigger] cur[j] by {
            assert(cur[k] == prev[k]);
            if j < prev.len() {
                assert(cur[j] == prev[j]);
            }
        }
    }
}

proof fn lemma_light_sum_range(c: PaletteColor)
    ensures
        0 <= light_sum(c) <= 510,
{
}

/// A color ramp runs from light to dark: every entry is a palette position other
/// than 0, and no entry is lighter than one before it (for palettes of at most 256
/// colors, which 8-bit indices can name).
pub proof fn lemma_ramp_light_to_dark(colors: Seq<PaletteColor>, anchor_index: u8, max_results: int)
    requires
        colors.len() <= 256,
        0 <= max_results,
    ensures
        color_ramp(colors, anchor_index, max_results).len() <= max_results,
        forall|k: int| 0 <= k < color_ramp(colors, anchor_index, max_results).len()
            ==> 0 < #[trigger] color_ramp(colors, anchor_index, max_results)[k] < colors.len()
                && colors[color_ramp(colors, anchor_index, max_results)[k] as int].a != 0,
        forall|i: int, j: int| 0 <= i < j < color_ramp(colors, anchor_index, max_results).len()
            ==> #[trigger] color_ramp(colors, anchor_index, max_results)[i] != #[trigger] color_ramp(colors, anchor_index, max_results)[j],
        forall|i: int, j: int| 0 <= i < j < color_ramp(colors, anchor_index, max_results).len()
            ==> light_sum(colors[#[trigger] color_ramp(colors, anchor_index, max_results)[i] as int])
                >= light_sum(colors[#[trigger] color_ramp(colors, anchor_index, max_results)[j] as int]),
{
    let anchor = color_at(colors, anchor_index as int);
    if anchor.a != 0 {
        let cands = ramp_candidates(colors, anchor, colors.len() as int);
        lemma_candidates_bounds(colors, anchor, colors.len() as int);
        let keys = cands.map_values(|i: int| (510 - light_sum(colors[i])) as u64);
        lemma_stable_order_exists(keys);
        let o = stable_sorted(keys);
        let ranked = o.map_values(|k: usize| cands[k as int] as u8);
        let r = color_ramp(colors, anchor_index, max_results);
        assert(r == (if max_results < ranked.len() { ranked.take(max_results) } else { ranked }));
        assert(o.len() == keys.len());
        assert(r.len() <= ranked.len());
        assert forall|k: int| 0 <= k < r.len() implies r[k] == ranked[k] && (r[k] as int) == cands[o[k] as int] by {
            assert((o[k] as int) < cands.len());
            assert(1 <= cands[o[k] as int] < colors.len());
        }
        assert forall|i: int, j: int| 0 <= i < j < r.len()
            implies light_sum(colors[#[trigger] r[i] as int]) >= light_sum(colors[#[trigger] r[j] as int]) by {
            let a = o[i] as int;
            let b = o[j] as int;
            assert(key_before(keys, a, b));
            lemma_light_sum_range(colors[cands[a]]);
            lemma_light_sum_range(colors[cands[b]]);
            assert(keys[a] == (510 - light_sum(colors[cands[a]])) as u64);
            assert(keys[b] == (510 - light_sum(colors[cands[b]])) as u64);
            assert((r[i] as int) == cands[a]);
            assert((r[j] as int) == cands[b]);
        }
        assert forall|k: int| 0 <= k < r.len() implies 0 < #[trigger] r[k] < colors.len() && colors[r[k] as int].a != 0 by {
            assert((o[k] as int) < cands.len());
            assert(1 <= cands[o[k] as int] < colors.len());
        }
        assert forall|i: int, j: int| 0 <= i < j < r.len() implies #[trigger] r[i] != #[trigger] r[j] by {
            let a = o[i] as int;
            let b = o[j] as int;
            assert(key_before(keys, a, b));
            assert(a != b);
            if a < b {
                assert(cands[a] < cands[b]);
            } else {
                assert(cands[b] < cands[a]);
            }
            assert((r[i] as int) == cands[a]);
            assert((r[j] as int) == cands[b]);
        }
    }
}

/// HSL of an 8-bit color in exact ratios:
/// (chroma, light_sum, saturation_base, hue_times_chroma).
fn hsl_parts(c: PaletteColor) -> (r: (i64, i64, i64, i64))
    ensures
        r.0 == chroma(c),
        r.1 == light_sum(c),
        r.2 == saturation_base(c),
        chroma(c) > 0 ==> r.3 == hue_times_chroma(c),
        0 <= r.0 <= 255,
        0 <= r.2 <= 255,
        chroma(c) > 0 ==> 0 <= r.3 < 360 * r.0,
{
    let r = c.r as i64;
    let g = c.g as i64;
    let b = c.b as i64;
    let mx = if r >= g && r >= b { r } else if g >= b { g } else { b };
    let mn = if r <= g && r <= b { r } else if g <= b { g } else { b };
    let d = mx - mn;
    let sum = mx + mn;
    let base = if sum < 255 { sum } else { 510 - sum };
    let h = if mx == r {
        let v = 60 * (g - b);
        if v < 0 { v + 360 * d } else { v }
    } else if mx == g {
        60 * (b - r) + 120 * d
    } else {
        60 * (r - g) + 240 * d
    };
    (d, sum, base, h)
}

fn below(chroma: i64, base: i64, num: i64, den: i64) -> (r: bool)
    requires
        0 <= chroma <= 255,
        0 <= base <= 255,
        0 <= num <= 100,
        1 <= den <= 100,
    ensures
        r == (chroma == 0 || chroma * den < num * base),
{
    assert(chroma * den <= 255 * 100) by (nonlinear_arith)
        requires 0 <= chroma <= 255, 1 <= den <= 100;
    assert(num * base <= 100 * 255) by (nonlinear_arith)
        requires 0 <= num <= 100, 0 <= base <= 255;
    assert(chroma * den >= 0 && num * base >= 0) by (nonlinear_arith)
        requires 0 <= chroma, 1 <= den, 0 <= num, 0 <= base;
    chroma == 0 || chroma * den < num * base
}

fn accepts(a: (i64, i64, i64, i64), c: (i64, i64, i64, i64), gray_anchor: bool) -> (r: bool)
    requires
        0 <= a.0 <= 255,
        0 <= a.2 <= 255,
        0 <= c.0 <= 255,
        0 <= c.2 <= 255,
        a.0 > 0 ==> 0 <= a.3 < 360 * a.0,
        c.0 > 0 ==> 0 <= c.3 < 360 * c.0,
        !gray_anchor ==> a.0 > 0,
    ensures
        r == if gray_anchor {
            c.0 == 0 || c.0 * 100 < 15 * c.2
        } else {
            c.0 != 0 && c.0 * 100 > 5 * c.2 && ({
                let diff = a.3 * c.0 - c.3 * a.0;
                let abs_diff = if diff < 0 { -diff } else { diff };
                let around = 360 * a.0 * c.0 - abs_diff;
                let dist = if abs_diff < around { abs_diff } else { around };
                dist <= 35 * a.0 * c.0
            })
        },
{
    if gray_anchor {
        below(c.0, c.2, 15, 100)
    } else {
        if c.0 == 0 || !(c.0 * 100 > 5 * c.2) {
            return false;
        }
        assert(0 <= a.3 * c.0 <= 360 * 255 * 255) by (nonlinear_arith)
            requires 0 <= a.3 < 360 * a.0, 0 <= a.0 <= 255, 0 <= c.0 <= 255;
        assert(0 <= c.3 * a.0 <= 360 * 255 * 255) by (nonlinear_arith)
            requires 0 <= c.3 < 360 * c.0, 0 <= a.0 <= 255, 0 <= c.0 <= 255;
        assert(0 <= a.0 * c.0 <= 255 * 255) by (nonlinear_arith)
            requires 0 <= a.0 <= 255, 0 <= c.0 <= 255;
        let diff = a.3 * c.0 - c.3 * a.0;
        let abs_diff = if diff < 0 { -diff } else { diff };
        let around = 360 * (a.0 * c.0) - abs_diff;
        let dist = if abs_diff < around { abs_diff } else { around };
        assert(360 * (a.0 * c.0) == 360 * a.0 * c.0) by (nonlinear_arith);
        assert(35 * (a.0 * c.0) == 35 * a.0 * c.0) by (nonlinear_arith);
        dist <= 35 * (a.0 * c.0)
    }
}

/// Palette colors related to the anchor color by hue: up to `max_results` indices,
/// lightest first. Hue, saturation and lightness are compared exactly (as rationals),
/// so colors whose values tie exactly are kept in palette order; single-precision
/// floating point can round two such values apart (or two close ones together), and
/// then orders or filters them differently.
pub fn find_color_ramp(palette: &Palette, anchor_index: u8, max_results: usize) -> (ramp: Vec<u8>)
    ensures
        ramp@ == color_ramp(palette.colors@, anchor_index, max_results as int),
        // lightest first
        palette.colors@.len() <= 256 ==> forall|i: int, j: int| 0 <= i < j < ramp@.len()
            ==> light_sum(palette.colors@[#[trigger] ramp@[i] as int]) >= light_sum(palette.colors@[#[trigger] ramp@[j] as int]),
        // at most `max_results` distinct visible palette entries other than 0
        palette.colors@.len() <= 256 ==> ramp@.len() <= max_results,
        palette.colors@.len() <= 256 ==> forall|k: int| 0 <= k < ramp@.len()
            ==> 0 < #[trigger] ramp@[k] < palette.colors@.len() && palette.colors@[ramp@[k] as int].a != 0,
        palette.colors@.len() <= 256 ==> forall|i: int, j: int| 0 <= i < j < ramp@.len() ==> #[trigger] ramp@[i] != #[trigger] ramp@[j],
{
    proof {
        if palette.colors@.len() <= 256 {
            lemma_ramp_light_to_dark(palette.colors@, anchor_index, max_results as int);
        }
    }
    let anchor = palette.get_color(anchor_index);
    if anchor.a == 0 {
        return Vec::new();
    }
    let ap = hsl_parts(anchor);
    let gray_anchor = below(ap.0, ap.2, 1, 10);
    let colors = &palette.colors;
    let n = colors.len();
    let ghost acol = anchor;
    let mut cands: Vec<usize> = Vec::new();
    let mut keys: Vec<u64> = Vec::new();
    let mut i: usize = 0;
    while i < n
        invariant
            n == colors.len(),
            i <= n,
            acol == anchor,
            ap.0 == chroma(anchor),
            ap.2 == saturation_base(anchor),
            chroma(anchor) > 0 ==> ap.3 == hue_times_chroma(anchor),
            0 <= ap.0 <= 255,
            0 <= ap.2 <= 255,
            ap.0 > 0 ==> 0 <= ap.3 < 360 * ap.0,
            gray_anchor == saturation_below(anchor, 1, 10),
            cands@.len() == keys@.len(),
            cands@.len() == ramp_candidates(colors@, anchor, i as int).len(),
            forall|k: int| 0 <= k < cands@.len() ==> cands@[k] as int == #[trigger] ramp_candidates(colors@, anchor, i as int)[k],
            forall|k: int| 0 <= k < keys@.len() ==> #[trigger] keys@[k] == (510 - light_sum(colors@[cands@[k] as int])) as u64,
        decreases n - i,
    {
        let pc = colors[i];
        let idx = i as u8;
        if idx != 0 && pc.a != 0 {
            let cp = hsl_parts(pc);
            let ok = accepts(ap, cp, gray_anchor);
            proof {
                if !gray_anchor {
                    assert(ok == ramp_accepts(anchor, pc));
                }
            }
            if ok {
                cands.push(i);
                keys.push((510 - cp.1) as u64);
            }
        }
        i = i + 1;
    }
    let ghost cs = ramp_candidates(colors@, anchor, n as int);
    let ghost spec_keys = cs.map_values(|j: int| (510 - light_sum(colors@[j])) as u64);
    assert(keys@ =~= spec_keys);
    let order = stable_order(&keys);
    let mut ramp: Vec<u8> = Vec::new();
    let mut k: usize = 0;
    let ghost ranked = stable_sorted(spec_keys).map_values(|q: usize| cs[q as int] as u8);
    while k < order.len() && k < max_results
        invariant
            order@ == stable_sorted(spec_keys),
            order@.len() == cands@.len(),
            cands@.len() == cs.len(),
            forall|q: int| 0 <= q < cands@.len() ==> cands@[q] as int == #[trigger] cs[q],
            forall|q: int| 0 <= q < order@.len() ==> #[trigger] order@[q] < cands@.len(),
            k <= order.len(),
            k <= max_results,
            ramp@.len() == k,
            ranked == stable_sorted(spec_keys).map_values(|q: usize| cs[q as int] as u8),
            forall|q: int| 0 <= q < k ==> #[trigger] ramp@[q] == ranked[q],
        decreases order.len() - k,
    {
        assert(ranked[k as int] == cs[order@[k as int] as int] as u8);
        ramp.push(cands[order[k]] as u8);
        k = k + 1;
    }
    proof {
        let spec_r = color_ramp(colors@, anchor_index, max_results as int);
        assert(ranked.len() == order@.len());
        if max_results < ranked.len() {
            assert(ramp@ =~= ranked.take(max_results as int));
        } else {
            assert(ramp@ =~= ranked);
        }
        assert(ramp@ =~= spec_r);
    }
    ramp
}

} // verus!
