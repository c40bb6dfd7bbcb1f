use vstd::prelude::*;
use crate::model::project::{Palette, PaletteColor};
use crate::model::sprite::StrokeElement;
use crate::text::{push_char, str_eq};

verus! {

/// Lowercase hexadecimal digit.
pub open spec fn hex_digit(d: int) -> char {
    if d < 10 { ((d + 48) as u8) as char } else { ((d + 87) as u8) as char }
}

/// Two lowercase hexadecimal digits of a byte.
pub open spec fn hex_pair(v: u8) -> Seq<char> {
    seq![hex_digit((v / 16) as int), hex_digit((v % 16) as int)]
}

/// A palette color as CSS: `#rrggbb` when opaque, else an `rgba(..)` color whose
/// alpha is `a / 255`.
pub enum CssColor {
    Hex(String),
    Rgba { r: u8, g: u8, b: u8, a: u8 },
}

/// The CSS form of an opaque color: `#` and six lowercase hex digits.
pub open spec fn css_hex(c: PaletteColor) -> Seq<char> {
    seq!['#'] + hex_pair(c.r) + hex_pair(c.g) + hex_pair(c.b)
}

fn hex_char(d: u8) -> (c: char)
    requires
        d < 16,
    ensures
        c == hex_digit(d as int),
{
    if d < 10 { (d + 48) as char } else { (d + 87) as char }
}

fn push_hex_pair(s: &mut String, v: u8)
    ensures
        final(s)@ == old(s)@ + hex_pair(v),
{
    push_char(s, hex_char(v / 16));
    push_char(s, hex_char(v % 16));
    assert(s@ =~= old(s)@ + hex_pair(v));
}

/// The CSS color for palette entry `index`: none for entry 0 (transparent) and for
/// indices past the end of the palette.
pub fn resolve_palette_color(index: usize, palette: &Palette) -> (r: Option<CssColor>)
    ensures
        index == 0 || index >= palette.colors@.len() ==> r is None,
        index != 0 && index < palette.colors@.len() ==> ({
            let c = palette.colors@[index as int];
            if c.a == 255 {
                r matches Some(CssColor::Hex(h)) && h@ == css_hex(c)
            } else {
                r == Some(CssColor::Rgba { r: c.r, g: c.g, b: c.b, a: c.a })
            }
        }),
{
    if index == 0 || index >= palette.colors.len() {
        return None;
    }
    let c = palette.colors[index];
    if c.a == 255 {
        let mut h = String::new();
        push_char(&mut h, '#');
        push_hex_pair(&mut h, c.r);
        push_hex_pair(&mut h, c.g);
        push_hex_pair(&mut h, c.b);
        assert(h@ =~= css_hex(c));
        Some(CssColor::Hex(h))
    } else {
        Some(CssColor::Rgba { r: c.r, g: c.g, b: c.b, a: c.a })
    }
}


/// A skin's color changes for one element; `None` keeps the element's own value.
/// (A stroke width change is applied by the renderer.)
#[derive(Debug, Clone)]
pub struct SkinOverride {
    pub element_id: String,
    pub stroke_color_index: Option<usize>,
    pub fill_color_index: Option<usize>,
}

/// A named set of per-element overrides.
#[derive(Debug, Clone)]
pub struct Skin {
    pub id: String,
    pub name: String,
    pub overrides: Vec<SkinOverride>,
}

/// The palette indices an element is drawn with.
#[derive(Debug, Clone, Copy, PartialEq, Eq, Structural)]
pub struct ResolvedVisuals {
    pub stroke_color_index: usize,
    pub fill_color_index: usize,
}

/// Position of the first override for the element with id `id`.
pub open spec fn override_position(ovs: Seq<SkinOverride>, id: Seq<char>) -> Option<int> {
    if exists|i: int| 0 <= i < ovs.len() && #[trigger] ovs[i].element_id@ == id {
        Some(choose|i: int| 0 <= i < ovs.len() && #[trigger] ovs[i].element_id@ == id
            && forall|j: int| 0 <= j < i ==> ovs[j].element_id@ != id)
    } else {
        None
    }
}

/// The element's indices, with the first matching override of the skin applied.
pub open spec fn resolved_visuals(e: StrokeElement, skin: Option<Skin>) -> ResolvedVisuals {
    let own = ResolvedVisuals { stroke_color_index: e.stroke_color_index as usize, fill_color_index: e.fill_color_index as usize };
    match skin {
        None => own,
        Some(sk) => match override_position(sk.overrides@, e.id@) {
            None => own,
            Some(i) => {
                let ov = sk.overrides@[i];
                ResolvedVisuals {
                    stroke_color_index: match ov.stroke_color_index { Some(v) => v, None => own.stroke_color_index },
                    fill_color_index: match ov.fill_color_index { Some(v) => v, None => own.fill_color_index },
                }
            },
        },
    }
}

/// Skin overrides, said of the skin's override list: with no skin, or no override
/// for the element, the element keeps its own stroke and fill indices; when the first
/// override for the element (position `i`) sets a stroke or fill index, that index is
/// used, and a value it leaves unset stays the element's own.
pub proof fn lemma_skin_overrides(e: StrokeElement, sk: Skin, i: int)
    ensures
        resolved_visuals(e, None).stroke_color_index == e.stroke_color_index as usize,
        resolved_visuals(e, None).fill_color_index == e.fill_color_index as usize,
        (forall|j: int| 0 <= j < sk.overrides@.len() ==> sk.overrides@[j].element_id@ != e.id@)
            ==> resolved_visuals(e, Some(sk)).stroke_color_index == e.stroke_color_index as usize
            && resolved_visuals(e, Some(sk)).fill_color_index == e.fill_color_index as usize,
        0 <= i < sk.overrides@.len() && sk.overrides@[i].element_id@ == e.id@
            && (forall|j: int| 0 <= j < i ==> sk.overrides@[j].element_id@ != e.id@) ==> {
            &&& resolved_visuals(e, Some(sk)).stroke_color_index == match sk.overrides@[i].stroke_color_index {
                Some(v) => v,
                None => e.stroke_color_index as usize,
            }
            &&& resolved_visuals(e, Some(sk)).fill_color_index == match sk.overrides@[i].fill_color_index {
                Some(v) => v,
                None => e.fill_color_index as usize,
            }
        },
{
    let ovs = sk.overrides@;
    if 0 <= i < ovs.len() && ovs[i].element_id@ == e.id@ && (forall|j: int| 0 <= j < i ==> ovs[j].element_id@ != e.id@) {
        let p = choose|p: int| 0 <= p < ovs.len() && #[trigger] ovs[p].element_id@ == e.id@
            && forall|j: int| 0 <= j < p ==> ovs[j].element_id@ != e.id@;
        if p < i {
            assert(ovs[p].element_id@ != e.id@);
        } else if p > i {
            assert(ovs[i].element_id@ != e.id@);
        }
        assert(override_position(ovs, e.id@) == Some(i));
    }
    if forall|j: int| 0 <= j < ovs.len() ==> ovs[j].element_id@ != e.id@ {
        assert(override_position(ovs, e.id@) is None);
    }
}

/// The stroke and fill indices to draw `element` with under `skin`: the first
/// override of the skin for this element replaces what it sets.
pub fn resolve_element_visuals(element: &StrokeElement, skin: Option<&Skin>) -> (vis: ResolvedVisuals)
    ensures
        match skin {
            Some(s) => vis == resolved_visuals(*element, Some(*s)),
            None => vis == resolved_visuals(*element, None),
        },
        // the first override for the element sets what it gives
        match skin { None => true, Some(sk) => forall|i: int| 0 <= i < sk.overrides@.len() && #[trigger] sk.overrides@[i].element_id@ == element.id@
            && (forall|j: int| 0 <= j < i ==> sk.overrides@[j].element_id@ != element.id@) ==> {
            &&& vis.stroke_color_index == match sk.overrides@[i].stroke_color_index {
                Some(v) => v,
                None => element.stroke_color_index as usize,
            }
            &&& vis.fill_color_index == match sk.overrides@[i].fill_color_index {
                Some(v) => v,
                None => element.fill_color_index as usize,
            }
        } },
{
    proof {
        if let Some(sk) = skin {
            assert forall|i: int| 0 <= i < sk.overrides@.len() && #[trigger] sk.overrides@[i].element_id@ == element.id@
                && (forall|j: int| 0 <= j < i ==> sk.overrides@[j].element_id@ != element.id@) implies {
                &&& resolved_visuals(*element, Some(*sk)).stroke_color_index == match sk.overrides@[i].stroke_color_index {
                    Some(v) => v,
                    None => element.stroke_color_index as usize,
                }
                &&& resolved_visuals(*element, Some(*sk)).fill_color_index == match sk.overrides@[i].fill_color_index {
                    Some(v) => v,
                    None => element.fill_color_index as usize,
                }
            } by {
                lemma_skin_overrides(*element, *sk, i);
            }
        }
    }
    let mut vis = ResolvedVisuals {
        stroke_color_index: element.stroke_color_index as usize,
        fill_color_index: element.fill_color_index as usize,
    };
    if let Some(sk) = skin {
        let ovs = &sk.overrides;
        let mut i: usize = 0;
        while i < ovs.len()
            invariant
                skin == Some(sk),
                ovs == &sk.overrides,
                i <= ovs@.len(),
                vis.stroke_color_index == element.stroke_color_index as usize,
                vis.fill_color_index == element.fill_color_index as usize,
                forall|j: int| 0 <= j < i ==> ovs@[j].element_id@ != element.id@,
            decreases ovs@.len() - i,
        {
            if str_eq(ovs[i].element_id.as_str(), element.id.as_str()) {
                proof {
                    assert(ovs@[i as int].element_id@ == element.id@);
                    let p = choose|p: int| 0 <= p < ovs@.len() && #[trigger] ovs@[p].element_id@ == element.id@
                        && forall|j: int| 0 <= j < p ==> ovs@[j].element_id@ != element.id@;
                    if p < i {
                        assert(ovs@[p].element_id@ != element.id@);
                    } else if p > i {
                        assert(ovs@[i as int].element_id@ != element.id@);
                    }
                    assert(p == i);
                    assert(override_position(sk.overrides@, element.id@) == Some(i as int));
                }
                if let Some(v) = ovs[i].stroke_color_index {
                    vis.stroke_color_index = v;
                }
                if let Some(v) = ovs[i].fill_color_index {
                    vis.fill_color_index = v;
                }
                return vis;
            }
            i = i + 1;
        }
        proof {
            assert(override_position(sk.overrides@, element.id@) is None);
        }
    }
    vis
}

} // verus!
