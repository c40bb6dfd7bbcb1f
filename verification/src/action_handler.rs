use vstd::prelude::*;
use crate::model::project::{EditorPreferences, Palette, PaletteColor, auto_pick_theme_colors, auto_theme_colors};
use crate::state::history::{History, Snapshot, lemma_push_same_content};
use crate::model::sprite::{
    GradientFill, Layer, ReferenceImage, Sprite, StrokeElement, ident_position, position_by_id, remove_by_id, views_of,
    without_ident,
};
use crate::model::animation::{AnimationSequence, EventMarker};
use crate::engine::eraser::opt_view;
use crate::text::str_eq;
use crate::state::editor::id_views;

verus! {

/// A color index after palette entry `deleted` is removed: that entry's users fall
/// back to 0 (transparent), later entries move down by one.
pub open spec fn remapped(index: u8, deleted: u8) -> u8 {
    if index == deleted {
        0
    } else if index > deleted {
        (index - 1) as u8
    } else {
        index
    }
}

/// Remap a color index after a palette color has been deleted.
pub fn remap_color_index(index: u8, deleted: u8) -> (r: u8)
    ensures
        r == remapped(index, deleted),
{
    if index == deleted {
        0
    } else if index > deleted {
        index - 1
    } else {
        index
    }
}

/// Layer and element position of the first element with id `element_id`.
pub open spec fn element_location(layers: Seq<Layer>, element_id: Seq<char>) -> Option<(int, int)> {
    if exists|li: int, ei: int| 0 <= li < layers.len() && 0 <= ei < layers[li].elements@.len()
        && #[trigger] layers[li].elements@[ei].id@ == element_id {
        Some(choose|li: int, ei: int| 0 <= li < layers.len() && 0 <= ei < layers[li].elements@.len()
            && #[trigger] layers[li].elements@[ei].id@ == element_id
            && (forall|lj: int, ej: int| 0 <= lj < layers.len() && 0 <= ej < layers[lj].elements@.len()
                && (lj < li || (lj == li && ej < ei)) ==> layers[lj].elements@[ej].id@ != element_id))
    } else {
        None
    }
}

/// Find the layer index and element index of the first element with id `element_id`.
pub fn find_element_location(sprite: &Sprite, element_id: &str) -> (r: Option<(usize, usize)>)
    ensures
        match r {
            Some((li, ei)) => element_location(sprite.layers@, element_id@) == Some((li as int, ei as int))
                && li < sprite.layers@.len() && ei < sprite.layers@[li as int].elements@.len(),
            None => element_location(sprite.layers@, element_id@) is None,
        },
{
    let layers = &sprite.layers;
    let ghost ls = layers@;
    let mut li: usize = 0;
    while li < layers.len()
        invariant
            layers == &sprite.layers,
            ls == layers@,
            li <= ls.len(),
            forall|lj: int, ej: int| 0 <= lj < li && 0 <= ej < ls[lj].elements@.len() ==> #[trigger] ls[lj].elements@[ej].id@ != element_id@,
        decreases ls.len() - li,
    {
        let elements = &layers[li].elements;
        let mut ei: usize = 0;
        while ei < elements.len()
            invariant
                layers == &sprite.layers,
                ls == layers@,
                li < ls.len(),
                elements == &ls[li as int].elements,
                ei <= elements@.len(),
                forall|lj: int, ej: int| 0 <= lj < li && 0 <= ej < ls[lj].elements@.len() ==> #[trigger] ls[lj].elements@[ej].id@ != element_id@,
                forall|ej: int| 0 <= ej < ei ==> #[trigger] elements@[ej].id@ != element_id@,
            decreases elements@.len() - ei,
        {
            if str_eq(elements[ei].id.as_str(), element_id) {
                proof {
                    assert(ls[li as int].elements@[ei as int].id@ == element_id@);
                    let (a, b) = choose|a: int, b: int| 0 <= a < ls.len() && 0 <= b < ls[a].elements@.len()
                        && #[trigger] ls[a].elements@[b].id@ == element_id@
                        && (forall|lj: int, ej: int| 0 <= lj < ls.len() && 0 <= ej < ls[lj].elements@.len()
                            && (lj < a || (lj == a && ej < b)) ==> ls[lj].elements@[ej].id@ != element_id@);
                    if a < li || (a == li && b < ei) {
                        assert(ls[a].elements@[b].id@ != element_id@);
                    }
                    if li < a || (li == a && ei < b) {
                        assert(ls[li as int].elements@[ei as int].id@ != element_id@);
                    }
                    assert(a == li && b == ei);
                }
                return Some((li, ei));
            }
            ei = ei + 1;
        }
        li = li + 1;
    }
    None
}

/// Append a color to the palette unless it already holds 256 colors.
pub fn add_palette_color(palette: &mut Palette, color: PaletteColor) -> (added: bool)
    ensures
        added == (old(palette).colors@.len() < 256),
        added ==> final(palette).colors@ == old(palette).colors@.push(color),
        !added ==> final(palette).colors@ == old(palette).colors@,
        final(palette).name@ == old(palette).name@,
{
    if palette.colors.len() < 256 {
        palette.colors.push(color);
        true
    } else {
        false
    }
}

/// Replace palette color `index`, if there is one.
pub fn edit_palette_color(palette: &mut Palette, index: u8, color: PaletteColor)
    ensures
        (index as int) < old(palette).colors@.len() ==> final(palette).colors@ == old(palette).colors@.update(index as int, color),
        (index as int) >= old(palette).colors@.len() ==> final(palette).colors@ == old(palette).colors@,
        final(palette).name@ == old(palette).name@,
{
    if (index as usize) < palette.colors.len() {
        palette.colors.set(index as usize, color);
    }
}

/// The colors of an imported palette: entry 0 made transparent (a transparent entry
/// is put in front unless the first color already is one), at most 256 colors.
pub open spec fn imported_colors(colors: Seq<PaletteColor>) -> Seq<PaletteColor> {
    let with_clear = if colors.len() == 0 || colors[0].a != 0 {
        seq![PaletteColor { r: 0, g: 0, b: 0, a: 0 }] + colors
    } else {
        colors
    };
    if with_clear.len() > 256 { with_clear.subrange(0, 256) } else { with_clear }
}

/// Replace the palette's colors by imported ones (see `imported_colors`).
pub fn import_palette(palette: &mut Palette, colors: Vec<PaletteColor>)
    ensures
        final(palette).colors@ == imported_colors(colors@),
        final(palette).name@ == old(palette).name@,
{
    let ghost c0 = colors@;
    let mut cs = colors;
    if cs.len() == 0 || cs[0].a != 0 {
        cs.insert(0, PaletteColor::transparent());
        assert(cs@ =~= seq![PaletteColor { r: 0, g: 0, b: 0, a: 0 }] + c0);
    }
    cs.truncate(256);
    palette.colors = cs;
}

/// A gradient fill with both end colors remapped after deleting palette entry `d`.
pub open spec fn gradient_recolored(g: Option<GradientFill>, d: u8) -> Option<GradientFill> {
    match g {
        Some(f) => Some(GradientFill {
            color_index_start: remapped(f.color_index_start, d),
            color_index_end: remapped(f.color_index_end, d),
            ..f
        }),
        None => None,
    }
}

/// `b` is `a` with its color indices remapped after deleting palette entry `d`.
pub open spec fn element_recolored(a: StrokeElement, b: StrokeElement, d: u8) -> bool {
    &&& b.id@ == a.id@
    &&& opt_view(b.name) == opt_view(a.name)
    &&& b.vertex_ids@ == a.vertex_ids@
    &&& b.closed == a.closed
    &&& b.curve_mode == a.curve_mode
    &&& b.stroke_color_index == remapped(a.stroke_color_index, d)
    &&& b.fill_color_index == remapped(a.fill_color_index, d)
    &&& b.gradient_fill == gradient_recolored(a.gradient_fill, d)
    &&& b.hatch_fill_id == a.hatch_fill_id
}

/// `b` is layer `a` with every element recolored as `element_recolored` says.
pub open spec fn layer_recolored(a: Layer, b: Layer, d: u8) -> bool {
    &&& b.id == a.id
    &&& b.name == a.name
    &&& b.visible == a.visible
    &&& b.locked == a.locked
    &&& b.group_id == a.group_id
    &&& b.socket == a.socket
    &&& b.elements@.len() == a.elements@.len()
    &&& forall|j: int| 0 <= j < a.elements@.len() ==> element_recolored(a.elements@[j], #[trigger] b.elements@[j], d)
}

fn recolor_layer(layer: &mut Layer, d: u8)
    ensures
        layer_recolored(*old(layer), *final(layer), d),
{
    let ghost l0 = *layer;
    let n = layer.elements.len();
    let mut j: usize = 0;
    while j < n
        invariant
            n == l0.elements@.len(),
            j <= n,
            layer.id == l0.id,
            layer.name == l0.name,
            layer.visible == l0.visible,
            layer.locked == l0.locked,
            layer.group_id == l0.group_id,
            layer.socket == l0.socket,
            layer.elements@.len() == n,
            forall|k: int| 0 <= k < j ==> element_recolored(l0.elements@[k], #[trigger] layer.elements@[k], d),
            forall|k: int| j <= k < n ==> #[trigger] layer.elements@[k] == l0.elements@[k],
        decreases n - j,
    {
        let e = &mut layer.elements[j];
        e.stroke_color_index = remap_color_index(e.stroke_color_index, d);
        e.fill_color_index = remap_color_index(e.fill_color_index, d);
        if let Some(g) = e.gradient_fill {
            e.gradient_fill = Some(GradientFill {
                color_index_start: remap_color_index(g.color_index_start, d),
                color_index_end: remap_color_index(g.color_index_end, d),
                ..g
            });
        }
        j = j + 1;
    }
}

/// Delete palette color `index` and remap every color index of the sprite (strokes,
/// fills, gradient ends, background). Entry 0 (transparent) and indices past the end are refused:
/// nothing changes and the result is false.
pub fn delete_palette_color(palette: &mut Palette, sprite: &mut Sprite, index: u8) -> (deleted: bool)
    ensures
        deleted == (index != 0 && (index as int) < old(palette).colors@.len()),
        deleted ==> final(palette).colors@ == old(palette).colors@.remove(index as int),
        !deleted ==> final(palette).colors@ == old(palette).colors@ && *final(sprite) == *old(sprite),
        final(palette).name@ == old(palette).name@,
        deleted ==> {
            &&& final(sprite).layers@.len() == old(sprite).layers@.len()
            &&& forall|i: int| 0 <= i < old(sprite).layers@.len()
                ==> layer_recolored(old(sprite).layers@[i], #[trigger] final(sprite).layers@[i], index)
            &&& final(sprite).background_color_index == remapped(old(sprite).background_color_index, index)
            &&& final(sprite).id == old(sprite).id
            &&& final(sprite).name == old(sprite).name
            &&& final(sprite).canvas_width == old(sprite).canvas_width
            &&& final(sprite).canvas_height == old(sprite).canvas_height
            &&& final(sprite).format_version == old(sprite).format_version
            &&& final(sprite).layer_groups == old(sprite).layer_groups
            &&& final(sprite).animations == old(sprite).animations
            &&& final(sprite).reference_images == old(sprite).reference_images
        },
{
    if index == 0 || index as usize >= palette.colors.len() {
        return false;
    }
    palette.colors.remove(index as usize);
    let ghost s0 = *sprite;
    let n = sprite.layers.len();
    let mut i: usize = 0;
    while i < n
        invariant
            n == s0.layers@.len(),
            i <= n,
            sprite.layers@.len() == n,
            sprite.id == s0.id,
            sprite.name == s0.name,
            sprite.canvas_width == s0.canvas_width,
            sprite.canvas_height == s0.canvas_height,
            sprite.format_version == s0.format_version,
            sprite.layer_groups == s0.layer_groups,
            sprite.animations == s0.animations,
            sprite.reference_images == s0.reference_images,
            sprite.background_color_index == s0.background_color_index,
            forall|k: int| 0 <= k < i ==> layer_recolored(s0.layers@[k], #[trigger] sprite.layers@[k], index),
            forall|k: int| i <= k < n ==> #[trigger] sprite.layers@[k] == s0.layers@[k],
        decreases n - i,
    {
        recolor_layer(&mut sprite.layers[i], index);
        i = i + 1;
    }
    sprite.background_color_index = remap_color_index(sprite.background_color_index, index);
    true
}


/// Deleting a palette color keeps every other color that the sprite uses: an index
/// other than the deleted one names the same color in the new palette, and the
/// deleted color's users fall back to the transparent entry 0.
pub proof fn lemma_delete_keeps_colors(colors: Seq<PaletteColor>, deleted: u8, index: u8)
    requires
        0 < deleted,
        (deleted as int) < colors.len(),
        (index as int) < colors.len(),
    ensures
        index != deleted ==> colors.remove(deleted as int)[remapped(index, deleted) as int] == colors[index as int],
        index == deleted ==> remapped(index, deleted) == 0,
        (remapped(index, deleted) as int) < colors.remove(deleted as int).len(),
{
}

/// An imported palette has a transparent entry 0 and at most 256 colors, and
/// keeps the imported colors in order after it.
pub proof fn lemma_imported_palette_shape(colors: Seq<PaletteColor>)
    ensures
        1 <= imported_colors(colors).len() <= 256,
        imported_colors(colors)[0].a == 0,
        colors.len() > 0 && colors[0].a == 0 ==> imported_colors(colors) == colors.subrange(0, if colors.len() > 256 { 256 } else { colors.len() as int }),
{
    if colors.len() > 0 && colors[0].a == 0 {
        if colors.len() <= 256 {
            assert(colors.subrange(0, colors.len() as int) =~= colors);
        }
    }
}

/// `b` is `a` with `f` applied to every element whose id is `element_id`.
pub open spec fn same_but_elements(a: Layer, b: Layer) -> bool {
    &&& b.id == a.id
    &&& b.name == a.name
    &&& b.visible == a.visible
    &&& b.locked == a.locked
    &&& b.group_id == a.group_id
    &&& b.socket == a.socket
    &&& b.elements@.len() == a.elements@.len()
}

/// What an element edit does to one element.
pub enum ElementEdit {
    /// Set the flat fill color (which replaces a gradient fill).
    Fill(u8),
    /// Set the gradient fill.
    Gradient(GradientFill),
    /// Remove the gradient fill.
    ClearGradient,
    /// Set the hatch fill pattern.
    Hatch(String),
    /// Remove the hatch fill.
    ClearHatch,
    /// Remove the hatch fill if it is the given pattern.
    DropPattern(String),
}

/// Element `b` is `a` after `edit` when `a` is targeted.
pub open spec fn edited(a: StrokeElement, b: StrokeElement, edit: ElementEdit) -> bool {
    &&& b.id == a.id
    &&& b.name == a.name
    &&& b.vertex_ids == a.vertex_ids
    &&& b.closed == a.closed
    &&& b.curve_mode == a.curve_mode
    &&& b.stroke_color_index == a.stroke_color_index
    &&& match edit {
        ElementEdit::Fill(c) => b.fill_color_index == c && b.gradient_fill is None && b.hatch_fill_id == a.hatch_fill_id,
        ElementEdit::Gradient(g) => b.fill_color_index == a.fill_color_index && b.gradient_fill == Some(g)
            && b.hatch_fill_id == a.hatch_fill_id,
        ElementEdit::ClearGradient => b.fill_color_index == a.fill_color_index && b.gradient_fill is None
            && b.hatch_fill_id == a.hatch_fill_id,
        ElementEdit::Hatch(h) => b.fill_color_index == a.fill_color_index && b.gradient_fill == a.gradient_fill
            && opt_view(b.hatch_fill_id) == Some(h@),
        ElementEdit::ClearHatch => b.fill_color_index == a.fill_color_index && b.gradient_fill == a.gradient_fill
            && b.hatch_fill_id is None,
        ElementEdit::DropPattern(h) => b.fill_color_index == a.fill_color_index && b.gradient_fill == a.gradient_fill
            && if opt_view(a.hatch_fill_id) == Some(h@) { b.hatch_fill_id is None } else { b.hatch_fill_id == a.hatch_fill_id },
    }
}

/// `a` is the element that `edit` applies to: the element `element_id` (every
/// element for `DropPattern`).
pub open spec fn targeted(a: StrokeElement, element_id: Seq<char>, edit: ElementEdit) -> bool {
    match edit {
        ElementEdit::DropPattern(_) => true,
        _ => a.id@ == element_id,
    }
}

fn apply_edit(e: &mut StrokeElement, edit: &ElementEdit)
    ensures
        edited(*old(e), *final(e), *edit),
{
    match edit {
        ElementEdit::Fill(c) => {
            e.fill_color_index = *c;
            e.gradient_fill = None;
        },
        ElementEdit::Gradient(g) => {
            e.gradient_fill = Some(*g);
        },
        ElementEdit::ClearGradient => {
            e.gradient_fill = None;
        },
        ElementEdit::Hatch(h) => {
            e.hatch_fill_id = Some(h.clone());
        },
        ElementEdit::ClearHatch => {
            e.hatch_fill_id = None;
        },
        ElementEdit::DropPattern(h) => {
            let hit = match &e.hatch_fill_id {
                Some(cur) => str_eq(cur.as_str(), h.as_str()),
                None => false,
            };
            if hit {
                e.hatch_fill_id = None;
            }
        },
    }
}

fn edit_layer(layer: &mut Layer, element_id: &str, edit: &ElementEdit)
    ensures
        same_but_elements(*old(layer), *final(layer)),
        forall|j: int| 0 <= j < old(layer).elements@.len() ==> if targeted(old(layer).elements@[j], element_id@, *edit) {
            edited(old(layer).elements@[j], #[trigger] final(layer).elements@[j], *edit)
        } else {
            final(layer).elements@[j] == old(layer).elements@[j]
        },
{
    let ghost l0 = *layer;
    let n = layer.elements.len();
    let mut j: usize = 0;
    while j < n
        invariant
            n == l0.elements@.len(),
            j <= n,
            same_but_elements(l0, *layer),
            forall|k: int| 0 <= k < j ==> if targeted(l0.elements@[k], element_id@, *edit) {
                edited(l0.elements@[k], #[trigger] layer.elements@[k], *edit)
            } else {
                layer.elements@[k] == l0.elements@[k]
            },
            forall|k: int| j <= k < n ==> #[trigger] layer.elements@[k] == l0.elements@[k],
        decreases n - j,
    {
        let hit = match edit {
            ElementEdit::DropPattern(_) => true,
            _ => str_eq(layer.elements[j].id.as_str(), element_id),
        };
        if hit {
            apply_edit(&mut layer.elements[j], edit);
        }
        j = j + 1;
    }
}

/// Apply `edit` to every element it targets, in every layer (see `targeted`);
/// nothing else of the sprite changes.
pub fn edit_elements(sprite: &mut Sprite, element_id: &str, edit: &ElementEdit)
    ensures
        final(sprite).layers@.len() == old(sprite).layers@.len(),
        forall|i: int| 0 <= i < old(sprite).layers@.len() ==> same_but_elements(old(sprite).layers@[i], #[trigger] final(sprite).layers@[i]),
        forall|i: int, j: int| 0 <= i < old(sprite).layers@.len() && 0 <= j < old(sprite).layers@[i].elements@.len()
            ==> if targeted(old(sprite).layers@[i].elements@[j], element_id@, *edit) {
                edited(old(sprite).layers@[i].elements@[j], #[trigger] final(sprite).layers@[i].elements@[j], *edit)
            } else {
                final(sprite).layers@[i].elements@[j] == old(sprite).layers@[i].elements@[j]
            },
        final(sprite).id == old(sprite).id,
        final(sprite).name == old(sprite).name,
        final(sprite).background_color_index == old(sprite).background_color_index,
        final(sprite).canvas_width == old(sprite).canvas_width,
        final(sprite).canvas_height == old(sprite).canvas_height,
        final(sprite).format_version == old(sprite).format_version,
        final(sprite).layer_groups == old(sprite).layer_groups,
        final(sprite).animations == old(sprite).animations,
        final(sprite).reference_images == old(sprite).reference_images,
{
    let ghost s0 = *sprite;
    let n = sprite.layers.len();
    let mut i: usize = 0;
    while i < n
        invariant
            n == s0.layers@.len(),
            i <= n,
            sprite.layers@.len() == n,
            sprite.id == s0.id,
            sprite.name == s0.name,
            sprite.canvas_width == s0.canvas_width,
            sprite.canvas_height == s0.canvas_height,
            sprite.format_version == s0.format_version,
            sprite.layer_groups == s0.layer_groups,
            sprite.animations == s0.animations,
            sprite.reference_images == s0.reference_images,
            sprite.background_color_index == s0.background_color_index,
            forall|k: int| 0 <= k < i ==> same_but_elements(s0.layers@[k], #[trigger] sprite.layers@[k]),
            forall|k: int, j: int| 0 <= k < i && 0 <= j < s0.layers@[k].elements@.len()
                ==> if targeted(s0.layers@[k].elements@[j], element_id@, *edit) {
                    edited(s0.layers@[k].elements@[j], #[trigger] sprite.layers@[k].elements@[j], *edit)
                } else {
                    sprite.layers@[k].elements@[j] == s0.layers@[k].elements@[j]
                },
            forall|k: int| i <= k < n ==> #[trigger] sprite.layers@[k] == s0.layers@[k],
        decreases n - i,
    {
        edit_layer(&mut sprite.layers[i], element_id, edit);
        i = i + 1;
    }
}

/// Set the flat fill color of element `element_id` (every element with that id);
/// a flat fill replaces its gradient fill.
pub fn set_fill_color(sprite: &mut Sprite, element_id: &str, fill_color_index: u8)
    ensures
        final(sprite).layers@.len() == old(sprite).layers@.len(),
        forall|i: int, j: int| 0 <= i < old(sprite).layers@.len() && 0 <= j < old(sprite).layers@[i].elements@.len()
            ==> if old(sprite).layers@[i].elements@[j].id@ == element_id@ {
                edited(old(sprite).layers@[i].elements@[j], #[trigger] final(sprite).layers@[i].elements@[j], ElementEdit::Fill(fill_color_index))
            } else {
                final(sprite).layers@[i].elements@[j] == old(sprite).layers@[i].elements@[j]
            },
        final(sprite).background_color_index == old(sprite).background_color_index,
{
    edit_elements(sprite, element_id, &ElementEdit::Fill(fill_color_index));
}

/// Set the sprite's background color.
pub fn set_background_color(sprite: &mut Sprite, background_color_index: u8)
    ensures
        *final(sprite) == (Sprite { background_color_index, ..*old(sprite) }),
{
    sprite.background_color_index = background_color_index;
}


/// The names held after importing the first `upto` incoming patterns into a library
/// with `existing` names: an incoming pattern is added unless its name is already held.
pub open spec fn names_after_import(existing: Seq<Seq<char>>, incoming: Seq<Seq<char>>, upto: int) -> Seq<Seq<char>>
    decreases upto,
{
    if upto <= 0 {
        existing
    } else {
        let held = names_after_import(existing, incoming, upto - 1);
        if held.contains(incoming[upto - 1]) { held } else { held.push(incoming[upto - 1]) }
    }
}

/// Positions among the first `upto` incoming patterns that get added.
pub open spec fn imported_positions(existing: Seq<Seq<char>>, incoming: Seq<Seq<char>>, upto: int) -> Seq<usize>
    decreases upto,
{
    if upto <= 0 {
        Seq::empty()
    } else {
        let prev = imported_positions(existing, incoming, upto - 1);
        if names_after_import(existing, incoming, upto - 1).contains(incoming[upto - 1]) {
            prev
        } else {
            prev.push((upto - 1) as usize)
        }
    }
}

fn contains_name(names: &Vec<String>, name: &str) -> (r: bool)
    ensures
        r == id_views(names@).contains(name@),
{
    let ghost v = id_views(names@);
    let mut i: usize = 0;
    while i < names.len()
        invariant
            v == id_views(names@),
            i <= names@.len(),
            forall|k: int| 0 <= k < i ==> v[k] != name@,
        decreases names@.len() - i,
    {
        if str_eq(names[i].as_str(), name) {
            assert(v[i as int] == name@);
            return true;
        }
        i = i + 1;
    }
    false
}

/// Which incoming hatch patterns an import adds (by position, in order): those whose
/// name the library does not hold yet, counting the ones added before them.
pub fn hatch_import_positions(existing_names: &Vec<String>, incoming_names: &Vec<String>) -> (r: Vec<usize>)
    ensures
        r@ == imported_positions(id_views(existing_names@), id_views(incoming_names@), incoming_names@.len() as int),
{
    let ghost ex = id_views(existing_names@);
    let ghost inc = id_views(incoming_names@);
    let mut held: Vec<String> = crate::engine::eraser::clone_ids(existing_names);
    let mut out: Vec<usize> = Vec::new();
    let mut k: usize = 0;
    while k < incoming_names.len()
        invariant
            ex == id_views(existing_names@),
            inc == id_views(incoming_names@),
            k <= incoming_names@.len(),
            id_views(held@) == names_after_import(ex, inc, k as int),
            out@ == imported_positions(ex, inc, k as int),
        decreases incoming_names@.len() - k,
    {
        let name = incoming_names[k].as_str();
        if !contains_name(&held, name) {
            let ghost before = id_views(held@);
            held.push(incoming_names[k].clone());
            assert(id_views(held@) =~= before.push(inc[k as int]));
            out.push(k);
        }
        k = k + 1;
    }
    out
}


/// A hatch pattern of the project library: its id and name. (Its line spacing,
/// angle and width are kept by the editor.)
#[derive(Debug, Clone)]
pub struct HatchPatternEntry {
    pub id: String,
    pub name: String,
}

/// The library's (id, name) pairs.
pub open spec fn entry_views(s: Seq<HatchPatternEntry>) -> Seq<(Seq<char>, Seq<char>)> {
    s.map_values(|e: HatchPatternEntry| (e.id@, e.name@))
}

/// The library's names.
pub open spec fn entry_names(s: Seq<HatchPatternEntry>) -> Seq<Seq<char>> {
    s.map_values(|e: HatchPatternEntry| e.name@)
}

/// The library without the patterns with id `id`.
pub open spec fn without_pattern(s: Seq<(Seq<char>, Seq<char>)>, id: Seq<char>) -> Seq<(Seq<char>, Seq<char>)>
    decreases s.len(),
{
    if s.len() == 0 {
        s
    } else {
        without_pattern(s.drop_last(), id) + if s.last().0 == id {
            Seq::<(Seq<char>, Seq<char>)>::empty()
        } else {
            seq![s.last()]
        }
    }
}

/// Position of the first pattern with id `id`.
pub open spec fn pattern_position(s: Seq<(Seq<char>, Seq<char>)>, id: Seq<char>) -> Option<int> {
    if exists|i: int| 0 <= i < s.len() && #[trigger] s[i].0 == id {
        Some(choose|i: int| 0 <= i < s.len() && #[trigger] s[i].0 == id && forall|j: int| 0 <= j < i ==> s[j].0 != id)
    } else {
        None
    }
}

fn copy_entry(e: &HatchPatternEntry) -> (r: HatchPatternEntry)
    ensures
        r.id@ == e.id@,
        r.name@ == e.name@,
{
    HatchPatternEntry { id: e.id.clone(), name: e.name.clone() }
}

/// Remove every pattern with id `id` from the library.
pub fn remove_hatch_pattern(library: &mut Vec<HatchPatternEntry>, id: &str)
    ensures
        entry_views(final(library)@) == without_pattern(entry_views(old(library)@), id@),
{
    let ghost l0 = entry_views(library@);
    let mut kept: Vec<HatchPatternEntry> = Vec::new();
    let mut i: usize = 0;
    while i < library.len()
        invariant
            i <= library@.len(),
            l0 == entry_views(library@),
            entry_views(kept@) == without_pattern(l0.subrange(0, i as int), id@),
        decreases library@.len() - i,
    {
        proof {
            assert(l0.subrange(0, i + 1).drop_last() =~= l0.subrange(0, i as int));
        }
        if !str_eq(library[i].id.as_str(), id) {
            let ghost k0 = entry_views(kept@);
            kept.push(copy_entry(&library[i]));
            assert(entry_views(kept@) =~= k0 + seq![l0[i as int]]);
        } else {
            assert(entry_views(kept@) =~= without_pattern(l0.subrange(0, i as int), id@) + Seq::<(Seq<char>, Seq<char>)>::empty());
        }
        i = i + 1;
    }
    assert(l0.subrange(0, i as int) =~= l0);
    *library = kept;
}

/// Replace the first pattern with the same id as `pattern`; without one, nothing changes.
pub fn update_hatch_pattern(library: &mut Vec<HatchPatternEntry>, pattern: HatchPatternEntry)
    ensures
        match pattern_position(entry_views(old(library)@), pattern.id@) {
            Some(i) => entry_views(final(library)@) == entry_views(old(library)@).update(i, (pattern.id@, pattern.name@)),
            None => final(library)@ == old(library)@,
        },
{
    let ghost l0 = entry_views(library@);
    let mut i: usize = 0;
    while i < library.len()
        invariant
            i <= library@.len(),
            library@ == old(library)@,
            l0 == entry_views(library@),
            forall|j: int| 0 <= j < i ==> l0[j].0 != pattern.id@,
        decreases library@.len() - i,
    {
        if str_eq(library[i].id.as_str(), pattern.id.as_str()) {
            proof {
                assert(l0[i as int].0 == pattern.id@);
                let p = choose|p: int| 0 <= p < l0.len() && #[trigger] l0[p].0 == pattern.id@ && forall|j: int| 0 <= j < p ==> l0[j].0 != pattern.id@;
                if p < i {
                } else if p > i {
                    assert(l0[i as int].0 != pattern.id@);
                }
                assert(p == i);
            }
            library.set(i, pattern);
            assert(entry_views(library@) =~= l0.update(i as int, (pattern.id@, pattern.name@)));
            return;
        }
        i = i + 1;
    }
    assert(pattern_position(l0, pattern.id@) is None);
}

/// The entries at the given positions, in order.
pub open spec fn entries_at(incoming: Seq<(Seq<char>, Seq<char>)>, positions: Seq<usize>) -> Seq<(Seq<char>, Seq<char>)> {
    positions.map_values(|p: usize| incoming[p as int])
}

fn names_of(library: &Vec<HatchPatternEntry>) -> (r: Vec<String>)
    ensures
        id_views(r@) == entry_names(library@),
{
    let mut out: Vec<String> = Vec::new();
    let mut i: usize = 0;
    while i < library.len()
        invariant
            i <= library@.len(),
            out@.len() == i,
            forall|j: int| 0 <= j < i ==> (#[trigger] out@[j])@ == library@[j].name@,
        decreases library@.len() - i,
    {
        out.push(library[i].name.clone());
        i = i + 1;
    }
    assert(id_views(out@) =~= entry_names(library@));
    out
}

/// Import patterns: each incoming pattern whose name the library does not hold yet
/// (counting those added before it) is appended, in order.
pub fn import_hatch_patterns(library: &mut Vec<HatchPatternEntry>, incoming: Vec<HatchPatternEntry>)
    ensures
        entry_views(final(library)@) == entry_views(old(library)@) + entries_at(
            entry_views(incoming@),
            imported_positions(entry_names(old(library)@), entry_names(incoming@), incoming@.len() as int),
        ),
{
    let existing = names_of(library);
    let names = names_of(&incoming);
    let positions = hatch_import_positions(&existing, &names);
    proof {
        assert(names@.len() == id_views(names@).len());
        assert(positions@ == imported_positions(entry_names(library@), entry_names(incoming@), incoming@.len() as int));
        lemma_imported_positions_bound(entry_names(library@), entry_names(incoming@), incoming@.len() as int);
    }
    let ghost l0 = entry_views(library@);
    let ghost inc = entry_views(incoming@);
    let mut k: usize = 0;
    while k < positions.len()
        invariant
            k <= positions@.len(),
            inc == entry_views(incoming@),
            forall|q: int| 0 <= q < positions@.len() ==> (#[trigger] positions@[q] as int) < incoming@.len(),
            entry_views(library@) == l0 + entries_at(inc, positions@.subrange(0, k as int)),
        decreases positions@.len() - k,
    {
        let ghost before = entry_views(library@);
        library.push(copy_entry(&incoming[positions[k]]));
        assert(entries_at(inc, positions@.subrange(0, k + 1)) =~= entries_at(inc, positions@.subrange(0, k as int)).push(inc[positions@[k as int] as int]));
        assert(entry_views(library@) =~= before.push(inc[positions@[k as int] as int]));
        k = k + 1;
    }
    assert(positions@.subrange(0, k as int) =~= positions@);
}

proof fn lemma_imported_positions_bound(existing: Seq<Seq<char>>, incoming: Seq<Seq<char>>, upto: int)
    requires
        upto <= incoming.len(),
    ensures
        forall|q: int| 0 <= q < imported_positions(existing, incoming, upto).len()
            ==> (#[trigger] imported_positions(existing, incoming, upto)[q] as int) < upto,
    decreases upto,
{
    if upto > 0 {
        lemma_imported_positions_bound(existing, incoming, upto - 1);
        let prev = imported_positions(existing, incoming, upto - 1);
        let cur = imported_positions(existing, incoming, upto);
        assert forall|q: int| 0 <= q < cur.len() implies (#[trigger] cur[q] as int) < upto by {
            if q < prev.len() {
                assert(cur[q] == prev[q]);
            }
        }
    }
}

/// Where committed stroke layers go: right above the active layer, or at the top
/// when there is no such layer.
pub open spec fn stroke_insert_position(len: int, active_idx: int) -> int {
    if active_idx + 1 < len { active_idx + 1 } else { len }
}

/// The layers with their group set to `g`.
pub open spec fn in_group(ls: Seq<Layer>, g: Option<String>) -> Seq<Layer> {
    ls.map_values(|l: Layer| Layer { group_id: g, ..l })
}

/// Commit new stroke layers (one per stroke of a plain or symmetric stroke): they
/// join the active layer's group and go, in order, right above the active layer
/// (see `stroke_insert_position`). Returns the id of the last one, which becomes the
/// active layer.
pub fn commit_stroke_layers(sprite: &mut Sprite, active_idx: usize, layers: Vec<Layer>) -> (active: Option<String>)
    requires
        old(sprite).layers@.len() + layers@.len() <= usize::MAX,
    ensures
        ({
            let g = if (active_idx as int) < old(sprite).layers@.len() { old(sprite).layers@[active_idx as int].group_id } else { None };
            let p = stroke_insert_position(old(sprite).layers@.len() as int, active_idx as int);
            final(sprite).layers@ == old(sprite).layers@.subrange(0, p) + in_group(layers@, g)
                + old(sprite).layers@.subrange(p, old(sprite).layers@.len() as int)
        }),
        *final(sprite) == (Sprite { layers: final(sprite).layers, ..*old(sprite) }),
        match active {
            Some(id) => layers@.len() > 0 && id@ == layers@.last().id@,
            None => layers@.len() == 0,
        },
{
    let ghost s0 = *sprite;
    let n0 = sprite.layers.len();
    let group: Option<String> = if active_idx < n0 {
        match &sprite.layers[active_idx].group_id {
            Some(g) => Some(g.clone()),
            None => None,
        }
    } else {
        None
    };
    let ghost g = if (active_idx as int) < s0.layers@.len() { s0.layers@[active_idx as int].group_id } else { None };
    assert(group == g);
    let p: usize = if active_idx < n0 && active_idx + 1 < n0 { active_idx + 1 } else { n0 };
    assert(p as int == stroke_insert_position(n0 as int, active_idx as int));
    let ghost pre = s0.layers@.subrange(0, p as int);
    let ghost post = s0.layers@.subrange(p as int, n0 as int);
    let ghost all = in_group(layers@, g);
    let mut last: Option<String> = None;
    let mut rest = layers;
    let mut taken: Vec<Layer> = Vec::new();
    // take the new layers back out in order
    while rest.len() > 0
        invariant
            taken@.len() + rest@.len() == layers@.len(),
            forall|j: int| 0 <= j < taken@.len() ==> #[trigger] taken@[j] == layers@[layers@.len() - 1 - j],
            forall|j: int| 0 <= j < rest@.len() ==> #[trigger] rest@[j] == layers@[j],
        decreases rest@.len(),
    {
        let l = rest.pop().unwrap();
        taken.push(l);
    }
    let mut i: usize = 0;
    while taken.len() > 0
        invariant
            i + taken@.len() == layers@.len(),
            forall|j: int| 0 <= j < taken@.len() ==> #[trigger] taken@[j] == layers@[layers@.len() - 1 - j],
            layers@.len() + n0 <= usize::MAX,
            p <= n0,
            n0 == s0.layers@.len(),
            group == g,
            pre == s0.layers@.subrange(0, p as int),
            post == s0.layers@.subrange(p as int, n0 as int),
            all == in_group(layers@, g),
            sprite.layers@ == pre + all.subrange(0, i as int) + post,
            *sprite == (Sprite { layers: sprite.layers, ..s0 }),
            match last {
                Some(id) => i > 0 && id@ == layers@[i - 1].id@,
                None => i == 0,
            },
        decreases taken@.len(),
    {
        let mut l = taken.pop().unwrap();
        assert(l == layers@[i as int]);
        l.group_id = match &group {
            Some(gid) => Some(gid.clone()),
            None => None,
        };
        assert(l == all[i as int]);
        last = Some(l.id.clone());
        let ghost before = sprite.layers@;
        sprite.layers.insert(p + i, l);
        assert(sprite.layers@ =~= pre + all.subrange(0, i + 1) + post) by {
            assert(before =~= pre + all.subrange(0, i as int) + post);
        }
        i = i + 1;
    }
    assert(all.subrange(0, i as int) =~= all);
    last
}

/// Put the result of erasing element `ei` of layer `li` into the sprite: the element
/// leaves its layer, the first piece (if any) joins that layer at the end, and the
/// layers made for the other pieces go right above it, in order and in its group.
/// Returns the id of the last of those layers, if any.
pub fn place_erase_result(
    sprite: &mut Sprite,
    li: usize,
    ei: usize,
    first_piece: Option<StrokeElement>,
    extra_layers: Vec<Layer>,
) -> (last: Option<String>)
    requires
        li < old(sprite).layers@.len(),
        ei < old(sprite).layers@[li as int].elements@.len(),
        old(sprite).layers@.len() + extra_layers@.len() <= usize::MAX,
    ensures
        ({
            let a = old(sprite).layers@;
            let b = final(sprite).layers@;
            let n = extra_layers@.len() as int;
            &&& b.len() == a.len() + n
            &&& forall|j: int| 0 <= j < li ==> #[trigger] b[j] == a[j]
            &&& b[li as int].elements@ == match first_piece {
                Some(e) => a[li as int].elements@.remove(ei as int).push(e),
                None => a[li as int].elements@.remove(ei as int),
            }
            &&& b[li as int].id == a[li as int].id
            &&& b[li as int].name == a[li as int].name
            &&& b[li as int].visible == a[li as int].visible
            &&& b[li as int].locked == a[li as int].locked
            &&& b[li as int].group_id == a[li as int].group_id
            &&& b[li as int].socket == a[li as int].socket
            &&& forall|k: int| 0 <= k < n ==> #[trigger] b[li + 1 + k] == in_group(extra_layers@, a[li as int].group_id)[k]
            &&& forall|j: int| li < j < a.len() ==> #[trigger] b[j + n] == a[j]
        }),
        *final(sprite) == (Sprite { layers: final(sprite).layers, ..*old(sprite) }),
        match last {
            Some(id) => extra_layers@.len() > 0 && id@ == extra_layers@.last().id@,
            None => extra_layers@.len() == 0,
        },
{
    let ghost a = sprite.layers@;
    let ghost s0 = *sprite;
    {
        let layer = &mut sprite.layers[li];
        layer.elements.remove(ei);
        if let Some(e) = first_piece {
            layer.elements.push(e);
        }
    }
    let ghost m = sprite.layers@;
    proof {
        assert(m.len() == a.len());
        assert(stroke_insert_position(m.len() as int, li as int) == li + 1);
    }
    let last = commit_stroke_layers(sprite, li, extra_layers);
    proof {
        let n = extra_layers@.len() as int;
        let b = sprite.layers@;
        assert(b == m.subrange(0, li + 1) + in_group(extra_layers@, m[li as int].group_id) + m.subrange(li + 1, m.len() as int));
        assert forall|j: int| 0 <= j < li implies #[trigger] b[j] == a[j] by {
            assert(b[j] == m[j]);
        }
        assert forall|j: int| li < j < a.len() implies #[trigger] b[j + n] == a[j] by {
            assert(b[j + n] == m[j]);
        }
        assert forall|k: int| 0 <= k < n implies #[trigger] b[li + 1 + k] == in_group(extra_layers@, a[li as int].group_id)[k] by {
        }
    }
    last
}

/// `b` is `a` after `edit_elements(element_id, edit)` (see `targeted` and `edited`).
pub open spec fn sprite_elements_edited(a: Sprite, b: Sprite, element_id: Seq<char>, edit: ElementEdit) -> bool {
    &&& b.layers@.len() == a.layers@.len()
    &&& forall|i: int| 0 <= i < a.layers@.len() ==> same_but_elements(a.layers@[i], #[trigger] b.layers@[i])
    &&& forall|i: int, j: int| 0 <= i < a.layers@.len() && 0 <= j < a.layers@[i].elements@.len()
        ==> if targeted(a.layers@[i].elements@[j], element_id, edit) {
            edited(a.layers@[i].elements@[j], #[trigger] b.layers@[i].elements@[j], edit)
        } else {
            b.layers@[i].elements@[j] == a.layers@[i].elements@[j]
        }
    &&& b.id == a.id
    &&& b.name == a.name
    &&& b.background_color_index == a.background_color_index
    &&& b.canvas_width == a.canvas_width
    &&& b.canvas_height == a.canvas_height
    &&& b.format_version == a.format_version
    &&& b.layer_groups == a.layer_groups
    &&& b.animations == a.animations
    &&& b.reference_images == a.reference_images
}

/// `b` is `a` with every color index remapped after deleting palette entry `d`.
pub open spec fn sprite_recolored(a: Sprite, b: Sprite, d: u8) -> bool {
    &&& b.layers@.len() == a.layers@.len()
    &&& forall|i: int| 0 <= i < a.layers@.len() ==> layer_recolored(a.layers@[i], #[trigger] b.layers@[i], d)
    &&& b.background_color_index == remapped(a.background_color_index, d)
    &&& b.id == a.id
    &&& b.name == a.name
    &&& b.canvas_width == a.canvas_width
    &&& b.canvas_height == a.canvas_height
    &&& b.format_version == a.format_version
    &&& b.layer_groups == a.layer_groups
    &&& b.animations == a.animations
    &&& b.reference_images == a.reference_images
}

/// What the editor's actions work on: the project's palette, preferences and hatch
/// pattern library, the sprite being edited, and the timeline's selection and
/// playback flag. (The playhead time is kept by the editor.)
pub struct Document {
    pub palette: Palette,
    pub editor_preferences: EditorPreferences,
    pub hatch_patterns: Vec<HatchPatternEntry>,
    pub sprite: Sprite,
    /// The animation sequence shown in the timeline.
    pub selected_sequence_id: Option<String>,
    /// The keyframe selected in the timeline.
    pub selected_keyframe_id: Option<String>,
    /// Whether the animation is playing.
    pub playing: bool,
}

/// An edit requested by the user interface.
pub enum Action {
    /// Set the flat fill color of an element (sprite-level, undo tracked).
    SetFillColor { element_id: String, fill_color_index: u8 },
    /// Set the sprite background color (undo tracked).
    SetBackgroundColor { background_color_index: u8 },
    /// Add a color to the palette (project-level, no sprite undo).
    AddPaletteColor(PaletteColor),
    /// Delete a palette color and remap every sprite index (undo tracked).
    DeletePaletteColor(u8),
    /// Replace a palette color (project-level, no sprite undo).
    EditPaletteColor { index: u8, color: PaletteColor },
    /// Replace the whole palette and re-pick the theme colors (project-level, no sprite undo).
    ImportPalette(Vec<PaletteColor>),
    /// Set a gradient fill on an element (undo tracked).
    SetGradientFill { element_id: String, gradient_fill: GradientFill },
    /// Remove an element's gradient fill (undo tracked).
    ClearGradientFill { element_id: String },
    /// Set a hatch fill pattern on an element (undo tracked).
    SetHatchFill { element_id: String, hatch_fill_id: String },
    /// Remove an element's hatch fill (undo tracked).
    ClearHatchFill { element_id: String },
    /// Add a pattern to the library (project-level, no sprite undo).
    AddHatchPattern(HatchPatternEntry),
    /// Replace the library pattern with the same id (project-level, no sprite undo).
    UpdateHatchPattern(HatchPatternEntry),
    /// Delete a pattern; elements that use it lose their hatch fill (undo tracked).
    DeleteHatchPattern(String),
    /// Import patterns, skipping names the library holds (project-level, no sprite undo).
    ImportHatchPatterns(Vec<HatchPatternEntry>),
    /// Add a new animation sequence and show it (undo tracked).
    CreateSequence { name: String },
    /// Delete an animation sequence (undo tracked).
    DeleteSequence { sequence_id: String },
    /// Rename an animation sequence (undo tracked).
    RenameSequence { sequence_id: String, name: String },
    /// Show a sequence, or none, in the timeline (navigation, no undo).
    SelectSequence { sequence_id: Option<String> },
    /// Set whether a sequence loops (undo tracked).
    SetSequenceLooping { sequence_id: String, looping: bool },
    /// Delete an event marker of a sequence (undo tracked).
    DeleteEventMarker { sequence_id: String, marker_id: String },
    /// Rename an event marker of a sequence (undo tracked).
    RenameEventMarker { sequence_id: String, marker_id: String, name: String },
    /// Add a reference image to the sprite (undo tracked).
    AddReferenceImage(ReferenceImage),
    /// Remove a reference image by id (undo tracked).
    RemoveReferenceImage(String),
}

/// What the caller has left to do after an action: whether an undo step was
/// recorded, and whether the project defaults (palette, preferences) must be saved.
#[derive(Debug, Clone, Copy, PartialEq, Eq, Structural)]
pub struct ActionOutcome {
    pub undo_recorded: bool,
    pub save_defaults: bool,
    /// The playhead goes back to the start (and the frame timer is reset).
    pub reset_playhead: bool,
}

/// The actions that move the playhead back to the start: creating or choosing a
/// sequence, and deleting the one shown.
pub open spec fn resets_playhead(a: Document, act: Action) -> bool {
    match act {
        Action::CreateSequence { .. } | Action::SelectSequence { .. } => true,
        Action::DeleteSequence { sequence_id } => a.selected_sequence_id matches Some(s) && s@ == sequence_id@,
        _ => false,
    }
}

/// The sprite-level actions record an undo step; deleting a palette color does so
/// only when there is a color to delete.
pub open spec fn records_undo(a: Document, act: Action) -> bool {
    match act {
        Action::AddPaletteColor(_) | Action::EditPaletteColor { .. } | Action::ImportPalette(_)
        | Action::AddHatchPattern(_) | Action::UpdateHatchPattern(_) | Action::ImportHatchPatterns(_)
        | Action::SelectSequence { .. } => false,
        Action::DeletePaletteColor(index) => index != 0 && (index as int) < a.palette.colors@.len(),
        _ => true,
    }
}

/// The project-level actions ask for the defaults to be saved when they change
/// the palette (adding and deleting only when they do).
pub open spec fn saves_defaults(a: Document, act: Action) -> bool {
    match act {
        Action::AddPaletteColor(_) => a.palette.colors@.len() < 256,
        Action::DeletePaletteColor(index) => index != 0 && (index as int) < a.palette.colors@.len(),
        Action::EditPaletteColor { .. } | Action::ImportPalette(_) => true,
        Action::AddHatchPattern(_) | Action::UpdateHatchPattern(_) | Action::DeleteHatchPattern(_)
        | Action::ImportHatchPatterns(_) => true,
        _ => false,
    }
}

/// The description of the undo step an action records.
pub open spec fn undo_label(act: Action) -> Seq<char> {
    match act {
        Action::SetFillColor { .. } => "Set fill color"@,
        Action::SetBackgroundColor { .. } => "Set background color"@,
        Action::DeletePaletteColor(_) => "Delete palette color"@,
        Action::SetGradientFill { .. } => "Set gradient fill"@,
        Action::ClearGradientFill { .. } => "Clear gradient fill"@,
        Action::SetHatchFill { .. } => "Set hatch fill"@,
        Action::ClearHatchFill { .. } => "Clear hatch fill"@,
        Action::DeleteHatchPattern(_) => "Delete hatch pattern"@,
        Action::CreateSequence { .. } => "Create animation"@,
        Action::DeleteSequence { .. } => "Delete animation"@,
        Action::RenameSequence { .. } => "Rename animation"@,
        Action::SetSequenceLooping { .. } => "Set looping"@,
        Action::DeleteEventMarker { .. } => "Delete event marker"@,
        Action::RenameEventMarker { .. } => "Rename event marker"@,
        Action::AddReferenceImage(_) => "Add reference image"@,
        Action::RemoveReferenceImage(_) => "Remove reference image"@,
        _ => Seq::empty(),
    }
}

/// `b` is document `a` after action `act`.
pub open spec fn action_done(a: Document, b: Document, act: Action) -> bool {
    &&& action_timeline(a, b, act)
    &&& action_content(a, b, act)
}

/// What `act` does to the project and the sprite.
pub open spec fn action_content(a: Document, b: Document, act: Action) -> bool {
    let same_project = b.palette == a.palette && b.editor_preferences == a.editor_preferences
        && b.hatch_patterns == a.hatch_patterns;
    let same_sprite_and_colors = b.sprite == a.sprite && b.palette == a.palette
        && b.editor_preferences == a.editor_preferences;
    match act {
        Action::SetFillColor { element_id, fill_color_index } => same_project
            && sprite_elements_edited(a.sprite, b.sprite, element_id@, ElementEdit::Fill(fill_color_index)),
        Action::SetBackgroundColor { background_color_index } => same_project
            && b.sprite == (Sprite { background_color_index, ..a.sprite }),
        Action::AddPaletteColor(c) => b.sprite == a.sprite && b.editor_preferences == a.editor_preferences
            && b.hatch_patterns == a.hatch_patterns
            && b.palette.name@ == a.palette.name@
            && b.palette.colors@ == if a.palette.colors@.len() < 256 { a.palette.colors@.push(c) } else { a.palette.colors@ },
        Action::DeletePaletteColor(index) => b.editor_preferences == a.editor_preferences
            && b.hatch_patterns == a.hatch_patterns
            && b.palette.name@ == a.palette.name@
            && if index != 0 && (index as int) < a.palette.colors@.len() {
                b.palette.colors@ == a.palette.colors@.remove(index as int) && sprite_recolored(a.sprite, b.sprite, index)
            } else {
                b.palette.colors@ == a.palette.colors@ && b.sprite == a.sprite
            },
        Action::EditPaletteColor { index, color } => b.sprite == a.sprite && b.editor_preferences == a.editor_preferences
            && b.hatch_patterns == a.hatch_patterns
            && b.palette.name@ == a.palette.name@
            && b.palette.colors@ == if (index as int) < a.palette.colors@.len() {
                a.palette.colors@.update(index as int, color)
            } else {
                a.palette.colors@
            },
        Action::ImportPalette(colors) => b.sprite == a.sprite && b.hatch_patterns == a.hatch_patterns
            && b.palette.name@ == a.palette.name@
            && b.palette.colors@ == imported_colors(colors@)
            && b.editor_preferences == (EditorPreferences {
                dark_theme_colors: auto_theme_colors(imported_colors(colors@)).0,
                light_theme_colors: auto_theme_colors(imported_colors(colors@)).1,
                ..a.editor_preferences
            }),
        Action::SetGradientFill { element_id, gradient_fill } => same_project
            && sprite_elements_edited(a.sprite, b.sprite, element_id@, ElementEdit::Gradient(gradient_fill)),
        Action::ClearGradientFill { element_id } => same_project
            && sprite_elements_edited(a.sprite, b.sprite, element_id@, ElementEdit::ClearGradient),
        Action::SetHatchFill { element_id, hatch_fill_id } => same_project
            && sprite_elements_edited(a.sprite, b.sprite, element_id@, ElementEdit::Hatch(hatch_fill_id)),
        Action::ClearHatchFill { element_id } => same_project
            && sprite_elements_edited(a.sprite, b.sprite, element_id@, ElementEdit::ClearHatch),
        Action::AddHatchPattern(p) => same_sprite_and_colors
            && entry_views(b.hatch_patterns@) == entry_views(a.hatch_patterns@).push((p.id@, p.name@)),
        Action::UpdateHatchPattern(p) => same_sprite_and_colors
            && match pattern_position(entry_views(a.hatch_patterns@), p.id@) {
                Some(i) => entry_views(b.hatch_patterns@) == entry_views(a.hatch_patterns@).update(i, (p.id@, p.name@)),
                None => b.hatch_patterns@ == a.hatch_patterns@,
            },
        Action::DeleteHatchPattern(id) => b.palette == a.palette && b.editor_preferences == a.editor_preferences
            && entry_views(b.hatch_patterns@) == without_pattern(entry_views(a.hatch_patterns@), id@)
            && sprite_elements_edited(a.sprite, b.sprite, id@, ElementEdit::DropPattern(id)),
        Action::ImportHatchPatterns(ps) => same_sprite_and_colors
            && entry_views(b.hatch_patterns@) == entry_views(a.hatch_patterns@) + entries_at(
                entry_views(ps@),
                imported_positions(entry_names(a.hatch_patterns@), entry_names(ps@), ps@.len() as int),
            ),
        Action::CreateSequence { name } => same_project && b.sprite == (Sprite { animations: b.sprite.animations, ..a.sprite })
            && b.sprite.animations@.len() == a.sprite.animations@.len() + 1
            && b.sprite.animations@.drop_last() == a.sprite.animations@
            && b.sprite.animations@.last().id@.len() == 36
            && b.sprite.animations@.last().name == name
            && b.sprite.animations@.last().looping
            && b.sprite.animations@.last().event_markers@.len() == 0,
        Action::DeleteSequence { sequence_id } => same_project
            && b.sprite == (Sprite { animations: b.sprite.animations, ..a.sprite })
            && views_of(b.sprite.animations@) == views_of(without_ident(a.sprite.animations@, sequence_id@)),
        Action::RenameSequence { sequence_id, name } => same_project
            && b.sprite == (Sprite { animations: b.sprite.animations, ..a.sprite })
            && match ident_position(a.sprite.animations@, sequence_id@) {
                Some(i) => b.sprite.animations@ == a.sprite.animations@.update(i, AnimationSequence { name, ..a.sprite.animations@[i] }),
                None => b.sprite.animations@ == a.sprite.animations@,
            },
        Action::SelectSequence { .. } => same_project && b.sprite == a.sprite,
        Action::SetSequenceLooping { sequence_id, looping } => same_project
            && b.sprite == (Sprite { animations: b.sprite.animations, ..a.sprite })
            && match ident_position(a.sprite.animations@, sequence_id@) {
                Some(i) => b.sprite.animations@ == a.sprite.animations@.update(i, AnimationSequence { looping, ..a.sprite.animations@[i] }),
                None => b.sprite.animations@ == a.sprite.animations@,
            },
        Action::DeleteEventMarker { sequence_id, marker_id } => same_project
            && b.sprite == (Sprite { animations: b.sprite.animations, ..a.sprite })
            && match ident_position(a.sprite.animations@, sequence_id@) {
                Some(i) => {
                    &&& b.sprite.animations@.len() == a.sprite.animations@.len()
                    &&& forall|j: int| 0 <= j < a.sprite.animations@.len() && j != i
                        ==> #[trigger] b.sprite.animations@[j] == a.sprite.animations@[j]
                    &&& b.sprite.animations@[i].id == a.sprite.animations@[i].id
                    &&& b.sprite.animations@[i].name == a.sprite.animations@[i].name
                    &&& b.sprite.animations@[i].looping == a.sprite.animations@[i].looping
                    &&& views_of(b.sprite.animations@[i].event_markers@)
                        == views_of(without_ident(a.sprite.animations@[i].event_markers@, marker_id@))
                },
                None => b.sprite.animations@ == a.sprite.animations@,
            },
        Action::RenameEventMarker { sequence_id, marker_id, name } => same_project
            && b.sprite == (Sprite { animations: b.sprite.animations, ..a.sprite })
            && match ident_position(a.sprite.animations@, sequence_id@) {
                Some(i) => match ident_position(a.sprite.animations@[i].event_markers@, marker_id@) {
                    Some(k) => {
                        &&& b.sprite.animations@.len() == a.sprite.animations@.len()
                        &&& forall|j: int| 0 <= j < a.sprite.animations@.len() && j != i
                            ==> #[trigger] b.sprite.animations@[j] == a.sprite.animations@[j]
                        &&& b.sprite.animations@[i].id == a.sprite.animations@[i].id
                        &&& b.sprite.animations@[i].name == a.sprite.animations@[i].name
                        &&& b.sprite.animations@[i].looping == a.sprite.animations@[i].looping
                        &&& b.sprite.animations@[i].event_markers@ == a.sprite.animations@[i].event_markers@.update(
                            k,
                            EventMarker { name, ..a.sprite.animations@[i].event_markers@[k] },
                        )
                    },
                    None => b.sprite.animations@ == a.sprite.animations@,
                },
                None => b.sprite.animations@ == a.sprite.animations@,
            },
        Action::AddReferenceImage(img) => same_project
            && b.sprite == (Sprite { reference_images: b.sprite.reference_images, ..a.sprite })
            && b.sprite.reference_images@ == a.sprite.reference_images@.push(img),
        Action::RemoveReferenceImage(id) => same_project
            && b.sprite == (Sprite { reference_images: b.sprite.reference_images, ..a.sprite })
            && views_of(b.sprite.reference_images@) == views_of(without_ident(a.sprite.reference_images@, id@)),
    }
}

/// What `act` does to the timeline's selection and playback flag.
pub open spec fn action_timeline(a: Document, b: Document, act: Action) -> bool {
    match act {
        Action::CreateSequence { .. } => b.sprite.animations@.len() > 0
            && b.selected_sequence_id == Some(b.sprite.animations@.last().id)
            && b.selected_keyframe_id == a.selected_keyframe_id && !b.playing,
        Action::DeleteSequence { sequence_id } => b.selected_keyframe_id == a.selected_keyframe_id
            && if a.selected_sequence_id matches Some(s) && s@ == sequence_id@ {
                &&& b.selected_sequence_id == (if b.sprite.animations@.len() > 0 {
                    Some(b.sprite.animations@[0].id)
                } else {
                    None::<String>
                })
                &&& !b.playing
            } else {
                b.selected_sequence_id == a.selected_sequence_id && b.playing == a.playing
            },
        Action::SelectSequence { sequence_id } => b.selected_sequence_id == sequence_id
            && b.selected_keyframe_id is None && !b.playing,
        _ => b.selected_sequence_id == a.selected_sequence_id && b.selected_keyframe_id == a.selected_keyframe_id
            && b.playing == a.playing,
    }
}


/// Apply an action to the document. A sprite-level action records one undo step
/// from the sprite before it to the sprite after it (see `records_undo`); the
/// history is left alone otherwise.
pub fn apply_action(doc: &mut Document, history: &mut History<Sprite>, action: Action) -> (r: ActionOutcome)
    ensures
        action_done(*old(doc), *final(doc), action),
        r.undo_recorded == records_undo(*old(doc), action),
        r.save_defaults == saves_defaults(*old(doc), action),
        r.reset_playhead == resets_playhead(*old(doc), action),
        records_undo(*old(doc), action) ==> final(history)@.content()
            == old(history)@.after_push(undo_label(action), old(doc).sprite, final(doc).sprite).content(),
        !records_undo(*old(doc), action) ==> final(history)@ == old(history)@,
{
    let before = doc.sprite.snapshot();
    let ghost d0 = *doc;
    let ghost act = action;
    let mut reset = false;
    let (recorded, save, label) = match action {
        Action::SetFillColor { element_id, fill_color_index } => {
            edit_elements(&mut doc.sprite, element_id.as_str(), &ElementEdit::Fill(fill_color_index));
            (true, false, String::from_str("Set fill color"))
        },
        Action::SetBackgroundColor { background_color_index } => {
            set_background_color(&mut doc.sprite, background_color_index);
            (true, false, String::from_str("Set background color"))
        },
        Action::AddPaletteColor(c) => {
            let added = add_palette_color(&mut doc.palette, c);
            (false, added, String::new())
        },
        Action::DeletePaletteColor(index) => {
            let deleted = delete_palette_color(&mut doc.palette, &mut doc.sprite, index);
            (deleted, deleted, String::from_str("Delete palette color"))
        },
        Action::EditPaletteColor { index, color } => {
            edit_palette_color(&mut doc.palette, index, color);
            (false, true, String::new())
        },
        Action::ImportPalette(colors) => {
            import_palette(&mut doc.palette, colors);
            let (dark, light) = auto_pick_theme_colors(&doc.palette);
            doc.editor_preferences.dark_theme_colors = dark;
            doc.editor_preferences.light_theme_colors = light;
            (false, true, String::new())
        },
        Action::SetGradientFill { element_id, gradient_fill } => {
            edit_elements(&mut doc.sprite, element_id.as_str(), &ElementEdit::Gradient(gradient_fill));
            (true, false, String::from_str("Set gradient fill"))
        },
        Action::ClearGradientFill { element_id } => {
            edit_elements(&mut doc.sprite, element_id.as_str(), &ElementEdit::ClearGradient);
            (true, false, String::from_str("Clear gradient fill"))
        },
        Action::SetHatchFill { element_id, hatch_fill_id } => {
            edit_elements(&mut doc.sprite, element_id.as_str(), &ElementEdit::Hatch(hatch_fill_id));
            (true, false, String::from_str("Set hatch fill"))
        },
        Action::ClearHatchFill { element_id } => {
            edit_elements(&mut doc.sprite, element_id.as_str(), &ElementEdit::ClearHatch);
            (true, false, String::from_str("Clear hatch fill"))
        },
        Action::AddHatchPattern(p) => {
            let ghost l0 = entry_views(doc.hatch_patterns@);
            doc.hatch_patterns.push(p);
            assert(entry_views(doc.hatch_patterns@) =~= l0.push((p.id@, p.name@)));
            assert(action_done(d0, *doc, act));
            (false, true, String::new())
        },
        Action::UpdateHatchPattern(p) => {
            update_hatch_pattern(&mut doc.hatch_patterns, p);
            assert(action_done(d0, *doc, act));
            (false, true, String::new())
        },
        Action::DeleteHatchPattern(id) => {
            remove_hatch_pattern(&mut doc.hatch_patterns, id.as_str());
            let key = id.clone();
            edit_elements(&mut doc.sprite, key.as_str(), &ElementEdit::DropPattern(id));
            assert(action_done(d0, *doc, act));
            (true, true, String::from_str("Delete hatch pattern"))
        },
        Action::ImportHatchPatterns(ps) => {
            import_hatch_patterns(&mut doc.hatch_patterns, ps);
            assert(action_done(d0, *doc, act));
            (false, true, String::new())
        },
        Action::CreateSequence { name } => {
            let seq = AnimationSequence::new(name);
            let id = seq.id.clone();
            doc.sprite.animations.push(seq);
            doc.selected_sequence_id = Some(id);
            doc.playing = false;
            reset = true;
            assert(doc.sprite.animations@.drop_last() =~= d0.sprite.animations@);
            (true, false, String::from_str("Create animation"))
        },
        Action::DeleteSequence { sequence_id } => {
            remove_by_id(&mut doc.sprite.animations, sequence_id.as_str());
            let shown = match &doc.selected_sequence_id {
                Some(s) => str_eq(s.as_str(), sequence_id.as_str()),
                None => false,
            };
            if shown {
                doc.selected_sequence_id = if doc.sprite.animations.len() > 0 {
                    Some(doc.sprite.animations[0].id.clone())
                } else {
                    None
                };
                doc.playing = false;
                reset = true;
            }
            (true, false, String::from_str("Delete animation"))
        },
        Action::RenameSequence { sequence_id, name } => {
            if let Some(i) = position_by_id(&doc.sprite.animations, sequence_id.as_str()) {
                doc.sprite.animations[i].name = name;
            }
            (true, false, String::from_str("Rename animation"))
        },
        Action::SelectSequence { sequence_id } => {
            doc.selected_sequence_id = sequence_id;
            doc.selected_keyframe_id = None;
            doc.playing = false;
            reset = true;
            (false, false, String::new())
        },
        Action::SetSequenceLooping { sequence_id, looping } => {
            if let Some(i) = position_by_id(&doc.sprite.animations, sequence_id.as_str()) {
                doc.sprite.animations[i].looping = looping;
            }
            (true, false, String::from_str("Set looping"))
        },
        Action::DeleteEventMarker { sequence_id, marker_id } => {
            if let Some(i) = position_by_id(&doc.sprite.animations, sequence_id.as_str()) {
                remove_by_id(&mut doc.sprite.animations[i].event_markers, marker_id.as_str());
            }
            (true, false, String::from_str("Delete event marker"))
        },
        Action::RenameEventMarker { sequence_id, marker_id, name } => {
            if let Some(i) = position_by_id(&doc.sprite.animations, sequence_id.as_str()) {
                if let Some(k) = position_by_id(&doc.sprite.animations[i].event_markers, marker_id.as_str()) {
                    doc.sprite.animations[i].event_markers[k].name = name;
                }
            }
            (true, false, String::from_str("Rename event marker"))
        },
        Action::AddReferenceImage(img) => {
            doc.sprite.reference_images.push(img);
            (true, false, String::from_str("Add reference image"))
        },
        Action::RemoveReferenceImage(id) => {
            remove_by_id(&mut doc.sprite.reference_images, id.as_str());
            (true, false, String::from_str("Remove reference image"))
        },
    };
    proof {
        assert(action_done(d0, *doc, act));
        assert(recorded == records_undo(d0, act));
        assert(recorded ==> label@ == undo_label(act));
        assert(reset == resets_playhead(d0, act));
    }
    if recorded {
        let after = doc.sprite.snapshot();
        let ghost h0 = history@;
        history.push(label, before, after);
        proof {
            lemma_push_same_content(h0, undo_label(act), before, after, d0.sprite, doc.sprite);
        }
    }
    ActionOutcome { undo_recorded: recorded, save_defaults: save, reset_playhead: reset }
}

} // verus!
