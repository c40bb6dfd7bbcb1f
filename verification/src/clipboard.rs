use vstd::prelude::*;
use crate::engine::eraser::{copy_element, same_element};
use crate::model::sprite::{Layer, Sprite, StrokeElement, new_uuid};
use crate::state::editor::{SelectionState, id_views};

verus! {

/// The selected elements among the first `upto` elements of a layer, in order.
pub open spec fn selected_in_layer(elements: Seq<StrokeElement>, ids: Seq<Seq<char>>, upto: int) -> Seq<StrokeElement>
    decreases upto,
{
    if upto <= 0 {
        Seq::empty()
    } else {
        let prev = selected_in_layer(elements, ids, upto - 1);
        if ids.contains(elements[upto - 1].id@) { prev.push(elements[upto - 1]) } else { prev }
    }
}

/// The selected elements of the first `upto` layers, in layer then element order.
pub open spec fn selected_in_layers(layers: Seq<Layer>, ids: Seq<Seq<char>>, upto: int) -> Seq<StrokeElement>
    decreases upto,
{
    if upto <= 0 {
        Seq::empty()
    } else {
        selected_in_layers(layers, ids, upto - 1)
            + selected_in_layer(layers[upto - 1].elements@, ids, layers[upto - 1].elements@.len() as int)
    }
}

/// Copies of the selected elements of a sprite, in layer then element order (what
/// copying to the clipboard takes).
pub fn selected_elements(sprite: &Sprite, selection: &SelectionState) -> (r: Vec<StrokeElement>)
    ensures
        r@.len() == selected_in_layers(sprite.layers@, selection.ids(), sprite.layers@.len() as int).len(),
        forall|i: int| 0 <= i < r@.len() ==> same_element(#[trigger] r@[i],
            selected_in_layers(sprite.layers@, selection.ids(), sprite.layers@.len() as int)[i]),
{
    let ghost ids = selection.ids();
    let mut out: Vec<StrokeElement> = Vec::new();
    let n = sprite.layers.len();
    let mut li: usize = 0;
    while li < n
        invariant
            n == sprite.layers@.len(),
            ids == selection.ids(),
            li <= n,
            out@.len() == selected_in_layers(sprite.layers@, ids, li as int).len(),
            forall|i: int| 0 <= i < out@.len() ==> same_element(#[trigger] out@[i], selected_in_layers(sprite.layers@, ids, li as int)[i]),
        decreases n - li,
    {
        let elements = &sprite.layers[li].elements;
        let ghost before = selected_in_layers(sprite.layers@, ids, li as int);
        let m = elements.len();
        let mut ei: usize = 0;
        while ei < m
            invariant
                n == sprite.layers@.len(),
                ids == selection.ids(),
                li < n,
                elements == &sprite.layers@[li as int].elements,
                m == elements@.len(),
                ei <= m,
                before == selected_in_layers(sprite.layers@, ids, li as int),
                out@.len() == before.len() + selected_in_layer(elements@, ids, ei as int).len(),
                forall|i: int| 0 <= i < out@.len() ==> same_element(#[trigger] out@[i],
                    (before + selected_in_layer(elements@, ids, ei as int))[i]),
            decreases m - ei,
        {
            if selection.is_selected(elements[ei].id.as_str()) {
                let c = copy_element(&elements[ei]);
                out.push(c);
            }
            proof {
                let next = before + selected_in_layer(elements@, ids, ei + 1);
                let cur = before + selected_in_layer(elements@, ids, ei as int);
                if ids.contains(elements@[ei as int].id@) {
                    assert(next =~= cur.push(elements@[ei as int]));
                } else {
                    assert(next =~= cur);
                }
            }
            ei = ei + 1;
        }
        li = li + 1;
    }
    out
}

/// Layer `b` is `a` without its elements whose id is in `ids`.
pub open spec fn layer_without(a: Layer, b: Layer, ids: Seq<Seq<char>>) -> bool {
    &&& b.id == a.id
    &&& b.name == a.name
    &&& b.visible == a.visible
    &&& b.locked == a.locked
    &&& b.group_id == a.group_id
    &&& b.socket == a.socket
    &&& b.elements@ == a.elements@.filter(|e: StrokeElement| !ids.contains(e.id@))
}

fn drop_selected(layer: &mut Layer, selected_ids: &Vec<String>)
    ensures
        layer_without(*old(layer), *final(layer), id_views(selected_ids@)),
{
    let ghost ids = id_views(selected_ids@);
    let ghost l0 = *layer;
    let mut kept: Vec<StrokeElement> = Vec::new();
    let mut all: Vec<StrokeElement> = Vec::new();
    std::mem::swap(&mut all, &mut layer.elements);
    let n = all.len();
    let mut rest = all;
    // walk the elements front to back
    let mut rev: Vec<StrokeElement> = Vec::new();
    while rest.len() > 0
        invariant
            rest@.len() + rev@.len() == n,
            n == l0.elements@.len(),
            forall|j: int| 0 <= j < rest@.len() ==> #[trigger] rest@[j] == l0.elements@[j],
            forall|j: int| 0 <= j < rev@.len() ==> #[trigger] rev@[j] == l0.elements@[n - 1 - j],
        decreases rest@.len(),
    {
        let e = rest.pop().unwrap();
        rev.push(e);
    }
    let ghost f = |e: StrokeElement| !ids.contains(e.id@);
    while rev.len() > 0
        invariant
            n == l0.elements@.len(),
            ids == id_views(selected_ids@),
            f == (|e: StrokeElement| !ids.contains(e.id@)),
            rev@.len() <= n,
            forall|j: int| 0 <= j < rev@.len() ==> #[trigger] rev@[j] == l0.elements@[n - 1 - j],
            kept@ == l0.elements@.subrange(0, n - rev@.len()).filter(f),
        decreases rev@.len(),
    {
        let e = rev.pop().unwrap();
        let ghost k = n - 1 - rev@.len();
        let mut hit = false;
        let mut i: usize = 0;
        while i < selected_ids.len()
            invariant
                i <= selected_ids@.len(),
                ids == id_views(selected_ids@),
                hit ==> ids.contains(e.id@),
                !hit ==> forall|q: int| 0 <= q < i ==> ids[q] != e.id@,
            decreases selected_ids@.len() - i,
        {
            if crate::text::str_eq(selected_ids[i].as_str(), e.id.as_str()) {
                assert(ids[i as int] == e.id@);
                hit = true;
            }
            i = i + 1;
        }
        proof {
            assert(hit == ids.contains(e.id@));
            assert(e == l0.elements@[k]);
            reveal(Seq::filter);
            assert(l0.elements@.subrange(0, k + 1).drop_last() =~= l0.elements@.subrange(0, k));
        }
        if !hit {
            kept.push(e);
        }
    }
    proof {
        assert(l0.elements@.subrange(0, n as int) =~= l0.elements@);
    }
    layer.elements = kept;
}

/// Remove every element whose id is in `selected_ids` from every layer (what
/// cutting to the clipboard removes); nothing else of the sprite changes.
pub fn remove_elements(sprite: &mut Sprite, selected_ids: &Vec<String>)
    ensures
        final(sprite).layers@.len() == old(sprite).layers@.len(),
        forall|i: int| 0 <= i < old(sprite).layers@.len()
            ==> layer_without(old(sprite).layers@[i], #[trigger] final(sprite).layers@[i], id_views(selected_ids@)),
        final(sprite).id == old(sprite).id,
        final(sprite).name == old(sprite).name,
        final(sprite).background_color_index == old(sprite).background_color_index,
        final(sprite).layer_groups == old(sprite).layer_groups,
        final(sprite).animations == old(sprite).animations,
        final(sprite).reference_images == old(sprite).reference_images,
{
    let ghost s0 = *sprite;
    let n = sprite.layers.len();
    let mut i: usize = 0;
    while i < n
        invariant
            n == s0.layers@.len(),
            i <= n,
            sprite.layers@.len() == n,
            sprite.id == s0.id,
            sprite.name == s0.name,
            sprite.background_color_index == s0.background_color_index,
            sprite.layer_groups == s0.layer_groups,
            sprite.animations == s0.animations,
            sprite.reference_images == s0.reference_images,
            forall|k: int| 0 <= k < i ==> layer_without(s0.layers@[k], #[trigger] sprite.layers@[k], id_views(selected_ids@)),
            forall|k: int| i <= k < n ==> #[trigger] sprite.layers@[k] == s0.layers@[k],
        decreases n - i,
    {
        drop_selected(&mut sprite.layers[i], selected_ids);
        i = i + 1;
    }
}


/// A pasted copy of an element: a fresh id for the element and for each of its
/// vertices, everything else as it was. (The editor also shifts its position.)
pub fn with_fresh_ids(element: StrokeElement) -> (r: StrokeElement)
    ensures
        r.id@.len() == 36,
        r.vertex_ids@.len() == element.vertex_ids@.len(),
        forall|i: int| 0 <= i < r.vertex_ids@.len() ==> (#[trigger] r.vertex_ids@[i])@.len() == 36,
        r.name == element.name,
        r.closed == element.closed,
        r.curve_mode == element.curve_mode,
        r.stroke_color_index == element.stroke_color_index,
        r.fill_color_index == element.fill_color_index,
        r.gradient_fill == element.gradient_fill,
        r.hatch_fill_id == element.hatch_fill_id,
{
    let mut e = element;
    let n = e.vertex_ids.len();
    let mut ids: Vec<String> = Vec::new();
    let mut i: usize = 0;
    while i < n
        invariant
            i <= n,
            ids@.len() == i,
            forall|j: int| 0 <= j < i ==> (#[trigger] ids@[j])@.len() == 36,
        decreases n - i,
    {
        ids.push(new_uuid());
        i = i + 1;
    }
    e.id = new_uuid();
    e.vertex_ids = ids;
    e
}

} // verus!
