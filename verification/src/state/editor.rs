use vstd::prelude::*;
use crate::model::sprite::{find_layer_position, layer_position, Layer, Sprite};
use crate::text::str_eq;

verus! {

/// Active drawing tool.
#[derive(Debug, Clone, Copy, PartialEq, Eq, Structural)]
pub enum ToolKind {
    Select,
    Line,
    Fill,
    Eyedropper,
    Eraser,
}

/// Active fill color mode.
#[derive(Debug, Clone, Copy, PartialEq, Eq, Structural)]
pub enum FillMode {
    Flat,
    LinearGradient,
    RadialGradient,
}

/// Eraser tool hover target: a vertex or a segment.
#[derive(Debug, Clone)]
pub enum EraserHover {
    Vertex { element_id: String, vertex_id: String, layer_id: String },
    Segment { element_id: String, segment_index: usize, layer_id: String },
}

/// Symmetry axis mode.
#[derive(Debug, Clone, Copy, PartialEq, Eq, Structural)]
pub enum SymmetryAxis {
    Vertical,
    Horizontal,
    Both,
}

/// Kind of reference image drag in progress.
#[derive(Debug, Clone, Copy, PartialEq, Eq, Structural)]
pub enum RefImageDragKind {
    Move,
    Resize,
}

/// Hover target in vertex editing.
#[derive(Debug, Clone)]
pub enum VertexHover {
    Vertex { vertex_id: String },
    Handle { vertex_id: String, is_cp1: bool },
}

/// Handle of the selection bounding box being manipulated.
#[derive(Debug, Clone, Copy, PartialEq, Eq, Structural)]
pub enum HandleKind {
    ScaleNW,
    ScaleN,
    ScaleNE,
    ScaleE,
    ScaleSE,
    ScaleS,
    ScaleSW,
    ScaleW,
    Rotate,
}

/// Onion skin display mode.
#[derive(Debug, Clone, Copy, PartialEq, Eq, Structural)]
pub enum OnionSkinMode {
    Keyframe,
    Frame,
    Both,
}

/// Entry in the pick-selection popup for overlapping elements.
#[derive(Debug, Clone)]
pub struct StackEntry {
    pub element_id: String,
    pub display_name: String,
    pub stroke_color_index: u8,
}

/// Drag-reorder state of a layer in the layer panel.
#[derive(Debug, Clone)]
pub struct LayerDragState {
    pub layer_id: String,
    pub target_idx: Option<usize>,
    pub target_group_id: Option<String>,
}

/// The ids of a list of strings, as character sequences.
pub open spec fn id_views(ids: Seq<String>) -> Seq<Seq<char>> {
    ids.map_values(|s: String| s@)
}

/// `id` with its first occurrence removed, or appended when absent.
pub open spec fn toggled(ids: Seq<Seq<char>>, id: Seq<char>) -> Seq<Seq<char>> {
    if ids.contains(id) {
        let p = choose|p: int| 0 <= p < ids.len() && ids[p] == id && forall|q: int| 0 <= q < p ==> ids[q] != id;
        ids.remove(p)
    } else {
        ids.push(id)
    }
}

/// Selected element ids, in selection order.
#[derive(Debug, Clone)]
pub struct SelectionState {
    pub selected_ids: Vec<String>,
}

impl SelectionState {
    pub open spec fn ids(self) -> Seq<Seq<char>> {
        id_views(self.selected_ids@)
    }

    pub fn is_selected(&self, id: &str) -> (r: bool)
        ensures
            r == self.ids().contains(id@),
    {
        let mut i: usize = 0;
        while i < self.selected_ids.len()
            invariant
                i <= self.selected_ids@.len(),
                forall|k: int| 0 <= k < i ==> self.selected_ids@[k]@ != id@,
            decreases self.selected_ids@.len() - i,
        {
            if str_eq(self.selected_ids[i].as_str(), id) {
                assert(self.ids()[i as int] == id@);
                return true;
            }
            i = i + 1;
        }
        false
    }

    pub fn clear(&mut self)
        ensures
            final(self).ids().len() == 0,
    {
        self.selected_ids.clear();
    }

    /// Select exactly `id`.
    pub fn select_single(&mut self, id: String)
        ensures
            final(self).ids() == seq![id@],
    {
        self.selected_ids.clear();
        self.selected_ids.push(id);
        assert(self.ids() =~= seq![id@]);
    }

    /// Deselect `id` if it is selected (its first occurrence), otherwise select it.
    pub fn toggle(&mut self, id: &str)
        ensures
            final(self).ids() == toggled(old(self).ids(), id@),
    {
        let ghost old_ids = self.ids();
        let mut i: usize = 0;
        while i < self.selected_ids.len()
            invariant
                i <= self.selected_ids@.len(),
                self.ids() == old_ids,
                old_ids == old(self).ids(),
                forall|k: int| 0 <= k < i ==> self.selected_ids@[k]@ != id@,
            decreases self.selected_ids@.len() - i,
        {
            if str_eq(self.selected_ids[i].as_str(), id) {
                proof {
                    assert(old_ids[i as int] == id@);
                    assert(old_ids.contains(id@));
                    let p = choose|p: int| 0 <= p < old_ids.len() && old_ids[p] == id@
                        && forall|q: int| 0 <= q < p ==> old_ids[q] != id@;
                    assert(p == i) by {
                        if p < i {
                            assert(old_ids[p] == self.selected_ids@[p]@);
                        } else if p > i {
                            assert(old_ids[i as int] != id@);
                        }
                    }
                }
                self.selected_ids.remove(i);
                assert(self.ids() =~= old_ids.remove(i as int));
                assert(toggled(old_ids, id@) == old_ids.remove(i as int));
                return;
            }
            i = i + 1;
        }
        assert(!old_ids.contains(id@)) by {
            if old_ids.contains(id@) {
                let k = choose|k: int| 0 <= k < old_ids.len() && old_ids[k] == id@;
                assert(self.selected_ids@[k]@ == id@);
            }
        }
        self.selected_ids.push(String::from_str(id));
        assert(self.ids() =~= old_ids.push(id@));
    }

    /// Replace the selection with `ids`.
    pub fn select_all(&mut self, ids: Vec<String>)
        ensures
            final(self).selected_ids@ == ids@,
    {
        self.selected_ids = ids;
    }

    pub fn is_empty(&self) -> (r: bool)
        ensures
            r == (self.ids().len() == 0),
    {
        self.selected_ids.is_empty()
    }
}

/// On a selection without repeats, toggling flips whether `id` is selected and
/// keeps the selection free of repeats; toggling twice restores the selected set.
pub proof fn lemma_toggle_flips(ids: Seq<Seq<char>>, id: Seq<char>, other: Seq<char>)
    requires
        ids.no_duplicates(),
    ensures
        toggled(ids, id).contains(id) == !ids.contains(id),
        toggled(ids, id).no_duplicates(),
        other != id ==> (toggled(ids, id).contains(other) == ids.contains(other)),
        toggled(toggled(ids, id), id).contains(other) == ids.contains(other),
{
    if ids.contains(id) {
        let p = choose|p: int| 0 <= p < ids.len() && ids[p] == id && forall|q: int| 0 <= q < p ==> ids[q] != id;
        let r = ids.remove(p);
        assert(!r.contains(id)) by {
            if r.contains(id) {
                let k = choose|k: int| 0 <= k < r.len() && r[k] == id;
                if k < p { assert(ids[k] == id); } else { assert(ids[k + 1] == id); }
            }
        }
        assert(r.no_duplicates()) by {
            assert forall|a: int, b: int| 0 <= a < b < r.len() implies r[a] != r[b] by {
                let ia = if a < p { a } else { a + 1 };
                let ib = if b < p { b } else { b + 1 };
                assert(r[a] == ids[ia] && r[b] == ids[ib]);
            }
        }
        if other != id {
            if ids.contains(other) {
                let k = choose|k: int| 0 <= k < ids.len() && ids[k] == other;
                if k < p { assert(r[k] == other); } else { assert(r[k - 1] == other); }
            }
            if r.contains(other) {
                let k = choose|k: int| 0 <= k < r.len() && r[k] == other;
                if k < p { assert(ids[k] == other); } else { assert(ids[k + 1] == other); }
            }
        }
        lemma_push_absent(r, id, other);
    } else {
        lemma_push_absent(ids, id, other);
        let t = ids.push(id);
        assert(t.contains(id)) by { assert(t[ids.len() as int] == id); }
        let q = choose|q: int| 0 <= q < t.len() && t[q] == id && forall|j: int| 0 <= j < q ==> t[j] != id;
        assert(q == ids.len()) by {
            if q < ids.len() { assert(ids[q] == id); }
        }
        assert(t.remove(q) =~= ids);
    }
}

proof fn lemma_push_absent(ids: Seq<Seq<char>>, id: Seq<char>, other: Seq<char>)
    requires
        ids.no_duplicates(),
        !ids.contains(id),
    ensures
        ids.push(id).no_duplicates(),
        ids.push(id).contains(id),
        other != id ==> (ids.push(id).contains(other) == ids.contains(other)),
{
    let t = ids.push(id);
    assert(t[ids.len() as int] == id);
    assert forall|a: int, b: int| 0 <= a < b < t.len() implies t[a] != t[b] by {
        if b == ids.len() {
            assert(t[a] == ids[a]);
        }
    }
    if other != id && t.contains(other) {
        let k = choose|k: int| 0 <= k < t.len() && t[k] == other;
        assert(ids[k] == other);
    }
    if ids.contains(other) {
        let k = choose|k: int| 0 <= k < ids.len() && ids[k] == other;
        assert(t[k] == other);
    }
}

/// Layer panel state.
#[derive(Debug, Clone)]
pub struct LayerState {
    pub active_layer_id: Option<String>,
    pub solo_layer_id: Option<String>,
    pub renaming_layer_id: Option<String>,
    pub drag_reorder: Option<LayerDragState>,
}

impl LayerState {
    /// Position of the active layer; 0 when it is unset or not found.
    pub fn resolve_active_idx(&self, sprite: &Sprite) -> (i: usize)
        ensures
            i == match self.active_layer_id {
                Some(id) => match layer_position(sprite.layers@, id@) { Some(p) => p as usize, None => 0usize },
                None => 0usize,
            },
    {
        match &self.active_layer_id {
            Some(id) => match sprite.layer_idx_by_id(id.as_str()) {
                Some(p) => p,
                None => 0,
            },
            None => 0,
        }
    }

    /// Make the layer at position `idx` active, if there is one.
    pub fn set_active_by_idx(&mut self, idx: usize, sprite: &Sprite)
        ensures
            idx < sprite.layers@.len() ==> final(self).active_layer_id == Some(sprite.layers@[idx as int].id),
            idx >= sprite.layers@.len() ==> final(self).active_layer_id == old(self).active_layer_id,
            final(self).solo_layer_id == old(self).solo_layer_id,
            final(self).renaming_layer_id == old(self).renaming_layer_id,
            final(self).drag_reorder == old(self).drag_reorder,
    {
        if idx < sprite.layers.len() {
            self.active_layer_id = Some(sprite.layers[idx].id.clone());
        }
    }

    /// Keep the active layer if it exists; otherwise fall back to the first layer
    /// (or none when the sprite has no layers).
    pub fn validate(&mut self, sprite: &Sprite)
        ensures
            (match old(self).active_layer_id {
                Some(id) => layer_position(sprite.layers@, id@) is Some,
                None => false,
            }) ==> final(self).active_layer_id == old(self).active_layer_id,
            !(match old(self).active_layer_id {
                Some(id) => layer_position(sprite.layers@, id@) is Some,
                None => false,
            }) ==> final(self).active_layer_id == (if sprite.layers@.len() > 0 {
                Some(sprite.layers@[0].id)
            } else {
                None::<String>
            }),
            final(self).solo_layer_id == old(self).solo_layer_id,
            final(self).renaming_layer_id == old(self).renaming_layer_id,
            final(self).drag_reorder == old(self).drag_reorder,
    {
        let found = match &self.active_layer_id {
            Some(id) => sprite.layer_idx_by_id(id.as_str()).is_some(),
            None => false,
        };
        if found {
            return;
        }
        if sprite.layers.len() > 0 {
            self.active_layer_id = Some(sprite.layers[0].id.clone());
        } else {
            self.active_layer_id = None;
        }
    }
}

/// Transient UI panel and popup state.
#[derive(Debug, Clone)]
pub struct UIState {
    pub sidebar_expanded: bool,
    pub lospec_slug: String,
    pub lospec_error: Option<String>,
    pub lospec_popup_open: bool,
    pub theme_settings_open: bool,
    pub theme_role_picker: Option<usize>,
    pub hatch_editor_open: bool,
}

impl Default for UIState {
    fn default() -> (u: Self)
        ensures
            !u.sidebar_expanded,
            u.lospec_slug@.len() == 0,
            u.lospec_error is None,
            !u.lospec_popup_open,
            !u.theme_settings_open,
            u.theme_role_picker is None,
            !u.hatch_editor_open,
    {
        Self {
            sidebar_expanded: false,
            lospec_slug: String::new(),
            lospec_error: None,
            lospec_popup_open: false,
            theme_settings_open: false,
            theme_role_picker: None,
            hatch_editor_open: false,
        }
    }
}

/// Keeps every color except `index`.
pub open spec fn other_than(index: u8) -> spec_fn(u8) -> bool {
    |c: u8| c != index
}

/// The recent-colors list after using `index`: it moves to the front, without
/// repeats, at most 8 entries; index 0 (transparent) is never tracked.
pub open spec fn recent_after(recent: Seq<u8>, index: u8) -> Seq<u8> {
    if index == 0 {
        recent
    } else {
        let moved = seq![index] + recent.filter(other_than(index));
        if moved.len() > 8 { moved.take(8) } else { moved }
    }
}

/// Track a color index in the recent colors list (most recent first).
pub fn track_recent_color(recent_colors: &mut Vec<u8>, index: u8)
    ensures
        final(recent_colors)@ == recent_after(old(recent_colors)@, index),
{
    if index == 0 {
        return;
    }
    let ghost old_recent = recent_colors@;
    let mut kept: Vec<u8> = Vec::new();
    kept.push(index);
    let mut i: usize = 0;
    while i < recent_colors.len()
        invariant
            recent_colors@ == old_recent,
            i <= recent_colors@.len(),
            kept@ == seq![index] + old_recent.subrange(0, i as int).filter(other_than(index)),
        decreases recent_colors@.len() - i,
    {
        proof {
            assert(old_recent.subrange(0, i + 1).drop_last() =~= old_recent.subrange(0, i as int));
            assert(old_recent.subrange(0, i + 1).last() == old_recent[i as int]);
        }
        let c = recent_colors[i];
        if c != index {
            kept.push(c);
        }
        proof {
            let f = other_than(index);
            let pre = old_recent.subrange(0, i + 1);
            assert(pre.filter(f) == if f(pre.last()) { pre.drop_last().filter(f).push(pre.last()) } else {
                pre.drop_last().filter(f)
            }) by {
                reveal(Seq::filter);
            }
            assert(kept@ =~= seq![index] + old_recent.subrange(0, i + 1).filter(f));
        }
        i = i + 1;
    }
    assert(old_recent.subrange(0, i as int) =~= old_recent);
    let ghost moved = kept@;
    kept.truncate(8);
    *recent_colors = kept;
    proof {
        if moved.len() > 8 {
            assert(recent_colors@ =~= moved.take(8));
        } else {
            assert(recent_colors@ =~= moved);
        }
    }
}

/// The recent-colors list never repeats a color, holds at most 8, and starts
/// with the color just used.
pub proof fn lemma_recent_colors_shape(recent: Seq<u8>, index: u8)
    requires
        recent.no_duplicates(),
        recent.len() <= 8,
        index != 0,
    ensures
        recent_after(recent, index).no_duplicates(),
        recent_after(recent, index).len() <= 8,
        recent_after(recent, index)[0] == index,
{
    let f = other_than(index);
    let rest = recent.filter(f);
    lemma_filter_no_dup(recent, index);
    let moved = seq![index] + rest;
    assert(moved[0] == index);
    assert(moved.no_duplicates()) by {
        assert forall|a: int, b: int| 0 <= a < b < moved.len() implies moved[a] != moved[b] by {
            if a == 0 {
                assert(moved[b] == rest[b - 1]);
                assert(rest.contains(rest[b - 1]));
            } else {
                assert(moved[a] == rest[a - 1] && moved[b] == rest[b - 1]);
            }
        }
    }
    if moved.len() > 8 {
        let t = moved.take(8);
        assert forall|a: int, b: int| 0 <= a < b < t.len() implies t[a] != t[b] by {
            assert(t[a] == moved[a] && t[b] == moved[b]);
        }
        assert(t.no_duplicates());
    }
}

proof fn lemma_filter_no_dup(s: Seq<u8>, index: u8)
    requires
        s.no_duplicates(),
    ensures
        s.filter(other_than(index)).no_duplicates(),
        !s.filter(other_than(index)).contains(index),
        s.filter(other_than(index)).len() <= s.len(),
    decreases s.len(),
{
    let f = other_than(index);
    if s.len() == 0 {
        assert(s.filter(f) =~= Seq::<u8>::empty()) by {
            reveal(Seq::filter);
        }
    } else {
        let init = s.drop_last();
        assert(init.no_duplicates()) by {
            assert forall|a: int, b: int| 0 <= a < b < init.len() implies init[a] != init[b] by {
                assert(init[a] == s[a] && init[b] == s[b]);
            }
        }
        lemma_filter_no_dup(init, index);
        assert(s =~= init.push(s.last()));
        assert(s.filter(f) == if f(s.last()) { init.filter(f).push(s.last()) } else { init.filter(f) }) by {
            reveal(Seq::filter);
        }
        let fi = init.filter(f);
        if f(s.last()) {
            assert(!fi.contains(s.last())) by {
                if fi.contains(s.last()) {
                    init.lemma_filter_contains_rev(f, s.last());
                    let k = choose|k: int| 0 <= k < init.len() && init[k] == s.last();
                    assert(s[k] == s[s.len() - 1]);
                }
            }
            let t = fi.push(s.last());
            assert forall|a: int, b: int| 0 <= a < b < t.len() implies t[a] != t[b] by {
                if b == fi.len() {
                    assert(t[a] == fi[a]);
                    assert(fi.contains(fi[a]));
                } else {
                    assert(t[a] == fi[a] && t[b] == fi[b]);
                }
            }
            assert(!t.contains(index)) by {
                if t.contains(index) {
                    let k = choose|k: int| 0 <= k < t.len() && t[k] == index;
                    if k < fi.len() { assert(fi[k] == index); }
                }
            }
        } else {
            assert(s.filter(f) =~= fi);
        }
    }
}

/// Whether a layer takes part in hit testing: visible, unlocked, and the solo
/// layer when one is set.
pub fn is_layer_interactive(layer: &Layer, solo_layer_id: Option<&str>) -> (r: bool)
    ensures
        r == (layer.visible && !layer.locked && match solo_layer_id {
            Some(s) => layer.id@ == s@,
            None => true,
        }),
{
    if !layer.visible || layer.locked {
        return false;
    }
    match solo_layer_id {
        Some(solo_id) => str_eq(layer.id.as_str(), solo_id),
        None => true,
    }
}

} // verus!
