use vstd::prelude::*;
use crate::text::str_eq;
use crate::engine::eraser::{clone_ids, clone_opt, opt_view};
use crate::state::editor::id_views;
use crate::state::history::Snapshot;
use crate::model::animation::{AnimationSequence, SequenceView};

verus! {

/// Calls `uuid::Uuid::new_v4().to_string()`: a random version-4 UUID in its
/// hyphenated form, which is 36 characters long. Nothing else is claimed of it.
#[verifier::external_body]
pub(crate) fn new_uuid() -> (id: String)
    ensures
        id@.len() == 36,
{
    uuid::Uuid::new_v4().to_string()
}

/// Fill gradient kind.
#[derive(Debug, Clone, Copy, PartialEq, Eq, Structural)]
pub enum GradientType {
    Linear,
    Radial,
}

/// Preset gradient directions aligned to the grid axes.
#[derive(Debug, Clone, Copy, PartialEq, Eq, Structural)]
pub enum GradientAlignment {
    Horizontal,
    Vertical,
    IsoDescending,
    IsoAscending,
}

/// Waveform of a procedural modifier.
#[derive(Debug, Clone, Copy, PartialEq, Eq, Structural)]
pub enum Waveform {
    Sine,
    Noise,
}

/// How a procedural modifier combines with the animated value.
#[derive(Debug, Clone, Copy, PartialEq, Eq, Structural)]
pub enum BlendMode {
    Additive,
    Multiplicative,
}

/// Attachment of a layer to a vertex of an element on another layer.
#[derive(Debug, Clone)]
pub struct Socket {
    pub parent_element_id: String,
    pub parent_vertex_id: String,
}

/// A named group of layers in the layer panel.
#[derive(Debug, Clone)]
pub struct LayerGroup {
    pub id: String,
    pub name: String,
    pub collapsed: bool,
    pub visible: bool,
    pub locked: bool,
}

impl LayerGroup {
    /// A new expanded, visible, unlocked group with a fresh id.
    pub fn new(name: String) -> (g: Self)
        ensures
            g.name@ == name@,
            g.id@.len() == 36,
            !g.collapsed,
            g.visible,
            !g.locked,
    {
        Self { id: new_uuid(), name, collapsed: false, visible: true, locked: false }
    }
}

/// The palette side of a gradient fill: its kind, direction and the color indices
/// at its two ends. (Its center, radius and sharpness are kept by the editor.)
#[derive(Debug, Clone, Copy, PartialEq, Eq, Structural)]
pub struct GradientFill {
    pub gradient_type: GradientType,
    pub color_index_start: u8,
    pub color_index_end: u8,
    pub alignment: GradientAlignment,
}

/// The structure of a stroke element: its identity, the ids of its vertices in
/// path order, whether its corners are auto-curved, and its color indices and
/// fills. (Coordinates, widths and transforms are kept by the editor.)
#[derive(Debug, Clone)]
pub struct StrokeElement {
    pub id: String,
    pub name: Option<String>,
    pub vertex_ids: Vec<String>,
    pub closed: bool,
    pub curve_mode: bool,
    pub stroke_color_index: u8,
    pub fill_color_index: u8,
    pub gradient_fill: Option<GradientFill>,
    pub hatch_fill_id: Option<String>,
}

/// An element's content, texts by their characters.
pub struct StrokeElementView {
    pub id: Seq<char>,
    pub name: Option<Seq<char>>,
    pub vertex_ids: Seq<Seq<char>>,
    pub closed: bool,
    pub curve_mode: bool,
    pub stroke_color_index: u8,
    pub fill_color_index: u8,
    pub gradient_fill: Option<GradientFill>,
    pub hatch_fill_id: Option<Seq<char>>,
}

impl View for StrokeElement {
    type V = StrokeElementView;

    open spec fn view(&self) -> StrokeElementView {
        StrokeElementView {
            id: self.id@,
            name: opt_view(self.name),
            vertex_ids: id_views(self.vertex_ids@),
            closed: self.closed,
            curve_mode: self.curve_mode,
            stroke_color_index: self.stroke_color_index,
            fill_color_index: self.fill_color_index,
            gradient_fill: self.gradient_fill,
            hatch_fill_id: opt_view(self.hatch_fill_id),
        }
    }
}

impl StrokeElement {
    /// A new open, unnamed element on the given vertices, with the given stroke color
    /// and curve mode, fill 0 (transparent), no gradient or hatch fill, and a fresh id.
    pub fn new(vertex_ids: Vec<String>, stroke_color_index: u8, curve_mode: bool) -> (e: Self)
        ensures
            e.id@.len() == 36,
            e.name is None,
            e.vertex_ids == vertex_ids,
            !e.closed,
            e.curve_mode == curve_mode,
            e.stroke_color_index == stroke_color_index,
            e.fill_color_index == 0,
            e.gradient_fill is None,
            e.hatch_fill_id is None,
    {
        StrokeElement {
            id: new_uuid(),
            name: None,
            vertex_ids,
            closed: false,
            curve_mode,
            stroke_color_index,
            fill_color_index: 0,
            gradient_fill: None,
            hatch_fill_id: None,
        }
    }

    pub fn vertex_count(&self) -> (n: usize)
        ensures
            n == self.vertex_ids@.len(),
    {
        self.vertex_ids.len()
    }
}

/// A layer and the structure of its elements.
#[derive(Debug, Clone)]
pub struct Layer {
    pub id: String,
    pub name: String,
    pub visible: bool,
    pub locked: bool,
    pub elements: Vec<StrokeElement>,
    pub group_id: Option<String>,
    pub socket: Option<Socket>,
}

/// Total vertex count of a list of elements.
pub open spec fn element_vertices(elements: Seq<StrokeElement>) -> nat
    decreases elements.len(),
{
    if elements.len() == 0 {
        0
    } else {
        element_vertices(elements.drop_last()) + elements.last().vertex_ids@.len()
    }
}

/// Total element count of a list of layers.
pub open spec fn layer_elements(layers: Seq<Layer>) -> nat
    decreases layers.len(),
{
    if layers.len() == 0 {
        0
    } else {
        layer_elements(layers.drop_last()) + layers.last().elements@.len()
    }
}

/// Total vertex count of a list of layers.
pub open spec fn layer_vertices(layers: Seq<Layer>) -> nat
    decreases layers.len(),
{
    if layers.len() == 0 {
        0
    } else {
        layer_vertices(layers.drop_last()) + element_vertices(layers.last().elements@)
    }
}

impl Layer {
    /// A new visible, unlocked, ungrouped, unattached layer with no elements and a fresh id.
    pub fn new(name: String) -> (l: Self)
        ensures
            l.name@ == name@,
            l.id@.len() == 36,
            l.visible,
            !l.locked,
            l.elements@.len() == 0,
            l.group_id is None,
            l.socket is None,
    {
        Self { id: new_uuid(), name, visible: true, locked: false, elements: Vec::new(), group_id: None, socket: None }
    }

    pub fn element_count(&self) -> (n: usize)
        ensures
            n == self.elements@.len(),
    {
        self.elements.len()
    }

    /// Number of vertices over all elements of the layer.
    pub fn vertex_count(&self) -> (n: usize)
        requires
            element_vertices(self.elements@) <= usize::MAX,
        ensures
            n == element_vertices(self.elements@),
    {
        let mut total: usize = 0;
        let mut i: usize = 0;
        while i < self.elements.len()
            invariant
                i <= self.elements@.len(),
                element_vertices(self.elements@) <= usize::MAX,
                total == element_vertices(self.elements@.subrange(0, i as int)),
            decreases self.elements@.len() - i,
        {
            proof {
                assert(self.elements@.subrange(0, i + 1).drop_last() =~= self.elements@.subrange(0, i as int));
                lemma_element_vertices_prefix(self.elements@, i + 1);
            }
            total = total + self.elements[i].vertex_ids.len();
            i = i + 1;
        }
        assert(self.elements@.subrange(0, i as int) =~= self.elements@);
        total
    }
}

proof fn lemma_element_vertices_prefix(es: Seq<StrokeElement>, k: int)
    requires
        0 <= k <= es.len(),
    ensures
        element_vertices(es.subrange(0, k)) <= element_vertices(es),
    decreases es.len(),
{
    if k < es.len() {
        assert(es.drop_last().subrange(0, k) =~= es.subrange(0, k));
        lemma_element_vertices_prefix(es.drop_last(), k);
    } else {
        assert(es.subrange(0, k) =~= es);
    }
}

proof fn lemma_layer_counts_prefix(ls: Seq<Layer>, k: int)
    requires
        0 <= k <= ls.len(),
    ensures
        layer_elements(ls.subrange(0, k)) <= layer_elements(ls),
        layer_vertices(ls.subrange(0, k)) <= layer_vertices(ls),
    decreases ls.len(),
{
    if k < ls.len() {
        assert(ls.drop_last().subrange(0, k) =~= ls.subrange(0, k));
        lemma_layer_counts_prefix(ls.drop_last(), k);
    } else {
        assert(ls.subrange(0, k) =~= ls);
    }
}

/// The structure of a sprite document.
#[derive(Debug, Clone)]
pub struct Sprite {
    pub id: String,
    pub name: String,
    pub format_version: u32,
    pub canvas_width: u32,
    pub canvas_height: u32,
    pub background_color_index: u8,
    pub layers: Vec<Layer>,
    pub layer_groups: Vec<LayerGroup>,
    pub animations: Vec<AnimationSequence>,
    pub reference_images: Vec<ReferenceImage>,
}

/// First position of a layer with id `id`, if any.
pub open spec fn layer_position(layers: Seq<Layer>, id: Seq<char>) -> Option<int> {
    if exists|i: int| 0 <= i < layers.len() && layers[i].id@ == id {
        Some(choose|i: int| 0 <= i < layers.len() && layers[i].id@ == id
            && forall|j: int| 0 <= j < i ==> layers[j].id@ != id)
    } else {
        None
    }
}

/// Positions of the layers in group `group_id`, ascending.
pub open spec fn group_positions(layers: Seq<Layer>, group_id: Seq<char>, upto: int) -> Seq<usize>
    decreases upto,
{
    if upto <= 0 {
        Seq::empty()
    } else {
        let prev = group_positions(layers, group_id, upto - 1);
        match layers[upto - 1].group_id {
            Some(g) => if g@ == group_id { prev.push((upto - 1) as usize) } else { prev },
            None => prev,
        }
    }
}

/// First-match search by id, returning the position.
pub fn find_layer_position(layers: &Vec<Layer>, id: &str) -> (r: Option<usize>)
    ensures
        match r {
            Some(i) => i < layers@.len() && layers@[i as int].id@ == id@
                && forall|j: int| 0 <= j < i ==> layers@[j].id@ != id@,
            None => forall|j: int| 0 <= j < layers@.len() ==> layers@[j].id@ != id@,
        },
        r == match layer_position(layers@, id@) { Some(i) => Some(i as usize), None => None::<usize> },
{
    let mut i: usize = 0;
    while i < layers.len()
        invariant
            i <= layers@.len(),
            forall|j: int| 0 <= j < i ==> layers@[j].id@ != id@,
        decreases layers@.len() - i,
    {
        if str_eq(layers[i].id.as_str(), id) {
            proof {
                let p = layer_position(layers@, id@);
                assert(p is Some);
                let c = p->0;
                assert(c == i) by {
                    if c < i {
                    } else if c > i {
                    }
                }
            }
            return Some(i);
        }
        i = i + 1;
    }
    None
}

impl Sprite {
    /// A new sprite with one empty layer named "Layer 1" and fresh ids.
    pub fn new(name: String, canvas_width: u32, canvas_height: u32) -> (s: Self)
        ensures
            s.name@ == name@,
            s.id@.len() == 36,
            s.format_version == 1,
            s.canvas_width == canvas_width,
            s.canvas_height == canvas_height,
            s.background_color_index == 0,
            s.layers@.len() == 1,
            s.layers@[0].name@ == "Layer 1"@,
            s.layers@[0].visible,
            !s.layers@[0].locked,
            s.layers@[0].elements@.len() == 0,
            s.layers@[0].group_id is None,
            s.layers@[0].socket is None,
            s.layer_groups@.len() == 0,
            s.animations@.len() == 0,
            s.reference_images@.len() == 0,
    {
        let layer = Layer::new(String::from_str("Layer 1"));
        Self {
            id: new_uuid(),
            name,
            format_version: 1,
            canvas_width,
            canvas_height,
            background_color_index: 0,
            layers: vec![layer],
            layer_groups: Vec::new(),
            animations: Vec::new(),
            reference_images: Vec::new(),
        }
    }

    /// Position of the first layer with id `id`, if any.
    pub fn layer_idx_by_id(&self, id: &str) -> (r: Option<usize>)
        ensures
            r == match layer_position(self.layers@, id@) { Some(i) => Some(i as usize), None => None::<usize> },
    {
        find_layer_position(&self.layers, id)
    }

    /// Positions of the layers that belong to group `group_id`, in order.
    pub fn layers_in_group(&self, group_id: &str) -> (r: Vec<usize>)
        ensures
            r@ == group_positions(self.layers@, group_id@, self.layers@.len() as int),
    {
        let mut r: Vec<usize> = Vec::new();
        let mut i: usize = 0;
        while i < self.layers.len()
            invariant
                i <= self.layers@.len(),
                r@ == group_positions(self.layers@, group_id@, i as int),
            decreases self.layers@.len() - i,
        {
            match &self.layers[i].group_id {
                Some(g) => {
                    if str_eq(g.as_str(), group_id) {
                        r.push(i);
                    }
                },
                None => {},
            }
            i = i + 1;
        }
        r
    }

    /// Number of elements over all layers.
    pub fn element_count(&self) -> (n: usize)
        requires
            layer_elements(self.layers@) <= usize::MAX,
        ensures
            n == layer_elements(self.layers@),
    {
        let mut total: usize = 0;
        let mut i: usize = 0;
        while i < self.layers.len()
            invariant
                i <= self.layers@.len(),
                layer_elements(self.layers@) <= usize::MAX,
                total == layer_elements(self.layers@.subrange(0, i as int)),
            decreases self.layers@.len() - i,
        {
            proof {
                assert(self.layers@.subrange(0, i + 1).drop_last() =~= self.layers@.subrange(0, i as int));
                lemma_layer_counts_prefix(self.layers@, i + 1);
            }
            total = total + self.layers[i].elements.len();
            i = i + 1;
        }
        assert(self.layers@.subrange(0, i as int) =~= self.layers@);
        total
    }

    /// Number of vertices over all layers.
    pub fn vertex_count(&self) -> (n: usize)
        requires
            layer_vertices(self.layers@) <= usize::MAX,
        ensures
            n == layer_vertices(self.layers@),
    {
        let mut total: usize = 0;
        let mut i: usize = 0;
        while i < self.layers.len()
            invariant
                i <= self.layers@.len(),
                layer_vertices(self.layers@) <= usize::MAX,
                total == layer_vertices(self.layers@.subrange(0, i as int)),
            decreases self.layers@.len() - i,
        {
            proof {
                assert(self.layers@.subrange(0, i + 1).drop_last() =~= self.layers@.subrange(0, i as int));
                lemma_layer_counts_prefix(self.layers@, i + 1);
            }
            let v = self.layers[i].vertex_count();
            total = total + v;
            i = i + 1;
        }
        assert(self.layers@.subrange(0, i as int) =~= self.layers@);
        total
    }

    pub fn layer_count(&self) -> (n: usize)
        ensures
            n == self.layers@.len(),
    {
        self.layers.len()
    }
}


impl Snapshot for StrokeElement {
    fn snapshot(&self) -> (r: Self) {
        StrokeElement {
            id: self.id.clone(),
            name: clone_opt(&self.name),
            vertex_ids: clone_ids(&self.vertex_ids),
            closed: self.closed,
            curve_mode: self.curve_mode,
            stroke_color_index: self.stroke_color_index,
            fill_color_index: self.fill_color_index,
            gradient_fill: self.gradient_fill,
            hatch_fill_id: clone_opt(&self.hatch_fill_id),
        }
    }
}

/// A socket's content.
pub struct SocketView {
    pub parent_element_id: Seq<char>,
    pub parent_vertex_id: Seq<char>,
}

impl View for Socket {
    type V = SocketView;

    open spec fn view(&self) -> SocketView {
        SocketView { parent_element_id: self.parent_element_id@, parent_vertex_id: self.parent_vertex_id@ }
    }
}

impl Snapshot for Socket {
    fn snapshot(&self) -> (r: Self) {
        Socket { parent_element_id: self.parent_element_id.clone(), parent_vertex_id: self.parent_vertex_id.clone() }
    }
}

/// A layer group's content.
pub struct LayerGroupView {
    pub id: Seq<char>,
    pub name: Seq<char>,
    pub collapsed: bool,
    pub visible: bool,
    pub locked: bool,
}

impl View for LayerGroup {
    type V = LayerGroupView;

    open spec fn view(&self) -> LayerGroupView {
        LayerGroupView { id: self.id@, name: self.name@, collapsed: self.collapsed, visible: self.visible, locked: self.locked }
    }
}

impl Snapshot for LayerGroup {
    fn snapshot(&self) -> (r: Self) {
        LayerGroup { id: self.id.clone(), name: self.name.clone(), collapsed: self.collapsed, visible: self.visible, locked: self.locked }
    }
}

/// The contents of a list.
pub open spec fn views_of<T: View>(v: Seq<T>) -> Seq<T::V> {
    v.map_values(|t: T| t@)
}

/// A copy of every item of a list, with the same contents.
pub fn snapshot_all<T: Snapshot>(v: &Vec<T>) -> (r: Vec<T>)
    ensures
        views_of(r@) == views_of(v@),
{
    let mut out: Vec<T> = Vec::new();
    let mut i: usize = 0;
    while i < v.len()
        invariant
            i <= v@.len(),
            out@.len() == i,
            forall|j: int| 0 <= j < i ==> (#[trigger] out@[j])@ == v@[j]@,
        decreases v@.len() - i,
    {
        out.push(v[i].snapshot());
        i = i + 1;
    }
    assert(views_of(out@) =~= views_of(v@));
    out
}

/// A layer's content.
pub struct LayerView {
    pub id: Seq<char>,
    pub name: Seq<char>,
    pub visible: bool,
    pub locked: bool,
    pub elements: Seq<StrokeElementView>,
    pub group_id: Option<Seq<char>>,
    pub socket: Option<SocketView>,
}

impl View for Layer {
    type V = LayerView;

    open spec fn view(&self) -> LayerView {
        LayerView {
            id: self.id@,
            name: self.name@,
            visible: self.visible,
            locked: self.locked,
            elements: views_of(self.elements@),
            group_id: opt_view(self.group_id),
            socket: match self.socket {
                Some(k) => Some(k@),
                None => None,
            },
        }
    }
}

impl Snapshot for Layer {
    fn snapshot(&self) -> (r: Self) {
        let socket = match &self.socket {
            Some(k) => Some(k.snapshot()),
            None => None,
        };
        Layer {
            id: self.id.clone(),
            name: self.name.clone(),
            visible: self.visible,
            locked: self.locked,
            elements: snapshot_all(&self.elements),
            group_id: clone_opt(&self.group_id),
            socket,
        }
    }
}

/// A sprite's content.
pub struct SpriteView {
    pub id: Seq<char>,
    pub name: Seq<char>,
    pub format_version: u32,
    pub canvas_width: u32,
    pub canvas_height: u32,
    pub background_color_index: u8,
    pub layers: Seq<LayerView>,
    pub layer_groups: Seq<LayerGroupView>,
    pub animations: Seq<SequenceView>,
    pub reference_images: Seq<ReferenceImageView>,
}

impl View for Sprite {
    type V = SpriteView;

    open spec fn view(&self) -> SpriteView {
        SpriteView {
            id: self.id@,
            name: self.name@,
            format_version: self.format_version,
            canvas_width: self.canvas_width,
            canvas_height: self.canvas_height,
            background_color_index: self.background_color_index,
            layers: views_of(self.layers@),
            layer_groups: views_of(self.layer_groups@),
            animations: views_of(self.animations@),
            reference_images: views_of(self.reference_images@),
        }
    }
}

impl Snapshot for Sprite {
    fn snapshot(&self) -> (r: Self) {
        Sprite {
            id: self.id.clone(),
            name: self.name.clone(),
            format_version: self.format_version,
            canvas_width: self.canvas_width,
            canvas_height: self.canvas_height,
            background_color_index: self.background_color_index,
            layers: snapshot_all(&self.layers),
            layer_groups: snapshot_all(&self.layer_groups),
            animations: snapshot_all(&self.animations),
            reference_images: snapshot_all(&self.reference_images),
        }
    }
}


/// A reference image shown behind the canvas: its id and file path, and whether it
/// is locked and shown. (Its placement, scale and opacity are kept by the editor.)
#[derive(Debug, Clone)]
pub struct ReferenceImage {
    pub id: String,
    pub path: String,
    pub locked: bool,
    pub visible: bool,
}

/// A reference image's content.
pub struct ReferenceImageView {
    pub id: Seq<char>,
    pub path: Seq<char>,
    pub locked: bool,
    pub visible: bool,
}

impl View for ReferenceImage {
    type V = ReferenceImageView;

    open spec fn view(&self) -> ReferenceImageView {
        ReferenceImageView { id: self.id@, path: self.path@, locked: self.locked, visible: self.visible }
    }
}

impl Snapshot for ReferenceImage {
    fn snapshot(&self) -> (r: Self) {
        ReferenceImage { id: self.id.clone(), path: self.path.clone(), locked: self.locked, visible: self.visible }
    }
}

impl ReferenceImage {
    /// A new unlocked, shown reference image of the file at `path`, with a fresh id.
    pub fn new(path: String) -> (r: Self)
        ensures
            r.id@.len() == 36,
            r.path == path,
            !r.locked,
            r.visible,
    {
        ReferenceImage { id: new_uuid(), path, locked: false, visible: true }
    }
}

impl Identified for ReferenceImage {
    open spec fn ident(&self) -> Seq<char> {
        self.id@
    }

    fn id_str(&self) -> (r: &str) {
        self.id.as_str()
    }
}

/// An item with an id.
pub trait Identified: Snapshot {
    spec fn ident(&self) -> Seq<char>;

    fn id_str(&self) -> (r: &str)
        ensures
            r@ == self.ident();
}

/// The items whose id is not `id`, in order.
pub open spec fn without_ident<T: Identified>(s: Seq<T>, id: Seq<char>) -> Seq<T>
    decreases s.len(),
{
    if s.len() == 0 {
        s
    } else {
        without_ident(s.drop_last(), id) + if s.last().ident() == id { Seq::<T>::empty() } else { seq![s.last()] }
    }
}

/// Position of the first item with id `id`.
pub open spec fn ident_position<T: Identified>(s: Seq<T>, id: Seq<char>) -> Option<int> {
    if exists|i: int| 0 <= i < s.len() && #[trigger] s[i].ident() == id {
        Some(choose|i: int| 0 <= i < s.len() && #[trigger] s[i].ident() == id && forall|j: int| 0 <= j < i ==> s[j].ident() != id)
    } else {
        None
    }
}

/// Remove every item with id `id` (a copy of the others is kept, in order).
pub fn remove_by_id<T: Identified>(items: &mut Vec<T>, id: &str)
    ensures
        views_of(final(items)@) == views_of(without_ident(old(items)@, id@)),
{
    let ghost l0 = items@;
    let mut kept: Vec<T> = Vec::new();
    let mut i: usize = 0;
    while i < items.len()
        invariant
            i <= items@.len(),
            l0 == items@,
            views_of(kept@) == views_of(without_ident(l0.subrange(0, i as int), id@)),
        decreases items@.len() - i,
    {
        proof {
            assert(l0.subrange(0, i + 1).drop_last() =~= l0.subrange(0, i as int));
            assert(l0.subrange(0, i + 1).last() == l0[i as int]);
        }
        let ghost k0 = kept@;
        let ghost w0 = without_ident(l0.subrange(0, i as int), id@);
        if !str_eq(items[i].id_str(), id) {
            let c = items[i].snapshot();
            kept.push(c);
            proof {
                let t = w0 + seq![l0[i as int]];
                assert(views_of(k0).len() == views_of(w0).len());
                assert forall|j: int| 0 <= j < kept@.len() implies #[trigger] views_of(kept@)[j] == views_of(t)[j] by {
                    if j < k0.len() {
                        assert(views_of(k0)[j] == views_of(w0)[j]);
                    }
                }
                assert(views_of(kept@) =~= views_of(t));
            }
        } else {
            assert(w0 + Seq::<T>::empty() =~= w0);
        }
        i = i + 1;
    }
    assert(l0.subrange(0, i as int) =~= l0);
    *items = kept;
}

/// Position of the first item with id `id`, if any.
pub fn position_by_id<T: Identified>(items: &Vec<T>, id: &str) -> (r: Option<usize>)
    ensures
        match r {
            Some(i) => ident_position(items@, id@) == Some(i as int) && i < items@.len() && items@[i as int].ident() == id@,
            None => ident_position(items@, id@) is None,
        },
{
    let mut i: usize = 0;
    while i < items.len()
        invariant
            i <= items@.len(),
            forall|j: int| 0 <= j < i ==> items@[j].ident() != id@,
        decreases items@.len() - i,
    {
        if str_eq(items[i].id_str(), id) {
            proof {
                assert(items@[i as int].ident() == id@);
                let p = choose|p: int| 0 <= p < items@.len() && #[trigger] items@[p].ident() == id@
                    && forall|j: int| 0 <= j < p ==> items@[j].ident() != id@;
                if p < i {
                } else if p > i {
                    assert(items@[i as int].ident() != id@);
                }
                assert(p == i);
            }
            return Some(i);
        }
        i = i + 1;
    }
    None
}

} // verus!
