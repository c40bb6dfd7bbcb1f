use vstd::prelude::*;
use crate::model::sprite::{StrokeElement, new_uuid};
use crate::state::editor::id_views;
use crate::text::str_eq;
use crate::state::history::Snapshot;

verus! {

/// Pieces left after erasing vertex `idx` of a path: each piece's vertices and
/// whether it keeps the element's identity.
///
/// A closed path of at most two vertices disappears; one of three loses the vertex
/// and stays in order; a longer one opens at the gap, starting after it. An open
/// path loses an end vertex (and disappears when fewer than two remain), or splits
/// around an interior vertex into the part before and the part after, each kept
/// only with at least two vertices; the part after gets a new identity.
pub open spec fn vertex_erase_pieces<A>(s: Seq<A>, closed: bool, idx: int) -> Seq<(Seq<A>, bool)> {
    let n = s.len() as int;
    if closed {
        if n <= 2 {
            Seq::empty()
        } else if n == 3 {
            seq![(s.remove(idx), true)]
        } else {
            seq![(s.subrange(idx + 1, n) + s.subrange(0, idx), true)]
        }
    } else if idx == 0 || idx == n - 1 {
        let rest = s.remove(idx);
        if rest.len() < 2 { Seq::empty() } else { seq![(rest, true)] }
    } else {
        split_pieces(s.subrange(0, idx), s.subrange(idx + 1, n))
    }
}

/// The two halves of an open path that was cut, each kept with at least two vertices.
pub open spec fn split_pieces<A>(left: Seq<A>, right: Seq<A>) -> Seq<(Seq<A>, bool)> {
    (if left.len() >= 2 { seq![(left, true)] } else { Seq::empty() })
        + (if right.len() >= 2 { seq![(right, false)] } else { Seq::empty() })
}

/// Pieces left after erasing the segment from vertex `seg` to the next one. A closed
/// path opens there (its vertices start right after the gap); an open path splits
/// into the vertices up to `seg` and those after it.
pub open spec fn segment_erase_pieces<A>(s: Seq<A>, closed: bool, seg: int) -> Seq<(Seq<A>, bool)> {
    let n = s.len() as int;
    if closed {
        if n < 2 {
            Seq::empty()
        } else {
            let st = (seg + 1) % n;
            seq![(s.subrange(st, n) + s.subrange(0, st), true)]
        }
    } else {
        split_pieces(s.subrange(0, seg + 1), s.subrange(seg + 1, n))
    }
}

fn push_split<V>(out: &mut Vec<(Vec<V>, bool)>, left: Vec<V>, right: Vec<V>)
    requires
        old(out)@.len() == 0,
    ensures
        final(out)@.len() == split_pieces(left@, right@).len(),
        forall|k: int| 0 <= k < final(out)@.len() ==> (#[trigger] final(out)@[k]).0@ == split_pieces(left@, right@)[k].0
            && final(out)@[k].1 == split_pieces(left@, right@)[k].1,
{
    let ghost l = left@;
    let ghost r = right@;
    if left.len() >= 2 {
        out.push((left, true));
    }
    if right.len() >= 2 {
        out.push((right, false));
    }
}

/// Split a path's vertices after erasing vertex `idx` (see `vertex_erase_pieces`).
pub fn erase_vertex_pieces<V>(vertices: Vec<V>, closed: bool, idx: usize) -> (r: Vec<(Vec<V>, bool)>)
    requires
        idx < vertices@.len(),
    ensures
        r@.len() == vertex_erase_pieces(vertices@, closed, idx as int).len(),
        forall|k: int| 0 <= k < r@.len() ==> (#[trigger] r@[k]).0@ == vertex_erase_pieces(vertices@, closed, idx as int)[k].0
            && r@[k].1 == vertex_erase_pieces(vertices@, closed, idx as int)[k].1,
{
    let ghost s = vertices@;
    let n = vertices.len();
    let mut v = vertices;
    let mut out: Vec<(Vec<V>, bool)> = Vec::new();
    if closed {
        if n <= 2 {
            return out;
        }
        if n == 3 {
            v.remove(idx);
            out.push((v, true));
            return out;
        }
        let mut tail = v.split_off(idx + 1);
        v.pop();
        tail.append(&mut v);
        assert(tail@ =~= s.subrange(idx + 1, n as int) + s.subrange(0, idx as int));
        out.push((tail, true));
        out
    } else if idx == 0 || idx == n - 1 {
        v.remove(idx);
        if v.len() >= 2 {
            out.push((v, true));
        }
        out
    } else {
        let right = v.split_off(idx + 1);
        v.pop();
        assert(v@ =~= s.subrange(0, idx as int));
        push_split(&mut out, v, right);
        out
    }
}

/// Split a path's vertices after erasing the segment that starts at vertex
/// `segment_index` (see `segment_erase_pieces`).
pub fn erase_segment_pieces<V>(vertices: Vec<V>, closed: bool, segment_index: usize) -> (r: Vec<(Vec<V>, bool)>)
    requires
        closed ==> segment_index + vertices@.len() <= usize::MAX,
        !closed ==> segment_index < vertices@.len(),
    ensures
        r@.len() == segment_erase_pieces(vertices@, closed, segment_index as int).len(),
        forall|k: int| 0 <= k < r@.len() ==> (#[trigger] r@[k]).0@ == segment_erase_pieces(vertices@, closed, segment_index as int)[k].0
            && r@[k].1 == segment_erase_pieces(vertices@, closed, segment_index as int)[k].1,
{
    let ghost s = vertices@;
    let n = vertices.len();
    let mut v = vertices;
    let mut out: Vec<(Vec<V>, bool)> = Vec::new();
    if closed {
        if n < 2 {
            return out;
        }
        let st = (segment_index + 1) % n;
        let mut tail = v.split_off(st);
        tail.append(&mut v);
        out.push((tail, true));
        out
    } else {
        let right = v.split_off(segment_index + 1);
        push_split(&mut out, v, right);
        out
    }
}


/// The text of an optional string.
pub open spec fn opt_view(o: Option<String>) -> Option<Seq<char>> {
    match o {
        Some(s) => Some(s@),
        None => None,
    }
}

/// Two elements with the same content (texts compared by their characters).
pub open spec fn same_element(a: StrokeElement, b: StrokeElement) -> bool {
    a@ == b@
}

/// `c` is the element made of a piece of `parent`: the piece's vertices, open, unnamed,
/// the parent's colors and hatch fill, and the parent's id when the piece keeps it
/// (else a fresh 36-character id).
pub open spec fn is_piece_of(parent: StrokeElement, piece: (Seq<Seq<char>>, bool), c: StrokeElement) -> bool {
    &&& piece.1 ==> c.id@ == parent.id@
    &&& !piece.1 ==> c.id@.len() == 36
    &&& c.name is None
    &&& id_views(c.vertex_ids@) == piece.0
    &&& !c.closed
    &&& c.curve_mode == parent.curve_mode
    &&& c.stroke_color_index == parent.stroke_color_index
    &&& c.fill_color_index == parent.fill_color_index
    &&& c.gradient_fill == parent.gradient_fill
    &&& opt_view(c.hatch_fill_id) == opt_view(parent.hatch_fill_id)
}

/// Position of the first vertex with id `id`.
pub open spec fn first_position(ids: Seq<Seq<char>>, id: Seq<char>) -> Option<int> {
    if ids.contains(id) {
        Some(choose|i: int| 0 <= i < ids.len() && ids[i] == id && forall|j: int| 0 <= j < i ==> ids[j] != id)
    } else {
        None
    }
}

/// Position of the first id equal to `id`.
pub fn find_id(ids: &Vec<String>, id: &str) -> (r: Option<usize>)
    ensures
        match r {
            Some(i) => first_position(id_views(ids@), id@) == Some(i as int) && i < ids@.len(),
            None => first_position(id_views(ids@), id@) is None,
        },
{
    let ghost v = id_views(ids@);
    let mut i: usize = 0;
    while i < ids.len()
        invariant
            v == id_views(ids@),
            i <= ids@.len(),
            forall|j: int| 0 <= j < i ==> v[j] != id@,
        decreases ids@.len() - i,
    {
        if str_eq(ids[i].as_str(), id) {
            proof {
                assert(v[i as int] == id@);
                let p = choose|p: int| 0 <= p < v.len() && v[p] == id@ && forall|q: int| 0 <= q < p ==> v[q] != id@;
                if p < i {
                } else if p > i {
                    assert(v[i as int] != id@);
                }
                assert(p == i);
            }
            return Some(i);
        }
        i = i + 1;
    }
    proof {
        if v.contains(id@) {
            let j = choose|j: int| 0 <= j < v.len() && v[j] == id@;
        }
    }
    None
}

pub(crate) fn clone_ids(ids: &Vec<String>) -> (r: Vec<String>)
    ensures
        id_views(r@) == id_views(ids@),
{
    let mut out: Vec<String> = Vec::new();
    let mut i: usize = 0;
    while i < ids.len()
        invariant
            i <= ids@.len(),
            out@.len() == i,
            forall|j: int| 0 <= j < i ==> (#[trigger] out@[j])@ == ids@[j]@,
        decreases ids@.len() - i,
    {
        out.push(ids[i].clone());
        i = i + 1;
    }
    assert(id_views(out@) =~= id_views(ids@));
    out
}

pub(crate) fn clone_opt(o: &Option<String>) -> (r: Option<String>)
    ensures
        opt_view(r) == opt_view(*o),
{
    match o {
        Some(s) => Some(s.clone()),
        None => None,
    }
}

pub(crate) fn copy_element(e: &StrokeElement) -> (r: StrokeElement)
    ensures
        same_element(r, *e),
{
    e.snapshot()
}

/// Result of erasing a vertex or a segment: zero, one or two elements.
pub struct SplitResult {
    pub new_elements: Vec<StrokeElement>,
}

proof fn lemma_split_views(left: Seq<String>, right: Seq<String>)
    ensures
        split_pieces(id_views(left), id_views(right)).len() == split_pieces(left, right).len(),
        forall|k: int| 0 <= k < split_pieces(left, right).len() ==> split_pieces(id_views(left), id_views(right))[k]
            == (id_views(#[trigger] split_pieces(left, right)[k].0), split_pieces(left, right)[k].1),
{
}

proof fn lemma_vertex_pieces_views(s: Seq<String>, closed: bool, idx: int)
    requires
        0 <= idx < s.len(),
    ensures
        vertex_erase_pieces(id_views(s), closed, idx).len() == vertex_erase_pieces(s, closed, idx).len(),
        forall|k: int| 0 <= k < vertex_erase_pieces(s, closed, idx).len() ==> vertex_erase_pieces(id_views(s), closed, idx)[k]
            == (id_views(#[trigger] vertex_erase_pieces(s, closed, idx)[k].0), vertex_erase_pieces(s, closed, idx)[k].1),
{
    let n = s.len() as int;
    assert(id_views(s.remove(idx)) =~= id_views(s).remove(idx));
    assert(id_views(s.subrange(idx + 1, n) + s.subrange(0, idx)) =~= id_views(s).subrange(idx + 1, n) + id_views(s).subrange(0, idx));
    assert(id_views(s.subrange(0, idx)) =~= id_views(s).subrange(0, idx));
    assert(id_views(s.subrange(idx + 1, n)) =~= id_views(s).subrange(idx + 1, n));
    lemma_split_views(s.subrange(0, idx), s.subrange(idx + 1, n));
}

proof fn lemma_segment_pieces_views(s: Seq<String>, closed: bool, seg: int)
    requires
        0 <= seg,
        !closed ==> seg < s.len(),
    ensures
        segment_erase_pieces(id_views(s), closed, seg).len() == segment_erase_pieces(s, closed, seg).len(),
        forall|k: int| 0 <= k < segment_erase_pieces(s, closed, seg).len() ==> segment_erase_pieces(id_views(s), closed, seg)[k]
            == (id_views(#[trigger] segment_erase_pieces(s, closed, seg)[k].0), segment_erase_pieces(s, closed, seg)[k].1),
{
    let n = s.len() as int;
    if closed && n >= 2 {
        let st = (seg + 1) % n;
        assert(id_views(s.subrange(st, n) + s.subrange(0, st)) =~= id_views(s).subrange(st, n) + id_views(s).subrange(0, st));
    }
    if !closed {
        assert(id_views(s.subrange(0, seg + 1)) =~= id_views(s).subrange(0, seg + 1));
        assert(id_views(s.subrange(seg + 1, n)) =~= id_views(s).subrange(seg + 1, n));
        lemma_split_views(s.subrange(0, seg + 1), s.subrange(seg + 1, n));
    }
}

fn piece_elements(parent: &StrokeElement, pieces: Vec<(Vec<String>, bool)>) -> (r: SplitResult)
    ensures
        r.new_elements@.len() == pieces@.len(),
        forall|k: int| 0 <= k < pieces@.len() ==> is_piece_of(*parent, (id_views((#[trigger] pieces@[k]).0@), pieces@[k].1), r.new_elements@[k]),
{
    let ghost ps = pieces@;
    let mut out: Vec<StrokeElement> = Vec::new();
    let mut rest = pieces;
    let mut firsts: Vec<(Vec<String>, bool)> = Vec::new();
    // take the pieces back out in order
    while rest.len() > 0
        invariant
            firsts@.len() + rest@.len() == ps.len(),
            forall|j: int| 0 <= j < firsts@.len() ==> #[trigger] firsts@[j] == ps[ps.len() - 1 - j],
            forall|j: int| 0 <= j < rest@.len() ==> #[trigger] rest@[j] == ps[j],
        decreases rest@.len(),
    {
        let p = rest.pop().unwrap();
        firsts.push(p);
    }
    while firsts.len() > 0
        invariant
            out@.len() + firsts@.len() == ps.len(),
            forall|j: int| 0 <= j < firsts@.len() ==> #[trigger] firsts@[j] == ps[ps.len() - 1 - j],
            forall|k: int| 0 <= k < out@.len() ==> is_piece_of(*parent, (id_views(ps[k].0@), ps[k].1), #[trigger] out@[k]),
        decreases firsts@.len(),
    {
        let (ids, keeps) = firsts.pop().unwrap();
        let id = if keeps { parent.id.clone() } else { new_uuid() };
        out.push(StrokeElement {
            id,
            name: None,
            vertex_ids: ids,
            closed: false,
            curve_mode: parent.curve_mode,
            stroke_color_index: parent.stroke_color_index,
            fill_color_index: parent.fill_color_index,
            gradient_fill: parent.gradient_fill,
            hatch_fill_id: clone_opt(&parent.hatch_fill_id),
        });
    }
    SplitResult { new_elements: out }
}

/// Erase the first vertex with id `vertex_id` from an element (see
/// `vertex_erase_pieces`); an element without such a vertex comes back unchanged.
pub fn erase_vertex(element: &StrokeElement, vertex_id: &str) -> (r: SplitResult)
    ensures
        match first_position(id_views(element.vertex_ids@), vertex_id@) {
            None => r.new_elements@.len() == 1 && same_element(r.new_elements@[0], *element),
            Some(idx) => {
                let ps = vertex_erase_pieces(id_views(element.vertex_ids@), element.closed, idx);
                &&& r.new_elements@.len() == ps.len()
                &&& forall|k: int| 0 <= k < ps.len() ==> is_piece_of(*element, #[trigger] ps[k], r.new_elements@[k])
            },
        },
{
    match find_id(&element.vertex_ids, vertex_id) {
        None => {
            let mut v: Vec<StrokeElement> = Vec::new();
            v.push(copy_element(element));
            SplitResult { new_elements: v }
        },
        Some(idx) => {
            let ids = clone_ids(&element.vertex_ids);
            let ghost s = ids@;
            assert(s.len() == id_views(s).len());
            let pieces = erase_vertex_pieces(ids, element.closed, idx);
            let ghost pv = pieces@;
            proof {
                lemma_vertex_pieces_views(s, element.closed, idx as int);
            }
            let r = piece_elements(element, pieces);
            proof {
                let ps = vertex_erase_pieces(id_views(element.vertex_ids@), element.closed, idx as int);
                assert(ps == vertex_erase_pieces(id_views(s), element.closed, idx as int));
                assert forall|k: int| 0 <= k < ps.len() implies is_piece_of(*element, #[trigger] ps[k], r.new_elements@[k]) by {
                    assert(pv[k].0@ == vertex_erase_pieces(s, element.closed, idx as int)[k].0);
                    assert(ps[k] == (id_views(vertex_erase_pieces(s, element.closed, idx as int)[k].0), vertex_erase_pieces(s, element.closed, idx as int)[k].1));
                }
            }
            r
        },
    }
}

/// Erase the segment that starts at vertex `segment_index` (see `segment_erase_pieces`).
pub fn erase_segment(element: &StrokeElement, segment_index: usize) -> (r: SplitResult)
    requires
        element.closed ==> segment_index + element.vertex_ids@.len() <= usize::MAX,
        !element.closed ==> segment_index < element.vertex_ids@.len(),
    ensures
        ({
            let ps = segment_erase_pieces(id_views(element.vertex_ids@), element.closed, segment_index as int);
            &&& r.new_elements@.len() == ps.len()
            &&& forall|k: int| 0 <= k < ps.len() ==> is_piece_of(*element, #[trigger] ps[k], r.new_elements@[k])
        }),
{
    let ids = clone_ids(&element.vertex_ids);
    let ghost s = ids@;
    assert(s.len() == id_views(s).len());
    assert(element.vertex_ids@.len() == id_views(element.vertex_ids@).len());
    let pieces = erase_segment_pieces(ids, element.closed, segment_index);
    let ghost pv = pieces@;
    proof {
        lemma_segment_pieces_views(s, element.closed, segment_index as int);
    }
    let r = piece_elements(element, pieces);
    proof {
        let ps = segment_erase_pieces(id_views(element.vertex_ids@), element.closed, segment_index as int);
        assert(ps == segment_erase_pieces(id_views(s), element.closed, segment_index as int));
        assert forall|k: int| 0 <= k < ps.len() implies is_piece_of(*element, #[trigger] ps[k], r.new_elements@[k]) by {
            assert(pv[k].0@ == segment_erase_pieces(s, element.closed, segment_index as int)[k].0);
            assert(ps[k] == (id_views(segment_erase_pieces(s, element.closed, segment_index as int)[k].0), segment_erase_pieces(s, element.closed, segment_index as int)[k].1));
        }
    }
    r
}

} // verus!
