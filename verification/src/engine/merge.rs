use vstd::prelude::*;
use crate::model::sprite::StrokeElement;
use crate::state::editor::id_views;
use crate::engine::eraser::{opt_view, clone_opt, clone_ids};

verus! {

/// Which end of a path.
#[derive(Debug, Clone, Copy, PartialEq, Eq, Structural)]
pub enum VertexEnd {
    Start,
    End,
}

/// A path without its first vertex (empty stays empty).
pub open spec fn without_first<A>(s: Seq<A>) -> Seq<A> {
    if s.len() == 0 { s } else { s.subrange(1, s.len() as int) }
}

/// A path without its last vertex, walked backwards.
pub open spec fn reversed_without_last<A>(s: Seq<A>) -> Seq<A> {
    let m = if s.len() == 0 { 0 } else { s.len() - 1 };
    Seq::new(m as nat, |i: int| s[m - 1 - i])
}

/// Vertices of a new stroke merged into an existing path: the stroke's vertex that
/// touches the existing endpoint is dropped, and the stroke is walked backwards
/// whenever it goes in front of the existing vertices or ends at their end.
pub open spec fn merged_path<A>(existing: Seq<A>, existing_end: VertexEnd, new: Seq<A>, new_end: VertexEnd) -> Seq<A> {
    match (existing_end, new_end) {
        (VertexEnd::End, VertexEnd::Start) => existing + without_first(new),
        (VertexEnd::Start, VertexEnd::End) => reversed_without_last(new) + existing,
        (VertexEnd::End, VertexEnd::End) => existing + reversed_without_last(new),
        (VertexEnd::Start, VertexEnd::Start) => reversed_without_last(new) + existing,
    }
}

/// Vertices of two paths joined at their endpoints: the source goes after the
/// target's end or before its start, without its first vertex (walked forwards when
/// it joins at its start) or without its last (walked backwards when it joins at its
/// end).
pub open spec fn joined_path<A>(target: Seq<A>, target_end: VertexEnd, source: Seq<A>, source_end: VertexEnd) -> Seq<A> {
    match (target_end, source_end) {
        (VertexEnd::End, VertexEnd::Start) => target + without_first(source),
        (VertexEnd::End, VertexEnd::End) => target + reversed_without_last(source),
        (VertexEnd::Start, VertexEnd::End) => reversed_without_last(source) + target,
        (VertexEnd::Start, VertexEnd::Start) => without_first(source) + target,
    }
}

fn take_without_first<V>(s: Vec<V>) -> (r: Vec<V>)
    ensures
        r@ == without_first(s@),
{
    let mut v = s;
    if v.len() > 0 {
        v.remove(0);
    }
    v
}

fn take_reversed_without_last<V>(s: Vec<V>) -> (r: Vec<V>)
    ensures
        r@ == reversed_without_last(s@),
{
    let ghost s0 = s@;
    let mut v = s;
    let mut out: Vec<V> = Vec::new();
    if v.len() > 0 {
        v.pop();
    }
    let ghost m: int = if s0.len() == 0 { 0 } else { s0.len() - 1 };
    while v.len() > 0
        invariant
            v@.len() + out@.len() == m,
            forall|j: int| 0 <= j < v@.len() ==> #[trigger] v@[j] == s0[j],
            forall|j: int| 0 <= j < out@.len() ==> #[trigger] out@[j] == s0[m - 1 - j],
        decreases v@.len(),
    {
        let x = v.pop().unwrap();
        out.push(x);
    }
    assert(out@ =~= reversed_without_last(s0));
    out
}

/// Splice the vertices of a new stroke onto an existing path (see `merged_path`).
pub fn merge_vertex_lists<V>(existing: Vec<V>, existing_end: VertexEnd, new_vertices: Vec<V>, new_end: VertexEnd) -> (r: Vec<V>)
    ensures
        r@ == merged_path(existing@, existing_end, new_vertices@, new_end),
{
    let ghost e0 = existing@;
    let ghost n0 = new_vertices@;
    let mut e = existing;
    match (existing_end, new_end) {
        (VertexEnd::End, VertexEnd::Start) => {
            let mut tail = take_without_first(new_vertices);
            e.append(&mut tail);
            e
        },
        (VertexEnd::End, VertexEnd::End) => {
            let mut tail = take_reversed_without_last(new_vertices);
            e.append(&mut tail);
            e
        },
        _ => {
            let mut head = take_reversed_without_last(new_vertices);
            head.append(&mut e);
            head
        },
    }
}

/// Join the vertices of two paths at their endpoints (see `joined_path`).
pub fn join_vertex_lists<V>(target: Vec<V>, target_end: VertexEnd, source: Vec<V>, source_end: VertexEnd) -> (r: Vec<V>)
    ensures
        r@ == joined_path(target@, target_end, source@, source_end),
{
    let mut t = target;
    match (target_end, source_end) {
        (VertexEnd::End, VertexEnd::Start) => {
            let mut tail = take_without_first(source);
            t.append(&mut tail);
            t
        },
        (VertexEnd::End, VertexEnd::End) => {
            let mut tail = take_reversed_without_last(source);
            t.append(&mut tail);
            t
        },
        (VertexEnd::Start, VertexEnd::End) => {
            let mut head = take_reversed_without_last(source);
            head.append(&mut t);
            head
        },
        (VertexEnd::Start, VertexEnd::Start) => {
            let mut head = take_without_first(source);
            head.append(&mut t);
            head
        },
    }
}

proof fn lemma_views_without_first(s: Seq<String>)
    ensures
        id_views(without_first(s)) == without_first(id_views(s)),
        id_views(reversed_without_last(s)) == reversed_without_last(id_views(s)),
{
    assert(id_views(without_first(s)) =~= without_first(id_views(s)));
    assert(id_views(reversed_without_last(s)) =~= reversed_without_last(id_views(s)));
}

/// Join two elements at their endpoints. The result keeps the target's id, name,
/// curve mode, colors and fills, is open, and has the joined vertices (see `joined_path`).
pub fn join_elements(target: &StrokeElement, target_end: VertexEnd, source: &StrokeElement, source_end: VertexEnd) -> (r: StrokeElement)
    ensures
        r.id@ == target.id@,
        opt_view(r.name) == opt_view(target.name),
        id_views(r.vertex_ids@) == joined_path(id_views(target.vertex_ids@), target_end, id_views(source.vertex_ids@), source_end),
        !r.closed,
        r.curve_mode == target.curve_mode,
        r.stroke_color_index == target.stroke_color_index,
        r.fill_color_index == target.fill_color_index,
        r.gradient_fill == target.gradient_fill,
        opt_view(r.hatch_fill_id) == opt_view(target.hatch_fill_id),
{
    let t = clone_ids(&target.vertex_ids);
    let s = clone_ids(&source.vertex_ids);
    let ghost (t0, s0) = (t@, s@);
    let ids = join_vertex_lists(t, target_end, s, source_end);
    proof {
        lemma_views_without_first(s0);
        assert(id_views(t0 + without_first(s0)) =~= id_views(t0) + id_views(without_first(s0)));
        assert(id_views(t0 + reversed_without_last(s0)) =~= id_views(t0) + id_views(reversed_without_last(s0)));
        assert(id_views(reversed_without_last(s0) + t0) =~= id_views(reversed_without_last(s0)) + id_views(t0));
        assert(id_views(without_first(s0) + t0) =~= id_views(without_first(s0)) + id_views(t0));
    }
    StrokeElement {
        id: target.id.clone(),
        name: clone_opt(&target.name),
        vertex_ids: ids,
        closed: false,
        curve_mode: target.curve_mode,
        stroke_color_index: target.stroke_color_index,
        fill_color_index: target.fill_color_index,
        gradient_fill: target.gradient_fill,
        hatch_fill_id: clone_opt(&target.hatch_fill_id),
    }
}

/// Merge a new stroke (its vertex ids) into an existing element. The result keeps
/// the existing id, name and fills, takes the new stroke's color and curve mode, is
/// open, and has the merged vertices (see `merged_path`).
pub fn merge_elements(
    existing: &StrokeElement,
    existing_end: VertexEnd,
    new_vertex_ids: &Vec<String>,
    new_end: VertexEnd,
    stroke_color_index: u8,
    curve_mode: bool,
) -> (r: StrokeElement)
    ensures
        r.id@ == existing.id@,
        opt_view(r.name) == opt_view(existing.name),
        id_views(r.vertex_ids@) == merged_path(id_views(existing.vertex_ids@), existing_end, id_views(new_vertex_ids@), new_end),
        !r.closed,
        r.curve_mode == curve_mode,
        r.stroke_color_index == stroke_color_index,
        r.fill_color_index == existing.fill_color_index,
        r.gradient_fill == existing.gradient_fill,
        opt_view(r.hatch_fill_id) == opt_view(existing.hatch_fill_id),
{
    let e = clone_ids(&existing.vertex_ids);
    let n = clone_ids(new_vertex_ids);
    let ghost (e0, n0) = (e@, n@);
    let ids = merge_vertex_lists(e, existing_end, n, new_end);
    proof {
        lemma_views_without_first(n0);
        assert(id_views(e0 + without_first(n0)) =~= id_views(e0) + id_views(without_first(n0)));
        assert(id_views(e0 + reversed_without_last(n0)) =~= id_views(e0) + id_views(reversed_without_last(n0)));
        assert(id_views(reversed_without_last(n0) + e0) =~= id_views(reversed_without_last(n0)) + id_views(e0));
    }
    StrokeElement {
        id: existing.id.clone(),
        name: clone_opt(&existing.name),
        vertex_ids: ids,
        closed: false,
        curve_mode,
        stroke_color_index,
        fill_color_index: existing.fill_color_index,
        gradient_fill: existing.gradient_fill,
        hatch_fill_id: clone_opt(&existing.hatch_fill_id),
    }
}


/// Joining or merging at endpoints keeps every vertex but the one shared endpoint of
/// the added path: the result has one vertex less than the two paths together
/// (no vertex is dropped from an empty added path).
pub proof fn lemma_joined_length<A>(a: Seq<A>, a_end: VertexEnd, b: Seq<A>, b_end: VertexEnd)
    ensures
        b.len() > 0 ==> joined_path(a, a_end, b, b_end).len() == a.len() + b.len() - 1,
        b.len() > 0 ==> merged_path(a, a_end, b, b_end).len() == a.len() + b.len() - 1,
        b.len() == 0 ==> joined_path(a, a_end, b, b_end) == a,
        b.len() == 0 ==> merged_path(a, a_end, b, b_end) == a,
{
    if b.len() == 0 {
        assert(a + without_first(b) =~= a);
        assert(a + reversed_without_last(b) =~= a);
        assert(reversed_without_last(b) + a =~= a);
        assert(without_first(b) + a =~= a);
    }
}

} // verus!
