use vstd::prelude::*;

verus! {

/// A sequence walked backwards.
pub open spec fn backwards<A>(s: Seq<A>) -> Seq<A> {
    Seq::new(s.len(), |i: int| s[s.len() - 1 - i])
}

/// What becomes of a stroke drawn with symmetry on.
pub enum SymmetryJoin<V> {
    /// The mirrored copy is a separate element (none for an empty stroke).
    Separate { mirrored: Option<(Vec<V>, bool)> },
    /// Stroke and mirror form one element; the vertices at `snap` go exactly onto the axis.
    Joined { vertices: Vec<V>, closed: bool, snap: Vec<usize> },
}

/// The plan for a stroke `primary` whose mirror image (vertex by vertex, same order)
/// is `mirror`: the mirror runs backwards. A closed stroke, or one with no end on the
/// axis, gets a separate mirrored copy (closed like the stroke). With both ends on the
/// axis the stroke is followed by the mirror without its two ends and closed; with
/// only the last end on it, by the mirror without its first vertex; with only the
/// first end on it, the mirror comes first, followed by the stroke without its first
/// vertex. The vertex where the two meet (and the first one when closed) is snapped.
pub open spec fn symmetric_plan<A>(primary: Seq<A>, mirror: Seq<A>, closed: bool, first_on: bool, last_on: bool)
    -> Option<(Seq<A>, bool, bool, Seq<int>)>
{
    let m = backwards(mirror);
    let n = primary.len() as int;
    if n == 0 {
        None
    } else if closed {
        Some((m, true, false, Seq::empty()))
    } else if !first_on && !last_on {
        Some((m, false, false, Seq::empty()))
    } else if first_on && last_on {
        let mid = if m.len() > 2 { m.subrange(1, m.len() - 1) } else { Seq::empty() };
        Some((primary + mid, true, true, seq![n - 1, 0]))
    } else if last_on {
        let tail = if m.len() > 1 { m.subrange(1, m.len() as int) } else { Seq::empty() };
        Some((primary + tail, false, true, seq![n - 1]))
    } else {
        let tail = if n > 1 { primary.subrange(1, n) } else { Seq::empty() };
        Some((m + tail, false, true, seq![m.len() - 1]))
    }
}

/// What symmetric drawing does with a stroke of at least one vertex: a closed stroke,
/// or one with no end on the axis, gets a separate copy made of the mirror walked
/// backwards and closed exactly when the stroke is; otherwise stroke and mirror are
/// joined into one element, which is closed exactly when both ends are on the axis.
pub proof fn lemma_symmetric_plan_shape<A>(primary: Seq<A>, mirror: Seq<A>, closed: bool, first_on: bool, last_on: bool)
    requires
        primary.len() > 0,
        mirror.len() == primary.len(),
    ensures
        symmetric_plan(primary, mirror, closed, first_on, last_on) matches Some((vs, c, joined, snap)) && {
            &&& joined == (!closed && (first_on || last_on))
            &&& !joined ==> c == closed && vs.len() == mirror.len()
                && forall|i: int| 0 <= i < vs.len() ==> #[trigger] vs[i] == mirror[mirror.len() - 1 - i]
            &&& joined ==> c == (first_on && last_on)
            &&& joined ==> forall|k: int| 0 <= k < snap.len() ==> 0 <= #[trigger] snap[k] < vs.len()
        },
{
    let m = backwards(mirror);
    let n = primary.len() as int;
    if !closed && first_on && last_on {
        let mid = if m.len() > 2 { m.subrange(1, m.len() - 1) } else { Seq::empty() };
        assert((primary + mid).len() >= n);
    } else if !closed && last_on {
        let tail = if m.len() > 1 { m.subrange(1, m.len() as int) } else { Seq::empty() };
        assert((primary + tail).len() >= n);
    } else if !closed && first_on {
        let tail = if n > 1 { primary.subrange(1, n) } else { Seq::empty() };
        assert((m + tail).len() >= m.len());
    }
}

fn take_backwards<V>(s: Vec<V>) -> (r: Vec<V>)
    ensures
        r@ == backwards(s@),
{
    let ghost s0 = s@;
    let mut v = s;
    let mut out: Vec<V> = Vec::new();
    while v.len() > 0
        invariant
            v@.len() + out@.len() == s0.len(),
            forall|j: int| 0 <= j < v@.len() ==> #[trigger] v@[j] == s0[j],
            forall|j: int| 0 <= j < out@.len() ==> #[trigger] out@[j] == s0[s0.len() - 1 - j],
        decreases v@.len(),
    {
        let x = v.pop().unwrap();
        out.push(x);
    }
    assert(out@ =~= backwards(s0));
    out
}

/// Join a stroke with its mirror image when its ends touch the axis (see
/// `symmetric_plan`). `mirror` holds the mirrored vertices in the stroke's order.
pub fn try_join_symmetric<V>(primary: Vec<V>, mirror: Vec<V>, closed: bool, first_on: bool, last_on: bool) -> (r: SymmetryJoin<V>)
    requires
        mirror@.len() == primary@.len(),
    ensures
        match symmetric_plan(primary@, mirror@, closed, first_on, last_on) {
            None => r matches SymmetryJoin::Separate { mirrored: None },
            Some((vs, c, joined, snap)) => if joined {
                r matches SymmetryJoin::Joined { vertices, closed: c2, snap: s2 } && vertices@ == vs && c2 == c
                    && s2@.len() == snap.len() && forall|k: int| 0 <= k < snap.len() ==> #[trigger] s2@[k] == snap[k]
            } else {
                r matches SymmetryJoin::Separate { mirrored: Some((m, c2)) } && m@ == vs && c2 == c
            },
        },
        // a separate mirrored copy is closed exactly when the stroke is
        primary@.len() > 0 && (closed || (!first_on && !last_on)) ==> (r matches SymmetryJoin::Separate {
            mirrored: Some((m, c2)),
        } && c2 == closed && m@ == backwards(mirror@)),
{
    proof {
        if primary@.len() > 0 {
            lemma_symmetric_plan_shape(primary@, mirror@, closed, first_on, last_on);
        }
    }
    let ghost p0 = primary@;
    let n = primary.len();
    if n == 0 {
        return SymmetryJoin::Separate { mirrored: None };
    }
    let mut m = take_backwards(mirror);
    let ghost mb = m@;
    if closed {
        return SymmetryJoin::Separate { mirrored: Some((m, true)) };
    }
    if !first_on && !last_on {
        return SymmetryJoin::Separate { mirrored: Some((m, false)) };
    }
    let mut snap: Vec<usize> = Vec::new();
    if first_on && last_on {
        let mut joined = primary;
        if m.len() > 2 {
            m.pop();
            let mut mid = m.split_off(1);
            joined.append(&mut mid);
            assert(joined@ =~= p0 + mb.subrange(1, mb.len() - 1));
        } else {
            assert(joined@ =~= p0 + Seq::<V>::empty());
        }
        snap.push(n - 1);
        snap.push(0);
        SymmetryJoin::Joined { vertices: joined, closed: true, snap }
    } else if last_on {
        let mut joined = primary;
        if m.len() > 1 {
            let mut tail = m.split_off(1);
            joined.append(&mut tail);
        } else {
            assert(joined@ =~= p0 + Seq::<V>::empty());
        }
        snap.push(n - 1);
        SymmetryJoin::Joined { vertices: joined, closed: false, snap }
    } else {
        let mut p = primary;
        let ml = m.len();
        if n > 1 {
            let mut tail = p.split_off(1);
            m.append(&mut tail);
        } else {
            assert(m@ =~= mb + Seq::<V>::empty());
        }
        snap.push(ml - 1);
        SymmetryJoin::Joined { vertices: m, closed: false, snap }
    }
}

} // verus!
