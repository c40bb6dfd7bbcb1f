use vstd::prelude::*;
use crate::text::str_eq;

verus! {

/// Region within a texture atlas, in pixels.
#[derive(Debug, Clone, Copy, PartialEq, Eq, Structural)]
pub struct AtlasRegion {
    pub x: u32,
    pub y: u32,
    pub width: u32,
    pub height: u32,
}

/// Skin manifest entry: a skin's name and the atlas file drawn for it.
#[derive(Debug, Clone)]
pub struct SkinManifestEntry {
    pub name: String,
    pub atlas_file: String,
}


/// `a` comes before `b` when walking sequences in order and, within a sequence,
/// its chains in order.
pub open spec fn walks_before(a: (int, int), b: (int, int)) -> bool {
    a.0 < b.0 || (a.0 == b.0 && a.1 < b.1)
}

/// `p` names chain `p.1` of sequence `p.0`.
pub open spec fn chain_at(ids: Seq<Vec<String>>, p: (int, int)) -> bool {
    0 <= p.0 < ids.len() && 0 <= p.1 < ids[p.0]@.len()
}

pub open spec fn chain_id(ids: Seq<Vec<String>>, p: (int, int)) -> Seq<char> {
    ids[p.0]@[p.1]@
}

/// Chain `p` is the first in the walk with its id.
pub open spec fn first_with_id(ids: Seq<Vec<String>>, p: (int, int)) -> bool {
    &&& chain_at(ids, p)
    &&& forall|s: int, c: int| #![trigger ids[s]@[c]]
        chain_at(ids, (s, c)) && walks_before((s, c), p) ==> chain_id(ids, (s, c)) != chain_id(ids, p)
}

pub open spec fn pos(q: (usize, usize)) -> (int, int) {
    (q.0 as int, q.1 as int)
}

pub open spec fn positions(r: Seq<(usize, usize)>) -> Seq<(int, int)> {
    r.map_values(|q: (usize, usize)| pos(q))
}

/// The IK chains that the bone export lists, given the chain ids of each animation
/// sequence: each distinct id once, at its first occurrence (sequence position,
/// chain position), in walk order.
pub fn ik_chain_export_order(chain_ids: &Vec<Vec<String>>) -> (r: Vec<(usize, usize)>)
    ensures
        forall|k: int| 0 <= k < r@.len() ==> first_with_id(chain_ids@, pos(#[trigger] r@[k])),
        forall|k: int, j: int| 0 <= k < j < r@.len() ==> walks_before(pos(#[trigger] r@[k]), pos(#[trigger] r@[j])),
        forall|s: int, c: int| #![trigger first_with_id(chain_ids@, (s, c))] first_with_id(chain_ids@, (s, c))
            ==> positions(r@).contains((s, c)),
{
    let ids = chain_ids;
    let mut r: Vec<(usize, usize)> = Vec::new();
    let mut seen: Vec<&String> = Vec::new();
    let ghost mut sv: Seq<Seq<char>> = Seq::empty();
    let mut s: usize = 0;
    while s < ids.len()
        invariant
            s <= ids@.len(),
            seen@.len() == r@.len(),
            sv.len() == r@.len(),
            forall|k: int| 0 <= k < sv.len() ==> sv[k] == (*seen@[k])@,
            forall|k: int| 0 <= k < r@.len() ==> first_with_id(ids@, pos(#[trigger] r@[k])) && (r@[k].0 as int) < s
                && sv[k] == chain_id(ids@, pos(r@[k])),
            forall|k: int, j: int| 0 <= k < j < r@.len() ==> walks_before(pos(#[trigger] r@[k]), pos(#[trigger] r@[j])),
            forall|a: int, b: int| #![trigger ids@[a]@[b]] chain_at(ids@, (a, b)) && a < s
                ==> sv.contains(chain_id(ids@, (a, b))),
            forall|a: int, b: int| #![trigger first_with_id(ids@, (a, b))] first_with_id(ids@, (a, b)) && a < s
                ==> positions(r@).contains((a, b)),
        decreases ids@.len() - s,
    {
        let row = &ids[s];
        let mut c: usize = 0;
        while c < row.len()
            invariant
                s < ids@.len(),
                *row == ids@[s as int],
                c <= row@.len(),
                seen@.len() == r@.len(),
                sv.len() == r@.len(),
                forall|k: int| 0 <= k < sv.len() ==> sv[k] == (*seen@[k])@,
                forall|k: int| 0 <= k < r@.len() ==> first_with_id(ids@, pos(#[trigger] r@[k]))
                    && walks_before(pos(r@[k]), (s as int, c as int)) && sv[k] == chain_id(ids@, pos(r@[k])),
                forall|k: int, j: int| 0 <= k < j < r@.len() ==> walks_before(pos(#[trigger] r@[k]), pos(#[trigger] r@[j])),
                forall|a: int, b: int| #![trigger ids@[a]@[b]] chain_at(ids@, (a, b)) && walks_before((a, b), (s as int, c as int))
                    ==> sv.contains(chain_id(ids@, (a, b))),
                forall|a: int, b: int| #![trigger first_with_id(ids@, (a, b))] first_with_id(ids@, (a, b)) && walks_before((a, b), (s as int, c as int))
                    ==> positions(r@).contains((a, b)),
            decreases row@.len() - c,
        {
            let id = &row[c];
            let mut found = false;
            let mut k: usize = 0;
            while k < seen.len()
                invariant
                    k <= seen@.len(),
                    sv.len() == seen@.len(),
                    forall|q: int| 0 <= q < sv.len() ==> sv[q] == (*seen@[q])@,
                    found ==> sv.contains(id@),
                    !found ==> forall|q: int| 0 <= q < k ==> sv[q] != id@,
                decreases seen@.len() - k,
            {
                if str_eq(seen[k].as_str(), id.as_str()) {
                    found = true;
                    assert(sv[k as int] == id@);
                }
                k = k + 1;
            }
            let ghost p = (s as int, c as int);
            let ghost r0 = r@;
            let ghost sv0 = sv;
            proof {
                assert(chain_id(ids@, p) == id@);
                assert(found == sv0.contains(id@));
            }
            if !found {
                proof {
                    assert forall|a: int, b: int| #![trigger ids@[a]@[b]]
                        chain_at(ids@, (a, b)) && walks_before((a, b), p) implies chain_id(ids@, (a, b)) != chain_id(ids@, p) by {
                        assert(sv0.contains(chain_id(ids@, (a, b))));
                    }
                    assert(first_with_id(ids@, p));
                    sv = sv.push(id@);
                }
                r.push((s, c));
                seen.push(id);
                proof {
                    assert(r@.last() == (s, c));
                }
            } else {
                proof {
                    let q = choose|q: int| 0 <= q < sv0.len() && sv0[q] == id@;
                    let rq = pos(r@[q]);
                    assert(first_with_id(ids@, rq));
                    assert(chain_at(ids@, rq) && walks_before(rq, p));
                    assert(ids@[rq.0]@[rq.1] == ids@[rq.0]@[rq.1]);
                    assert(!first_with_id(ids@, p));
                }
            }
            proof {
                let pn = (s as int, c as int + 1);
                assert(sv.contains(id@)) by {
                    if !found {
                        assert(sv[sv.len() - 1] == id@);
                    }
                }
                assert forall|a: int, b: int| #![trigger ids@[a]@[b]] chain_at(ids@, (a, b)) && walks_before((a, b), pn)
                    implies sv.contains(chain_id(ids@, (a, b))) by {
                    if (a, b) != p {
                        assert(walks_before((a, b), p));
                        assert(sv0.contains(chain_id(ids@, (a, b))));
                        let q = choose|q: int| 0 <= q < sv0.len() && sv0[q] == chain_id(ids@, (a, b));
                        assert(sv[q] == sv0[q]);
                    }
                }
                assert forall|a: int, b: int| #![trigger first_with_id(ids@, (a, b))] first_with_id(ids@, (a, b)) && walks_before((a, b), pn)
                    implies positions(r@).contains((a, b)) by {
                    if (a, b) == p {
                        assert(positions(r@)[r@.len() - 1] == (a, b));
                    } else {
                        assert(walks_before((a, b), p));
                        assert(positions(r0).contains((a, b)));
                        let q = choose|q: int| 0 <= q < r0.len() && positions(r0)[q] == (a, b);
                        assert(r@[q] == r0[q]);
                        assert(positions(r@)[q] == (a, b));
                    }
                }
            }
            c = c + 1;
        }
        proof {
            assert forall|a: int, b: int| #![trigger ids@[a]@[b]] chain_at(ids@, (a, b)) && a < s + 1
                implies sv.contains(chain_id(ids@, (a, b))) by {
                assert(walks_before((a, b), (s as int, c as int)));
            }
            assert forall|a: int, b: int| #![trigger first_with_id(ids@, (a, b))] first_with_id(ids@, (a, b)) && a < s + 1
                implies positions(r@).contains((a, b)) by {
                assert(walks_before((a, b), (s as int, c as int)));
            }
        }
        s = s + 1;
    }
    r
}

/// Which kinds of dynamics a layer carries.
#[derive(Debug, Clone, Copy, PartialEq, Eq, Structural)]
pub struct LayerDynamicsFlags {
    pub volume_preserve: bool,
    pub has_look_at: bool,
    pub has_physics: bool,
    pub n_procedural: usize,
}

pub open spec fn has_dynamics(f: LayerDynamicsFlags) -> bool {
    f.volume_preserve || f.has_look_at || f.has_physics || f.n_procedural > 0
}

/// The positions, in order, of the layers with dynamics.
pub open spec fn dynamic_positions(fs: Seq<LayerDynamicsFlags>) -> Seq<usize>
    decreases fs.len(),
{
    if fs.len() == 0 {
        Seq::empty()
    } else {
        dynamic_positions(fs.drop_last()) + if has_dynamics(fs.last()) {
            seq![(fs.len() - 1) as usize]
        } else {
            Seq::<usize>::empty()
        }
    }
}

proof fn lemma_dynamic_positions(fs: Seq<LayerDynamicsFlags>)
    requires
        fs.len() <= usize::MAX,
    ensures
        forall|k: int| 0 <= k < dynamic_positions(fs).len() ==> (#[trigger] dynamic_positions(fs)[k] as int) < fs.len(),
        forall|k: int, j: int| 0 <= k < j < dynamic_positions(fs).len()
            ==> #[trigger] dynamic_positions(fs)[k] < #[trigger] dynamic_positions(fs)[j],
        forall|i: int| 0 <= i < fs.len() ==> (dynamic_positions(fs).contains(i as usize) <==> ({
            let f = #[trigger] fs[i];
            f.volume_preserve || f.has_look_at || f.has_physics || f.n_procedural > 0
        })),
    decreases fs.len(),
{
    if fs.len() > 0 {
        let pre = fs.drop_last();
        lemma_dynamic_positions(pre);
        let d0 = dynamic_positions(pre);
        let d = dynamic_positions(fs);
        let last = (fs.len() - 1) as usize;
        assert forall|k: int| 0 <= k < d.len() implies (#[trigger] d[k] as int) < fs.len() by {
            if k < d0.len() {
                assert(d[k] == d0[k]);
            }
        }
        assert forall|k: int, j: int| 0 <= k < j < d.len() implies #[trigger] d[k] < #[trigger] d[j] by {
            if j < d0.len() {
                assert(d[k] == d0[k] && d[j] == d0[j]);
            } else {
                assert(d[k] == d0[k]);
                assert(d[j] == last);
            }
        }
        assert forall|i: int| 0 <= i < fs.len() implies (d.contains(i as usize) <==> ({
            let f = #[trigger] fs[i];
            f.volume_preserve || f.has_look_at || f.has_physics || f.n_procedural > 0
        })) by {
            if i < fs.len() - 1 {
                assert(pre[i] == fs[i]);
                if d0.contains(i as usize) {
                    let k = choose|k: int| 0 <= k < d0.len() && d0[k] == i as usize;
                    assert(d[k] == d0[k]);
                }
                if d.contains(i as usize) {
                    let k = choose|k: int| 0 <= k < d.len() && d[k] == i as usize;
                    if k < d0.len() {
                        assert(d0[k] == d[k]);
                    } else {
                        assert(d[k] == last);
                    }
                }
            } else {
                if has_dynamics(fs.last()) {
                    assert(d[d.len() - 1] == last);
                } else {
                    assert(d == d0);
                    if d.contains(i as usize) {
                        let k = choose|k: int| 0 <= k < d.len() && d[k] == i as usize;
                        assert((d0[k] as int) < pre.len());
                    }
                }
            }
        }
    }
}

/// The layer-dynamics list, said of the flags: it lists, in increasing order, exactly
/// the positions of the layers that preserve volume, look at a target, have physics
/// or carry a procedural modifier.
pub proof fn lemma_dynamic_layers(fs: Seq<LayerDynamicsFlags>, r: Seq<usize>)
    requires
        fs.len() <= usize::MAX,
        r == dynamic_positions(fs),
    ensures
        forall|k: int| 0 <= k < r.len() ==> (#[trigger] r[k] as int) < fs.len(),
        forall|k: int, j: int| 0 <= k < j < r.len() ==> #[trigger] r[k] < #[trigger] r[j],
        forall|i: int| 0 <= i < fs.len() ==> (r.contains(i as usize) <==> ({
            let f = #[trigger] fs[i];
            f.volume_preserve || f.has_look_at || f.has_physics || f.n_procedural > 0
        })),
{
    lemma_dynamic_positions(fs);
}

/// The layers that the bone export lists under layer dynamics: those with volume
/// preservation, a look-at, physics or a procedural modifier, in layer order.
pub fn dynamic_layer_indices(layers: &Vec<LayerDynamicsFlags>) -> (r: Vec<usize>)
    ensures
        r@ == dynamic_positions(layers@),
        forall|k: int, j: int| 0 <= k < j < r@.len() ==> #[trigger] r@[k] < #[trigger] r@[j],
        forall|i: int| 0 <= i < layers@.len() ==> (r@.contains(i as usize) <==> ({
            let f = #[trigger] layers@[i];
            f.volume_preserve || f.has_look_at || f.has_physics || f.n_procedural > 0
        })),
{
    let n = layers.len();
    assert(layers@.len() == n);
    proof {
        lemma_dynamic_positions(layers@);
    }
    let mut r: Vec<usize> = Vec::new();
    let mut i: usize = 0;
    while i < layers.len()
        invariant
            i <= layers@.len(),
            r@ == dynamic_positions(layers@.subrange(0, i as int)),
        decreases layers@.len() - i,
    {
        let f = layers[i];
        proof {
            assert(layers@.subrange(0, i + 1).drop_last() =~= layers@.subrange(0, i as int));
        }
        if f.volume_preserve || f.has_look_at || f.has_physics || f.n_procedural > 0 {
            r.push(i);
            assert(r@ =~= dynamic_positions(layers@.subrange(0, i + 1)));
        } else {
            assert(r@ =~= dynamic_positions(layers@.subrange(0, i + 1)));
        }
        i = i + 1;
    }
    assert(layers@.subrange(0, i as int) =~= layers@);
    r
}

} // verus!
