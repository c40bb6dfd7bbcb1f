use vstd::prelude::*;
use vstd::string::StringSliceAdditionalSpecFns;
use vstd::utf8::{decode_utf8, encode_utf8, encode_utf8_decode_utf8, is_char_boundary};
use crate::model::sprite::{Layer, Socket, StrokeElement, Sprite, find_layer_position, layer_position};
use crate::state::editor::id_views;
use crate::text::{push_str, str_eq};

verus! {

/// Layer `l` holds an element with id `element_id`.
pub open spec fn holds_element(l: Layer, element_id: Seq<char>) -> bool {
    exists|k: int| 0 <= k < l.elements@.len() && #[trigger] l.elements@[k].id@ == element_id
}

/// Position of the first layer that holds an element with id `element_id`.
pub open spec fn element_layer_position(layers: Seq<Layer>, element_id: Seq<char>) -> Option<int> {
    if exists|i: int| 0 <= i < layers.len() && #[trigger] holds_element(layers[i], element_id) {
        Some(choose|i: int| 0 <= i < layers.len() && #[trigger] holds_element(layers[i], element_id)
            && forall|j: int| 0 <= j < i ==> !holds_element(layers[j], element_id))
    } else {
        None
    }
}

/// Id of the first layer that holds an element with id `element_id`.
pub open spec fn element_layer(layers: Seq<Layer>, element_id: Seq<char>) -> Option<Seq<char>> {
    match element_layer_position(layers, element_id) {
        Some(i) => Some(layers[i].id@),
        None => None,
    }
}

/// The layer that the (first) layer with id `id` is socketed to, if any.
#[verifier::opaque]
pub open spec fn socket_step(layers: Seq<Layer>, id: Seq<char>) -> Option<Seq<char>> {
    match layer_position(layers, id) {
        None => None,
        Some(p) => match layers[p].socket {
            None => None,
            Some(s) => element_layer(layers, s.parent_element_id@),
        },
    }
}

/// The layer reached after `k` socket steps from `start`.
pub open spec fn socket_chain(layers: Seq<Layer>, start: Seq<char>, k: nat) -> Option<Seq<char>>
    decreases k,
{
    if k == 0 {
        Some(start)
    } else {
        match socket_chain(layers, start, (k - 1) as nat) {
            None => None,
            Some(c) => socket_step(layers, c),
        }
    }
}

/// Step `k` of the chain from `start` reaches `child` or a layer seen before.
#[verifier::opaque]
pub open spec fn chain_closes(layers: Seq<Layer>, child: Seq<char>, start: Seq<char>, k: nat) -> bool {
    socket_chain(layers, start, k) matches Some(c)
        && (c == child || exists|j: nat| j < k && socket_chain(layers, start, j) == Some(c))
}

/// Socketing layer `child` to element `parent_element_id` closes a loop: walking
/// up the socket chain from the layer that holds that element reaches `child`, or
/// a layer already walked through.
pub open spec fn creates_cycle(layers: Seq<Layer>, child: Seq<char>, parent_element_id: Seq<char>) -> bool {
    match element_layer(layers, parent_element_id) {
        Some(p) => exists|k: nat| #[trigger] chain_closes(layers, child, p, k),
        None => false,
    }
}

/// The ids of the layers.
pub open spec fn layer_ids(layers: Seq<Layer>) -> Seq<Seq<char>> {
    layers.map_values(|l: Layer| l.id@)
}

/// Position of the first layer that holds an element with id `element_id`.
pub fn find_layer_for_element(sprite: &Sprite, element_id: &str) -> (r: Option<usize>)
    ensures
        match r {
            Some(i) => element_layer_position(sprite.layers@, element_id@) == Some(i as int)
                && i < sprite.layers@.len(),
            None => element_layer_position(sprite.layers@, element_id@) is None,
        },
{
    let layers = &sprite.layers;
    let mut i: usize = 0;
    while i < layers.len()
        invariant
            layers == &sprite.layers,
            i <= layers@.len(),
            forall|j: int| 0 <= j < i ==> !holds_element(#[trigger] layers@[j], element_id@),
        decreases layers@.len() - i,
    {
        let elements = &layers[i].elements;
        let mut k: usize = 0;
        while k < elements.len()
            invariant
                layers == &sprite.layers,
                forall|j: int| 0 <= j < i ==> !holds_element(#[trigger] layers@[j], element_id@),
                elements == &layers@[i as int].elements,
                i < layers@.len(),
                k <= elements@.len(),
                forall|q: int| 0 <= q < k ==> elements@[q].id@ != element_id@,
            decreases elements@.len() - k,
        {
            if str_eq(elements[k].id.as_str(), element_id) {
                proof {
                    let ls = layers@;
                    assert(holds_element(ls[i as int], element_id@));
                    let c = choose|c: int| 0 <= c < ls.len() && #[trigger] holds_element(ls[c], element_id@)
                        && forall|j: int| 0 <= j < c ==> !holds_element(ls[j], element_id@);
                    if c < i {
                        assert(!holds_element(ls[c], element_id@));
                    }
                    if c > i {
                        assert(!holds_element(ls[i as int], element_id@));
                    }
                    assert(element_layer_position(ls, element_id@) == Some(i as int));
                }
                return Some(i);
            }
            k = k + 1;
        }
        i = i + 1;
    }
    None
}

proof fn lemma_distinct_within(a: Seq<Seq<char>>, b: Seq<Seq<char>>)
    requires
        a.no_duplicates(),
        forall|i: int| 0 <= i < a.len() ==> b.contains(#[trigger] a[i]),
    ensures
        a.len() <= b.len(),
{
    a.unique_seq_to_set();
    b.lemma_cardinality_of_set();
    assert(a.to_set().subset_of(b.to_set())) by {
        assert forall|x: Seq<char>| a.to_set().contains(x) implies b.to_set().contains(x) by {
            let i = choose|i: int| 0 <= i < a.len() && a[i] == x;
        }
    }
    vstd::seq_lib::seq_to_set_is_finite(b);
    vstd::set_lib::lemma_len_subset(a.to_set(), b.to_set());
}

/// The texts of string slices.
pub open spec fn str_views(v: Seq<&str>) -> Seq<Seq<char>> {
    v.map_values(|s: &str| s@)
}

fn contains_str(ids: &Vec<&str>, id: &str) -> (r: bool)
    ensures
        r == str_views(ids@).contains(id@),
{
    let ghost v = str_views(ids@);
    let mut i: usize = 0;
    while i < ids.len()
        invariant
            v == str_views(ids@),
            i <= ids@.len(),
            forall|j: int| 0 <= j < i ==> v[j] != id@,
        decreases ids@.len() - i,
    {
        if str_eq(ids[i], id) {
            assert(v[i as int] == id@);
            return true;
        }
        i = i + 1;
    }
    false
}


/// The walked layers, after `child`, are the first `k` steps of the chain from `p`.
#[verifier::opaque]
pub open spec fn walked(ls: Seq<Layer>, child: Seq<char>, p: Seq<char>, k: nat, vv: Seq<Seq<char>>) -> bool {
    &&& vv.len() == k + 1
    &&& vv[0] == child
    &&& forall|q: int| 1 <= q <= k ==> socket_chain(ls, p, (q - 1) as nat) == Some(#[trigger] vv[q])
    &&& forall|q: int| 1 <= q <= k ==> layer_ids(ls).contains(#[trigger] vv[q])
    &&& vv.no_duplicates()
}

proof fn lemma_seen_closes(ls: Seq<Layer>, child: Seq<char>, p: Seq<char>, k: nat, vv: Seq<Seq<char>>, cur: Seq<char>)
    requires
        walked(ls, child, p, k, vv),
        socket_chain(ls, p, k) == Some(cur),
        vv.contains(cur),
    ensures
        chain_closes(ls, child, p, k),
{
    reveal(walked);
    reveal(chain_closes);
    let q = choose|q: int| 0 <= q < vv.len() && vv[q] == cur;
    if q != 0 {
        let j = (q - 1) as nat;
        assert(socket_chain(ls, p, j) == Some(vv[q]));
    }
}

proof fn lemma_fresh_step(ls: Seq<Layer>, child: Seq<char>, p: Seq<char>, k: nat, vv: Seq<Seq<char>>, cur: Seq<char>)
    requires
        walked(ls, child, p, k, vv),
        socket_chain(ls, p, k) == Some(cur),
        layer_ids(ls).contains(cur),
        !vv.contains(cur),
    ensures
        k + 1 <= ls.len(),
        !chain_closes(ls, child, p, k),
        walked(ls, child, p, k + 1, vv.push(cur)),
{
    reveal(walked);
    reveal(chain_closes);
    let w = vv.subrange(1, vv.len() as int).push(cur);
    assert forall|a: int, b: int| 0 <= a < w.len() && 0 <= b < w.len() && a != b implies w[a] != w[b] by {
        if a < w.len() - 1 && b < w.len() - 1 {
            assert(vv[a + 1] != vv[b + 1]);
        } else if a < w.len() - 1 {
            assert(vv.contains(vv[a + 1]));
        } else if b < w.len() - 1 {
            assert(vv.contains(vv[b + 1]));
        }
    }
    assert forall|a: int| 0 <= a < w.len() implies layer_ids(ls).contains(#[trigger] w[a]) by {
        if a < w.len() - 1 {
            assert(w[a] == vv[a + 1]);
        }
    }
    lemma_distinct_within(w, layer_ids(ls));
    if chain_closes(ls, child, p, k) {
        if cur != child {
            let j = choose|j: nat| j < k && socket_chain(ls, p, j) == Some(cur);
            let q: int = j as int + 1;
            assert(vv[q] == cur);
        }
        assert(vv[0] == cur);
    }
    let nv = vv.push(cur);
    assert forall|q: int| 1 <= q <= k + 1 implies socket_chain(ls, p, (q - 1) as nat) == Some(#[trigger] nv[q]) by {
        if q <= k {
            assert(nv[q] == vv[q]);
        }
    }
    assert forall|q: int| 1 <= q <= k + 1 implies layer_ids(ls).contains(#[trigger] nv[q]) by {
        if q <= k {
            assert(nv[q] == vv[q]);
        }
    }
    assert forall|a: int, b: int| 0 <= a < nv.len() && 0 <= b < nv.len() && a != b implies nv[a] != nv[b] by {
        if a < vv.len() && b < vv.len() {
            assert(nv[a] == vv[a] && nv[b] == vv[b]);
        } else if a < vv.len() {
            assert(vv.contains(vv[a]));
        } else if b < vv.len() {
            assert(vv.contains(vv[b]));
        }
    }
}



proof fn lemma_closes_cycle(ls: Seq<Layer>, child: Seq<char>, pe: Seq<char>, p: Seq<char>, k: nat)
    requires
        element_layer(ls, pe) == Some(p),
        chain_closes(ls, child, p, k),
    ensures
        creates_cycle(ls, child, pe),
{
    let el = element_layer(ls, pe);
    assert(el->0 == p);
    assert(chain_closes(ls, child, el->0, k));
}

/// The position of the layer that the (first) layer with id `id` is socketed to.
fn next_socket_layer(sprite: &Sprite, id: &str) -> (r: Option<usize>)
    ensures
        match r {
            Some(ni) => ni < sprite.layers@.len() && socket_step(sprite.layers@, id@) == Some(sprite.layers@[ni as int].id@),
            None => socket_step(sprite.layers@, id@) is None,
        },
{
    proof { reveal(socket_step); }
    let li = match find_layer_position(&sprite.layers, id) {
        Some(li) => li,
        None => return None,
    };
    match &sprite.layers[li].socket {
        Some(s) => find_layer_for_element(sprite, s.parent_element_id.as_str()),
        None => None,
    }
}

/// Whether socketing layer `child_layer_id` to element `parent_element_id` would
/// close a loop of sockets (see `creates_cycle`); false when no layer holds the element.
#[verifier::rlimit(40)]
pub fn would_create_cycle(sprite: &Sprite, child_layer_id: &str, parent_element_id: &str) -> (r: bool)
    ensures
        r == creates_cycle(sprite.layers@, child_layer_id@, parent_element_id@),
{
    let layers = &sprite.layers;
    let ghost ls = layers@;
    let ghost child = child_layer_id@;
    let pi = match find_layer_for_element(sprite, parent_element_id) {
        Some(i) => i,
        None => return false,
    };
    let ghost p = layers@[pi as int].id@;
    if str_eq(layers[pi].id.as_str(), child_layer_id) {
        assert(chain_closes(ls, child, p, 0)) by { reveal(chain_closes); }
        assert(element_layer(ls, parent_element_id@) == Some(p));
        proof { lemma_closes_cycle(ls, child, parent_element_id@, p, 0); }
        return true;
    }
    let mut visited: Vec<&str> = Vec::new();
    visited.push(child_layer_id);
    let mut current: &str = layers[pi].id.as_str();
    let ghost mut k: nat = 0;
    assert(walked(ls, child, p, 0, str_views(visited@))) by {
        reveal(walked);
        assert(str_views(visited@).len() == 1);
    }
    assert(layer_ids(ls)[pi as int] == p);
    loop
        invariant
            layers == &sprite.layers,
            ls == layers@,
            child == child_layer_id@,
            element_layer(ls, parent_element_id@) == Some(p),
            socket_chain(ls, p, k) == Some(current@),
            layer_ids(ls).contains(current@),
            walked(ls, child, p, k, str_views(visited@)),
            forall|j: nat| j < k ==> !chain_closes(ls, child, p, j),
        decreases ls.len() - k,
    {
        let ghost vv = str_views(visited@);
        if contains_str(&visited, current) {
            proof {
                lemma_seen_closes(ls, child, p, k, vv, current@);
                lemma_closes_cycle(ls, child, parent_element_id@, p, k);
            }
            return true;
        }
        proof {
            lemma_fresh_step(ls, child, p, k, vv, current@);
        }
        visited.push(current);
        proof {
            assert(str_views(visited@) =~= vv.push(current@));
        }
        let next = match next_socket_layer(sprite, current) {
            Some(ni) => ni,
            None => {
                proof { lemma_chain_ends(ls, child, p, k); }
                return false;
            },
        };
        proof {
            assert(layer_ids(ls)[next as int] == layers@[next as int].id@);
        }
        current = layers[next].id.as_str();
        proof {
            k = k + 1;
        }
    }
}

proof fn lemma_chain_ends(layers: Seq<Layer>, child: Seq<char>, p: Seq<char>, k: nat)
    requires
        socket_chain(layers, p, k) is Some,
        socket_step(layers, socket_chain(layers, p, k)->0) is None,
        forall|j: nat| j <= k ==> !chain_closes(layers, child, p, j),
    ensures
        forall|j: nat| !chain_closes(layers, child, p, j),
{
    assert forall|j: nat| !chain_closes(layers, child, p, j) by {
        if j > k {
            lemma_chain_after_end(layers, p, k, j);
            reveal(chain_closes);
        }
    }
}

proof fn lemma_chain_after_end(layers: Seq<Layer>, p: Seq<char>, k: nat, j: nat)
    requires
        socket_chain(layers, p, k) is Some,
        socket_step(layers, socket_chain(layers, p, k)->0) is None,
        j > k,
    ensures
        socket_chain(layers, p, j) is None,
    decreases j - k,
{
    if j > k + 1 {
        lemma_chain_after_end(layers, p, k, (j - 1) as nat);
        assert(socket_chain(layers, p, (j - 1) as nat) is None);
    }
}


/// Layer `l` is socketed to element `element_id` (at vertex `vertex_id`, when given).
pub open spec fn socketed_to(l: Layer, element_id: Seq<char>, vertex_id: Option<Seq<char>>) -> bool {
    match l.socket {
        Some(s) => s.parent_element_id@ == element_id && match vertex_id {
            Some(v) => s.parent_vertex_id@ == v,
            None => true,
        },
        None => false,
    }
}

/// Ids of the layers among the first `upto` that are socketed as `socketed_to` says.
pub open spec fn child_layer_ids(layers: Seq<Layer>, element_id: Seq<char>, vertex_id: Option<Seq<char>>, upto: int) -> Seq<Seq<char>>
    decreases upto,
{
    if upto <= 0 {
        Seq::empty()
    } else {
        let prev = child_layer_ids(layers, element_id, vertex_id, upto - 1);
        if socketed_to(layers[upto - 1], element_id, vertex_id) { prev.push(layers[upto - 1].id@) } else { prev }
    }
}

fn child_layers(sprite: &Sprite, element_id: &str, vertex_id: Option<&str>) -> (r: Vec<String>)
    ensures
        id_views(r@) == child_layer_ids(sprite.layers@, element_id@, match vertex_id { Some(v) => Some(v@), None => None }, sprite.layers@.len() as int),
{
    let ghost vid = match vertex_id { Some(v) => Some(v@), None => None::<Seq<char>> };
    let layers = &sprite.layers;
    let mut out: Vec<String> = Vec::new();
    let mut i: usize = 0;
    while i < layers.len()
        invariant
            layers == &sprite.layers,
            i <= layers@.len(),
            vid == match vertex_id { Some(v) => Some(v@), None => None::<Seq<char>> },
            id_views(out@) == child_layer_ids(layers@, element_id@, vid, i as int),
        decreases layers@.len() - i,
    {
        let ghost before = out@;
        let hit = match &layers[i].socket {
            Some(s) => str_eq(s.parent_element_id.as_str(), element_id) && match vertex_id {
                Some(v) => str_eq(s.parent_vertex_id.as_str(), v),
                None => true,
            },
            None => false,
        };
        if hit {
            out.push(layers[i].id.clone());
            assert(id_views(out@) =~= id_views(before).push(layers@[i as int].id@));
        }
        i = i + 1;
    }
    out
}

/// Ids of the layers socketed to vertex `vertex_id` of element `element_id`, in layer order.
pub fn find_child_layers_for_vertex(sprite: &Sprite, element_id: &str, vertex_id: &str) -> (r: Vec<String>)
    ensures
        id_views(r@) == child_layer_ids(sprite.layers@, element_id@, Some(vertex_id@), sprite.layers@.len() as int),
{
    child_layers(sprite, element_id, Some(vertex_id))
}

/// Ids of the layers socketed to any vertex of element `element_id`, in layer order.
pub fn find_child_layers_for_element(sprite: &Sprite, element_id: &str) -> (r: Vec<String>)
    ensures
        id_views(r@) == child_layer_ids(sprite.layers@, element_id@, None, sprite.layers@.len() as int),
{
    child_layers(sprite, element_id, None)
}


/// Socketing a layer to an element of that same layer is always a loop.
pub proof fn lemma_self_socket_is_cycle(layers: Seq<Layer>, child: Seq<char>, parent_element_id: Seq<char>)
    requires
        element_layer(layers, parent_element_id) == Some(child),
    ensures
        creates_cycle(layers, child, parent_element_id),
{
    assert(chain_closes(layers, child, child, 0)) by { reveal(chain_closes); }
    lemma_closes_cycle(layers, child, parent_element_id, child, 0);
}


/// Walking up the socket chain from layer `x` comes back to a layer already walked.
pub open spec fn has_loop(layers: Seq<Layer>, x: Seq<char>) -> bool {
    exists|j: nat, k: nat| j < k && socket_chain(layers, x, k) is Some
        && #[trigger] socket_chain(layers, x, j) == #[trigger] socket_chain(layers, x, k)
}

/// The layers with layer `pos` socketed by `s`.
pub open spec fn socketed(layers: Seq<Layer>, pos: int, s: Socket) -> Seq<Layer> {
    layers.update(pos, Layer { socket: Some(s), ..layers[pos] })
}

proof fn lemma_first_id(layers: Seq<Layer>, x: Seq<char>, i: int)
    requires
        0 <= i < layers.len(),
        layers[i].id@ == x,
    ensures
        exists|m: int| 0 <= m <= i && layers[m].id@ == x && forall|j: int| 0 <= j < m ==> layers[j].id@ != x,
    decreases i,
{
    if exists|j: int| 0 <= j < i && layers[j].id@ == x {
        let j = choose|j: int| 0 <= j < i && layers[j].id@ == x;
        lemma_first_id(layers, x, j);
    } else {
        assert(forall|j: int| 0 <= j < i ==> layers[j].id@ != x);
    }
}

proof fn lemma_first_holder(layers: Seq<Layer>, e: Seq<char>, i: int)
    requires
        0 <= i < layers.len(),
        holds_element(layers[i], e),
    ensures
        exists|m: int| 0 <= m <= i && #[trigger] holds_element(layers[m], e)
            && forall|j: int| 0 <= j < m ==> !holds_element(layers[j], e),
    decreases i,
{
    if exists|j: int| 0 <= j < i && #[trigger] holds_element(layers[j], e) {
        let j = choose|j: int| 0 <= j < i && #[trigger] holds_element(layers[j], e);
        lemma_first_holder(layers, e, j);
    }
}

proof fn lemma_position_facts(layers: Seq<Layer>, x: Seq<char>)
    requires
        layer_position(layers, x) is Some,
    ensures
        0 <= layer_position(layers, x)->0 < layers.len(),
        layers[layer_position(layers, x)->0].id@ == x,
        forall|j: int| 0 <= j < layer_position(layers, x)->0 ==> layers[j].id@ != x,
{
    let i = choose|i: int| 0 <= i < layers.len() && layers[i].id@ == x;
    lemma_first_id(layers, x, i);
}

proof fn lemma_same_ids(l1: Seq<Layer>, l2: Seq<Layer>, x: Seq<char>)
    requires
        l1.len() == l2.len(),
        forall|i: int| 0 <= i < l1.len() ==> (#[trigger] l1[i]).id == l2[i].id,
    ensures
        layer_position(l1, x) == layer_position(l2, x),
{
    if layer_position(l1, x) is Some {
        lemma_position_facts(l1, x);
        let a = layer_position(l1, x)->0;
        assert(l1[a].id == l2[a].id);
        assert(layer_position(l2, x) is Some);
        lemma_position_facts(l2, x);
        let b = layer_position(l2, x)->0;
        assert(l1[b].id == l2[b].id);
        if a < b {
            assert(l2[a].id@ != x);
        }
        if b < a {
            assert(l1[b].id@ != x);
        }
    } else {
        assert forall|i: int| 0 <= i < l2.len() implies l2[i].id@ != x by {
            assert(l1[i].id == l2[i].id);
        }
    }
}

proof fn lemma_holder_facts(layers: Seq<Layer>, e: Seq<char>)
    requires
        element_layer_position(layers, e) is Some,
    ensures
        0 <= element_layer_position(layers, e)->0 < layers.len(),
        holds_element(layers[element_layer_position(layers, e)->0], e),
        forall|j: int| 0 <= j < element_layer_position(layers, e)->0 ==> !holds_element(layers[j], e),
{
    let i = choose|i: int| 0 <= i < layers.len() && #[trigger] holds_element(layers[i], e);
    lemma_first_holder(layers, e, i);
}

proof fn lemma_same_elements(l1: Seq<Layer>, l2: Seq<Layer>, e: Seq<char>)
    requires
        l1.len() == l2.len(),
        forall|i: int| 0 <= i < l1.len() ==> (#[trigger] l1[i]).elements == l2[i].elements && l1[i].id == l2[i].id,
    ensures
        element_layer(l1, e) == element_layer(l2, e),
{
    if element_layer_position(l1, e) is Some {
        lemma_holder_facts(l1, e);
        let a = element_layer_position(l1, e)->0;
        assert(l1[a].elements == l2[a].elements);
        assert(holds_element(l2[a], e));
        assert(element_layer_position(l2, e) is Some);
        lemma_holder_facts(l2, e);
        let b = element_layer_position(l2, e)->0;
        assert(l1[b].elements == l2[b].elements);
        if a < b {
            assert(!holds_element(l2[a], e));
        }
        if b < a {
            assert(!holds_element(l1[b], e));
        }
        assert(l1[a].id == l2[a].id);
    } else {
        assert forall|i: int| 0 <= i < l2.len() implies !holds_element(#[trigger] l2[i], e) by {
            assert(l1[i].elements == l2[i].elements);
            if holds_element(l2[i], e) {
                assert(holds_element(l1[i], e));
            }
        }
    }
}

proof fn lemma_socketed_shape(layers: Seq<Layer>, pos: int, s: Socket)
    requires
        0 <= pos < layers.len(),
    ensures
        socketed(layers, pos, s).len() == layers.len(),
        forall|i: int| 0 <= i < layers.len() ==> (#[trigger] socketed(layers, pos, s)[i]).id == layers[i].id
            && socketed(layers, pos, s)[i].elements == layers[i].elements,
        forall|i: int| 0 <= i < layers.len() && i != pos ==> #[trigger] socketed(layers, pos, s)[i] == layers[i],
        socketed(layers, pos, s)[pos].socket == Some(s),
{
}

proof fn lemma_socketed_step(layers: Seq<Layer>, child: Seq<char>, s: Socket, x: Seq<char>)
    requires
        layer_position(layers, child) is Some,
    ensures
        x != child ==> socket_step(socketed(layers, layer_position(layers, child)->0, s), x) == socket_step(layers, x),
        socket_step(socketed(layers, layer_position(layers, child)->0, s), child) == element_layer(layers, s.parent_element_id@),
{
    reveal(socket_step);
    lemma_position_facts(layers, child);
    let cp = layer_position(layers, child)->0;
    let l2 = socketed(layers, cp, s);
    lemma_socketed_shape(layers, cp, s);
    lemma_same_ids(layers, l2, x);
    lemma_same_ids(layers, l2, child);
    lemma_same_elements(layers, l2, s.parent_element_id@);
    if x != child {
        match layer_position(layers, x) {
            Some(q) => {
                lemma_position_facts(layers, x);
                assert(q != cp);
                assert(l2[q] == layers[q]);
                match layers[q].socket {
                    Some(t) => {
                        lemma_same_elements(layers, l2, t.parent_element_id@);
                    },
                    None => {},
                }
            },
            None => {},
        }
    }
}

proof fn lemma_open_chain_avoids_child(layers: Seq<Layer>, child: Seq<char>, p: Seq<char>, k: nat)
    requires
        !chain_closes(layers, child, p, k),
        socket_chain(layers, p, k) is Some,
    ensures
        socket_chain(layers, p, k)->0 != child,
{
    reveal(chain_closes);
}

proof fn lemma_socketed_chain(layers: Seq<Layer>, child: Seq<char>, s: Socket, p: Seq<char>, k: nat)
    requires
        layer_position(layers, child) is Some,
        element_layer(layers, s.parent_element_id@) == Some(p),
        forall|j: nat| !#[trigger] chain_closes(layers, child, p, j),
    ensures
        socket_chain(socketed(layers, layer_position(layers, child)->0, s), child, k + 1) == socket_chain(layers, p, k),
    decreases k,
{
    let l2 = socketed(layers, layer_position(layers, child)->0, s);
    if k == 0 {
        lemma_socketed_step(layers, child, s, child);
        assert(socket_chain(l2, child, 0) == Some(child));
        assert(socket_chain(l2, child, 1) == socket_step(l2, child));
    } else {
        let km = (k - 1) as nat;
        lemma_socketed_chain(layers, child, s, p, km);
        assert(socket_chain(l2, child, km + 1) == socket_chain(layers, p, km));
        match socket_chain(layers, p, km) {
            Some(c) => {
                assert(!chain_closes(layers, child, p, km));
                lemma_open_chain_avoids_child(layers, child, p, km);
                lemma_socketed_step(layers, child, s, c);
                assert(socket_chain(l2, child, k + 1) == socket_step(l2, c));
                assert(socket_chain(layers, p, k) == socket_step(layers, c));
            },
            None => {
                assert(socket_chain(l2, child, k + 1) is None);
            },
        }
    }
}

proof fn lemma_chain_none_after(layers: Seq<Layer>, x: Seq<char>, k: nat, j: nat)
    requires
        socket_chain(layers, x, k) is None,
        k <= j,
    ensures
        socket_chain(layers, x, j) is None,
    decreases j - k,
{
    if k < j {
        lemma_chain_none_after(layers, x, k, (j - 1) as nat);
    }
}

/// A socket that `would_create_cycle` accepts leaves no loop: once layer `child` is
/// socketed to the element, walking up its socket chain never comes back to a layer
/// it has already walked through.
pub proof fn lemma_accepted_socket_has_no_loop(layers: Seq<Layer>, child: Seq<char>, s: Socket)
    requires
        layer_position(layers, child) is Some,
        !creates_cycle(layers, child, s.parent_element_id@),
    ensures
        !has_loop(socketed(layers, layer_position(layers, child)->0, s), child),
{
    let l2 = socketed(layers, layer_position(layers, child)->0, s);
    lemma_socketed_step(layers, child, s, child);
    if has_loop(l2, child) {
        let (j, k) = choose|j: nat, k: nat| j < k && socket_chain(l2, child, k) is Some
            && #[trigger] socket_chain(l2, child, j) == #[trigger] socket_chain(l2, child, k);
        match element_layer(layers, s.parent_element_id@) {
            None => {
                assert(socket_chain(l2, child, 1) is None);
                lemma_chain_none_after(l2, child, 1, k);
            },
            Some(p) => {
                assert forall|q: nat| !chain_closes(layers, child, p, q) by {
                    if chain_closes(layers, child, p, q) {
                        lemma_closes_cycle(layers, child, s.parent_element_id@, p, q);
                    }
                }
                lemma_socketed_chain(layers, child, s, p, (k - 1) as nat);
                let ck = socket_chain(layers, p, (k - 1) as nat)->0;
                reveal(chain_closes);
                if j == 0 {
                    assert(socket_chain(l2, child, 0) == Some(child));
                    assert(ck == child);
                    assert(chain_closes(layers, child, p, (k - 1) as nat));
                } else {
                    lemma_socketed_chain(layers, child, s, p, (j - 1) as nat);
                    assert(socket_chain(layers, p, (j - 1) as nat) == Some(ck));
                    assert(chain_closes(layers, child, p, (k - 1) as nat));
                }
            },
        }
    }
}


/// Number of leading bytes of an id that an unnamed element shows: six, or the
/// whole id where it is shorter.
pub open spec fn short_id_len(id: Seq<char>) -> int {
    let n = encode_utf8(id).len() as int;
    if n < 6 { n } else { 6 }
}

/// The name shown for an unnamed element: `Element ` and the short id.
pub open spec fn default_element_name(id: Seq<char>) -> Seq<char> {
    seq!['E', 'l', 'e', 'm', 'e', 'n', 't', ' '] + decode_utf8(encode_utf8(id).subrange(0, short_id_len(id)))
}

/// The element's own name, or the default one where it has none.
pub open spec fn shown_element_name(e: StrokeElement) -> Seq<char> {
    match e.name {
        Some(n) => n@,
        None => default_element_name(e.id@),
    }
}

/// Where the element has no name, its short id ends between two characters.
pub open spec fn short_id_on_boundary(e: StrokeElement) -> bool {
    e.name is None ==> is_char_boundary(encode_utf8(e.id@), short_id_len(e.id@))
}

/// One entry of the socket picker, by view: layer id, layer name, element id,
/// shown element name, vertex id.
pub type TargetView = (Seq<char>, Seq<char>, Seq<char>, Seq<char>, Seq<char>);

/// The entries for the vertices `vs` of element `e` on layer `l`.
pub open spec fn vertex_targets(l: Layer, e: StrokeElement, vs: Seq<String>) -> Seq<TargetView>
    decreases vs.len(),
{
    if vs.len() == 0 {
        Seq::empty()
    } else {
        vertex_targets(l, e, vs.drop_last()).push((l.id@, l.name@, e.id@, shown_element_name(e), vs.last()@))
    }
}

/// The entries for every vertex of the elements `es` of layer `l`, in order.
pub open spec fn element_targets(l: Layer, es: Seq<StrokeElement>) -> Seq<TargetView>
    decreases es.len(),
{
    if es.len() == 0 {
        Seq::empty()
    } else {
        element_targets(l, es.drop_last()) + vertex_targets(l, es.last(), es.last().vertex_ids@)
    }
}

/// The entries for every vertex of every element of every layer but the
/// layers with id `exclude`, in layer, element and vertex order.
pub open spec fn socket_targets(layers: Seq<Layer>, exclude: Seq<char>) -> Seq<TargetView>
    decreases layers.len(),
{
    if layers.len() == 0 {
        Seq::empty()
    } else {
        socket_targets(layers.drop_last(), exclude) + if layers.last().id@ == exclude {
            Seq::<TargetView>::empty()
        } else {
            element_targets(layers.last(), layers.last().elements@)
        }
    }
}

pub open spec fn target_views(ts: Seq<(String, String, String, String, String)>) -> Seq<TargetView> {
    ts.map_values(|t: (String, String, String, String, String)| (t.0@, t.1@, t.2@, t.3@, t.4@))
}

fn shown_name(e: &StrokeElement) -> (n: String)
    requires
        short_id_on_boundary(*e),
    ensures
        n@ == shown_element_name(*e),
{
    match &e.name {
        Some(n) => n.clone(),
        None => {
            let id = e.id.as_str();
            let len = id.as_bytes().len();
            let m: usize = if len < 6 { len } else { 6 };
            let (head, _) = id.split_at(m);
            let mut s = String::from_str("Element ");
            proof {
                reveal_strlit("Element ");
                encode_utf8_decode_utf8(head@);
                assert("Element "@ =~= seq!['E', 'l', 'e', 'm', 'e', 'n', 't', ' ']);
            }
            push_str(&mut s, head);
            s
        }
    }
}

/// Every vertex that a layer other than `exclude_layer_id` could be socketed
/// to: for each element of each other layer, in order, one entry per vertex
/// with the layer's id and name, the element's id and shown name, and the
/// vertex id. (The vertex position is looked up by the caller.)
pub fn get_all_socket_targets(sprite: &Sprite, exclude_layer_id: &str) -> (targets: Vec<(String, String, String, String, String)>)
    requires
        forall|i: int, k: int|
            0 <= i < sprite.layers@.len() && sprite.layers@[i].id@ != exclude_layer_id@
                && 0 <= k < sprite.layers@[i].elements@.len()
                ==> short_id_on_boundary(#[trigger] sprite.layers@[i].elements@[k]),
    ensures
        target_views(targets@) == socket_targets(sprite.layers@, exclude_layer_id@),
{
    let layers = &sprite.layers;
    let mut out: Vec<(String, String, String, String, String)> = Vec::new();
    let mut i: usize = 0;
    while i < layers.len()
        invariant
            *layers == sprite.layers,
            i <= layers@.len(),
            forall|a: int, k: int|
                0 <= a < layers@.len() && layers@[a].id@ != exclude_layer_id@
                    && 0 <= k < layers@[a].elements@.len()
                    ==> short_id_on_boundary(#[trigger] layers@[a].elements@[k]),
            target_views(out@) == socket_targets(layers@.subrange(0, i as int), exclude_layer_id@),
        decreases layers@.len() - i,
    {
        let layer = &layers[i];
        let ghost before = out@;
        proof {
            assert(layers@.subrange(0, i + 1).drop_last() =~= layers@.subrange(0, i as int));
        }
        if !str_eq(layer.id.as_str(), exclude_layer_id) {
            let es = &layer.elements;
            let mut k: usize = 0;
            while k < es.len()
                invariant
                    *layer == layers@[i as int],
                    *es == layer.elements,
                    layer.id@ != exclude_layer_id@,
                    k <= es@.len(),
                    forall|c: int| 0 <= c < es@.len() ==> short_id_on_boundary(#[trigger] es@[c]),
                    target_views(out@) == target_views(before) + element_targets(*layer, es@.subrange(0, k as int)),
                decreases es@.len() - k,
            {
                let e = &es[k];
                let name = shown_name(e);
                let ghost mid = out@;
                proof {
                    assert(es@.subrange(0, k + 1).drop_last() =~= es@.subrange(0, k as int));
                }
                let vs = &e.vertex_ids;
                let mut j: usize = 0;
                while j < vs.len()
                    invariant
                        *e == es@[k as int],
                        *vs == e.vertex_ids,
                        name@ == shown_element_name(*e),
                        j <= vs@.len(),
                        target_views(out@) == target_views(mid) + vertex_targets(*layer, *e, vs@.subrange(0, j as int)),
                    decreases vs@.len() - j,
                {
                    let t = (layer.id.clone(), layer.name.clone(), e.id.clone(), name.clone(), vs[j].clone());
                    let ghost prev = out@;
                    out.push(t);
                    proof {
                        assert(vs@.subrange(0, j + 1).drop_last() =~= vs@.subrange(0, j as int));
                        assert(target_views(out@) =~= target_views(prev).push((t.0@, t.1@, t.2@, t.3@, t.4@)));
                    }
                    j = j + 1;
                }
                proof {
                    assert(vs@.subrange(0, j as int) =~= vs@);
                }
                k = k + 1;
            }
            proof {
                assert(es@.subrange(0, k as int) =~= es@);
            }
        }
        i = i + 1;
    }
    proof {
        assert(layers@.subrange(0, i as int) =~= layers@);
    }
    out
}

} // verus!
