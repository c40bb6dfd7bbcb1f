use vstd::prelude::*;

verus! {

/// Position `a` comes before position `b` when its key is smaller, or when the keys
/// are equal and `a` stands earlier (the order a stable sort produces).
pub open spec fn key_before(keys: Seq<u64>, a: int, b: int) -> bool {
    keys[a] < keys[b] || (keys[a] == keys[b] && a < b)
}

/// `order` lists every position of `keys` once, sorted by key, equal keys kept in
/// the order of their positions.
pub open spec fn is_stable_order(keys: Seq<u64>, order: Seq<usize>) -> bool {
    &&& order.len() == keys.len()
    &&& forall|i: int| 0 <= i < order.len() ==> #[trigger] order[i] < keys.len()
    &&& forall|p: usize| p < keys.len() ==> #[trigger] order.contains(p)
    &&& forall|i: int, j: int|
        0 <= i < j < order.len() ==> key_before(keys, #[trigger] order[i] as int, #[trigger] order[j] as int)
}

/// The stable ascending order of the positions of `keys` (unique, see
/// `lemma_stable_order_unique`).
pub open spec fn stable_sorted(keys: Seq<u64>) -> Seq<usize> {
    choose|o: Seq<usize>| is_stable_order(keys, o)
}

/// Number of leading entries of `o` whose key is at most `k`, counting from `i`.
spec fn leading_at_most(keys: Seq<u64>, o: Seq<usize>, k: u64, i: int) -> int
    decreases o.len() - i,
{
    if i < 0 || i >= o.len() || keys[o[i] as int] > k {
        i
    } else {
        leading_at_most(keys, o, k, i + 1)
    }
}

proof fn lemma_leading_at_most(keys: Seq<u64>, o: Seq<usize>, k: u64, i: int)
    requires
        0 <= i <= o.len(),
        forall|j: int| 0 <= j < i ==> keys[#[trigger] o[j] as int] <= k,
        forall|a: int, b: int| 0 <= a < b < o.len() ==> keys[#[trigger] o[a] as int] <= keys[#[trigger] o[b] as int],
    ensures
        i <= leading_at_most(keys, o, k, i) <= o.len(),
        forall|j: int| 0 <= j < leading_at_most(keys, o, k, i) ==> keys[#[trigger] o[j] as int] <= k,
        forall|j: int| leading_at_most(keys, o, k, i) <= j < o.len() ==> keys[#[trigger] o[j] as int] > k,
    decreases o.len() - i,
{
    if i < o.len() {
        if keys[o[i] as int] > k {
            assert forall|j: int| i <= j < o.len() implies keys[#[trigger] o[j] as int] > k by {
                if j > i {
                    assert(keys[o[i] as int] <= keys[o[j] as int]);
                }
            }
        } else {
            lemma_leading_at_most(keys, o, k, i + 1);
        }
    }
}

/// Every key sequence that positions can index has a stable order, so
/// `stable_sorted` always names one.
pub proof fn lemma_stable_order_exists(keys: Seq<u64>)
    requires
        keys.len() <= usize::MAX,
    ensures
        is_stable_order(keys, stable_sorted(keys)),
    decreases keys.len(),
{
    if keys.len() == 0 {
        assert(is_stable_order(keys, Seq::<usize>::empty()));
    } else {
        let m = (keys.len() - 1) as int;
        let pre = keys.drop_last();
        lemma_stable_order_exists(pre);
        let o = stable_sorted(pre);
        let k = keys[m];
        assert forall|a: int, b: int| 0 <= a < b < o.len() implies keys[#[trigger] o[a] as int] <= keys[#[trigger] o[b] as int] by {
            assert(key_before(pre, o[a] as int, o[b] as int));
        }
        lemma_leading_at_most(keys, o, k, 0);
        let t = leading_at_most(keys, o, k, 0);
        let o2 = o.insert(t, m as usize);
        assert forall|p: usize| p < keys.len() implies #[trigger] o2.contains(p) by {
            if p == m as usize {
                assert(o2[t] == p);
            } else {
                assert(o.contains(p));
                let j = choose|j: int| 0 <= j < o.len() && o[j] == p;
                if j < t {
                    assert(o2[j] == p);
                } else {
                    assert(o2[j + 1] == p);
                }
            }
        }
        assert forall|i: int, j: int| 0 <= i < j < o2.len() implies key_before(keys, #[trigger] o2[i] as int, #[trigger] o2[j] as int) by {
            if i < t && j < t {
                assert(key_before(pre, o[i] as int, o[j] as int));
            } else if i < t && j == t {
                assert(keys[o[i] as int] <= k);
                assert((o[i] as int) < m);
            } else if i < t {
                assert(key_before(pre, o[i] as int, o[j - 1] as int));
            } else if i == t {
                assert(keys[o[j - 1] as int] > k);
            } else {
                assert(key_before(pre, o[i - 1] as int, o[j - 1] as int));
            }
        }
        assert(is_stable_order(keys, o2));
    }
}

/// There is only one stable order of a key sequence.
pub proof fn lemma_stable_order_unique(keys: Seq<u64>, o1: Seq<usize>, o2: Seq<usize>)
    requires
        is_stable_order(keys, o1),
        is_stable_order(keys, o2),
    ensures
        o1 == o2,
{
    if o1 != o2 {
        assert(exists|k: int| 0 <= k < o1.len() && o1[k] != o2[k]) by {
            if forall|k: int| 0 <= k < o1.len() ==> o1[k] == o2[k] {
                assert(o1 =~= o2);
            }
        }
        let k0 = choose|k: int| 0 <= k < o1.len() && o1[k] != o2[k];
        // the first position where they differ
        let k = first_difference(o1, o2, k0);
        let a = o1[k];
        let b = o2[k];
        assert(o1.contains(b));
        let j = choose|j: int| 0 <= j < o1.len() && o1[j] == b;
        assert(o2.contains(a));
        let j2 = choose|j: int| 0 <= j < o2.len() && o2[j] == a;
        if j < k {
            assert(o2[j] == b);
        }
        if j2 < k {
            assert(o1[j2] == a);
        }
        assert(j > k && j2 > k);
        assert(key_before(keys, a as int, b as int));
        assert(key_before(keys, b as int, a as int));
    }
}

proof fn first_difference(o1: Seq<usize>, o2: Seq<usize>, k0: int) -> (k: int)
    requires
        o1.len() == o2.len(),
        0 <= k0 < o1.len(),
        o1[k0] != o2[k0],
    ensures
        0 <= k <= k0,
        o1[k] != o2[k],
        forall|i: int| 0 <= i < k ==> o1[i] == o2[i],
    decreases k0,
{
    if exists|i: int| 0 <= i < k0 && o1[i] != o2[i] {
        let i = choose|i: int| 0 <= i < k0 && o1[i] != o2[i];
        first_difference(o1, o2, i)
    } else {
        k0
    }
}

/// The positions of `keys` in the order of a stable ascending sort by key.
pub fn stable_order(keys: &Vec<u64>) -> (order: Vec<usize>)
    ensures
        is_stable_order(keys@, order@),
        order@ == stable_sorted(keys@),
{
    let n = keys.len();
    let mut order: Vec<usize> = Vec::new();
    let mut i: usize = 0;
    while i < n
        invariant
            n == keys.len(),
            i <= n,
            order.len() == i,
            forall|k: int| 0 <= k < order.len() ==> #[trigger] order[k] < i,
            forall|q: usize| q < i ==> #[trigger] order@.contains(q),
            forall|a: int, b: int|
                0 <= a < b < order.len() ==> key_before(keys@, #[trigger] order[a] as int, #[trigger] order[b] as int),
        decreases n - i,
    {
        let ki = keys[i];
        let mut p: usize = 0;
        while p < order.len() && keys[order[p]] <= ki
            invariant
                n == keys.len(),
                i < n,
                ki == keys[i as int],
                order.len() == i,
                p <= order.len(),
                forall|k: int| 0 <= k < order.len() ==> #[trigger] order[k] < i,
                forall|k: int| 0 <= k < p ==> keys[#[trigger] order[k] as int] <= ki,
            decreases order.len() - p,
        {
            p = p + 1;
        }
        proof {
            if p < order.len() {
                assert(keys[order[p as int] as int] > ki);
            }
        }
        let ghost old_order = order@;
        order.insert(p, i);
        proof {
            assert forall|q: usize| q < i + 1 implies #[trigger] order@.contains(q) by {
                if q == i {
                    assert(order[p as int] == q);
                } else {
                    assert(old_order.contains(q));
                    let j = choose|j: int| 0 <= j < old_order.len() && old_order[j] == q;
                    if j < p {
                        assert(order[j] == q);
                    } else {
                        assert(order[j + 1] == q);
                    }
                }
            }
            assert forall|a: int, b: int|
                0 <= a < b < order.len() implies key_before(keys@, #[trigger] order[a] as int, #[trigger] order[b] as int) by {
                if a < p && b < p {
                    assert(order[a] == old_order[a] && order[b] == old_order[b]);
                } else if a < p && b == p {
                    assert(order[a] == old_order[a]);
                    assert(keys[old_order[a] as int] <= ki);
                } else if a < p && b > p {
                    assert(order[a] == old_order[a] && order[b] == old_order[b - 1]);
                } else if a == p {
                    assert(order[b] == old_order[b - 1]);
                    // keys sorted: everything from p on has key > ki
                    if keys[old_order[b - 1] as int] <= ki {
                        assert(key_before(keys@, old_order[p as int] as int, old_order[b - 1] as int) || p == b - 1);
                    }
                } else {
                    assert(order[a] == old_order[a - 1] && order[b] == old_order[b - 1]);
                }
            }
        }
        i = i + 1;
    }
    proof {
        assert(is_stable_order(keys@, order@));
        lemma_stable_order_unique(keys@, order@, stable_sorted(keys@));
    }
    order
}

} // verus!
