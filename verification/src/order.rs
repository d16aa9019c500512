//! Stable ordering by an integer key.
use vstd::prelude::*;

verus! {

/// `p` lists the positions `0..keys.len()` so that their keys are in
/// ascending order, positions with equal keys keeping their order: the order
/// a stable sort by key gives.
pub open spec fn is_stable_order(keys: Seq<i64>, p: Seq<usize>) -> bool {
    &&& p.len() == keys.len()
    &&& forall|i: int| 0 <= i < p.len() ==> (#[trigger] p[i]) < keys.len()
    &&& forall|a: int| 0 <= a < keys.len() ==> #[trigger] lists(p, a)
    &&& forall|i: int, j: int|
        0 <= i < j < p.len() ==> keys[#[trigger] p[i] as int] < keys[#[trigger] p[j] as int] || (
        keys[p[i] as int] == keys[p[j] as int] && p[i] < p[j])
}

/// `a` occurs in `p`.
pub open spec fn lists(p: Seq<usize>, a: int) -> bool {
    exists|i: int| 0 <= i < p.len() && p[i] == a
}

/// Orders of this kind list each position once.
pub proof fn lemma_stable_order_distinct(keys: Seq<i64>, p: Seq<usize>)
    requires
        is_stable_order(keys, p),
    ensures
        forall|i: int, j: int| 0 <= i < j < p.len() ==> p[i] != p[j],
{
}

/// There is only one such order: the stable sort is well defined.
pub proof fn lemma_stable_order_unique(keys: Seq<i64>, p: Seq<usize>, q: Seq<usize>)
    requires
        is_stable_order(keys, p),
        is_stable_order(keys, q),
    ensures
        p == q,
{
    if p.len() > 0 {
        lemma_prefix_equal(keys, p, q, p.len() - 1);
    }
    assert(p =~= q);
}

proof fn lemma_prefix_equal(keys: Seq<i64>, p: Seq<usize>, q: Seq<usize>, k: int)
    requires
        is_stable_order(keys, p),
        is_stable_order(keys, q),
        0 <= k < p.len(),
    ensures
        forall|i: int| 0 <= i <= k ==> p[i] == q[i],
    decreases k,
{
    if k > 0 {
        lemma_prefix_equal(keys, p, q, k - 1);
    }
    let a = p[k];
    let b = q[k];
    if a != b {
        assert(lists(q, a as int));
        assert(lists(p, b as int));
        let ia = choose|i: int| 0 <= i < q.len() && q[i] == a;
        let ib = choose|i: int| 0 <= i < p.len() && p[i] == b;
        if ia < k {
            assert(p[ia] == q[ia]);
        }
        if ib < k {
            assert(p[ib] == q[ib]);
        }
        assert(ia > k);
        assert(ib > k);
        assert(lex_lt(keys, a, b));
        assert(lex_lt(keys, b, a));
    }
}

/// Position `a` comes before position `b` in the (key, position) order.
pub open spec fn lex_lt(keys: Seq<i64>, a: usize, b: usize) -> bool {
    keys[a as int] < keys[b as int] || (keys[a as int] == keys[b as int] && a < b)
}

/// The stable order of `keys` (see `is_stable_order`), by insertion.
pub fn stable_order(keys: &Vec<i64>) -> (r: Vec<usize>)
    ensures
        is_stable_order(keys@, r@),
{
    let n = keys.len();
    let mut order: Vec<usize> = Vec::new();
    let mut i: usize = 0;
    while i < n
        invariant
            n == keys@.len(),
            i <= n,
            order@.len() == i,
            forall|k: int| 0 <= k < order@.len() ==> (#[trigger] order@[k]) < i,
            forall|a: int| 0 <= a < i ==> #[trigger] lists(order@, a),
            forall|x: int, y: int| 0 <= x < y < order@.len() ==> lex_lt(keys@, #[trigger] order@[x], #[trigger] order@[y]),
        decreases n - i,
    {
        let mut pos = order.len();
        while pos > 0 && keys[order[pos - 1]] > keys[i]
            invariant
                n == keys@.len(),
                i < n,
                pos <= order@.len(),
                forall|k: int| 0 <= k < order@.len() ==> (#[trigger] order@[k]) < i,
                forall|k: int| pos <= k < order@.len() ==> keys@[#[trigger] order@[k] as int] > keys@[i as int],
            decreases pos,
        {
            pos = pos - 1;
        }
        let ghost old_order = order@;
        proof {
            // everything before `pos` has a key no larger than that of `i`
            assert forall|k: int| 0 <= k < pos implies keys@[#[trigger] old_order[k] as int] <= keys@[i as int] by {
                if pos > 0 {
                    assert(keys@[old_order[pos - 1] as int] <= keys@[i as int]);
                    if k < pos - 1 {
                        assert(lex_lt(keys@, old_order[k], old_order[pos - 1]));
                    }
                }
            }
        }
        order.insert(pos, i);
        proof {
            let o = order@;
            assert(o == old_order.insert(pos as int, i));
            assert forall|k: int| 0 <= k < o.len() implies (#[trigger] o[k]) < i + 1 by {
                if k < pos {
                    assert(o[k] == old_order[k]);
                } else if k > pos {
                    assert(o[k] == old_order[k - 1]);
                }
            }
            assert forall|a: int| 0 <= a < i + 1 implies #[trigger] lists(o, a) by {
                if a == i {
                    assert(o[pos as int] == a);
                } else {
                    assert(lists(old_order, a));
                    let k = choose|k: int| 0 <= k < old_order.len() && old_order[k] == a;
                    if k < pos {
                        assert(o[k] == a);
                    } else {
                        assert(o[k + 1] == a);
                    }
                }
            }
            assert forall|x: int, y: int| 0 <= x < y < o.len() implies lex_lt(keys@, #[trigger] o[x], #[trigger] o[y]) by {
                if y < pos {
                    assert(o[x] == old_order[x] && o[y] == old_order[y]);
                } else if y == pos {
                    assert(o[x] == old_order[x]);
                    assert(keys@[old_order[x] as int] <= keys@[i as int]);
                } else if x > pos {
                    assert(o[x] == old_order[x - 1] && o[y] == old_order[y - 1]);
                } else if x == pos {
                    assert(o[y] == old_order[y - 1]);
                } else {
                    assert(o[x] == old_order[x] && o[y] == old_order[y - 1]);
                }
            }
        }
        i = i + 1;
    }
    order
}

} // verus!
