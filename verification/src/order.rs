//! Putting places in order: a stable sort by insertion, stated over a
//! relation between places.

use vstd::prelude::*;

verus! {

/// `order` with place `i` put behind the last place that `le` does not put
/// after it.
pub open spec fn insert_behind(le: spec_fn(int, int) -> bool, order: Seq<int>, i: int) -> Seq<int>
    decreases order.len(),
{
    if order.len() == 0 {
        seq![i]
    } else if le(order.last(), i) {
        order.push(i)
    } else {
        insert_behind(le, order.drop_last(), i).push(order.last())
    }
}

/// Those of the first `n` places that `keep` holds of, each put in turn
/// behind the places that come no later by `le`.
pub open spec fn sorted_first(
    le: spec_fn(int, int) -> bool,
    keep: spec_fn(int) -> bool,
    n: nat,
) -> Seq<int>
    decreases n,
{
    if n == 0 {
        Seq::empty()
    } else {
        let rest = sorted_first(le, keep, (n - 1) as nat);
        if keep(n - 1) {
            insert_behind(le, rest, n - 1)
        } else {
            rest
        }
    }
}

/// `le` compares any two of the first `n` places, and compares them
/// transitively.
pub open spec fn orders(le: spec_fn(int, int) -> bool, n: int) -> bool {
    &&& forall|a: int, b: int| 0 <= a < n && 0 <= b < n ==> #[trigger] le(a, b) || le(b, a)
    &&& forall|a: int, b: int, c: int|
        0 <= a < n && 0 <= b < n && 0 <= c < n && #[trigger] le(a, b) && #[trigger] le(b, c) ==> le(
            a,
            c,
        )
}

/// The places stand in the order of `le`, and places that `le` does not
/// tell apart stand in their own order.
pub open spec fn in_order(le: spec_fn(int, int) -> bool, order: Seq<int>) -> bool {
    forall|a: int, b: int|
        0 <= a < b < order.len() ==> le(#[trigger] order[a], #[trigger] order[b]) && (le(
            order[b],
            order[a],
        ) ==> order[a] < order[b])
}

/// Inserting a place that is greater than all places in an ordered
/// sequence keeps the sequence ordered, and adds that place and no other.
pub proof fn lemma_insert_behind(le: spec_fn(int, int) -> bool, order: Seq<int>, i: int)
    requires
        orders(le, i + 1),
        in_order(le, order),
        forall|k: int| 0 <= k < order.len() ==> 0 <= #[trigger] order[k] < i,
    ensures
        in_order(le, insert_behind(le, order, i)),
        insert_behind(le, order, i).len() == order.len() + 1,
        insert_behind(le, order, i).contains(i),
        forall|k: int|
            0 <= k < order.len() ==> insert_behind(le, order, i).contains(#[trigger] order[k]),
        forall|k: int|
            0 <= k < insert_behind(le, order, i).len() ==> #[trigger] insert_behind(le, order, i)[k]
                == i || order.contains(insert_behind(le, order, i)[k]),
    decreases order.len(),
{
    let r = insert_behind(le, order, i);
    if order.len() == 0 {
        assert(r[0] == i);
    } else if le(order.last(), i) {
        assert(r[order.len() as int] == i);
        assert forall|k: int| 0 <= k < order.len() implies r.contains(#[trigger] order[k]) by {
            assert(r[k] == order[k]);
        }
        assert forall|k: int| 0 <= k < r.len() implies #[trigger] r[k] == i || order.contains(
            r[k],
        ) by {
            if k < order.len() {
                assert(order[k] == r[k]);
            }
        }
        assert forall|a: int, b: int| 0 <= a < b < r.len() implies le(
            #[trigger] r[a],
            #[trigger] r[b],
        ) && (le(r[b], r[a]) ==> r[a] < r[b]) by {
            if b == order.len() {
                let last = order.len() - 1;
                assert(r[a] == order[a]);
                if a < last {
                    assert(le(order[a], order[last]));
                }
                assert(le(order[a], i));
            } else {
                assert(r[a] == order[a] && r[b] == order[b]);
            }
        }
    } else {
        let front = order.drop_last();
        let last = order.last();
        assert(forall|k: int| 0 <= k < front.len() ==> front[k] == order[k]);
        lemma_insert_behind(le, front, i);
        let inner = insert_behind(le, front, i);
        assert(r =~= inner.push(last));
        assert(le(i, last));
        let at = choose|at: int| 0 <= at < inner.len() && inner[at] == i;
        assert(r[at] == i);
        assert forall|k: int| 0 <= k < order.len() implies r.contains(#[trigger] order[k]) by {
            if k < front.len() {
                assert(inner.contains(front[k]));
                let w = choose|w: int| 0 <= w < inner.len() && inner[w] == front[k];
                assert(r[w] == order[k]);
            } else {
                assert(r[inner.len() as int] == order[k]);
            }
        }
        assert forall|k: int| 0 <= k < r.len() implies #[trigger] r[k] == i || order.contains(
            r[k],
        ) by {
            if k < inner.len() {
                assert(r[k] == inner[k]);
                if inner[k] != i {
                    assert(front.contains(inner[k]));
                    let w = choose|w: int| 0 <= w < front.len() && front[w] == inner[k];
                    assert(order[w] == r[k]);
                }
            } else {
                assert(order[order.len() - 1] == r[k]);
            }
        }
        assert forall|a: int, b: int| 0 <= a < b < r.len() implies le(
            #[trigger] r[a],
            #[trigger] r[b],
        ) && (le(r[b], r[a]) ==> r[a] < r[b]) by {
            if b < inner.len() {
                assert(r[a] == inner[a] && r[b] == inner[b]);
            } else {
                assert(r[b] == last);
                assert(r[a] == inner[a]);
                if inner[a] != i {
                    assert(front.contains(inner[a]));
                    let w = choose|w: int| 0 <= w < front.len() && front[w] == inner[a];
                    assert(order[w] == inner[a]);
                    assert(le(order[w], order[order.len() - 1]));
                }
            }
        }
    }
}

/// What the sort gives: the kept ones among the first `n` places, each
/// once, in the order of `le`, with places that `le` does not tell apart
/// in their own order.
pub proof fn lemma_sorted_first(le: spec_fn(int, int) -> bool, keep: spec_fn(int) -> bool, n: nat)
    requires
        orders(le, n as int),
    ensures
        in_order(le, sorted_first(le, keep, n)),
        sorted_first(le, keep, n).len() <= n,
        (forall|i: int| 0 <= i < n ==> #[trigger] keep(i)) ==> sorted_first(le, keep, n).len() == n,
        forall|k: int|
            0 <= k < sorted_first(le, keep, n).len() ==> {
                &&& 0 <= #[trigger] sorted_first(le, keep, n)[k] < n
                &&& keep(sorted_first(le, keep, n)[k])
            },
        forall|i: int| 0 <= i < n && keep(i) ==> #[trigger] sorted_first(le, keep, n).contains(i),
    decreases n,
{
    if n > 0 {
        let rest = sorted_first(le, keep, (n - 1) as nat);
        lemma_sorted_first(le, keep, (n - 1) as nat);
        if keep(n - 1) {
            lemma_insert_behind(le, rest, n - 1);
            let r = insert_behind(le, rest, n - 1);
            assert forall|k: int| 0 <= k < r.len() implies 0 <= #[trigger] r[k] < n && keep(
                r[k],
            ) by {
                if r[k] != n - 1 {
                    assert(rest.contains(r[k]));
                    let w = choose|w: int| 0 <= w < rest.len() && rest[w] == r[k];
                    assert(0 <= rest[w] < n - 1 && keep(rest[w]));
                }
            }
            assert forall|i: int| 0 <= i < n && keep(i) implies #[trigger] r.contains(i) by {
                if i < n - 1 {
                    assert(rest.contains(i));
                    let w = choose|w: int| 0 <= w < rest.len() && rest[w] == i;
                    assert(r.contains(rest[w]));
                }
            }
        }
    }
}

} // verus!
