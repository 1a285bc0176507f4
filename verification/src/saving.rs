//! The order of the task file: tasks by identifier, so that the file
//! changes little from one save to the next.

use crate::listing::places;
use crate::lookup::rows;
use crate::order::{insert_behind, lemma_sorted_first, sorted_first};
use crate::text::{lemma_lex_le_total, lemma_lex_le_transitive, lex_le, text_le};
use vstd::prelude::*;

verus! {

/// Whether identifier `a` comes no later than identifier `b`.
pub open spec fn by_id(ids: Seq<Seq<char>>) -> spec_fn(int, int) -> bool {
    |a: int, b: int| lex_le(ids[a], ids[b])
}

/// The first `n` places in lexicographic order of their identifiers; equal
/// identifiers in the order of the store.
pub open spec fn ids_in_order(ids: Seq<Seq<char>>, n: nat) -> Seq<int> {
    sorted_first(by_id(ids), |i: int| true, n)
}

/// The order of the task file holds every place of the store once, the
/// identifiers rising lexicographically; tasks with one identifier stand
/// as they do in the store.
pub proof fn lemma_ids_in_order(ids: Seq<Seq<char>>)
    ensures
        ids_in_order(ids, ids.len()).len() == ids.len(),
        forall|k: int|
            0 <= k < ids.len() ==> 0 <= #[trigger] ids_in_order(ids, ids.len())[k] < ids.len(),
        forall|i: int| 0 <= i < ids.len() ==> #[trigger] ids_in_order(ids, ids.len()).contains(i),
        forall|a: int, b: int|
            0 <= a < b < ids.len() ==> {
                let x = #[trigger] ids_in_order(ids, ids.len())[a];
                let y = #[trigger] ids_in_order(ids, ids.len())[b];
                lex_le(ids[x], ids[y]) && (ids[x] == ids[y] ==> x < y)
            },
{
    let le = by_id(ids);
    assert forall|a: int, b: int| 0 <= a < ids.len() && 0 <= b < ids.len() implies #[trigger] le(
        a,
        b,
    ) || le(b, a) by {
        lemma_lex_le_total(ids[a], ids[b]);
    }
    assert forall|a: int, b: int, c: int|
        0 <= a < ids.len() && 0 <= b < ids.len() && 0 <= c < ids.len() && #[trigger] le(a, b)
            && #[trigger] le(b, c) implies le(a, c) by {
        lemma_lex_le_transitive(ids[a], ids[b], ids[c]);
    }
    lemma_sorted_first(le, |i: int| true, ids.len());
    let r = ids_in_order(ids, ids.len());
    assert forall|a: int, b: int| 0 <= a < b < ids.len() implies {
        let x = #[trigger] r[a];
        let y = #[trigger] r[b];
        lex_le(ids[x], ids[y]) && (ids[x] == ids[y] ==> x < y)
    } by {
        let x = r[a];
        let y = r[b];
        if ids[x] == ids[y] {
            lemma_lex_le_total(ids[y], ids[x]);
        }
    }
}

/// The places of `ids` in the order of the task file.
pub fn sorted_by_id(ids: &Vec<Vec<char>>) -> (r: Vec<usize>)
    ensures
        places(r@) == ids_in_order(rows(ids@), ids@.len()),
        r@.len() == ids@.len(),
        forall|k: int| 0 <= k < r@.len() ==> r@[k] < ids@.len(),
{
    let ghost all = rows(ids@);
    let mut order: Vec<usize> = Vec::new();
    let mut i: usize = 0;
    while i < ids.len()
        invariant
            all == rows(ids@),
            i <= ids.len(),
            order@.len() == i,
            places(order@) == ids_in_order(all, i as nat),
            forall|k: int| 0 <= k < order@.len() ==> order@[k] < ids@.len(),
        decreases ids.len() - i,
    {
        let ghost had = places(order@);
        let mut pos: usize = order.len();
        assert(had.take(pos as int) =~= had);
        while pos > 0 && !text_le(&ids[order[pos - 1]], &ids[i])
            invariant
                all == rows(ids@),
                i < ids.len(),
                had == places(order@),
                pos <= order.len(),
                forall|k: int| 0 <= k < order@.len() ==> order@[k] < ids@.len(),
                all[i as int] == ids@[i as int]@,
                insert_behind(by_id(all), had, i as int) == insert_behind(
                    by_id(all),
                    had.take(pos as int),
                    i as int,
                ) + had.skip(pos as int),
            decreases pos,
        {
            let ghost front = had.take(pos as int);
            assert(front.drop_last() =~= had.take(pos - 1));
            pos -= 1;
        }
        order.insert(pos, i);
        i += 1;
    }
    order
}

} // verus!
