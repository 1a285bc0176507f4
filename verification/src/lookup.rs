//! Finding the task that a typed identifier or prefix of one names.

use crate::text::{same_text, starts_with};
use vstd::prelude::*;

verus! {

/// The texts that a sequence of character vectors holds.
pub open spec fn rows(v: Seq<Vec<char>>) -> Seq<Seq<char>> {
    Seq::new(v.len(), |i: int| v[i]@)
}

/// Identifier `i` is `p` itself.
pub open spec fn exact_at(ids: Seq<Seq<char>>, p: Seq<char>, i: int) -> bool {
    0 <= i < ids.len() && ids[i] == p
}

/// Identifier `i` begins with `p`.
pub open spec fn starts_at(ids: Seq<Seq<char>>, p: Seq<char>, i: int) -> bool {
    0 <= i < ids.len() && p.is_prefix_of(ids[i])
}

/// Some identifier is `p` itself.
pub open spec fn has_id(ids: Seq<Seq<char>>, p: Seq<char>) -> bool {
    exists|i: int| exact_at(ids, p, i)
}

/// `p` names task `i`: the first task whose identifier is `p` itself, or,
/// where no identifier is, the only task whose identifier begins with `p`.
pub open spec fn names(ids: Seq<Seq<char>>, p: Seq<char>, i: int) -> bool {
    ||| exact_at(ids, p, i) && forall|j: int| 0 <= j < i ==> !exact_at(ids, p, j)
    ||| !has_id(ids, p) && starts_at(ids, p, i) && forall|j: int|
        starts_at(ids, p, j) ==> j == i
}

/// No identifier is `p` itself and more than one begins with it.
pub open spec fn ambiguous(ids: Seq<Seq<char>>, p: Seq<char>) -> bool {
    !has_id(ids, p) && exists|i: int, j: int|
        i != j && starts_at(ids, p, i) && starts_at(ids, p, j)
}

/// No identifier begins with `p`.
pub open spec fn missing(ids: Seq<Seq<char>>, p: Seq<char>) -> bool {
    forall|i: int| !starts_at(ids, p, i)
}

/// The task that `p` names, if it names one.
pub open spec fn named(ids: Seq<Seq<char>>, p: Seq<char>) -> Option<int> {
    if exists|i: int| names(ids, p, i) {
        Some(choose|i: int| names(ids, p, i))
    } else {
        None
    }
}

/// A typed prefix names at most one task, and exactly one of three things
/// holds of it: it names a task, it is ambiguous, or it matches nothing.
pub proof fn lemma_lookup_outcomes(ids: Seq<Seq<char>>, p: Seq<char>)
    ensures
        forall|i: int, j: int| names(ids, p, i) && names(ids, p, j) ==> i == j,
        (named(ids, p) is Some) != (ambiguous(ids, p) || missing(ids, p)),
        !(ambiguous(ids, p) && missing(ids, p)),
        named(ids, p) matches Some(i) ==> names(ids, p, i),
{
    assert forall|i: int, j: int| names(ids, p, i) && names(ids, p, j) implies i == j by {
        if exact_at(ids, p, i) && exact_at(ids, p, j) {
            if i < j {
                assert(!exact_at(ids, p, i));
            }
            if j < i {
                assert(!exact_at(ids, p, j));
            }
        }
    }
    if has_id(ids, p) {
        let k = first_exact(ids, p, ids.len() as int);
        assert(names(ids, p, k));
        assert(starts_at(ids, p, k));
    } else if !missing(ids, p) && !ambiguous(ids, p) {
        let k = choose|k: int| starts_at(ids, p, k);
        assert(names(ids, p, k));
    }
}

/// The least index below `n` whose identifier is `p`, given that there is one.
proof fn first_exact(ids: Seq<Seq<char>>, p: Seq<char>, n: int) -> (k: int)
    requires
        0 <= n <= ids.len(),
        exists|i: int| i < n && exact_at(ids, p, i),
    ensures
        k < n,
        exact_at(ids, p, k),
        forall|j: int| 0 <= j < k ==> !exact_at(ids, p, j),
    decreases n,
{
    if exists|i: int| i < n - 1 && exact_at(ids, p, i) {
        first_exact(ids, p, n - 1)
    } else {
        n - 1
    }
}

/// What a lookup finds.
#[derive(Clone, Copy, Debug, PartialEq, Eq, Structural)]
pub enum Lookup {
    /// The task at this place in the store.
    Found(usize),
    /// More than one task, and none by its whole identifier.
    Ambiguous,
    /// No task.
    Missing,
}

/// Looks `p` up among `ids`. A task whose identifier is `p` itself is found
/// whatever else begins with `p`; otherwise the task is found whose
/// identifier alone begins with `p`.
pub fn lookup(ids: &Vec<Vec<char>>, p: &Vec<char>) -> (r: Lookup)
    ensures
        match r {
            Lookup::Found(i) => names(rows(ids@), p@, i as int),
            Lookup::Ambiguous => ambiguous(rows(ids@), p@),
            Lookup::Missing => missing(rows(ids@), p@),
        },
{
    let ghost all = rows(ids@);
    let mut i: usize = 0;
    while i < ids.len()
        invariant
            all == rows(ids@),
            i <= ids.len(),
            forall|j: int| 0 <= j < i ==> !exact_at(all, p@, j),
        decreases ids.len() - i,
    {
        if same_text(&ids[i], p) {
            return Lookup::Found(i);
        }
        i += 1;
    }
    let mut found: Option<usize> = None;
    let mut k: usize = 0;
    while k < ids.len()
        invariant
            all == rows(ids@),
            k <= ids.len(),
            !has_id(all, p@),
            match found {
                Some(f) => f < k && starts_at(all, p@, f as int) && forall|j: int|
                    0 <= j < k && starts_at(all, p@, j) ==> j == f,
                None => forall|j: int| 0 <= j < k ==> !starts_at(all, p@, j),
            },
        decreases ids.len() - k,
    {
        if starts_with(&ids[k], p) {
            assert(starts_at(all, p@, k as int));
            match found {
                Some(f) => {
                    return Lookup::Ambiguous;
                },
                None => {
                    found = Some(k);
                },
            }
        }
        k += 1;
    }
    match found {
        Some(f) => Lookup::Found(f),
        None => Lookup::Missing,
    }
}

} // verus!
