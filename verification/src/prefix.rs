//! Prefix compression: the shortest beginning of an identifier that no other
//! task's identifier shares.

use crate::lookup::rows;
use vstd::prelude::*;

verus! {

/// Identifier `j` is another one than `i` and begins with the first `n`
/// characters of identifier `i`.
pub open spec fn other_starts(ids: Seq<Seq<char>>, i: int, n: int, j: int) -> bool {
    0 <= j < ids.len() && j != i && ids[i].take(n).is_prefix_of(ids[j])
}

/// Some other identifier begins with the first `n` characters of identifier `i`.
pub open spec fn taken(ids: Seq<Seq<char>>, i: int, n: int) -> bool {
    exists|j: int| other_starts(ids, i, n, j)
}

/// The least length from `n` on at which the beginning of identifier `i` is
/// not taken; the whole length where there is none.
pub open spec fn unique_len(ids: Seq<Seq<char>>, i: int, n: int) -> int
    decreases ids[i].len() - n,
{
    if n >= ids[i].len() {
        ids[i].len() as int
    } else if !taken(ids, i, n) {
        n
    } else {
        unique_len(ids, i, n + 1)
    }
}

/// How many characters of identifier `i` are displayed: all of them where
/// the identifier is shown in full, else the least number, from one on,
/// that no other identifier shares.
pub open spec fn display_len(ids: Seq<Seq<char>>, full: Seq<bool>, i: int) -> int {
    if full[i] {
        ids[i].len() as int
    } else {
        unique_len(ids, i, 1)
    }
}

/// The length of the longest of the prefixes, and 1 where none is longer.
pub open spec fn longest(prefixes: Seq<Seq<char>>) -> nat
    decreases prefixes.len(),
{
    if prefixes.len() == 0 {
        1
    } else {
        let rest = longest(prefixes.drop_last());
        if prefixes.last().len() > rest {
            prefixes.last().len()
        } else {
            rest
        }
    }
}

/// What the search from `n` on finds: a length between `n` and the whole
/// length, with every length before it taken, and itself not taken unless
/// it is the whole length.
pub proof fn lemma_unique_len(ids: Seq<Seq<char>>, i: int, n: int)
    requires
        0 <= i < ids.len(),
        0 <= n,
    ensures
        n <= ids[i].len() ==> n <= unique_len(ids, i, n) <= ids[i].len(),
        n > ids[i].len() ==> unique_len(ids, i, n) == ids[i].len(),
        forall|m: int| n <= m < unique_len(ids, i, n) ==> taken(ids, i, m),
        unique_len(ids, i, n) < ids[i].len() ==> !taken(ids, i, unique_len(ids, i, n)),
    decreases ids[i].len() - n,
{
    if n < ids[i].len() && taken(ids, i, n) {
        lemma_unique_len(ids, i, n + 1);
    }
}

/// The displayed prefix is the shortest beginning of the identifier, of one
/// character or more, that no other identifier begins with: every shorter
/// one is shared with another identifier, and it is itself shared only
/// where every beginning is, in which case it is the whole identifier. An
/// identifier shown in full is displayed whole.
pub proof fn lemma_display_len_shortest(ids: Seq<Seq<char>>, full: Seq<bool>, i: int)
    requires
        0 <= i < ids.len(),
        full.len() == ids.len(),
    ensures
        0 <= display_len(ids, full, i) <= ids[i].len(),
        full[i] ==> display_len(ids, full, i) == ids[i].len(),
        !full[i] && ids[i].len() >= 1 ==> display_len(ids, full, i) >= 1,
        !full[i] ==> forall|m: int| 1 <= m < display_len(ids, full, i) ==> taken(ids, i, m),
        !full[i] && taken(ids, i, display_len(ids, full, i)) ==> display_len(ids, full, i)
            == ids[i].len() && forall|m: int| 1 <= m <= ids[i].len() ==> taken(ids, i, m),
{
    lemma_unique_len(ids, i, 1);
}

/// Whether `b` begins with the first `n` characters of `a`.
pub fn shares(a: &Vec<char>, b: &Vec<char>, n: usize) -> (r: bool)
    requires
        n <= a.len(),
    ensures
        r == a@.take(n as int).is_prefix_of(b@),
{
    if n > b.len() {
        return false;
    }
    let mut k: usize = 0;
    while k < n
        invariant
            n <= a.len(),
            n <= b.len(),
            k <= n,
            forall|m: int| 0 <= m < k ==> a@[m] == b@[m],
        decreases n - k,
    {
        if a[k] != b[k] {
            assert(a@.take(n as int)[k as int] != b@.subrange(0, n as int)[k as int]);
            return false;
        }
        k += 1;
    }
    true
}

/// Whether some other identifier begins with the first `n` characters of
/// identifier `i`.
pub fn is_taken(ids: &Vec<Vec<char>>, i: usize, n: usize) -> (r: bool)
    requires
        i < ids.len(),
        n <= ids[i as int].len(),
    ensures
        r == taken(rows(ids@), i as int, n as int),
{
    let ghost all = rows(ids@);
    let mut j: usize = 0;
    while j < ids.len()
        invariant
            all == rows(ids@),
            i < ids.len(),
            n <= ids[i as int].len(),
            j <= ids.len(),
            forall|k: int| 0 <= k < j ==> !other_starts(all, i as int, n as int, k),
        decreases ids.len() - j,
    {
        if j != i && shares(&ids[i], &ids[j], n) {
            assert(other_starts(all, i as int, n as int, j as int));
            return true;
        }
        j += 1;
    }
    false
}

/// How many characters of identifier `i` to display.
pub fn prefix_len(ids: &Vec<Vec<char>>, full: &Vec<bool>, i: usize) -> (r: usize)
    requires
        i < ids.len(),
        full.len() == ids.len(),
    ensures
        r == display_len(rows(ids@), full@, i as int),
        r <= ids[i as int].len(),
{
    let ghost all = rows(ids@);
    let whole = ids[i].len();
    if full[i] {
        return whole;
    }
    let mut n: usize = 1;
    while n < whole
        invariant
            all == rows(ids@),
            i < ids.len(),
            whole == ids[i as int].len(),
            whole == all[i as int].len(),
            !full@[i as int],
            1 <= n,
            unique_len(all, i as int, 1) == unique_len(all, i as int, n as int),
        decreases whole - n,
    {
        if !is_taken(ids, i, n) {
            return n;
        }
        n += 1;
    }
    whole
}

} // verus!
