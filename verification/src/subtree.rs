//! The subtree under a task: the task and everything that hangs from it by
//! parent links.

use crate::lookup::rows;
use crate::text::same_text;
use vstd::prelude::*;

verus! {

/// The texts that a sequence of optional character vectors holds.
pub open spec fn opt_rows(v: Seq<Option<Vec<char>>>) -> Seq<Option<Seq<char>>> {
    Seq::new(
        v.len(),
        |i: int|
            match v[i] {
                Some(s) => Some(s@),
                None => None,
            },
    )
}

/// From the identifier `id`, at most `n` steps from a task to its parent
/// lead to `root`.
pub open spec fn descends(
    ids: Seq<Seq<char>>,
    parents: Seq<Option<Seq<char>>>,
    id: Seq<char>,
    root: Seq<char>,
    n: nat,
) -> bool
    decreases n,
{
    id == root || (n > 0 && exists|k: int|
        #![trigger ids[k]]
        0 <= k < ids.len() && ids[k] == id && parents[k] is Some && descends(
            ids,
            parents,
            parents[k]->0,
            root,
            (n - 1) as nat,
        ))
}

/// The identifier `id` is `root` or hangs from it by parent links.
pub open spec fn in_subtree(
    ids: Seq<Seq<char>>,
    parents: Seq<Option<Seq<char>>>,
    id: Seq<char>,
    root: Seq<char>,
) -> bool {
    exists|n: nat| descends(ids, parents, id, root, n)
}

/// A task that is not in the subtree has no parent in it: removing a
/// subtree leaves no task behind whose parent went with it.
pub proof fn lemma_subtree_closed(
    ids: Seq<Seq<char>>,
    parents: Seq<Option<Seq<char>>>,
    root: Seq<char>,
    k: int,
)
    requires
        0 <= k < ids.len(),
        parents[k] is Some,
        in_subtree(ids, parents, parents[k]->0, root),
    ensures
        in_subtree(ids, parents, ids[k], root),
{
    let n = choose|n: nat| descends(ids, parents, parents[k]->0, root, n);
    assert(descends(ids, parents, ids[k], root, n + 1));
}

/// Task `k` belongs with what is marked: it carries `root` as identifier or
/// as parent, or shares its identifier with a marked task, or has a marked
/// task for parent.
pub open spec fn joins(
    ids: Seq<Seq<char>>,
    parents: Seq<Option<Seq<char>>>,
    root: Seq<char>,
    marks: Seq<bool>,
    k: int,
) -> bool {
    ||| ids[k] == root
    ||| parents[k] == Some(root)
    ||| exists|j: int|
        #![trigger marks[j]]
        0 <= j < ids.len() && marks[j] && (ids[j] == ids[k] || parents[k] == Some(ids[j]))
}

/// Every marked task is in the subtree.
pub open spec fn sound(
    ids: Seq<Seq<char>>,
    parents: Seq<Option<Seq<char>>>,
    root: Seq<char>,
    marks: Seq<bool>,
) -> bool {
    forall|k: int|
        0 <= k < ids.len() && #[trigger] marks[k] ==> in_subtree(ids, parents, ids[k], root)
}

/// How many of the marks are not set.
pub open spec fn unmarked(marks: Seq<bool>) -> nat
    decreases marks.len(),
{
    if marks.len() == 0 {
        0
    } else {
        unmarked(marks.drop_last()) + if marks.last() {
            0nat
        } else {
            1nat
        }
    }
}

proof fn lemma_mark_one(marks: Seq<bool>, k: int)
    requires
        0 <= k < marks.len(),
        !marks[k],
    ensures
        unmarked(marks.update(k, true)) < unmarked(marks),
    decreases marks.len(),
{
    let after = marks.update(k, true);
    if k == marks.len() - 1 {
        assert(after.drop_last() =~= marks.drop_last());
    } else {
        assert(after.drop_last() =~= marks.drop_last().update(k, true));
        lemma_mark_one(marks.drop_last(), k);
    }
}

proof fn lemma_join_sound(
    ids: Seq<Seq<char>>,
    parents: Seq<Option<Seq<char>>>,
    root: Seq<char>,
    marks: Seq<bool>,
    k: int,
)
    requires
        ids.len() == parents.len(),
        ids.len() == marks.len(),
        0 <= k < ids.len(),
        sound(ids, parents, root, marks),
        joins(ids, parents, root, marks, k),
    ensures
        in_subtree(ids, parents, ids[k], root),
{
    if ids[k] == root {
        assert(descends(ids, parents, ids[k], root, 0));
    } else if parents[k] == Some(root) {
        assert(descends(ids, parents, root, root, 0));
        assert(descends(ids, parents, ids[k], root, 1));
    } else {
        let j = choose|j: int|
            #![trigger marks[j]]
            0 <= j < ids.len() && marks[j] && (ids[j] == ids[k] || parents[k] == Some(ids[j]));
        assert(in_subtree(ids, parents, ids[j], root));
        if ids[j] != ids[k] {
            lemma_subtree_closed(ids, parents, root, k);
        }
    }
}

proof fn lemma_closed_complete(
    ids: Seq<Seq<char>>,
    parents: Seq<Option<Seq<char>>>,
    root: Seq<char>,
    marks: Seq<bool>,
    k: int,
    n: nat,
)
    requires
        ids.len() == parents.len(),
        ids.len() == marks.len(),
        forall|i: int| 0 <= i < ids.len() && joins(ids, parents, root, marks, i) ==> marks[i],
        0 <= k < ids.len(),
        descends(ids, parents, ids[k], root, n),
    ensures
        marks[k],
    decreases n,
{
    if ids[k] != root {
        let k1 = choose|k1: int|
            #![trigger ids[k1]]
            0 <= k1 < ids.len() && ids[k1] == ids[k] && parents[k1] is Some && descends(
                ids,
                parents,
                parents[k1]->0,
                root,
                (n - 1) as nat,
            );
        let p = parents[k1]->0;
        if p != root {
            let k2 = choose|k2: int|
                #![trigger ids[k2]]
                0 <= k2 < ids.len() && ids[k2] == p && parents[k2] is Some && descends(
                    ids,
                    parents,
                    parents[k2]->0,
                    root,
                    (n - 2) as nat,
                );
            lemma_closed_complete(ids, parents, root, marks, k2, (n - 1) as nat);
        }
        assert(marks[k1]);
    }
}

fn same_opt(a: &Option<Vec<char>>, b: &Vec<char>) -> (r: bool)
    ensures
        r == (a matches Some(s) && s@ == b@),
{
    match a {
        Some(s) => same_text(s, b),
        None => false,
    }
}

fn joins_now(
    ids: &Vec<Vec<char>>,
    parents: &Vec<Option<Vec<char>>>,
    root: &Vec<char>,
    marks: &Vec<bool>,
    k: usize,
) -> (r: bool)
    requires
        ids.len() == parents.len(),
        ids.len() == marks.len(),
        k < ids.len(),
    ensures
        r == joins(rows(ids@), opt_rows(parents@), root@, marks@, k as int),
{
    let ghost all = rows(ids@);
    let ghost ups = opt_rows(parents@);
    if same_text(&ids[k], root) || same_opt(&parents[k], root) {
        return true;
    }
    let mut j: usize = 0;
    while j < ids.len()
        invariant
            all == rows(ids@),
            ups == opt_rows(parents@),
            ids.len() == parents.len(),
            ids.len() == marks.len(),
            k < ids.len(),
            j <= ids.len(),
            all[k as int] == ids@[k as int]@,
            ups[k as int] == (match parents@[k as int] {
                Some(s) => Some(s@),
                None => None,
            }),
            forall|i: int|
                #![trigger marks@[i]]
                0 <= i < j ==> !(marks@[i] && (all[i] == all[k as int] || ups[k as int] == Some(
                    all[i],
                ))),
        decreases ids.len() - j,
    {
        if marks[j] && (same_text(&ids[j], &ids[k]) || same_opt(&parents[k], &ids[j])) {
            return true;
        }
        j += 1;
    }
    false
}

/// Marks the tasks of the subtree under `root`: those whose identifier is
/// `root` or hangs from it by parent links.
pub fn mark_subtree(
    ids: &Vec<Vec<char>>,
    parents: &Vec<Option<Vec<char>>>,
    root: &Vec<char>,
) -> (marks: Vec<bool>)
    requires
        ids.len() == parents.len(),
    ensures
        marks.len() == ids.len(),
        forall|k: int|
            0 <= k < ids.len() ==> marks@[k] == in_subtree(
                rows(ids@),
                opt_rows(parents@),
                #[trigger] rows(ids@)[k],
                root@,
            ),
{
    let ghost all = rows(ids@);
    let ghost ups = opt_rows(parents@);
    let n = ids.len();
    let mut marks: Vec<bool> = Vec::new();
    let mut i: usize = 0;
    while i < n
        invariant
            i <= n,
            marks.len() == i,
            forall|k: int| 0 <= k < i ==> !marks@[k],
        decreases n - i,
    {
        marks.push(false);
        i += 1;
    }
    loop
        invariant
            all == rows(ids@),
            ups == opt_rows(parents@),
            n == ids.len(),
            n == parents.len(),
            n == marks.len(),
            sound(all, ups, root@, marks@),
        ensures
            n == marks.len(),
            sound(all, ups, root@, marks@),
            forall|k: int| 0 <= k < n && joins(all, ups, root@, marks@, k) ==> marks@[k],
        decreases unmarked(marks@),
    {
        let ghost start = marks@;
        let mut changed = false;
        let mut k: usize = 0;
        while k < n
            invariant
                all == rows(ids@),
                ups == opt_rows(parents@),
                n == ids.len(),
                n == parents.len(),
                n == marks.len(),
                k <= n,
                sound(all, ups, root@, marks@),
                changed ==> unmarked(marks@) < unmarked(start),
                !changed ==> marks@ == start,
                !changed ==> forall|m: int|
                    0 <= m < k && joins(all, ups, root@, start, m) ==> start[m],
            decreases n - k,
        {
            if !marks[k] && joins_now(ids, parents, root, &marks, k) {
                proof {
                    lemma_join_sound(all, ups, root@, marks@, k as int);
                    lemma_mark_one(marks@, k as int);
                }
                marks.set(k, true);
                changed = true;
            }
            k += 1;
        }
        if !changed {
            break;
        }
    }
    proof {
        assert forall|k: int| 0 <= k < ids.len() implies marks@[k] == in_subtree(
            all,
            ups,
            #[trigger] all[k],
            root@,
        ) by {
            if in_subtree(all, ups, all[k], root@) {
                let m = choose|m: nat| descends(all, ups, all[k], root@, m);
                lemma_closed_complete(all, ups, root@, marks@, k, m);
            }
        }
    }
    marks
}

} // verus!
