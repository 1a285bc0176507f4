//! What holds of the store whatever its tasks are.

use crate::digest::sha1_hex;
use crate::listing::{children_in_order, lemma_children_in_order, listed, next_indent, render};
use crate::lookup::{exact_at, has_id};
use crate::model::{
    child_of, children_of, display_prefix, full_of, ids_of, in_tree, outside, parent_of_new,
    parents_of, without_subtree,
};
use crate::prefix::{lemma_display_len_shortest, other_starts, taken};
use crate::stamp::Timestamp;
use crate::subtree::{descends, lemma_subtree_closed};
use crate::task::{created, TaskView};
use crate::task_list::add_refusal;
use vstd::prelude::*;

verus! {

/// Some task other than task `i` has an identifier that begins with `q`.
pub open spec fn shared(tasks: Seq<TaskView>, i: int, q: Seq<char>) -> bool {
    exists|j: int| 0 <= j < tasks.len() && j != i && q.is_prefix_of(#[trigger] tasks[j].id)
}

/// The display prefix of a task is the shortest beginning of its
/// identifier, of one character or more, that the identifier of no other
/// task begins with. Every shorter beginning is shared with another task;
/// the prefix itself is shared only where every beginning is, and is then
/// the whole identifier. A task whose identifier is shown in full is
/// displayed under the whole identifier.
pub proof fn lemma_display_prefix_shortest(tasks: Seq<TaskView>, i: int)
    requires
        0 <= i < tasks.len(),
    ensures
        display_prefix(tasks, i).is_prefix_of(tasks[i].id),
        tasks[i].show_full_id ==> display_prefix(tasks, i) == tasks[i].id,
        !tasks[i].show_full_id && tasks[i].id.len() > 0 ==> display_prefix(tasks, i).len() > 0,
        !tasks[i].show_full_id ==> forall|q: Seq<char>|
            q.len() > 0 && q.is_prefix_of(tasks[i].id) && q.len() < display_prefix(tasks, i).len()
                ==> #[trigger] shared(tasks, i, q),
        !tasks[i].show_full_id && shared(tasks, i, display_prefix(tasks, i)) ==> display_prefix(
            tasks,
            i,
        ) == tasks[i].id && forall|q: Seq<char>|
            q.len() > 0 && q.is_prefix_of(tasks[i].id) ==> #[trigger] shared(tasks, i, q),
{
    let ids = ids_of(tasks);
    let full = full_of(tasks);
    let id = tasks[i].id;
    let p = display_prefix(tasks, i);
    lemma_display_len_shortest(ids, full, i);
    assert(p =~= id.subrange(0, p.len() as int));
    if tasks[i].show_full_id {
        assert(p =~= id);
    } else {
        assert forall|m: int| taken(ids, i, m) implies shared(tasks, i, id.take(m)) by {
            let j = choose|j: int| other_starts(ids, i, m, j);
            assert(id.take(m).is_prefix_of(tasks[j].id));
        }
        assert forall|m: int| shared(tasks, i, id.take(m)) implies taken(ids, i, m) by {
            let j = choose|j: int|
                0 <= j < tasks.len() && j != i && id.take(m).is_prefix_of(#[trigger] tasks[j].id);
            assert(other_starts(ids, i, m, j));
        }
        assert forall|q: Seq<char>|
            q.len() > 0 && q.is_prefix_of(id) && q.len() < p.len() implies #[trigger] shared(
            tasks,
            i,
            q,
        ) by {
            assert(q =~= id.take(q.len() as int));
            assert(taken(ids, i, q.len() as int));
        }
        if shared(tasks, i, p) {
            assert(taken(ids, i, p.len() as int));
            assert(p =~= id);
            assert forall|q: Seq<char>| q.len() > 0 && q.is_prefix_of(id) implies #[trigger] shared(
                tasks,
                i,
                q,
            ) by {
                assert(q =~= id.take(q.len() as int));
                assert(taken(ids, i, q.len() as int));
            }
        }
    }
}

/// Adding a task keeps the identifiers of the store apart from one
/// another: an identifier that is given is refused where the store has it,
/// and a derived one is new wherever the digest is not in the store yet.
pub proof fn lemma_add_keeps_ids_apart(
    tasks: Seq<TaskView>,
    parent_id: Option<Seq<char>>,
    id: Option<Seq<char>>,
    desc: Seq<char>,
    now: Timestamp,
)
    requires
        ids_of(tasks).no_duplicates(),
        add_refusal(tasks, parent_id, id) is None,
        id is None ==> !has_id(ids_of(tasks), sha1_hex(desc + now.text())),
    ensures
        ids_of(tasks.push(created(parent_of_new(tasks, parent_id), id, desc, now))).no_duplicates(),
{
    let task = created(parent_of_new(tasks, parent_id), id, desc, now);
    let after = ids_of(tasks.push(task));
    assert(!has_id(ids_of(tasks), task.id));
    assert forall|a: int, b: int|
        0 <= a < after.len() && 0 <= b < after.len() && a != b implies after[a] != after[b] by {
        if a < tasks.len() && b < tasks.len() {
            assert(after[a] == ids_of(tasks)[a] && after[b] == ids_of(tasks)[b]);
        } else if a < tasks.len() {
            assert(!exact_at(ids_of(tasks), task.id, a));
        } else {
            assert(!exact_at(ids_of(tasks), task.id, b));
        }
    }
}

/// After the subtree under `root` has left the store, no task that stays
/// carries an identifier of the subtree, and none has a parent in it.
pub proof fn lemma_removal_leaves_no_orphans(tasks: Seq<TaskView>, root: Seq<char>, k: int)
    requires
        0 <= k < without_subtree(tasks, root).len(),
    ensures
        !in_tree(tasks, root, without_subtree(tasks, root)[k].id),
        without_subtree(tasks, root)[k].parent_id matches Some(p) ==> !in_tree(tasks, root, p),
{
    let keep = outside(tasks, root);
    let stay = without_subtree(tasks, root);
    tasks.lemma_filter_pred(keep, k);
    tasks.lemma_filter_contains_rev(keep, stay[k]);
    let j = choose|j: int| 0 <= j < tasks.len() && tasks[j] == stay[k];
    if stay[k].parent_id is Some && in_tree(tasks, root, stay[k].parent_id->0) {
        lemma_subtree_closed(ids_of(tasks), parents_of(tasks), root, j);
    }
}

/// Under a task without children hangs nothing: its subtree holds its own
/// identifier and no other.
pub proof fn lemma_subtree_of_leaf(tasks: Seq<TaskView>, root: Seq<char>, id: Seq<char>)
    requires
        children_of(tasks, root).len() == 0,
    ensures
        in_tree(tasks, root, id) <==> id == root,
{
    if id == root {
        assert(descends(ids_of(tasks), parents_of(tasks), id, root, 0));
    }
    if in_tree(tasks, root, id) {
        let n = choose|n: nat| descends(ids_of(tasks), parents_of(tasks), id, root, n);
        lemma_leaf_descent(tasks, root, id, n);
    }
}

proof fn lemma_leaf_descent(tasks: Seq<TaskView>, root: Seq<char>, id: Seq<char>, n: nat)
    requires
        children_of(tasks, root).len() == 0,
        descends(ids_of(tasks), parents_of(tasks), id, root, n),
    ensures
        id == root,
    decreases n,
{
    let ids = ids_of(tasks);
    let parents = parents_of(tasks);
    if id != root {
        let k = choose|k: int|
            #![trigger ids[k]]
            0 <= k < ids.len() && ids[k] == id && parents[k] is Some && descends(
                ids,
                parents,
                parents[k]->0,
                root,
                (n - 1) as nat,
            );
        lemma_leaf_descent(tasks, root, parents[k]->0, (n - 1) as nat);
        let is_child = child_of(root);
        tasks.lemma_filter_contains(is_child, k);
    }
}

/// A way down the tree: from a task without parent, each further task has
/// the one before it for parent.
pub open spec fn way_down(tasks: Seq<TaskView>, way: Seq<int>) -> bool {
    &&& forall|j: int| 0 <= j < way.len() ==> 0 <= #[trigger] way[j] < tasks.len()
    &&& way.len() > 0 ==> tasks[way[0]].parent_id is None
    &&& forall|j: int|
        0 < j < way.len() ==> tasks[#[trigger] way[j]].parent_id == Some(tasks[way[j - 1]].id)
}

proof fn lemma_way_meets_no_task_twice(tasks: Seq<TaskView>, way: Seq<int>, a: int, b: int)
    requires
        ids_of(tasks).no_duplicates(),
        way_down(tasks, way),
        0 <= a < b < way.len(),
    ensures
        way[a] != way[b],
    decreases a,
{
    if way[a] == way[b] {
        if a > 0 {
            assert(ids_of(tasks)[way[a - 1]] == ids_of(tasks)[way[b - 1]]);
            lemma_way_meets_no_task_twice(tasks, way, a - 1, b - 1);
        }
    }
}

/// Where the identifiers of the store are distinct, no way down the tree
/// is longer than the store has tasks.
pub proof fn lemma_way_down_is_short(tasks: Seq<TaskView>, way: Seq<int>)
    requires
        ids_of(tasks).no_duplicates(),
        way_down(tasks, way),
    ensures
        way.len() <= tasks.len(),
{
    assert forall|a: int, b: int| 0 <= a < way.len() && 0 <= b < way.len() && a != b implies way[a]
        != way[b] by {
        if a < b {
            lemma_way_meets_no_task_twice(tasks, way, a, b);
        } else {
            lemma_way_meets_no_task_twice(tasks, way, b, a);
        }
    }
    way.unique_seq_to_set();
    let all = vstd::set_lib::set_int_range(0, tasks.len() as int);
    vstd::set_lib::lemma_int_range(0, tasks.len() as int);
    assert(way.to_set().subset_of(all)) by {
        assert forall|i: int| way.to_set().contains(i) implies all.contains(i) by {
            let j = choose|j: int| 0 <= j < way.len() && way[j] == i;
            assert(0 <= way[j] < tasks.len());
        }
    }
    vstd::set_lib::lemma_len_subset(way.to_set(), all);
}

proof fn lemma_render_deep_enough(
    tasks: Seq<TaskView>,
    prefixes: Seq<Seq<char>>,
    way: Seq<int>,
    kids: Seq<int>,
    k: int,
    indent: Seq<char>,
    hide: bool,
    d1: nat,
    d2: nat,
)
    requires
        ids_of(tasks).no_duplicates(),
        way_down(tasks, way),
        kids == children_in_order(
            tasks,
            if way.len() == 0 {
                None
            } else {
                Some(tasks[way.last()].id)
            },
            hide,
            tasks.len(),
        ),
        0 <= k,
        d1 + way.len() >= tasks.len(),
        d2 + way.len() >= tasks.len(),
    ensures
        render(tasks, prefixes, kids, k, indent, hide, d1) == render(
            tasks,
            prefixes,
            kids,
            k,
            indent,
            hide,
            d2,
        ),
    decreases tasks.len() - way.len(), kids.len() - k,
{
    lemma_way_down_is_short(tasks, way);
    if k < kids.len() {
        let parent = if way.len() == 0 {
            None
        } else {
            Some(tasks[way.last()].id)
        };
        lemma_children_in_order(tasks, parent, hide);
        let i = kids[k];
        assert(0 <= i < tasks.len() && listed(tasks, parent, hide, i));
        let longer = way.push(i);
        assert(way_down(tasks, longer)) by {
            assert forall|j: int| 0 < j < longer.len() implies tasks[#[trigger] longer[j]].parent_id
                == Some(tasks[longer[j - 1]].id) by {
                if j < way.len() {
                    assert(longer[j] == way[j] && longer[j - 1] == way[j - 1]);
                }
            }
        }
        lemma_way_down_is_short(tasks, longer);
        let last = k == kids.len() - 1;
        lemma_render_deep_enough(
            tasks,
            prefixes,
            longer,
            children_in_order(tasks, Some(tasks[i].id), hide, tasks.len()),
            0,
            next_indent(indent, last),
            hide,
            (d1 - 1) as nat,
            (d2 - 1) as nat,
        );
        lemma_render_deep_enough(tasks, prefixes, way, kids, k + 1, indent, hide, d1, d2);
    }
}

/// Where the identifiers of the store are distinct, the listing leaves out
/// no level of the tree: to go down further than the number of tasks
/// would give the same lines.
pub proof fn lemma_listing_reaches_every_level(
    tasks: Seq<TaskView>,
    prefixes: Seq<Seq<char>>,
    hide: bool,
    depth: nat,
)
    requires
        ids_of(tasks).no_duplicates(),
        depth >= tasks.len(),
    ensures
        render(
            tasks,
            prefixes,
            children_in_order(tasks, None, hide, tasks.len()),
            0,
            "│"@,
            hide,
            depth,
        ) == render(
            tasks,
            prefixes,
            children_in_order(tasks, None, hide, tasks.len()),
            0,
            "│"@,
            hide,
            tasks.len(),
        ),
{
    lemma_render_deep_enough(
        tasks,
        prefixes,
        Seq::empty(),
        children_in_order(tasks, None, hide, tasks.len()),
        0,
        "│"@,
        hide,
        depth,
        tasks.len(),
    );
}

} // verus!
