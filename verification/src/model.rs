//! The store as a sequence of tasks: what its operations mean, stated
//! over plain values.

use crate::lookup::named;
use crate::prefix::display_len;
use crate::saving::ids_in_order;
use crate::subtree::in_subtree;
use crate::task::{file_line, Task, TaskView};
use vstd::prelude::*;

verus! {

/// What each of the tasks is.
pub open spec fn views(tasks: Seq<Task>) -> Seq<TaskView> {
    Seq::new(tasks.len(), |i: int| tasks[i]@)
}

/// The identifiers of the tasks, in the order of the store.
pub open spec fn ids_of(tasks: Seq<TaskView>) -> Seq<Seq<char>> {
    Seq::new(tasks.len(), |i: int| tasks[i].id)
}

/// For each task, whether its identifier is shown in full.
pub open spec fn full_of(tasks: Seq<TaskView>) -> Seq<bool> {
    Seq::new(tasks.len(), |i: int| tasks[i].show_full_id)
}

/// The prefix under which task `i` is displayed.
pub open spec fn display_prefix(tasks: Seq<TaskView>, i: int) -> Seq<char> {
    tasks[i].id.take(display_len(ids_of(tasks), full_of(tasks), i))
}

/// The display prefix of every task.
pub open spec fn display_prefixes(tasks: Seq<TaskView>) -> Seq<Seq<char>> {
    Seq::new(tasks.len(), |i: int| display_prefix(tasks, i))
}

/// The identifier of the task that `p` names, if it names one.
pub open spec fn full_id_of(tasks: Seq<TaskView>, p: Seq<char>) -> Option<Seq<char>> {
    match named(ids_of(tasks), p) {
        Some(i) => Some(tasks[i].id),
        None => None,
    }
}

/// The identifier that a new task gets for its parent: the whole identifier
/// of the task that the typed prefix names.
pub open spec fn parent_of_new(tasks: Seq<TaskView>, parent_id: Option<Seq<char>>) -> Option<
    Seq<char>,
> {
    match parent_id {
        Some(p) => full_id_of(tasks, p),
        None => None,
    }
}

/// The confirmation of an addition.
pub open spec fn added_text(prefix: Seq<char>, id: Seq<char>) -> Seq<char> {
    "added task "@ + prefix + " ("@ + id + ")"@
}

/// The two stores hold tasks with the same identifiers, shown in full or
/// not as in the other, in the same order.
pub open spec fn same_ids(a: Seq<TaskView>, b: Seq<TaskView>) -> bool {
    &&& a.len() == b.len()
    &&& forall|k: int|
        0 <= k < a.len() ==> a[k].id == b[k].id && a[k].show_full_id == b[k].show_full_id
}

/// The display prefixes depend on nothing but the identifiers and on which
/// of them are shown in full.
pub proof fn lemma_prefixes_follow_ids(a: Seq<TaskView>)
    ensures
        forall|b: Seq<TaskView>| #[trigger]
            same_ids(a, b) ==> display_prefixes(b) == display_prefixes(a),
{
    assert forall|b: Seq<TaskView>| #[trigger] same_ids(a, b) implies display_prefixes(b)
        == display_prefixes(a) by {
        assert(ids_of(a) =~= ids_of(b));
    }
}

/// The tasks whose parent is the task with the identifier `id`, in the
/// order of the store.
pub open spec fn children_of(tasks: Seq<TaskView>, id: Seq<char>) -> Seq<TaskView> {
    tasks.filter(child_of(id))
}

/// Whether a task has the task with the identifier `id` for parent.
pub open spec fn child_of(id: Seq<char>) -> spec_fn(TaskView) -> bool {
    |t: TaskView| t.parent_id == Some(id)
}

/// What each of the tasks is that are lent out to be changed, as they
/// are when they are lent.
pub open spec fn lent_views(tasks: Seq<&mut Task>) -> Seq<TaskView> {
    Seq::new(tasks.len(), |i: int| (*tasks[i])@)
}

/// The place in `tasks` of the `k`-th of the tasks that `pred` holds of,
/// counted from 0.
pub open spec fn nth_place(tasks: Seq<TaskView>, pred: spec_fn(TaskView) -> bool, k: int) -> int
    decreases tasks.len(),
{
    if tasks.len() == 0 {
        0
    } else if pred(tasks.last()) && tasks.drop_last().filter(pred).len() == k {
        tasks.len() - 1
    } else {
        nth_place(tasks.drop_last(), pred, k)
    }
}

/// The `k`-th of the tasks that `pred` holds of stands at `nth_place`: it
/// is that task, and `k` such tasks stand before it.
pub proof fn lemma_nth_place(tasks: Seq<TaskView>, pred: spec_fn(TaskView) -> bool, k: int)
    requires
        0 <= k < tasks.filter(pred).len(),
    ensures
        0 <= nth_place(tasks, pred, k) < tasks.len(),
        tasks[nth_place(tasks, pred, k)] == tasks.filter(pred)[k],
        tasks.take(nth_place(tasks, pred, k)).filter(pred).len() == k,
    decreases tasks.len(),
{
    if tasks.len() == 0 {
        tasks.lemma_filter_len(pred);
    } else {
        let front = tasks.drop_last();
        front.lemma_filter_push(tasks.last(), pred);
        assert(front.push(tasks.last()) =~= tasks);
        if pred(tasks.last()) && front.filter(pred).len() == k {
            assert(tasks.take(tasks.len() - 1) =~= front);
        } else {
            lemma_nth_place(front, pred, k);
            assert(tasks.take(nth_place(front, pred, k)) =~= front.take(nth_place(front, pred, k)));
        }
    }
}

/// The store after one task has changed: as `change` says where `p` names
/// a task, and as it was where `p` names none.
pub open spec fn changed(
    tasks: Seq<TaskView>,
    p: Seq<char>,
    change: spec_fn(TaskView) -> TaskView,
) -> Seq<TaskView> {
    match named(ids_of(tasks), p) {
        Some(i) => tasks.update(i, change(tasks[i])),
        None => tasks,
    }
}

/// The parent of each task, in the order of the store.
pub open spec fn parents_of(tasks: Seq<TaskView>) -> Seq<Option<Seq<char>>> {
    Seq::new(tasks.len(), |i: int| tasks[i].parent_id)
}

/// The identifier `id` belongs to the subtree under `root`: it is `root`
/// or hangs from it by the parent links of `tasks`.
pub open spec fn in_tree(tasks: Seq<TaskView>, root: Seq<char>, id: Seq<char>) -> bool {
    in_subtree(ids_of(tasks), parents_of(tasks), id, root)
}

/// The tasks of the subtree under `root`, in the order of the store.
pub open spec fn subtree_of(tasks: Seq<TaskView>, root: Seq<char>) -> Seq<TaskView> {
    tasks.filter(inside(tasks, root))
}

/// Whether a task belongs to the subtree under `root`.
pub open spec fn inside(tasks: Seq<TaskView>, root: Seq<char>) -> spec_fn(TaskView) -> bool {
    |t: TaskView| in_tree(tasks, root, t.id)
}

/// Whether a task stands outside the subtree under `root`.
pub open spec fn outside(tasks: Seq<TaskView>, root: Seq<char>) -> spec_fn(TaskView) -> bool {
    |t: TaskView| !in_tree(tasks, root, t.id)
}

/// The tasks outside the subtree under `root`, in the order of the store.
pub open spec fn without_subtree(tasks: Seq<TaskView>, root: Seq<char>) -> Seq<TaskView> {
    tasks.filter(outside(tasks, root))
}

/// The lines of the task file: one for each task, in the order of the
/// identifiers, made of the task's description and of its JSON text.
pub open spec fn file_lines(tasks: Seq<TaskView>, payloads: Seq<Seq<char>>) -> Seq<Seq<char>> {
    let order = ids_in_order(ids_of(tasks), tasks.len());
    Seq::new(tasks.len(), |k: int| file_line(tasks[order[k]].desc, payloads[order[k]]))
}

} // verus!
