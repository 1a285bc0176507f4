//! The listing: the tasks as a tree, each under its parent, siblings in the
//! order of their creation.

use crate::order::{insert_behind, lemma_sorted_first, sorted_first};
use crate::task::{Task, TaskView};
use crate::model::views;
use crate::text::texts;
use vstd::prelude::*;

verus! {

/// Task `i` is listed under `parent`: it has that parent and is not hidden
/// as completed.
pub open spec fn listed(
    tasks: Seq<TaskView>,
    parent: Option<Seq<char>>,
    hide: bool,
    i: int,
) -> bool {
    tasks[i].parent_id == parent && !(hide && tasks[i].completed)
}

/// Whether task `a` was created no later than task `b`.
pub open spec fn by_time(tasks: Seq<TaskView>) -> spec_fn(int, int) -> bool {
    |a: int, b: int| tasks[a].timestamp.nanos <= tasks[b].timestamp.nanos
}

/// Whether a task is listed under `parent`.
pub open spec fn is_listed(tasks: Seq<TaskView>, parent: Option<Seq<char>>, hide: bool) -> spec_fn(
    int,
) -> bool {
    |i: int| listed(tasks, parent, hide, i)
}

/// Those of the first `n` tasks that are listed under `parent`, by time of
/// creation; tasks of one time in the order of the store.
pub open spec fn children_in_order(
    tasks: Seq<TaskView>,
    parent: Option<Seq<char>>,
    hide: bool,
    n: nat,
) -> Seq<int> {
    sorted_first(by_time(tasks), is_listed(tasks, parent, hide), n)
}

/// The tasks listed under a parent are those of the store that have that
/// parent and are not hidden, each once; they stand by time of creation,
/// the earliest first, and tasks of one time as they stand in the store.
pub proof fn lemma_children_in_order(tasks: Seq<TaskView>, parent: Option<Seq<char>>, hide: bool)
    ensures
        forall|k: int|
            0 <= k < children_in_order(tasks, parent, hide, tasks.len()).len() ==> {
                let i = #[trigger] children_in_order(tasks, parent, hide, tasks.len())[k];
                0 <= i < tasks.len() && listed(tasks, parent, hide, i)
            },
        forall|i: int|
            0 <= i < tasks.len() && listed(tasks, parent, hide, i) ==> #[trigger] children_in_order(
                tasks,
                parent,
                hide,
                tasks.len(),
            ).contains(i),
        forall|a: int, b: int|
            0 <= a < b < children_in_order(tasks, parent, hide, tasks.len()).len() ==> {
                let x = #[trigger] children_in_order(tasks, parent, hide, tasks.len())[a];
                let y = #[trigger] children_in_order(tasks, parent, hide, tasks.len())[b];
                tasks[x].timestamp.nanos < tasks[y].timestamp.nanos || (tasks[x].timestamp.nanos
                    == tasks[y].timestamp.nanos && x < y)
            },
{
    lemma_sorted_first(by_time(tasks), is_listed(tasks, parent, hide), tasks.len());
}

/// The places that a sequence of indices holds.
pub open spec fn places(v: Seq<usize>) -> Seq<int> {
    Seq::new(v.len(), |i: int| v[i] as int)
}

/// `s` without its last character, if it has one.
pub open spec fn chopped(s: Seq<char>) -> Seq<char> {
    if s.len() == 0 {
        s
    } else {
        s.drop_last()
    }
}

/// The tags as they stand in a line: each in square brackets, a space behind it.
pub open spec fn tags_text(tags: Seq<Seq<char>>) -> Seq<char>
    decreases tags.len(),
{
    if tags.len() == 0 {
        Seq::empty()
    } else {
        tags_text(tags.drop_last()) + seq!['['] + tags.last() + seq![']', ' ']
    }
}

/// The indent of a task's own line: the branch to it, drawn as the last
/// one where no sibling follows.
pub open spec fn item_indent(indent: Seq<char>, last: bool) -> Seq<char> {
    chopped(indent) + if last {
        "└─ "@
    } else {
        "├─ "@
    }
}

/// The indent under which a task's children are listed: the line of the
/// siblings goes on beside them unless the task is the last of them.
pub open spec fn next_indent(indent: Seq<char>, last: bool) -> Seq<char> {
    if last {
        chopped(indent) + "   │"@
    } else {
        indent + "  │"@
    }
}

/// The line of one task: branch, display prefix, tags and description.
pub open spec fn task_line(task: TaskView, prefix: Seq<char>, indent: Seq<char>, last: bool) -> Seq<
    char,
> {
    item_indent(indent, last) + prefix + ": "@ + tags_text(task.tags) + task.desc
}

/// The lines for the siblings `kids` from the `k`-th on, each followed at
/// once by the lines of its own children, down to `depth` levels.
pub open spec fn render(
    tasks: Seq<TaskView>,
    prefixes: Seq<Seq<char>>,
    kids: Seq<int>,
    k: int,
    indent: Seq<char>,
    hide: bool,
    depth: nat,
) -> Seq<Seq<char>>
    decreases depth, kids.len() - k,
{
    if depth == 0 || k < 0 || k >= kids.len() {
        Seq::empty()
    } else {
        let i = kids[k];
        let last = k == kids.len() - 1;
        seq![task_line(tasks[i], prefixes[i], indent, last)] + render(
            tasks,
            prefixes,
            children_in_order(tasks, Some(tasks[i].id), hide, tasks.len()),
            0,
            next_indent(indent, last),
            hide,
            (depth - 1) as nat,
        ) + render(tasks, prefixes, kids, k + 1, indent, hide, depth)
    }
}

/// The whole listing: a heading, then the tasks without parent and under
/// each its children. With `hide` set, a completed task is left out, and
/// with it all that hangs from it. The listing goes down as many levels
/// as the store has tasks, and no further.
pub open spec fn listing(tasks: Seq<TaskView>, prefixes: Seq<Seq<char>>, hide: bool) -> Seq<
    Seq<char>,
> {
    seq!["Tasks:"@] + render(
        tasks,
        prefixes,
        children_in_order(tasks, None, hide, tasks.len()),
        0,
        "│"@,
        hide,
        tasks.len(),
    )
}

fn has_parent(task: &Task, parent: &Option<String>) -> (r: bool)
    ensures
        r == (task@.parent_id == crate::task::opt_text(*parent)),
{
    match (task.parent_id(), parent) {
        (Some(a), Some(b)) => *a == *b,
        (None, None) => true,
        _ => false,
    }
}

/// The tasks listed under `parent`, as places in `tasks`, in the order in
/// which they are listed.
pub fn children_sorted(tasks: &Vec<Task>, parent: &Option<String>, hide: bool) -> (r: Vec<usize>)
    ensures
        places(r@) == children_in_order(
            views(tasks@),
            crate::task::opt_text(*parent),
            hide,
            tasks@.len(),
        ),
        forall|k: int| 0 <= k < r@.len() ==> r@[k] < tasks@.len(),
{
    let ghost all = views(tasks@);
    let ghost up = crate::task::opt_text(*parent);
    let mut order: Vec<usize> = Vec::new();
    let mut i: usize = 0;
    while i < tasks.len()
        invariant
            all == views(tasks@),
            up == crate::task::opt_text(*parent),
            i <= tasks.len(),
            places(order@) == children_in_order(all, up, hide, i as nat),
            forall|k: int| 0 <= k < order@.len() ==> order@[k] < tasks@.len(),
        decreases tasks.len() - i,
    {
        let task = &tasks[i];
        if has_parent(task, parent) && !(hide && task.completed()) {
            let stamp = task.timestamp().nanos();
            let ghost had = places(order@);
            let mut pos: usize = order.len();
            assert(had.take(pos as int) =~= had);
            while pos > 0 && tasks[order[pos - 1]].timestamp().nanos() > stamp
                invariant
                    all == views(tasks@),
                    i < tasks.len(),
                    stamp == all[i as int].timestamp.nanos,
                    had == places(order@),
                    pos <= order.len(),
                    forall|k: int| 0 <= k < order@.len() ==> order@[k] < tasks@.len(),
                    insert_behind(by_time(all), had, i as int) == insert_behind(by_time(all),
                        had.take(pos as int),
                        i as int,
                    ) + had.skip(pos as int),
                decreases pos,
            {
                let ghost front = had.take(pos as int);
                assert(front.drop_last() =~= had.take(pos - 1));
                pos -= 1;
            }
            order.insert(pos, i);
        }
        i += 1;
    }
    order
}

fn chop(s: &str) -> (r: &str)
    ensures
        r@ == chopped(s@),
{
    let n = s.unicode_len();
    if n == 0 {
        s
    } else {
        let r = s.substring_char(0, n - 1);
        r
    }
}

fn tags_line(tags: &Vec<String>) -> (r: String)
    ensures
        r@ == tags_text(texts(tags@)),
{
    let mut out = String::new();
    let mut i: usize = 0;
    proof {
        reveal_strlit("[");
        reveal_strlit("] ");
    }
    while i < tags.len()
        invariant
            i <= tags.len(),
            out@ == tags_text(texts(tags@).take(i as int)),
            "["@ == seq!['['],
            "] "@ == seq![']', ' '],
        decreases tags.len() - i,
    {
        let ghost done = texts(tags@).take(i as int);
        let ghost next = texts(tags@).take(i + 1);
        assert(next.drop_last() =~= done);
        out.append("[");
        out.append(tags[i].as_str());
        out.append("] ");
        i += 1;
    }
    assert(texts(tags@).take(tags@.len() as int) =~= texts(tags@));
    out
}

fn line_of(task: &Task, prefix: &str, indent: &str, last: bool) -> (r: String)
    ensures
        r@ == task_line(task@, prefix@, indent@, last),
{
    let mut line = chop(indent).to_owned();
    if last {
        line.append("└─ ");
    } else {
        line.append("├─ ");
    }
    line.append(prefix);
    line.append(": ");
    let tags = tags_line(task.tags());
    line.append(tags.as_str());
    line.append(task.desc().as_str());
    line
}

fn indent_below(indent: &str, last: bool) -> (r: String)
    ensures
        r@ == next_indent(indent@, last),
{
    if last {
        let mut next = chop(indent).to_owned();
        next.append("   │");
        next
    } else {
        let mut next = indent.to_owned();
        next.append("  │");
        next
    }
}

/// Appends to `out` the lines for the siblings `kids`, each followed by the
/// lines of its children, down to `depth` levels.
pub fn render_into(
    tasks: &Vec<Task>,
    prefixes: &Vec<String>,
    kids: &Vec<usize>,
    indent: &str,
    hide: bool,
    depth: usize,
    out: &mut Vec<String>,
)
    requires
        prefixes.len() == tasks.len(),
        forall|k: int| 0 <= k < kids@.len() ==> kids@[k] < tasks@.len(),
    ensures
        texts(final(out)@) == texts(old(out)@) + render(
            views(tasks@),
            texts(prefixes@),
            places(kids@),
            0,
            indent@,
            hide,
            depth as nat,
        ),
    decreases depth,
{
    let ghost all = views(tasks@);
    let ghost shown = texts(prefixes@);
    let ghost sibs = places(kids@);
    let ghost start = texts(out@);
    if depth == 0 {
        return;
    }
    let mut k: usize = 0;
    while k < kids.len()
        invariant
            all == views(tasks@),
            shown == texts(prefixes@),
            sibs == places(kids@),
            depth > 0,
            k <= kids.len(),
            prefixes.len() == tasks.len(),
            forall|j: int| 0 <= j < kids@.len() ==> kids@[j] < tasks@.len(),
            texts(out@) + render(all, shown, sibs, k as int, indent@, hide, depth as nat) == start
                + render(all, shown, sibs, 0, indent@, hide, depth as nat),
        decreases kids.len() - k,
    {
        let i = kids[k];
        let last = k == kids.len() - 1;
        let task = &tasks[i];
        let line = line_of(task, prefixes[i].as_str(), indent, last);
        out.push(line);
        let parent = Some(task.id().clone());
        let children = children_sorted(tasks, &parent, hide);
        let next = indent_below(indent, last);
        render_into(tasks, prefixes, &children, next.as_str(), hide, depth - 1, out);
        k += 1;
    }
}

/// The listing of `tasks` under the display prefixes `prefixes`.
pub fn list_lines(tasks: &Vec<Task>, prefixes: &Vec<String>, hide: bool) -> (r: Vec<String>)
    requires
        prefixes.len() == tasks.len(),
    ensures
        texts(r@) == listing(views(tasks@), texts(prefixes@), hide),
{
    let mut out: Vec<String> = Vec::new();
    out.push("Tasks:".to_owned());
    let roots = children_sorted(tasks, &None, hide);
    render_into(tasks, prefixes, &roots, "│", hide, tasks.len(), &mut out);
    out
}

} // verus!
