//! The task store: an ordered collection of tasks, the display prefix of
//! each, and the operations that look tasks up and change them.

use crate::listing::{list_lines, listing, places};
use crate::lookup::{
    ambiguous, exact_at, has_id, lemma_lookup_outcomes, lookup, missing, named, names, rows,
    Lookup,
};
use crate::model::{
    added_text, changed, child_of, children_of, display_prefix, display_prefixes, file_lines,
    full_id_of, full_of, ids_of, inside, lemma_prefixes_follow_ids, outside, parent_of_new,
    lent_views, nth_place, parents_of, same_ids, subtree_of, views, without_subtree,
};
use crate::prefix::{longest, prefix_len};
use crate::saving::{ids_in_order, sorted_by_id};
use crate::stamp::Timestamp;
use crate::subtree::{mark_subtree, opt_rows};
use crate::task::{create_at, created, opt_str_text, tag_all, Task, TaskView};
use crate::text::{chars_of, flattened, same_text, texts, without_newlines};
use vstd::prelude::*;

verus! {

/// Why an operation on the store was refused.
#[derive(Clone, Debug, PartialEq, Eq)]
pub enum TaskListError {
    /// A typed prefix matches more than one task.
    AmbiguousPrefix,
    /// A typed prefix matches no task.
    BadPrefix,
    /// The prefix given for a parent names no task.
    BadParentPrefix,
    /// A task with the given identifier is in the store already.
    DuplicateTask,
    /// The task to remove has children and removal was not forced.
    RemoveHasChildren,
    /// Reading or writing the task file failed; the text says how.
    IOError(String),
}

impl TaskListError {
    /// What the error says to the user.
    pub open spec fn text(self) -> Seq<char> {
        match self {
            TaskListError::AmbiguousPrefix => "Prefix matches more than one task."@,
            TaskListError::BadPrefix => "Prefix matches no tasks."@,
            TaskListError::BadParentPrefix => "Parent prefix matches no tasks."@,
            TaskListError::DuplicateTask => "A task with this id already exits."@,
            TaskListError::RemoveHasChildren =>
                "The task you are trying to remove has children.  Use --force."@,
            TaskListError::IOError(why) => why@,
        }
    }

    /// The message of the error.
    pub fn message(&self) -> (r: String)
        ensures
            r@ == self.text(),
    {
        match self {
            TaskListError::AmbiguousPrefix => "Prefix matches more than one task.".to_owned(),
            TaskListError::BadPrefix => "Prefix matches no tasks.".to_owned(),
            TaskListError::BadParentPrefix => "Parent prefix matches no tasks.".to_owned(),
            TaskListError::DuplicateTask => "A task with this id already exits.".to_owned(),
            TaskListError::RemoveHasChildren =>
                "The task you are trying to remove has children.  Use --force.".to_owned(),
            TaskListError::IOError(why) => why.clone(),
        }
    }
}

/// The error of a lookup that finds no single task.
pub open spec fn lookup_error(tasks: Seq<TaskView>, p: Seq<char>, e: TaskListError) -> bool {
    match e {
        TaskListError::AmbiguousPrefix => ambiguous(ids_of(tasks), p),
        TaskListError::BadPrefix => missing(ids_of(tasks), p),
        _ => false,
    }
}

/// Why a task cannot be added, if it cannot: its identifier is given and is
/// in the store already; or, that not being so, a parent is given and the
/// prefix names no single task.
pub open spec fn add_refusal(
    tasks: Seq<TaskView>,
    parent_id: Option<Seq<char>>,
    id: Option<Seq<char>>,
) -> Option<TaskListError> {
    if id is Some && has_id(ids_of(tasks), id->0) {
        Some(TaskListError::DuplicateTask)
    } else if parent_id is Some && full_id_of(tasks, parent_id->0) is None {
        Some(TaskListError::BadParentPrefix)
    } else {
        None
    }
}

/// The store.
pub struct TaskList {
    file: String,
    tasks: Vec<Task>,
    prefixes: Vec<String>,
    prefix_max_len: usize,
}

impl View for TaskList {
    type V = Seq<TaskView>;

    closed spec fn view(&self) -> Seq<TaskView> {
        views(self.tasks@)
    }
}

/// Whether `task` has the task with the identifier `id` for parent.
fn has_parent(task: &Task, id: &String) -> (r: bool)
    ensures
        r == child_of(id@)(task@),
{
    match task.parent_id() {
        Some(p) => *p == *id,
        None => false,
    }
}

/// Those of `tasks` that have the task with the identifier `id` for
/// parent, lent out to be changed.
fn children_in<'a>(tasks: &'a mut [Task], id: &String) -> (r: Vec<&'a mut Task>)
    ensures
        lent_views(r@) == children_of(views(old(tasks)@), id@),
        final(tasks)@.len() == old(tasks)@.len(),
        forall|j: int|
            0 <= j < old(tasks)@.len() && !child_of(id@)(old(tasks)@[j]@) ==> final(tasks)@[j]
                == old(tasks)@[j],
        forall|k: int|
            0 <= k < r@.len() ==> 0 <= #[trigger] nth_place(
                views(old(tasks)@),
                child_of(id@),
                k,
            ) < old(tasks)@.len(),
        forall|k: int|
            #![trigger r@[k]]
            0 <= k < r@.len() ==> final(tasks)@[nth_place(views(old(tasks)@), child_of(id@), k)]
                == *final(r@[k]),
{
    let ghost whole = tasks@;
    let ghost all = views(tasks@);
    let ghost pred = child_of(id@);
    let n = tasks.len();
    let mut out: Vec<&'a mut Task> = Vec::new();
    let mut rest: &'a mut [Task] = tasks;
    let mut p: usize = 0;
    assert(whole.skip(0) =~= whole);
    assert(all.take(0).filter(pred) =~= Seq::<TaskView>::empty()) by {
        all.take(0).lemma_filter_len(pred);
    }
    while rest.len() > 0
        invariant
            all == views(whole),
            pred == child_of(id@),
            whole.len() == n,
            p + rest@.len() == whole.len(),
            rest@ == whole.skip(p as int),
            lent_views(out@) == all.take(p as int).filter(pred),
            final(old(tasks))@.len() == p + final(rest)@.len(),
            forall|j: int| 0 <= j < p && !pred(whole[j]@) ==> final(old(tasks))@[j] == whole[j],
            forall|j: int|
                p <= j < final(old(tasks))@.len() ==> final(old(tasks))@[j] == final(rest)@[j - p],
            forall|k: int|
                0 <= k < out@.len() ==> 0 <= #[trigger] nth_place(all.take(p as int), pred, k) < p,
            forall|k: int|
                #![trigger out@[k]]
                0 <= k < out@.len() ==> final(old(tasks))@[nth_place(all.take(p as int), pred, k)]
                    == *final(out@[k]),
        decreases rest.len(),
    {
        let (head, tail) = rest.split_at_mut(1);
        let task = &mut head[0];
        proof {
            all.take(p as int).lemma_filter_push(all[p as int], pred);
            assert(all.take(p + 1) =~= all.take(p as int).push(all[p as int]));
            assert(all.take(p + 1).drop_last() =~= all.take(p as int));
            assert(lent_views(out@).len() == out@.len());
        }
        assert(*task == whole[p as int]);
        let ghost count = out@.len();
        if has_parent(task, id) {
            let ghost had = lent_views(out@);
            out.push(task);
            assert(lent_views(out@) =~= had.push(all[p as int]));
        }
        rest = tail;
        assert forall|k: int| 0 <= k < out@.len() implies 0 <= #[trigger] nth_place(
            all.take(p + 1),
            pred,
            k,
        ) < p + 1 by {
            if k < count {
                assert(nth_place(all.take(p + 1), pred, k) == nth_place(
                    all.take(p as int),
                    pred,
                    k,
                ));
            }
        }
        assert forall|k: int|
            #![trigger out@[k]]
            0 <= k < out@.len() implies final(old(tasks))@[nth_place(all.take(p + 1), pred, k)]
            == *final(out@[k]) by {
            if k < count {
                assert(nth_place(all.take(p + 1), pred, k) == nth_place(
                    all.take(p as int),
                    pred,
                    k,
                ));
            }
        }
        p += 1;
        assert(rest@ =~= whole.skip(p as int));
    }
    assert(all.take(p as int) =~= all);
    out
}

impl TaskList {
    /// The display prefixes and their greatest length are those of the
    /// tasks now in the store.
    pub closed spec fn wf(&self) -> bool {
        &&& texts(self.prefixes@) == display_prefixes(self@)
        &&& self.prefix_max_len == longest(display_prefixes(self@))
    }

    /// The path of the task file.
    pub closed spec fn path(&self) -> Seq<char> {
        self.file@
    }

    fn id_rows(&self) -> (r: Vec<Vec<char>>)
        ensures
            rows(r@) == ids_of(self@),
            r@.len() == self@.len(),
    {
        let mut out: Vec<Vec<char>> = Vec::new();
        let mut i: usize = 0;
        while i < self.tasks.len()
            invariant
                i <= self.tasks.len(),
                out.len() == i,
                forall|k: int| 0 <= k < i ==> out@[k]@ == self.tasks@[k]@.id,
            decreases self.tasks.len() - i,
        {
            out.push(chars_of(self.tasks[i].id().as_str()));
            i += 1;
        }
        out
    }

    /// Recomputes the display prefix of every task from the tasks as they are.
    fn compute_prefixes(&mut self)
        ensures
            final(self).wf(),
            final(self)@ == old(self)@,
            final(self).path() == old(self).path(),
    {
        let ids = self.id_rows();
        let mut full: Vec<bool> = Vec::new();
        let mut i: usize = 0;
        while i < self.tasks.len()
            invariant
                i <= self.tasks.len(),
                full.len() == i,
                forall|k: int| 0 <= k < i ==> full@[k] == self.tasks@[k]@.show_full_id,
            decreases self.tasks.len() - i,
        {
            full.push(self.tasks[i].show_full_id());
            i += 1;
        }
        let mut prefixes: Vec<String> = Vec::new();
        let mut max_len: usize = 1;
        let mut k: usize = 0;
        while k < self.tasks.len()
            invariant
                k <= self.tasks.len(),
                ids.len() == self.tasks.len(),
                rows(ids@) == ids_of(self@),
                full@ == full_of(self@),
                texts(prefixes@) == display_prefixes(self@).take(k as int),
                max_len == longest(display_prefixes(self@).take(k as int)),
            decreases self.tasks.len() - k,
        {
            let n = prefix_len(&ids, &full, k);
            let shown = self.tasks[k].id().as_str().substring_char(0, n);
            let ghost before = display_prefixes(self@).take(k as int);
            let ghost after = display_prefixes(self@).take(k + 1);
            assert(after.drop_last() =~= before);
            if n > max_len {
                max_len = n;
            }
            prefixes.push(shown.to_owned());
            k += 1;
        }
        assert(display_prefixes(self@).take(self.tasks@.len() as int) =~= display_prefixes(self@));
        self.prefixes = prefixes;
        self.prefix_max_len = max_len;
    }

    /// Whether some task carries `id` as its whole identifier.
    fn has_task(&self, id: &str) -> (r: bool)
        ensures
            r == has_id(ids_of(self@), id@),
    {
        let given = chars_of(id);
        let mut i: usize = 0;
        while i < self.tasks.len()
            invariant
                i <= self.tasks.len(),
                given@ == id@,
                forall|k: int| 0 <= k < i ==> !exact_at(ids_of(self@), id@, k),
            decreases self.tasks.len() - i,
        {
            let own = chars_of(self.tasks[i].id().as_str());
            if same_text(&own, &given) {
                assert(exact_at(ids_of(self@), id@, i as int));
                return true;
            }
            i += 1;
        }
        false
    }

    /// The whole identifier of the task that `prefix` names.
    pub fn get_full_id(&self, prefix: &str) -> (r: Result<String, TaskListError>)
        ensures
            match r {
                Ok(id) => full_id_of(self@, prefix@) == Some(id@),
                Err(e) => full_id_of(self@, prefix@) is None && lookup_error(self@, prefix@, e),
            },
    {
        match self.find(prefix) {
            Ok(i) => Ok(self.tasks[i].id().clone()),
            Err(e) => Err(e),
        }
    }

    /// The place in the store of the task that `prefix` names.
    fn find(&self, prefix: &str) -> (r: Result<usize, TaskListError>)
        ensures
            match r {
                Ok(i) => named(ids_of(self@), prefix@) == Some(i as int) && i < self@.len(),
                Err(e) => named(ids_of(self@), prefix@) is None && lookup_error(self@, prefix@, e),
            },
    {
        let ids = self.id_rows();
        let p = chars_of(prefix);
        proof {
            lemma_lookup_outcomes(ids_of(self@), prefix@);
        }
        match lookup(&ids, &p) {
            Lookup::Found(i) => {
                Ok(i)
            },
            Lookup::Ambiguous => Err(TaskListError::AmbiguousPrefix),
            Lookup::Missing => Err(TaskListError::BadPrefix),
        }
    }

    /// The path of the task file.
    pub fn file(&self) -> (r: &String)
        ensures
            r@ == self.path(),
    {
        &self.file
    }

    /// The tasks, in the order in which they entered the store.
    pub fn tasks(&self) -> (r: &Vec<Task>)
        ensures
            views(r@) == self@,
    {
        &self.tasks
    }

    /// The display prefix of each task, in the order of the tasks.
    pub fn prefixes(&self) -> (r: &Vec<String>)
        requires
            self.wf(),
        ensures
            texts(r@) == display_prefixes(self@),
    {
        &self.prefixes
    }

    /// The length of the longest display prefix, and 1 where none is longer.
    pub fn prefix_max_len(&self) -> (r: usize)
        requires
            self.wf(),
        ensures
            r == longest(display_prefixes(self@)),
    {
        self.prefix_max_len
    }

    /// The task that `prefix` names, to read or to change. The store holds
    /// whatever the caller leaves in it.
    pub fn get_task(&mut self, prefix: &str) -> (r: Result<&mut Task, TaskListError>)
        ensures
            match r {
                Ok(t) => {
                    &&& named(ids_of(old(self)@), prefix@) matches Some(i)
                    &&& (*t)@ == old(self)@[i]
                    &&& final(self)@ == old(self)@.update(i, (*final(t))@)
                    &&& final(self).path() == old(self).path()
                    &&& old(self).wf() && same_ids(old(self)@, final(self)@) ==> final(self).wf()
                },
                Err(e) => {
                    &&& full_id_of(old(self)@, prefix@) is None
                    &&& lookup_error(old(self)@, prefix@, e)
                    &&& final(self)@ == old(self)@
                    &&& final(self).path() == old(self).path()
                    &&& old(self).wf() ==> final(self).wf()
                },
            },
    {
        match self.find(prefix) {
            Ok(i) => {
                proof {
                    lemma_prefixes_follow_ids(self@);
                }
                let t = &mut self.tasks[i];
                Ok(t)
            },
            Err(e) => Err(e),
        }
    }

    /// Adds a task made at the instant `now`. An identifier that is given
    /// must be new to the store; a parent that is given must name a task,
    /// whose whole identifier the new task then carries. The result is the
    /// confirmation: the new task's display prefix and its identifier.
    pub fn add_task_at(
        &mut self,
        parent_id: Option<&str>,
        id: Option<&str>,
        desc: &str,
        now: Timestamp,
    ) -> (r: Result<String, TaskListError>)
        requires
            old(self).wf(),
        ensures
            final(self).wf(),
            final(self).path() == old(self).path(),
            match r {
                Ok(text) => {
                    let task = created(
                        parent_of_new(old(self)@, opt_str_text(parent_id)),
                        opt_str_text(id),
                        desc@,
                        now,
                    );
                    &&& add_refusal(old(self)@, opt_str_text(parent_id), opt_str_text(id)) is None
                    &&& final(self)@ == old(self)@.push(task)
                    &&& id is None ==> task.id.len() == 40
                    &&& text@ == added_text(
                        display_prefix(final(self)@, old(self)@.len() as int),
                        task.id,
                    )
                },
                Err(e) => {
                    &&& add_refusal(old(self)@, opt_str_text(parent_id), opt_str_text(id)) == Some(
                        e,
                    )
                    &&& final(self)@ == old(self)@
                },
            },
    {
        if let Some(given) = id {
            if self.has_task(given) {
                return Err(TaskListError::DuplicateTask);
            }
        }
        let full_parent_id: Option<String> = match parent_id {
            Some(p) => match self.get_full_id(p) {
                Ok(full_id) => Some(full_id),
                Err(_) => {
                    return Err(TaskListError::BadParentPrefix);
                },
            },
            None => None,
        };
        let task = match &full_parent_id {
            Some(p) => create_at(Some(p.as_str()), id, desc, now),
            None => create_at(None, id, desc, now),
        };
        let task_id = task.id().clone();
        self.tasks.push(task);
        self.compute_prefixes();
        let last = self.tasks.len() - 1;
        proof {
            reveal_strlit("added task ");
            reveal_strlit(" (");
            reveal_strlit(")");
        }
        let mut text = "added task ".to_owned();
        text.append(self.prefixes[last].as_str());
        text.append(" (");
        text.append(task_id.as_str());
        text.append(")");
        Ok(text)
    }

    /// Adds a task made now, by the system clock: `add_task_at` at whatever
    /// instant the clock gives, which the new task then carries.
    pub fn add_task(&mut self, parent_id: Option<&str>, id: Option<&str>, desc: &str) -> (r:
        Result<String, TaskListError>)
        requires
            old(self).wf(),
        ensures
            final(self).wf(),
            final(self).path() == old(self).path(),
            match r {
                Ok(text) => {
                    let task = created(
                        parent_of_new(old(self)@, opt_str_text(parent_id)),
                        opt_str_text(id),
                        desc@,
                        final(self)@.last().timestamp,
                    );
                    &&& add_refusal(old(self)@, opt_str_text(parent_id), opt_str_text(id)) is None
                    &&& final(self)@ == old(self)@.push(task)
                    &&& id is None ==> task.id.len() == 40
                    &&& text@ == added_text(
                        display_prefix(final(self)@, old(self)@.len() as int),
                        task.id,
                    )
                },
                Err(e) => {
                    &&& add_refusal(old(self)@, opt_str_text(parent_id), opt_str_text(id)) == Some(
                        e,
                    )
                    &&& final(self)@ == old(self)@
                },
            },
    {
        self.add_task_at(parent_id, id, desc, Timestamp::now())
    }

    /// Whether some task has the task with the identifier `id` for parent.
    fn has_children(&self, id: &String) -> (r: bool)
        ensures
            r == (children_of(self@, id@).len() > 0),
    {
        let ghost is_child = child_of(id@);
        let mut i: usize = 0;
        assert(self@.take(0).filter(is_child).len() == 0) by {
            self@.take(0).lemma_filter_len(is_child);
        }
        while i < self.tasks.len()
            invariant
                i <= self.tasks.len(),
                is_child == child_of(id@),
                self@.take(i as int).filter(is_child).len() == 0,
            decreases self.tasks.len() - i,
        {
            proof {
                self@.take(i as int).lemma_filter_push(self@[i as int], is_child);
                assert(self@.take(i + 1) =~= self@.take(i as int).push(self@[i as int]));
            }
            if has_parent(&self.tasks[i], id) {
                proof {
                    self@.lemma_filter_contains(is_child, i as int);
                }
                return true;
            }
            i += 1;
        }
        assert(self@.take(self@.len() as int) =~= self@);
        false
    }

    /// The children of the task that `prefix` names, in the order of the
    /// store, to read or to change. The store holds whatever the caller
    /// leaves in them; every other task stays as it is.
    pub fn get_children_tasks(&mut self, prefix: &str) -> (r: Result<
        Vec<&mut Task>,
        TaskListError,
    >)
        ensures
            final(self).path() == old(self).path(),
            final(self)@.len() == old(self)@.len(),
            old(self).wf() && same_ids(old(self)@, final(self)@) ==> final(self).wf(),
            match r {
                Ok(children) => {
                    &&& full_id_of(old(self)@, prefix@) matches Some(id)
                    &&& lent_views(children@) == children_of(old(self)@, id)
                    &&& forall|j: int|
                        0 <= j < old(self)@.len() && !child_of(id)(old(self)@[j])
                            ==> final(self)@[j] == old(self)@[j]
                    &&& forall|k: int|
                        #![trigger children@[k]]
                        0 <= k < children@.len() ==> 0 <= nth_place(old(self)@, child_of(id), k)
                            < old(self)@.len() && final(self)@[nth_place(
                            old(self)@,
                            child_of(id),
                            k,
                        )] == (*final(children@[k]))@
                },
                Err(e) => {
                    &&& full_id_of(old(self)@, prefix@) is None
                    &&& lookup_error(old(self)@, prefix@, e)
                    &&& final(self)@ == old(self)@
                },
            },
    {
        let full_id = match self.get_full_id(prefix) {
            Ok(id) => id,
            Err(e) => {
                return Err(e);
            },
        };
        proof {
            lemma_prefixes_follow_ids(self@);
        }
        Ok(children_in(self.tasks.as_mut_slice(), &full_id))
    }

    /// Replaces the description of the task that `prefix` names by `desc`
    /// without its line feeds. The identifier stays as it is.
    pub fn edit_task(&mut self, prefix: &str, desc: &str) -> (r: Result<(), TaskListError>)
        requires
            old(self).wf(),
        ensures
            final(self).wf(),
            final(self).path() == old(self).path(),
            final(self)@ == changed(
                old(self)@,
                prefix@,
                |t: TaskView| TaskView { desc: flattened(desc@), ..t },
            ),
            match r {
                Ok(_) => full_id_of(old(self)@, prefix@) is Some,
                Err(e) => full_id_of(old(self)@, prefix@) is None && lookup_error(
                    old(self)@,
                    prefix@,
                    e,
                ),
            },
    {
        let i = match self.find(prefix) {
            Ok(i) => i,
            Err(e) => {
                return Err(e);
            },
        };
        let flat = without_newlines(desc);
        proof {
            lemma_prefixes_follow_ids(self@);
        }
        self.tasks[i].set_desc(flat.as_str());
        assert(same_ids(old(self)@, self@));
        Ok(())
    }

    /// Marks the task that `prefix` names as completed, or as not completed.
    /// Its children stay as they are.
    pub fn set_complete(&mut self, prefix: &str, completed: bool) -> (r: Result<
        (),
        TaskListError,
    >)
        requires
            old(self).wf(),
        ensures
            final(self).wf(),
            final(self).path() == old(self).path(),
            final(self)@ == changed(
                old(self)@,
                prefix@,
                |t: TaskView| TaskView { completed, ..t },
            ),
            match r {
                Ok(_) => full_id_of(old(self)@, prefix@) is Some,
                Err(e) => full_id_of(old(self)@, prefix@) is None && lookup_error(
                    old(self)@,
                    prefix@,
                    e,
                ),
            },
    {
        let i = match self.find(prefix) {
            Ok(i) => i,
            Err(e) => {
                return Err(e);
            },
        };
        proof {
            lemma_prefixes_follow_ids(self@);
        }
        self.tasks[i].set_complete(completed);
        assert(same_ids(old(self)@, self@));
        Ok(())
    }

    /// Marks the task that `prefix` names as completed.
    pub fn complete_task(&mut self, prefix: &str) -> (r: Result<(), TaskListError>)
        requires
            old(self).wf(),
        ensures
            final(self).wf(),
            final(self).path() == old(self).path(),
            final(self)@ == changed(
                old(self)@,
                prefix@,
                |t: TaskView| TaskView { completed: true, ..t },
            ),
            match r {
                Ok(_) => full_id_of(old(self)@, prefix@) is Some,
                Err(e) => full_id_of(old(self)@, prefix@) is None && lookup_error(
                    old(self)@,
                    prefix@,
                    e,
                ),
            },
    {
        self.set_complete(prefix, true)
    }

    /// Marks the task that `prefix` names as not completed.
    pub fn uncomplete_task(&mut self, prefix: &str) -> (r: Result<(), TaskListError>)
        requires
            old(self).wf(),
        ensures
            final(self).wf(),
            final(self).path() == old(self).path(),
            final(self)@ == changed(
                old(self)@,
                prefix@,
                |t: TaskView| TaskView { completed: false, ..t },
            ),
            match r {
                Ok(_) => full_id_of(old(self)@, prefix@) is Some,
                Err(e) => full_id_of(old(self)@, prefix@) is None && lookup_error(
                    old(self)@,
                    prefix@,
                    e,
                ),
            },
    {
        self.set_complete(prefix, false)
    }

    /// Applies the tag tokens, in their order, to the task that `prefix`
    /// names: a token with a leading `'-'` removes the tag that follows it,
    /// any other token is added as a tag.
    pub fn tag_task(&mut self, prefix: &str, tokens: &Vec<String>) -> (r: Result<
        (),
        TaskListError,
    >)
        requires
            old(self).wf(),
        ensures
            final(self).wf(),
            final(self).path() == old(self).path(),
            final(self)@ == changed(
                old(self)@,
                prefix@,
                |t: TaskView| TaskView { tags: tag_all(t.tags, texts(tokens@)), ..t },
            ),
            match r {
                Ok(_) => full_id_of(old(self)@, prefix@) is Some,
                Err(e) => full_id_of(old(self)@, prefix@) is None && lookup_error(
                    old(self)@,
                    prefix@,
                    e,
                ),
            },
    {
        let i = match self.find(prefix) {
            Ok(i) => i,
            Err(e) => {
                return Err(e);
            },
        };
        proof {
            lemma_prefixes_follow_ids(self@);
        }
        let ghost start = self@[i as int];
        let mut k: usize = 0;
        while k < tokens.len()
            invariant
                k <= tokens.len(),
                i < self.tasks.len(),
                self.prefixes == old(self).prefixes,
                self.prefix_max_len == old(self).prefix_max_len,
                self.file == old(self).file,
                i < old(self)@.len(),
                start == old(self)@[i as int],
                self@ == old(self)@.update(
                    i as int,
                    TaskView { tags: tag_all(start.tags, texts(tokens@).take(k as int)), ..start },
                ),
            decreases tokens.len() - k,
        {
            let ghost before = self@;
            let ghost done = texts(tokens@).take(k as int);
            let ghost next = texts(tokens@).take(k + 1);
            assert(next.drop_last() =~= done);
            assert(before[i as int] == (TaskView { tags: tag_all(start.tags, done), ..start }));
            self.tasks[i].apply_tag(tokens[k].as_str());
            assert(self@ =~= before.update(
                i as int,
                TaskView { tags: tag_all(start.tags, next), ..start },
            ));
            k += 1;
        }
        assert(texts(tokens@).take(tokens@.len() as int) =~= texts(tokens@));
        assert(same_ids(old(self)@, self@));
        Ok(())
    }

    fn parent_rows(&self) -> (r: Vec<Option<Vec<char>>>)
        ensures
            opt_rows(r@) == parents_of(self@),
            r@.len() == self@.len(),
    {
        let mut out: Vec<Option<Vec<char>>> = Vec::new();
        let mut i: usize = 0;
        while i < self.tasks.len()
            invariant
                i <= self.tasks.len(),
                out.len() == i,
                forall|k: int|
                    0 <= k < i ==> (match out@[k] {
                        Some(s) => Some(s@),
                        None => None,
                    }) == self.tasks@[k]@.parent_id,
            decreases self.tasks.len() - i,
        {
            let row = match self.tasks[i].parent_id() {
                Some(p) => Some(chars_of(p.as_str())),
                None => None,
            };
            out.push(row);
            i += 1;
        }
        out
    }

    /// Removes the task that `prefix` names. A task with children is
    /// removed only where `force` is set, and then with everything that
    /// hangs from it. The result holds the identifiers of the tasks that
    /// left, in the order in which they stood in the store.
    pub fn remove_task(&mut self, prefix: &str, force: bool) -> (r: Result<
        Vec<String>,
        TaskListError,
    >)
        requires
            old(self).wf(),
        ensures
            final(self).wf(),
            final(self).path() == old(self).path(),
            match r {
                Ok(removed) => {
                    &&& full_id_of(old(self)@, prefix@) matches Some(root)
                    &&& (force || children_of(old(self)@, root).len() == 0)
                    &&& final(self)@ == without_subtree(old(self)@, root)
                    &&& texts(removed@) == ids_of(subtree_of(old(self)@, root))
                },
                Err(TaskListError::RemoveHasChildren) => {
                    &&& full_id_of(old(self)@, prefix@) matches Some(root)
                    &&& !force
                    &&& children_of(old(self)@, root).len() > 0
                    &&& final(self)@ == old(self)@
                },
                Err(e) => {
                    &&& full_id_of(old(self)@, prefix@) is None
                    &&& lookup_error(old(self)@, prefix@, e)
                    &&& final(self)@ == old(self)@
                },
            },
    {
        let full_id = match self.get_full_id(prefix) {
            Ok(id) => id,
            Err(e) => {
                return Err(e);
            },
        };
        if self.has_children(&full_id) && !force {
            return Err(TaskListError::RemoveHasChildren);
        }
        let ids = self.id_rows();
        let parents = self.parent_rows();
        let root = chars_of(full_id.as_str());
        let marks = mark_subtree(&ids, &parents, &root);
        let ghost before = self@;
        let ghost gone = inside(before, root@);
        let ghost keep = outside(before, root@);
        assert forall|k: int| 0 <= k < before.len() implies marks@[k] == gone(before[k]) by {
            assert(rows(ids@)[k] == before[k].id);
        }
        let n = self.tasks.len();
        let mut removed: Vec<String> = Vec::new();
        let mut i: usize = 0;
        while i < n
            invariant
                i <= n,
                n == self.tasks.len(),
                self@ == before,
                gone == inside(before, root@),
                marks.len() == n,
                forall|k: int| 0 <= k < n ==> marks@[k] == gone(before[k]),
                texts(removed@) == ids_of(before.take(i as int).filter(gone)),
            decreases n - i,
        {
            proof {
                before.take(i as int).lemma_filter_push(before[i as int], gone);
                assert(before.take(i + 1) =~= before.take(i as int).push(before[i as int]));
            }
            if marks[i] {
                let ghost had = texts(removed@);
                removed.push(self.tasks[i].id().clone());
                assert(texts(removed@) =~= had.push(before[i as int].id));
                assert(ids_of(before.take(i as int).filter(gone).push(before[i as int]))
                    =~= had.push(before[i as int].id));
            }
            i += 1;
        }
        assert(before.take(n as int) =~= before);
        let mut k: usize = n;
        assert(before.take(n as int) + before.skip(n as int).filter(keep) =~= before) by {
            assert(before.skip(n as int) =~= Seq::<TaskView>::empty());
            assert(Seq::<TaskView>::empty().filter(keep) =~= Seq::<TaskView>::empty()) by {
                Seq::<TaskView>::empty().lemma_filter_len(keep);
            }
        }
        while k > 0
            invariant
                k <= n,
                n == before.len(),
                keep == outside(before, root@),
                gone == inside(before, root@),
                marks.len() == n,
                forall|j: int| 0 <= j < n ==> marks@[j] == gone(before[j]),
                self@ == before.take(k as int) + before.skip(k as int).filter(keep),
                self.file == old(self).file,
            decreases k,
        {
            let j = k - 1;
            let ghost rest = before.skip(k as int).filter(keep);
            proof {
                before.skip(k as int).lemma_filter_prepend(before[j as int], keep);
                assert(before.skip(j as int) =~= seq![before[j as int]] + before.skip(k as int));
                assert(self@.len() == k + rest.len());
            }
            if marks[j] {
                let ghost had = self@;
                self.tasks.remove(j);
                assert(self@ =~= had.remove(j as int));
                assert(self@ =~= before.take(j as int) + before.skip(j as int).filter(keep));
            } else {
                assert(self@ =~= before.take(j as int) + before.skip(j as int).filter(keep));
            }
            k = j;
        }
        assert(self@ =~= before.filter(keep)) by {
            assert(before.skip(0) =~= before);
            assert(before.take(0) =~= Seq::<TaskView>::empty());
        }
        self.compute_prefixes();
        Ok(removed)
    }

    /// The listing of the store, line by line. With `hide_completed` set,
    /// completed tasks are left out, and what hangs from them with them.
    pub fn show(&self, hide_completed: bool) -> (r: Vec<String>)
        requires
            self.wf(),
        ensures
            texts(r@) == listing(self@, display_prefixes(self@), hide_completed),
    {
        list_lines(&self.tasks, &self.prefixes, hide_completed)
    }

    /// The lines to write to the task file. `payloads` holds, for each task
    /// in the order of the store, the JSON text of its fields. The result
    /// is `None` exactly where there is not one text for each task.
    pub fn save(&self, payloads: &Vec<String>) -> (r: Option<Vec<String>>)
        ensures
            match r {
                Some(lines) => payloads@.len() == self@.len() && texts(lines@) == file_lines(
                    self@,
                    texts(payloads@),
                ),
                None => payloads@.len() != self@.len(),
            },
    {
        if payloads.len() != self.tasks.len() {
            return None;
        }
        let ids = self.id_rows();
        let order = sorted_by_id(&ids);
        let ghost want = file_lines(self@, texts(payloads@));
        let mut lines: Vec<String> = Vec::new();
        let mut k: usize = 0;
        while k < order.len()
            invariant
                k <= order.len(),
                order@.len() == self.tasks@.len(),
                payloads@.len() == self.tasks@.len(),
                places(order@) == ids_in_order(ids_of(self@), self@.len()),
                forall|j: int| 0 <= j < order@.len() ==> order@[j] < self.tasks@.len(),
                want == file_lines(self@, texts(payloads@)),
                texts(lines@) == want.take(k as int),
            decreases order.len() - k,
        {
            let i = order[k];
            let line = self.tasks[i].to_file_string(payloads[i].as_str());
            let ghost had = texts(lines@);
            lines.push(line);
            assert(texts(lines@) =~= had.push(want[k as int]));
            k += 1;
        }
        Some(lines)
    }
}

/// The store that the task file at `file` holds: `tasks` are the tasks of
/// its lines, in the order of the lines.
pub fn create_from_file(file: &str, tasks: Vec<Task>) -> (r: TaskList)
    ensures
        r.wf(),
        r@ == views(tasks@),
        r.path() == file@,
{
    let mut list = TaskList {
        file: file.to_owned(),
        tasks,
        prefixes: Vec::new(),
        prefix_max_len: 64,
    };
    list.compute_prefixes();
    list
}

} // verus!
