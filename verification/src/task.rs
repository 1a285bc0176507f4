//! A single task: its identity, description, place in the tree, tags and
//! completion, and the line that stands for it in the task file.

use crate::digest::{sha1_hex, sha1_hex_digest};
use crate::stamp::Timestamp;
use crate::text::{after_bar, before_bar, split_once, texts, trim, trimmed};
use crate::text::{lemma_bar_at, lemma_trim_blank_back, lemma_trim_blank_front};
use vstd::prelude::*;

verus! {

/// What a task is, as plain mathematical values.
pub ghost struct TaskView {
    pub id: Seq<char>,
    pub desc: Seq<char>,
    pub parent_id: Option<Seq<char>>,
    pub show_full_id: bool,
    pub timestamp: Timestamp,
    pub tags: Seq<Seq<char>>,
    pub completed: bool,
}

/// A tracked item. Its identifier is fixed when it is made; description,
/// tags and completion can change afterwards.
#[derive(Clone, Debug)]
pub struct Task {
    id: String,
    desc: String,
    parent_id: Option<String>,
    show_full_id: bool,
    timestamp: Timestamp,
    tags: Vec<String>,
    completed: bool,
}

/// The fields of a task as the JSON text of a line gives them. A field
/// that the text leaves out is `None`; the description is not among them,
/// it stands in front of the JSON text.
#[derive(Clone, Debug)]
pub struct TaskFields {
    pub id: String,
    pub parent_id: Option<String>,
    pub show_full_id: Option<bool>,
    pub timestamp: Option<Timestamp>,
    pub tags: Option<Vec<String>>,
    pub completed: Option<bool>,
}

/// The text that an optional string holds.
pub open spec fn opt_text(o: Option<String>) -> Option<Seq<char>> {
    match o {
        Some(s) => Some(s@),
        None => None,
    }
}

/// The text that an optional string slice holds.
pub open spec fn opt_str_text(o: Option<&str>) -> Option<Seq<char>> {
    match o {
        Some(s) => Some(s@),
        None => None,
    }
}

impl View for Task {
    type V = TaskView;

    closed spec fn view(&self) -> TaskView {
        TaskView {
            id: self.id@,
            desc: self.desc@,
            parent_id: opt_text(self.parent_id),
            show_full_id: self.show_full_id,
            timestamp: self.timestamp,
            tags: texts(self.tags@),
            completed: self.completed,
        }
    }
}

/// The task that `create_at` makes: with the given identifier shown in full,
/// or with the digest of description and creation time as its identifier;
/// without tags and not completed.
pub open spec fn created(
    parent_id: Option<Seq<char>>,
    id: Option<Seq<char>>,
    desc: Seq<char>,
    now: Timestamp,
) -> TaskView {
    TaskView {
        id: match id {
            Some(given) => given,
            None => sha1_hex(desc + now.text()),
        },
        desc,
        parent_id,
        show_full_id: id is Some,
        timestamp: now,
        tags: Seq::empty(),
        completed: false,
    }
}

/// The line of the task file for a description and the JSON text of the
/// other fields.
pub open spec fn file_line(desc: Seq<char>, json: Seq<char>) -> Seq<char> {
    desc + seq![' ', '|', ' '] + json
}

/// The JSON text that a line of the task file carries: what follows the
/// first `'|'`, unless nothing or only blanks follow it.
pub open spec fn line_payload(line: Seq<char>) -> Option<Seq<char>> {
    match after_bar(line) {
        Some(rest) => if trimmed(rest).len() == 0 {
            None
        } else {
            Some(rest)
        },
        None => None,
    }
}

/// The task with the description `desc` and the fields `f`. A field that
/// is left out has its zero value: no parent, not shown in full, made at
/// the epoch, no tags, not completed.
pub open spec fn task_of_fields(desc: Seq<char>, f: TaskFields) -> TaskView {
    TaskView {
        id: f.id@,
        desc,
        parent_id: opt_text(f.parent_id),
        show_full_id: f.show_full_id == Some(true),
        timestamp: match f.timestamp {
            Some(t) => t,
            None => Timestamp { nanos: 0 },
        },
        tags: match f.tags {
            Some(v) => texts(v@),
            None => Seq::empty(),
        },
        completed: f.completed == Some(true),
    }
}

/// `f` holds the fields that are written for the task `t`: identifier and
/// creation time always, each other field only where it is not at its zero
/// value.
pub open spec fn fields_written(t: TaskView, f: TaskFields) -> bool {
    &&& f.id@ == t.id
    &&& opt_text(f.parent_id) == t.parent_id
    &&& f.show_full_id == if t.show_full_id {
        Some(true)
    } else {
        None
    }
    &&& f.timestamp == Some(t.timestamp)
    &&& match f.tags {
        Some(v) => t.tags.len() > 0 && texts(v@) == t.tags,
        None => t.tags.len() == 0,
    }
    &&& f.completed == if t.completed {
        Some(true)
    } else {
        None
    }
}

/// The fields that are written for a task give the task back, under the
/// description that it had.
pub proof fn lemma_fields_round_trip(t: TaskView, f: TaskFields)
    requires
        fields_written(t, f),
    ensures
        task_of_fields(t.desc, f) == t,
{
    assert(task_of_fields(t.desc, f).tags =~= t.tags);
}

/// The task that a line of the task file stands for, given what its JSON
/// text decodes to. A line without JSON text is a bare description: a task
/// made at the epoch, identified by the digest of the description. A line
/// with JSON text is the task of the decoded fields under the line's trimmed description,
/// and no task where the JSON text could not be decoded.
pub open spec fn task_of_line(line: Seq<char>, decoded: Option<TaskFields>) -> Option<TaskView> {
    match line_payload(line) {
        None => Some(created(None, None, before_bar(line), Timestamp { nanos: 0 })),
        Some(_) => match decoded {
            Some(f) => Some(task_of_fields(trimmed(before_bar(line)), f)),
            None => None,
        },
    }
}

/// The tag that a token asks to remove: what follows a leading `'-'`.
/// A token without one asks to add itself.
pub open spec fn removal_of(token: Seq<char>) -> Option<Seq<char>> {
    if token.len() > 0 && token[0] == '-' {
        Some(token.skip(1))
    } else {
        None
    }
}

/// The tags without `tag`, wherever it stands among them.
pub open spec fn without_tag(tags: Seq<Seq<char>>, tag: Seq<char>) -> Seq<Seq<char>> {
    tags.filter(other_than(tag))
}

/// Whether a tag is another one than `tag`.
pub open spec fn other_than(tag: Seq<char>) -> spec_fn(Seq<char>) -> bool {
    |t: Seq<char>| t != tag
}

/// The tags after one token: without the tag that the token asks to
/// remove, or with the token itself as a tag, once.
pub open spec fn tag_step(tags: Seq<Seq<char>>, token: Seq<char>) -> Seq<Seq<char>> {
    match removal_of(token) {
        Some(tag) => without_tag(tags, tag),
        None => if tags.contains(token) {
            tags
        } else {
            tags.push(token)
        },
    }
}

/// The tags after the tokens, taken in their order.
pub open spec fn tag_all(tags: Seq<Seq<char>>, tokens: Seq<Seq<char>>) -> Seq<Seq<char>>
    decreases tokens.len(),
{
    if tokens.len() == 0 {
        tags
    } else {
        tag_step(tag_all(tags, tokens.drop_last()), tokens.last())
    }
}

/// To remove a tag that is not among the tags changes nothing.
pub proof fn lemma_without_absent_tag(tags: Seq<Seq<char>>, tag: Seq<char>)
    requires
        !tags.contains(tag),
    ensures
        without_tag(tags, tag) == tags,
    decreases tags.len(),
{
    let keep = other_than(tag);
    if tags.len() == 0 {
        tags.lemma_filter_len(keep);
    } else {
        let front = tags.drop_last();
        assert(front.push(tags.last()) =~= tags);
        front.lemma_filter_push(tags.last(), keep);
        assert(tags[tags.len() - 1] == tags.last());
        assert forall|i: int| 0 <= i < front.len() implies front[i] != tag by {
            assert(tags[i] == front[i]);
        }
        lemma_without_absent_tag(front, tag);
    }
}

/// After a tag has been removed it is not among the tags, every other tag
/// is, and tags that were distinct still are.
pub proof fn lemma_without_tag(tags: Seq<Seq<char>>, tag: Seq<char>)
    ensures
        !without_tag(tags, tag).contains(tag),
        forall|t: Seq<char>| t != tag && tags.contains(t) ==> without_tag(tags, tag).contains(t),
        forall|t: Seq<char>| without_tag(tags, tag).contains(t) ==> tags.contains(t),
        tags.no_duplicates() ==> without_tag(tags, tag).no_duplicates(),
    decreases tags.len(),
{
    let keep = other_than(tag);
    if tags.len() == 0 {
        tags.lemma_filter_len(keep);
    } else {
        let front = tags.drop_last();
        let last = tags.last();
        assert(front.push(last) =~= tags);
        front.lemma_filter_push(last, keep);
        lemma_without_tag(front, tag);
        let left = without_tag(front, tag);
        let all = without_tag(tags, tag);
        assert forall|t: Seq<char>| t != tag && tags.contains(t) implies all.contains(t) by {
            let i = choose|i: int| 0 <= i < tags.len() && tags[i] == t;
            if i < front.len() {
                assert(front[i] == t);
                assert(left.contains(t));
                let j = choose|j: int| 0 <= j < left.len() && left[j] == t;
                assert(all[j] == t);
            } else {
                assert(all[all.len() - 1] == t);
            }
        }
        assert forall|t: Seq<char>| all.contains(t) implies tags.contains(t) by {
            let j = choose|j: int| 0 <= j < all.len() && all[j] == t;
            if j < left.len() {
                assert(left[j] == t);
                assert(front.contains(t));
                let i = choose|i: int| 0 <= i < front.len() && front[i] == t;
                assert(tags[i] == t);
            } else {
                assert(tags[tags.len() - 1] == t);
            }
        }
        if tags.no_duplicates() {
            assert forall|i: int, j: int|
                0 <= i < front.len() && 0 <= j < front.len() && i != j implies front[i]
                != front[j] by {
                assert(front[i] == tags[i] && front[j] == tags[j]);
            }
            if last != tag {
                assert(!left.contains(last)) by {
                    if left.contains(last) {
                        assert(front.contains(last));
                        let i = choose|i: int| 0 <= i < front.len() && front[i] == last;
                        assert(tags[i] == tags[tags.len() - 1]);
                    }
                }
            }
        }
    }
}

/// One tag token leaves tags that were distinct distinct.
pub proof fn lemma_tag_step_keeps_tags_distinct(tags: Seq<Seq<char>>, token: Seq<char>)
    requires
        tags.no_duplicates(),
    ensures
        tag_step(tags, token).no_duplicates(),
{
    match removal_of(token) {
        Some(tag) => {
            lemma_without_tag(tags, tag);
        },
        None => {},
    }
}

/// The tag that `token` asks to remove; `None` where it asks to add itself.
pub fn tag_to_remove(token: &str) -> (r: Option<&str>)
    ensures
        opt_str_text(r) == removal_of(token@),
{
    let n = token.unicode_len();
    if n > 0 && token.get_char(0) == '-' {
        let rest = token.substring_char(1, n);
        Some(rest)
    } else {
        None
    }
}

/// Reading a task's line gives the task back. For a description without
/// `'|'` and a JSON text that is not blank, the line carries the JSON text
/// behind one space; where that text decodes to the fields that were
/// written for the task, the line stands for the task under its
/// description without the blanks at its ends.
pub proof fn lemma_file_line_round_trip(task: TaskView, fields: TaskFields, json: Seq<char>)
    requires
        fields_written(task, fields),
        forall|i: int| 0 <= i < task.desc.len() ==> task.desc[i] != '|',
        trimmed(json).len() > 0,
    ensures
        line_payload(file_line(task.desc, json)) == Some(seq![' '] + json),
        task_of_line(file_line(task.desc, json), Some(fields)) == Some(
            TaskView { desc: trimmed(task.desc), ..task },
        ),
{
    let line = file_line(task.desc, json);
    let at = task.desc.len() as int + 1;
    lemma_bar_at(line, at);
    assert(before_bar(line) =~= task.desc.push(' '));
    assert(line.skip(at + 1) =~= seq![' '] + json);
    lemma_trim_blank_front(' ', json);
    lemma_trim_blank_back(task.desc, ' ');
    lemma_fields_round_trip(TaskView { desc: trimmed(task.desc), ..task }, fields);
}

fn copy_texts(v: &Vec<String>) -> (r: Vec<String>)
    ensures
        texts(r@) == texts(v@),
{
    let mut out: Vec<String> = Vec::new();
    let mut i: usize = 0;
    while i < v.len()
        invariant
            i <= v.len(),
            out.len() == i,
            forall|k: int| 0 <= k < i ==> out@[k]@ == v@[k]@,
        decreases v.len() - i,
    {
        out.push(v[i].clone());
        i += 1;
    }
    assert(texts(out@) =~= texts(v@));
    out
}

fn copy_opt(o: Option<&str>) -> (r: Option<String>)
    ensures
        opt_text(r) == opt_str_text(o),
{
    match o {
        Some(s) => Some(s.to_owned()),
        None => None,
    }
}

impl Task {
    /// A task out of its parts, as they are.
    pub fn from_parts(
        id: String,
        desc: String,
        parent_id: Option<String>,
        show_full_id: bool,
        timestamp: Timestamp,
        tags: Vec<String>,
        completed: bool,
    ) -> (r: Task)
        ensures
            r@ == (TaskView {
                id: id@,
                desc: desc@,
                parent_id: opt_text(parent_id),
                show_full_id,
                timestamp,
                tags: texts(tags@),
                completed,
            }),
    {
        Task { id, desc, parent_id, show_full_id, timestamp, tags, completed }
    }

    /// The task with the description `desc` and the fields `fields`, each
    /// field that is left out at its zero value.
    pub fn from_fields(desc: String, fields: TaskFields) -> (r: Task)
        ensures
            r@ == task_of_fields(desc@, fields),
    {
        let tags = match fields.tags {
            Some(tags) => tags,
            None => Vec::new(),
        };
        assert(fields.tags is None ==> texts(tags@) =~= Seq::<Seq<char>>::empty());
        Task {
            id: fields.id,
            desc,
            parent_id: fields.parent_id,
            show_full_id: match fields.show_full_id {
                Some(full) => full,
                None => false,
            },
            timestamp: match fields.timestamp {
                Some(at) => at,
                None => Timestamp::zero(),
            },
            tags,
            completed: match fields.completed {
                Some(done) => done,
                None => false,
            },
        }
    }

    /// The fields to write for the task: identifier and creation time, and
    /// of the others those that are not at their zero value.
    pub fn fields(&self) -> (r: TaskFields)
        ensures
            fields_written(self@, r),
    {
        TaskFields {
            id: self.id.clone(),
            parent_id: match &self.parent_id {
                Some(p) => Some(p.clone()),
                None => None,
            },
            show_full_id: if self.show_full_id {
                Some(true)
            } else {
                None
            },
            timestamp: Some(self.timestamp),
            tags: if self.tags.len() == 0 {
                None
            } else {
                Some(copy_texts(&self.tags))
            },
            completed: if self.completed {
                Some(true)
            } else {
                None
            },
        }
    }

    /// The identifier.
    pub fn id(&self) -> (r: &String)
        ensures
            r@ == self@.id,
    {
        &self.id
    }

    /// The description.
    pub fn desc(&self) -> (r: &String)
        ensures
            r@ == self@.desc,
    {
        &self.desc
    }

    /// The task's line in the task file: the description, `" | "`, and the
    /// JSON text of the other fields, which the caller encodes.
    pub fn to_file_string(&self, json: &str) -> (r: String)
        ensures
            r@ == file_line(self@.desc, json@),
    {
        proof {
            reveal_strlit(" | ");
        }
        let mut line = self.desc.clone();
        line.append(" | ");
        line.append(json);
        line
    }

    /// Whether the identifier was given by the user and is shown in full.
    pub fn show_full_id(&self) -> (r: bool)
        ensures
            r == self@.show_full_id,
    {
        self.show_full_id
    }

    /// The instant of creation.
    pub fn timestamp(&self) -> (r: Timestamp)
        ensures
            r == self@.timestamp,
    {
        self.timestamp
    }

    /// Whether the task is completed.
    pub fn completed(&self) -> (r: bool)
        ensures
            r == self@.completed,
    {
        self.completed
    }

    /// Replaces the description. The identifier stays as it is.
    pub fn set_desc(&mut self, desc: &str)
        ensures
            final(self)@ == (TaskView { desc: desc@, ..old(self)@ }),
    {
        self.desc = desc.to_owned();
    }

    /// Marks the task as completed, or as not completed.
    pub fn set_complete(&mut self, completed: bool)
        ensures
            final(self)@ == (TaskView { completed, ..old(self)@ }),
    {
        self.completed = completed;
    }

    /// The identifier of the parent; `None` for a task at the root.
    pub fn parent_id(&self) -> (r: &Option<String>)
        ensures
            opt_text(*r) == self@.parent_id,
    {
        &self.parent_id
    }

    /// Adds `tag` unless the task has it already.
    pub fn add_tag(&mut self, tag: &str)
        ensures
            final(self)@ == (TaskView {
                tags: if old(self)@.tags.contains(tag@) {
                    old(self)@.tags
                } else {
                    old(self)@.tags.push(tag@)
                },
                ..old(self)@
            }),
    {
        let owned = tag.to_owned();
        let mut i: usize = 0;
        while i < self.tags.len()
            invariant
                *self == *old(self),
                owned@ == tag@,
                i <= self.tags.len(),
                forall|k: int| 0 <= k < i ==> self.tags@[k]@ != tag@,
            decreases self.tags.len() - i,
        {
            if self.tags[i] == owned {
                assert(texts(self.tags@)[i as int] == tag@);
                return;
            }
            i += 1;
        }
        self.tags.push(owned);
        assert(texts(self.tags@) =~= texts(old(self).tags@).push(tag@));
    }

    /// Removes `tag` wherever the task has it.
    pub fn remove_tag(&mut self, tag: &str)
        ensures
            final(self)@ == (TaskView {
                tags: without_tag(old(self)@.tags, tag@),
                ..old(self)@
            }),
    {
        let owned = tag.to_owned();
        let ghost keep = other_than(tag@);
        let mut kept: Vec<String> = Vec::new();
        let mut i: usize = 0;
        while i < self.tags.len()
            invariant
                *self == *old(self),
                owned@ == tag@,
                keep == other_than(tag@),
                i <= self.tags.len(),
                texts(kept@) == texts(self.tags@).take(i as int).filter(keep),
            decreases self.tags.len() - i,
        {
            proof {
                let all = texts(self.tags@);
                all.take(i as int).lemma_filter_push(all[i as int], keep);
                assert(all.take(i + 1) =~= all.take(i as int).push(all[i as int]));
            }
            if !(self.tags[i] == owned) {
                kept.push(self.tags[i].clone());
            }
            i += 1;
        }
        assert(texts(self.tags@).take(self.tags@.len() as int) =~= texts(self.tags@));
        self.tags = kept;
    }

    /// Applies one tag token: removes the tag that follows a leading `'-'`,
    /// or adds the token as a tag.
    pub fn apply_tag(&mut self, token: &str)
        ensures
            final(self)@ == (TaskView { tags: tag_step(old(self)@.tags, token@), ..old(self)@ }),
    {
        match tag_to_remove(token) {
            Some(tag) => self.remove_tag(tag),
            None => self.add_tag(token),
        }
    }

    /// The tags, in the order in which they were added.
    pub fn tags(&self) -> (r: &Vec<String>)
        ensures
            texts(r@) == self@.tags,
    {
        &self.tags
    }
}

/// The JSON text that `line` carries, for the caller to decode; `None` where
/// the line is a bare description.
pub fn payload_of(line: &str) -> (r: Option<&str>)
    ensures
        opt_str_text(r) == line_payload(line@),
{
    let (_, json) = split_once(line);
    match json {
        Some(rest) => {
            if trim(rest).unicode_len() == 0 {
                None
            } else {
                Some(rest)
            }
        },
        None => None,
    }
}

/// The task that a line of the task file stands for. `decoded` holds the
/// fields that the line's JSON text decodes to: `None` where the line
/// carries none, or where it could not be decoded. The result is `None`
/// exactly for a line whose JSON text could not be decoded.
pub fn create_from_file_string(string: &str, decoded: Option<TaskFields>) -> (r: Option<Task>)
    ensures
        match r {
            Some(t) => task_of_line(string@, decoded) == Some(t@),
            None => task_of_line(string@, decoded) is None,
        },
{
    let (desc, _) = split_once(string);
    let desc = match desc {
        Some(d) => d,
        None => "",
    };
    match payload_of(string) {
        None => Some(create_at(None, None, desc, Timestamp::zero())),
        Some(_) => match decoded {
            Some(fields) => Some(Task::from_fields(trim(desc).to_owned(), fields)),
            None => None,
        },
    }
}

/// A new task made at the instant `now`. With `id` given, the task carries
/// it and shows it in full; without, its identifier is the SHA-1 digest of
/// the description followed by the instant in decimal seconds.
pub fn create_at(parent_id: Option<&str>, id: Option<&str>, desc: &str, now: Timestamp) -> (r:
    Task)
    ensures
        r@ == created(opt_str_text(parent_id), opt_str_text(id), desc@, now),
        id is None ==> r@.id.len() == 40,
{
    let (id, show_full_id) = match id {
        Some(given) => (given.to_owned(), true),
        None => {
            let mut data = desc.to_owned();
            let stamp = now.to_text();
            data.append(stamp.as_str());
            (sha1_hex_digest(data.as_str()), false)
        },
    };
    let tags: Vec<String> = Vec::new();
    assert(texts(tags@) =~= Seq::<Seq<char>>::empty());
    Task::from_parts(id, desc.to_owned(), copy_opt(parent_id), show_full_id, now, tags, false)
}

/// A new task made now, by the system clock: `create_at` at whatever
/// instant the clock gives, which the task then carries.
pub fn create(parent_id: Option<&str>, id: Option<&str>, desc: &str) -> (r: Task)
    ensures
        r@ == created(opt_str_text(parent_id), opt_str_text(id), desc@, r@.timestamp),
        id is None ==> r@.id.len() == 40,
{
    create_at(parent_id, id, desc, Timestamp::now())
}

} // verus!
