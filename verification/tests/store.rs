use taskstore::stamp::Timestamp;
use taskstore::task::{create_at, Task};
use taskstore::task_list::{create_from_file, TaskList, TaskListError};

fn empty_store() -> TaskList {
    create_from_file("tasks.txt", Vec::new())
}

fn explicit(id: &str, parent: Option<&str>, desc: &str, secs: u128) -> Task {
    create_at(parent, Some(id), desc, Timestamp::from_nanos(secs * 1_000_000_000))
}

fn derived(id: &str, parent: Option<&str>, desc: &str, secs: u128) -> Task {
    Task::from_parts(
        id.to_string(),
        desc.to_string(),
        parent.map(|p| p.to_string()),
        false,
        Timestamp::from_nanos(secs * 1_000_000_000),
        Vec::new(),
        false,
    )
}

fn family() -> TaskList {
    create_from_file(
        "tasks.txt",
        vec![
            explicit("root", None, "root", 1),
            explicit("kid", Some("root"), "kid", 2),
            explicit("grandkid", Some("kid"), "grandkid", 3),
            explicit("other", None, "other", 4),
            explicit("niece", Some("other"), "niece", 5),
        ],
    )
}

fn ids(store: &TaskList) -> Vec<String> {
    store.tasks().iter().map(|t| t.id().clone()).collect()
}

#[test]
fn empty_file_gives_empty_store() {
    let store = empty_store();
    assert!(store.tasks().is_empty());
    assert!(store.prefixes().is_empty());
    assert_eq!(store.prefix_max_len(), 1);
    assert_eq!(store.file(), "tasks.txt");
}

#[test]
fn add_to_empty_store_gives_one_root_task() {
    let mut store = empty_store();
    let text = store
        .add_task_at(None, None, "buy milk", Timestamp::from_nanos(1_600_000_000_500_000_000))
        .unwrap();
    assert_eq!(store.tasks().len(), 1);
    let task = &store.tasks()[0];
    assert!(task.parent_id().is_none());
    assert_eq!(task.desc(), "buy milk");
    assert!(!task.show_full_id());
    assert_eq!(task.id(), "32cacf14bc1068a83fa8bcdeb5148f1619404310");
    assert_eq!(store.prefixes()[0], "3");
    assert_eq!(store.prefix_max_len(), 1);
    assert_eq!(text, "added task 3 (32cacf14bc1068a83fa8bcdeb5148f1619404310)");
}

#[test]
fn add_task_by_the_clock() {
    let mut store = empty_store();
    let text = store.add_task(None, None, "buy milk").unwrap();
    assert_eq!(store.tasks().len(), 1);
    let task = &store.tasks()[0];
    assert_eq!(task.desc(), "buy milk");
    assert_eq!(task.id().len(), 40);
    assert_eq!(store.prefixes()[0].len(), 1);
    assert_eq!(text, format!("added task {} ({})", store.prefixes()[0], task.id()));
    let same = create_at(None, None, "buy milk", task.timestamp());
    assert_eq!(task.id(), same.id());
}

#[test]
fn added_explicit_id_is_displayed_in_full() {
    let mut store = empty_store();
    let text = store.add_task_at(None, Some("groceries"), "buy milk", Timestamp::zero()).unwrap();
    assert_eq!(text, "added task groceries (groceries)");
    assert_eq!(store.prefixes()[0], "groceries");
    assert_eq!(store.prefix_max_len(), 9);
}

#[test]
fn ids_sharing_three_characters_need_four() {
    let store = create_from_file(
        "t",
        vec![derived("abcd1234", None, "A", 1), derived("abce5678", None, "B", 2)],
    );
    assert_eq!(store.prefixes(), &vec!["abcd".to_string(), "abce".to_string()]);
    assert_eq!(store.prefix_max_len(), 4);
}

#[test]
fn adding_a_task_can_lengthen_another_prefix() {
    let mut store = create_from_file("t", vec![derived("abcd1234", None, "A", 1)]);
    assert_eq!(store.prefixes(), &vec!["a".to_string()]);
    store.add_task_at(None, Some("ab"), "B", Timestamp::zero()).unwrap();
    assert_eq!(store.prefixes(), &vec!["abc".to_string(), "ab".to_string()]);
    assert_eq!(store.prefix_max_len(), 3);
    store.remove_task("ab", false).unwrap();
    assert_eq!(store.prefixes(), &vec!["a".to_string()]);
    assert_eq!(store.prefix_max_len(), 1);
}

#[test]
fn id_that_begins_another_is_displayed_whole() {
    let store = create_from_file(
        "t",
        vec![derived("ab", None, "A", 1), derived("abc", None, "B", 2), derived("", None, "C", 3)],
    );
    assert_eq!(store.prefixes(), &vec!["ab".to_string(), "abc".to_string(), "".to_string()]);
    assert_eq!(store.prefix_max_len(), 3);
}

#[test]
fn equal_ids_are_displayed_whole() {
    let store = create_from_file(
        "t",
        vec![derived("same", None, "A", 1), derived("same", None, "B", 2)],
    );
    assert_eq!(store.prefixes(), &vec!["same".to_string(), "same".to_string()]);
}

#[test]
fn lookup_by_whole_id_wins_over_ambiguity() {
    let store = create_from_file(
        "t",
        vec![
            derived("ab1", None, "A", 1),
            derived("ab2", None, "B", 2),
            derived("ab", None, "C", 3),
        ],
    );
    assert_eq!(store.get_full_id("ab"), Ok("ab".to_string()));
    assert_eq!(store.get_full_id("ab1"), Ok("ab1".to_string()));
    assert_eq!(store.get_full_id("ab2"), Ok("ab2".to_string()));
}

#[test]
fn lookup_by_unique_prefix_finds_the_task() {
    let store = family();
    assert_eq!(store.get_full_id("r"), Ok("root".to_string()));
    assert_eq!(store.get_full_id("gr"), Ok("grandkid".to_string()));
    assert_eq!(store.get_full_id("ot"), Ok("other".to_string()));
}

#[test]
fn lookup_by_shared_prefix_is_ambiguous() {
    let store = create_from_file(
        "t",
        vec![derived("ab1", None, "A", 1), derived("ab2", None, "B", 2)],
    );
    assert_eq!(store.get_full_id("ab"), Err(TaskListError::AmbiguousPrefix));
    assert_eq!(store.get_full_id("a"), Err(TaskListError::AmbiguousPrefix));
    assert_eq!(store.get_full_id(""), Err(TaskListError::AmbiguousPrefix));
}

#[test]
fn lookup_of_unknown_prefix_finds_nothing() {
    let store = family();
    assert_eq!(store.get_full_id("zz"), Err(TaskListError::BadPrefix));
    assert_eq!(store.get_full_id("rootx"), Err(TaskListError::BadPrefix));
    assert_eq!(empty_store().get_full_id(""), Err(TaskListError::BadPrefix));
    assert_eq!(empty_store().get_full_id("a"), Err(TaskListError::BadPrefix));
}

#[test]
fn empty_prefix_names_the_only_task() {
    let store = create_from_file("t", vec![derived("abc", None, "A", 1)]);
    assert_eq!(store.get_full_id(""), Ok("abc".to_string()));
}

#[test]
fn get_task_gives_the_task_to_change() {
    let mut store = family();
    {
        let task = store.get_task("ki").unwrap();
        assert_eq!(task.id(), "kid");
        task.set_desc("changed");
        task.add_tag("t1");
    }
    assert_eq!(store.tasks()[1].desc(), "changed");
    assert_eq!(store.tasks()[1].tags(), &vec!["t1".to_string()]);
    assert_eq!(store.tasks()[0].desc(), "root");
    assert_eq!(ids(&store), vec!["root", "kid", "grandkid", "other", "niece"]);
}

#[test]
fn get_task_reports_lookup_errors() {
    let mut store = create_from_file(
        "t",
        vec![derived("ab1", None, "A", 1), derived("ab2", None, "B", 2)],
    );
    assert_eq!(store.get_task("ab").err(), Some(TaskListError::AmbiguousPrefix));
    assert_eq!(store.get_task("x").err(), Some(TaskListError::BadPrefix));
    assert_eq!(store.get_task("ab2").unwrap().desc(), "B");
}

#[test]
fn get_children_tasks_gives_direct_children_in_store_order() {
    let mut tasks = vec![
        explicit("root", None, "root", 9),
        explicit("k2", Some("root"), "second kid", 5),
        explicit("k1", Some("root"), "first kid", 1),
        explicit("g", Some("k1"), "grandkid", 2),
    ];
    tasks.push(explicit("lone", None, "lone", 3));
    let mut store = create_from_file("t", tasks);
    {
        let children = store.get_children_tasks("ro").unwrap();
        let found: Vec<&str> = children.iter().map(|t| t.id().as_str()).collect();
        assert_eq!(found, vec!["k2", "k1"]);
    }
    assert!(store.get_children_tasks("lone").unwrap().is_empty());
    assert_eq!(store.get_children_tasks("k").err(), Some(TaskListError::AmbiguousPrefix));
    assert_eq!(store.get_children_tasks("zz").err(), Some(TaskListError::BadPrefix));
}

#[test]
fn children_can_be_changed_through_get_children_tasks() {
    let mut store = family();
    for child in store.get_children_tasks("root").unwrap() {
        child.set_desc("seen");
        child.add_tag("visited");
    }
    let descs: Vec<&str> = store.tasks().iter().map(|t| t.desc().as_str()).collect();
    assert_eq!(descs, vec!["root", "seen", "grandkid", "other", "niece"]);
    assert_eq!(store.tasks()[1].tags(), &vec!["visited".to_string()]);
    assert!(store.tasks()[2].tags().is_empty());
    assert_eq!(ids(&store), vec!["root", "kid", "grandkid", "other", "niece"]);
}

#[test]
fn duplicate_explicit_id_is_refused() {
    let mut store = empty_store();
    store.add_task_at(None, Some("a1"), "first", Timestamp::zero()).unwrap();
    let r = store.add_task_at(None, Some("a1"), "second", Timestamp::zero());
    assert_eq!(r, Err(TaskListError::DuplicateTask));
    assert_eq!(store.tasks().len(), 1);
    assert_eq!(store.tasks()[0].desc(), "first");
    assert_eq!(store.prefixes(), &vec!["a1".to_string()]);
}

#[test]
fn explicit_id_that_is_only_a_prefix_of_another_is_accepted() {
    let mut store = empty_store();
    store.add_task_at(None, Some("a12"), "first", Timestamp::zero()).unwrap();
    store.add_task_at(None, Some("a1"), "second", Timestamp::zero()).unwrap();
    assert_eq!(ids(&store), vec!["a12", "a1"]);
}

#[test]
fn duplicate_is_reported_before_a_bad_parent() {
    let mut store = empty_store();
    store.add_task_at(None, Some("a1"), "first", Timestamp::zero()).unwrap();
    let r = store.add_task_at(Some("zz"), Some("a1"), "second", Timestamp::zero());
    assert_eq!(r, Err(TaskListError::DuplicateTask));
}

#[test]
fn unknown_parent_prefix_is_refused() {
    let mut store = empty_store();
    store.add_task_at(None, Some("a1"), "first", Timestamp::zero()).unwrap();
    let r = store.add_task_at(Some("zz"), None, "child", Timestamp::zero());
    assert_eq!(r, Err(TaskListError::BadParentPrefix));
    assert_eq!(store.tasks().len(), 1);
    assert_eq!(store.prefixes(), &vec!["a1".to_string()]);
}

#[test]
fn ambiguous_parent_prefix_is_refused_as_bad_parent() {
    let mut store = empty_store();
    store.add_task_at(None, Some("a1"), "first", Timestamp::zero()).unwrap();
    store.add_task_at(None, Some("a2"), "second", Timestamp::zero()).unwrap();
    let r = store.add_task_at(Some("a"), None, "child", Timestamp::zero());
    assert_eq!(r, Err(TaskListError::BadParentPrefix));
    assert_eq!(store.tasks().len(), 2);
}

#[test]
fn child_carries_the_whole_id_of_its_parent() {
    let mut store = empty_store();
    store.add_task_at(None, Some("parent-task"), "first", Timestamp::zero()).unwrap();
    store.add_task_at(Some("par"), Some("child"), "second", Timestamp::from_nanos(5)).unwrap();
    assert_eq!(store.tasks()[1].parent_id(), &Some("parent-task".to_string()));
    assert_eq!(store.tasks()[1].timestamp(), Timestamp::from_nanos(5));
}

#[test]
fn ids_stay_apart_over_a_run_of_additions() {
    let mut store = empty_store();
    for (n, desc) in ["a", "b", "c", "a", "d"].iter().enumerate() {
        store.add_task_at(None, None, desc, Timestamp::from_nanos(n as u128)).unwrap();
    }
    store.add_task_at(None, Some("x"), "e", Timestamp::zero()).unwrap();
    assert!(store.add_task_at(None, Some("x"), "f", Timestamp::zero()).is_err());
    let all = ids(&store);
    for i in 0..all.len() {
        for j in 0..all.len() {
            if i != j {
                assert_ne!(all[i], all[j]);
            }
        }
    }
    assert_eq!(all.len(), 6);
}

#[test]
fn same_description_at_the_same_instant_gives_the_same_derived_id() {
    let mut store = empty_store();
    store.add_task_at(None, None, "twin", Timestamp::from_nanos(7)).unwrap();
    store.add_task_at(None, None, "twin", Timestamp::from_nanos(7)).unwrap();
    assert_eq!(store.tasks().len(), 2);
    assert_eq!(store.tasks()[0].id(), store.tasks()[1].id());
    assert_eq!(store.prefixes()[0], *store.tasks()[0].id());
}

#[test]
fn edit_replaces_description_and_keeps_id() {
    let mut store = empty_store();
    store.add_task_at(None, None, "old words", Timestamp::zero()).unwrap();
    let id = store.tasks()[0].id().clone();
    assert_eq!(store.edit_task(&id[..2], "new\nwords\n"), Ok(()));
    assert_eq!(store.tasks()[0].desc(), "newwords");
    assert_eq!(store.tasks()[0].id(), &id);
    assert_eq!(store.edit_task("nothing-like-it", "x"), Err(TaskListError::BadPrefix));
    assert_eq!(store.tasks()[0].desc(), "newwords");
}

#[test]
fn complete_and_uncomplete_set_the_flag_of_one_task() {
    let mut store = family();
    assert_eq!(store.complete_task("root"), Ok(()));
    assert!(store.tasks()[0].completed());
    assert!(!store.tasks()[1].completed());
    assert!(!store.tasks()[2].completed());
    assert_eq!(store.complete_task("root"), Ok(()));
    assert!(store.tasks()[0].completed());
    assert_eq!(store.uncomplete_task("ro"), Ok(()));
    assert!(!store.tasks()[0].completed());
    assert_eq!(store.set_complete("kid", true), Ok(()));
    assert!(store.tasks()[1].completed());
    assert_eq!(store.complete_task("nope"), Err(TaskListError::BadPrefix));
    assert_eq!(store.uncomplete_task(""), Err(TaskListError::AmbiguousPrefix));
}

#[test]
fn tag_task_applies_tokens_in_order() {
    let mut store = family();
    let tokens: Vec<String> =
        ["home", "work", "-home", "work", "-none", "late"].iter().map(|s| s.to_string()).collect();
    assert_eq!(store.tag_task("kid", &tokens), Ok(()));
    assert_eq!(store.tasks()[1].tags(), &vec!["work".to_string(), "late".to_string()]);
    assert!(store.tasks()[0].tags().is_empty());
    assert_eq!(store.tag_task("zz", &tokens), Err(TaskListError::BadPrefix));
    assert_eq!(store.tag_task("kid", &Vec::new()), Ok(()));
    assert_eq!(store.tasks()[1].tags(), &vec!["work".to_string(), "late".to_string()]);
}

#[test]
fn remove_leaf_removes_that_task_only() {
    let mut store = family();
    let removed = store.remove_task("grand", false).unwrap();
    assert_eq!(removed, vec!["grandkid".to_string()]);
    assert_eq!(ids(&store), vec!["root", "kid", "other", "niece"]);
    assert_eq!(store.prefixes().len(), 4);
}

#[test]
fn remove_with_children_and_no_force_changes_nothing() {
    let mut store = family();
    assert_eq!(store.remove_task("root", false), Err(TaskListError::RemoveHasChildren));
    assert_eq!(ids(&store), vec!["root", "kid", "grandkid", "other", "niece"]);
    assert_eq!(store.remove_task("kid", false), Err(TaskListError::RemoveHasChildren));
    assert_eq!(store.tasks().len(), 5);
}

#[test]
fn forced_remove_takes_the_whole_subtree() {
    let mut store = family();
    let removed = store.remove_task("root", true).unwrap();
    assert_eq!(removed, vec!["root".to_string(), "kid".to_string(), "grandkid".to_string()]);
    assert_eq!(ids(&store), vec!["other", "niece"]);
    for task in store.tasks() {
        if let Some(parent) = task.parent_id() {
            assert!(!removed.contains(parent));
        }
    }
    assert_eq!(store.prefixes(), &vec!["other".to_string(), "niece".to_string()]);
}

#[test]
fn forced_remove_finds_children_that_stand_before_their_parent() {
    let mut store = create_from_file(
        "t",
        vec![
            explicit("g", Some("k"), "grandkid", 1),
            explicit("k", Some("r"), "kid", 2),
            explicit("x", None, "stays", 3),
            explicit("r", None, "root", 4),
        ],
    );
    let removed = store.remove_task("r", true).unwrap();
    assert_eq!(removed, vec!["g".to_string(), "k".to_string(), "r".to_string()]);
    assert_eq!(ids(&store), vec!["x"]);
}

#[test]
fn forced_remove_of_a_leaf_is_a_plain_remove() {
    let mut store = family();
    assert_eq!(store.remove_task("niece", true), Ok(vec!["niece".to_string()]));
    assert_eq!(store.tasks().len(), 4);
}

#[test]
fn remove_reports_lookup_errors() {
    let mut store = family();
    assert_eq!(store.remove_task("zz", true), Err(TaskListError::BadPrefix));
    assert_eq!(store.remove_task("", false), Err(TaskListError::AmbiguousPrefix));
    assert_eq!(store.tasks().len(), 5);
}

#[test]
fn remove_ends_on_a_store_whose_parents_form_a_ring() {
    let mut store = create_from_file(
        "t",
        vec![
            explicit("a", Some("b"), "A", 1),
            explicit("b", Some("a"), "B", 2),
            explicit("c", None, "C", 3),
        ],
    );
    assert_eq!(store.remove_task("a", true), Ok(vec!["a".to_string(), "b".to_string()]));
    assert_eq!(ids(&store), vec!["c"]);
}

fn tree() -> TaskList {
    let mut first = explicit("a", None, "first", 1);
    first.add_tag("x");
    first.add_tag("y");
    create_from_file(
        "t",
        vec![
            first,
            explicit("b", None, "second", 3),
            explicit("c", Some("a"), "kid", 2),
            explicit("d", Some("a"), "older kid", 1),
            explicit("e", Some("c"), "deep", 4),
        ],
    )
}

#[test]
fn show_draws_the_tree() {
    let lines = tree().show(false);
    assert_eq!(
        lines,
        vec![
            "Tasks:",
            "├─ a: [x] [y] first",
            "│  ├─ d: older kid",
            "│  └─ c: kid",
            "│     └─ e: deep",
            "└─ b: second",
        ]
    );
}

#[test]
fn show_of_empty_store_is_the_heading() {
    assert_eq!(empty_store().show(false), vec!["Tasks:"]);
    assert_eq!(empty_store().show(true), vec!["Tasks:"]);
}

#[test]
fn show_lists_siblings_of_one_time_in_store_order() {
    let store = create_from_file(
        "t",
        vec![
            explicit("late", None, "late", 5),
            explicit("one", None, "one", 2),
            explicit("two", None, "two", 2),
            explicit("early", None, "early", 1),
        ],
    );
    assert_eq!(
        store.show(false),
        vec!["Tasks:", "├─ early: early", "├─ one: one", "├─ two: two", "└─ late: late"]
    );
}

#[test]
fn show_uses_display_prefixes() {
    let store = create_from_file(
        "t",
        vec![derived("abcd1234", None, "A", 1), derived("abce5678", Some("abcd1234"), "B", 2)],
    );
    assert_eq!(store.show(false), vec!["Tasks:", "└─ abcd: A", "   └─ abce: B"]);
}

#[test]
fn show_can_hide_completed_tasks_with_what_hangs_from_them() {
    let mut store = tree();
    store.complete_task("c").unwrap();
    assert_eq!(
        store.show(true),
        vec!["Tasks:", "├─ a: [x] [y] first", "│  └─ d: older kid", "└─ b: second"]
    );
    assert_eq!(store.show(false).len(), 6);
    store.complete_task("b").unwrap();
    assert_eq!(store.show(true), vec!["Tasks:", "└─ a: [x] [y] first", "   └─ d: older kid"]);
}

#[test]
fn show_leaves_out_tasks_whose_parent_is_not_in_the_store() {
    let store = create_from_file(
        "t",
        vec![explicit("a", None, "A", 1), explicit("b", Some("gone"), "B", 2)],
    );
    assert_eq!(store.show(false), vec!["Tasks:", "└─ a: A"]);
}

#[test]
fn save_writes_tasks_in_the_order_of_their_ids() {
    let store = create_from_file(
        "t",
        vec![
            explicit("b", None, "second", 1),
            explicit("a", None, "first", 2),
            explicit("B", None, "capital", 3),
            explicit("ab", None, "longer", 4),
        ],
    );
    let payloads: Vec<String> =
        ["{b}", "{a}", "{B}", "{ab}"].iter().map(|s| s.to_string()).collect();
    assert_eq!(
        store.save(&payloads),
        Some(vec![
            "capital | {B}".to_string(),
            "first | {a}".to_string(),
            "longer | {ab}".to_string(),
            "second | {b}".to_string(),
        ])
    );
}

#[test]
fn save_keeps_store_order_among_equal_ids() {
    let store = create_from_file(
        "t",
        vec![
            explicit("x", None, "one", 1),
            explicit("a", None, "mid", 2),
            explicit("x", None, "two", 3),
        ],
    );
    let payloads: Vec<String> = ["1", "2", "3"].iter().map(|s| s.to_string()).collect();
    assert_eq!(
        store.save(&payloads),
        Some(vec!["mid | 2".to_string(), "one | 1".to_string(), "two | 3".to_string()])
    );
}

#[test]
fn save_wants_one_payload_for_each_task() {
    let store = family();
    assert_eq!(store.save(&Vec::new()), None);
    assert_eq!(empty_store().save(&Vec::new()), Some(Vec::new()));
    assert_eq!(empty_store().save(&vec!["{}".to_string()]), None);
}

#[test]
fn each_error_has_its_message() {
    assert_eq!(TaskListError::AmbiguousPrefix.message(), "Prefix matches more than one task.");
    assert_eq!(TaskListError::BadPrefix.message(), "Prefix matches no tasks.");
    assert_eq!(TaskListError::BadParentPrefix.message(), "Parent prefix matches no tasks.");
    assert_eq!(TaskListError::DuplicateTask.message(), "A task with this id already exits.");
    assert_eq!(
        TaskListError::RemoveHasChildren.message(),
        "The task you are trying to remove has children.  Use --force."
    );
    assert_eq!(TaskListError::IOError("disk full".to_string()).message(), "disk full");
}
