use taskstore::listing::children_sorted;
use taskstore::lookup::{lookup, Lookup};
use taskstore::prefix::{is_taken, prefix_len, shares};
use taskstore::saving::sorted_by_id;
use taskstore::stamp::Timestamp;
use taskstore::subtree::mark_subtree;
use taskstore::task::create_at;
use taskstore::text::chars_of;

fn rows(ids: &[&str]) -> Vec<Vec<char>> {
    ids.iter().map(|s| chars_of(s)).collect()
}

#[test]
fn lookup_tells_found_ambiguous_and_missing_apart() {
    let ids = rows(&["ab1", "ab2", "ab", "c"]);
    assert_eq!(lookup(&ids, &chars_of("ab")), Lookup::Found(2));
    assert_eq!(lookup(&ids, &chars_of("ab2")), Lookup::Found(1));
    assert_eq!(lookup(&ids, &chars_of("a")), Lookup::Ambiguous);
    assert_eq!(lookup(&ids, &chars_of("c")), Lookup::Found(3));
    assert_eq!(lookup(&ids, &chars_of("d")), Lookup::Missing);
    assert_eq!(lookup(&Vec::new(), &chars_of("")), Lookup::Missing);
}

#[test]
fn lookup_finds_the_first_of_equal_ids() {
    let ids = rows(&["x", "same", "same"]);
    assert_eq!(lookup(&ids, &chars_of("same")), Lookup::Found(1));
    assert_eq!(lookup(&ids, &chars_of("s")), Lookup::Ambiguous);
}

#[test]
fn shares_compares_the_first_characters() {
    assert!(shares(&chars_of("abcd"), &chars_of("abxx"), 2));
    assert!(!shares(&chars_of("abcd"), &chars_of("abxx"), 3));
    assert!(shares(&chars_of("abcd"), &chars_of(""), 0));
    assert!(!shares(&chars_of("abcd"), &chars_of("abc"), 4));
}

#[test]
fn is_taken_looks_at_the_other_ids_only() {
    let ids = rows(&["abcd", "abxy", "q"]);
    assert!(is_taken(&ids, 0, 2));
    assert!(!is_taken(&ids, 0, 3));
    assert!(!is_taken(&ids, 2, 1));
    assert!(is_taken(&ids, 2, 0));
}

#[test]
fn prefix_len_is_the_least_unshared_length() {
    let ids = rows(&["abcd1234", "abce5678", "b", "abcd"]);
    let derived = vec![false, false, false, false];
    assert_eq!(prefix_len(&ids, &derived, 0), 5);
    assert_eq!(prefix_len(&ids, &derived, 1), 4);
    assert_eq!(prefix_len(&ids, &derived, 2), 1);
    assert_eq!(prefix_len(&ids, &derived, 3), 4);
    let full = vec![true, false, true, false];
    assert_eq!(prefix_len(&ids, &full, 0), 8);
    assert_eq!(prefix_len(&ids, &full, 2), 1);
}

#[test]
fn mark_subtree_marks_what_hangs_from_the_root() {
    let ids = rows(&["g", "k", "x", "r", "k2"]);
    let parents: Vec<Option<Vec<char>>> = vec![
        Some(chars_of("k")),
        Some(chars_of("r")),
        None,
        None,
        Some(chars_of("x")),
    ];
    assert_eq!(mark_subtree(&ids, &parents, &chars_of("r")), vec![true, true, false, true, false]);
    assert_eq!(mark_subtree(&ids, &parents, &chars_of("x")), vec![false, false, true, false, true]);
    assert_eq!(
        mark_subtree(&ids, &parents, &chars_of("g")),
        vec![true, false, false, false, false]
    );
    assert_eq!(
        mark_subtree(&ids, &parents, &chars_of("none")),
        vec![false, false, false, false, false]
    );
}

#[test]
fn mark_subtree_takes_equal_ids_together() {
    let ids = rows(&["r", "d", "d", "c"]);
    let parents: Vec<Option<Vec<char>>> =
        vec![None, Some(chars_of("r")), None, Some(chars_of("d"))];
    assert_eq!(mark_subtree(&ids, &parents, &chars_of("r")), vec![true, true, true, true]);
}

#[test]
fn sorted_by_id_is_stable() {
    let ids = rows(&["b", "a", "b", "", "ab"]);
    assert_eq!(sorted_by_id(&ids), vec![3, 1, 4, 0, 2]);
    assert_eq!(sorted_by_id(&Vec::new()), Vec::<usize>::new());
}

#[test]
fn children_sorted_orders_by_time_then_place() {
    let at = |n: u128| Timestamp::from_nanos(n);
    let mut done = create_at(Some("p"), Some("d"), "done", at(1));
    done.set_complete(true);
    let tasks = vec![
        create_at(Some("p"), Some("a"), "a", at(9)),
        create_at(None, Some("p"), "p", at(0)),
        create_at(Some("p"), Some("b"), "b", at(3)),
        done,
        create_at(Some("p"), Some("c"), "c", at(3)),
        create_at(Some("q"), Some("e"), "e", at(1)),
    ];
    let parent = Some("p".to_string());
    assert_eq!(children_sorted(&tasks, &parent, false), vec![3, 2, 4, 0]);
    assert_eq!(children_sorted(&tasks, &parent, true), vec![2, 4, 0]);
    assert_eq!(children_sorted(&tasks, &None, false), vec![1]);
    assert_eq!(children_sorted(&tasks, &Some("zz".to_string()), false), Vec::<usize>::new());
}
