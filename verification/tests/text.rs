use taskstore::text::{
    chars_of, is_blank, join_words, same_text, split_once, starts_with, text_le, trim,
    without_newlines,
};

#[test]
fn chars_of_gives_each_character() {
    assert_eq!(chars_of("a│b"), vec!['a', '│', 'b']);
    assert_eq!(chars_of(""), Vec::<char>::new());
}

#[test]
fn same_text_compares_all_characters() {
    assert!(same_text(&chars_of("abc"), &chars_of("abc")));
    assert!(!same_text(&chars_of("abc"), &chars_of("abd")));
    assert!(!same_text(&chars_of("abc"), &chars_of("ab")));
    assert!(same_text(&chars_of(""), &chars_of("")));
}

#[test]
fn starts_with_is_the_prefix_relation() {
    assert!(starts_with(&chars_of("abcd"), &chars_of("ab")));
    assert!(starts_with(&chars_of("abcd"), &chars_of("")));
    assert!(starts_with(&chars_of("abcd"), &chars_of("abcd")));
    assert!(!starts_with(&chars_of("abcd"), &chars_of("abcde")));
    assert!(!starts_with(&chars_of("abcd"), &chars_of("b")));
}

#[test]
fn text_le_is_lexicographic() {
    assert!(text_le(&chars_of(""), &chars_of("")));
    assert!(text_le(&chars_of(""), &chars_of("a")));
    assert!(!text_le(&chars_of("a"), &chars_of("")));
    assert!(text_le(&chars_of("ab"), &chars_of("abc")));
    assert!(!text_le(&chars_of("abc"), &chars_of("ab")));
    assert!(text_le(&chars_of("abc"), &chars_of("abd")));
    assert!(!text_le(&chars_of("b"), &chars_of("abc")));
    assert!(text_le(&chars_of("Z"), &chars_of("a")));
    assert!(text_le(&chars_of("same"), &chars_of("same")));
}

#[test]
fn split_once_splits_at_the_first_bar() {
    assert_eq!(split_once("desc | {} | more"), (Some("desc "), Some(" {} | more")));
    assert_eq!(split_once("no bar here"), (Some("no bar here"), None));
    assert_eq!(split_once("|"), (Some(""), Some("")));
    assert_eq!(split_once(""), (Some(""), None));
    assert_eq!(split_once("a|"), (Some("a"), Some("")));
    assert_eq!(split_once("é|ü"), (Some("é"), Some("ü")));
}

#[test]
fn trim_removes_white_space_at_both_ends() {
    assert_eq!(trim("  a b  "), "a b");
    assert_eq!(trim("\ta\n"), "a");
    assert_eq!(trim("\u{a0}x\u{3000}"), "x");
    assert_eq!(trim("   "), "");
    assert_eq!(trim(""), "");
    assert_eq!(trim("x"), "x");
    assert_eq!(trim("\t \r\n"), "");
}

#[test]
fn is_blank_knows_space_and_other_white_space() {
    assert!(is_blank(' '));
    assert!(is_blank('\t'));
    assert!(is_blank('\n'));
    assert!(!is_blank('a'));
    assert!(!is_blank('|'));
}

#[test]
fn without_newlines_drops_line_feeds_only() {
    assert_eq!(without_newlines("a\nb\n\nc"), "abc");
    assert_eq!(without_newlines("\n"), "");
    assert_eq!(without_newlines("a\r\nb"), "a\rb");
    assert_eq!(without_newlines("plain"), "plain");
}

#[test]
fn join_words_puts_one_space_between_words() {
    let words = vec!["buy".to_string(), "milk".to_string(), "now".to_string()];
    assert_eq!(join_words(&words), "buy milk now");
    assert_eq!(join_words(&Vec::new()), "");
    assert_eq!(join_words(&vec!["one".to_string()]), "one");
}

#[test]
fn join_words_puts_no_space_behind_an_empty_text() {
    let words = vec!["".to_string(), "a".to_string(), "".to_string(), "b".to_string()];
    assert_eq!(join_words(&words), "a  b");
}
