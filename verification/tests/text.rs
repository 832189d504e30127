use hey::text::{chars_of, join_from, less_than, lowercase_words, split_words};

#[test]
fn splitting_on_unicode_whitespace() {
    assert_eq!(split_words("  a\tb\nc\u{3000}d\u{85}e  "), vec!["a", "b", "c", "d", "e"]);
    assert_eq!(split_words(""), Vec::<String>::new());
    assert_eq!(split_words("   "), Vec::<String>::new());
    assert_eq!(split_words("x"), vec!["x"]);
}

#[test]
fn joining_from_an_index() {
    let ws = vec!["a".to_string(), "b".to_string(), "c".to_string()];
    assert_eq!(join_from(&ws, 0), "a b c");
    assert_eq!(join_from(&ws, 1), "b c");
    assert_eq!(join_from(&ws, 3), "");
}

#[test]
fn lowercasing_words() {
    let ws = vec!["ÄBC".to_string(), "Hello".to_string()];
    assert_eq!(lowercase_words(&ws), vec!["äbc", "hello"]);
    let ascii = vec!["AZ@[`{09-_!".to_string()];
    assert_eq!(lowercase_words(&ascii), vec!["az@[`{09-_!"]);
}

#[test]
fn code_point_order() {
    assert!(less_than("a", "b"));
    assert!(less_than("a", "ab"));
    assert!(!less_than("ab", "a"));
    assert!(!less_than("same", "same"));
    assert!(less_than("", "a"));
    assert!(less_than("z", "é"));
    assert_eq!(chars_of("hé"), vec!['h', 'é']);
}
