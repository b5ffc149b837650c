use stick::text::{chars_of, contains, eq_ignore_ascii_case, str_eq, str_lt};

#[test]
fn ascii_case_folding() {
    assert!(eq_ignore_ascii_case("ID-151", "id-151"));
    assert!(!eq_ignore_ascii_case("ID-140", "id-151"));
    assert!(!eq_ignore_ascii_case("É", "é"));
    assert!(!eq_ignore_ascii_case("ab", "abc"));
}

#[test]
fn substring_search() {
    assert!(contains("hello world", "o w"));
    assert!(contains("abc", ""));
    assert!(contains("abc", "abc"));
    assert!(!contains("abc", "abcd"));
    assert!(!contains("abc", "ac"));
}

#[test]
fn ordering() {
    assert!(str_lt("list", "move"));
    assert!(str_lt("", "a"));
    assert!(str_lt("ab", "abc"));
    assert!(!str_lt("b", "abc"));
    assert!(!str_lt("same", "same"));
    assert!(str_eq("same", "same"));
    assert!(!str_eq("same", "Same"));
}

#[test]
fn characters() {
    assert_eq!(chars_of("aé"), vec!['a', 'é']);
}
