use imperium::text::{chars_of, decimal_string, leaf_name, same_chars};
use std::path::Path;

#[test]
fn chars_of_gives_each_character_once() {
    assert_eq!(chars_of(""), Vec::<char>::new());
    assert_eq!(chars_of("a/\u{e9}\u{f115}"), vec!['a', '/', '\u{e9}', '\u{f115}']);
}

#[test]
fn same_chars_compares_length_and_content() {
    assert!(same_chars(&chars_of("js"), &chars_of("js")));
    assert!(!same_chars(&chars_of("js"), &chars_of("jsx")));
    assert!(!same_chars(&chars_of("js"), &chars_of("jz")));
    assert!(same_chars(&chars_of(""), &chars_of("")));
}

#[test]
fn decimal_string_has_no_separators_or_leading_zeros() {
    assert_eq!(decimal_string(0), "0");
    assert_eq!(decimal_string(7), "7");
    assert_eq!(decimal_string(10), "10");
    assert_eq!(decimal_string(4096), "4096");
    assert_eq!(decimal_string(1_234_567), "1234567");
    assert_eq!(decimal_string(u64::MAX), "18446744073709551615");
}

#[test]
fn decimal_string_agrees_with_the_standard_formatter() {
    for n in [0u64, 1, 9, 10, 99, 100, 101, 65535, 1 << 32, u64::MAX - 1] {
        assert_eq!(decimal_string(n), n.to_string());
    }
}

#[test]
fn leaf_name_is_the_last_component() {
    assert_eq!(leaf_name("src/main.rs"), Some("main.rs".to_string()));
    assert_eq!(leaf_name("main.rs"), Some("main.rs".to_string()));
    assert_eq!(leaf_name("a/b/c"), Some("c".to_string()));
    assert_eq!(leaf_name(".gitignore"), Some(".gitignore".to_string()));
    assert_eq!(leaf_name("..."), Some("...".to_string()));
}

#[test]
fn leaf_name_passes_over_trailing_slashes_and_dots() {
    assert_eq!(leaf_name("target/"), Some("target".to_string()));
    assert_eq!(leaf_name("a//b//"), Some("b".to_string()));
    assert_eq!(leaf_name("a/b/."), Some("b".to_string()));
    assert_eq!(leaf_name("a/./"), Some("a".to_string()));
    assert_eq!(leaf_name("./a"), Some("a".to_string()));
}

#[test]
fn leaf_name_is_absent_without_a_last_component() {
    for path in ["", "/", "//", ".", "./", "./.", "..", "a/..", "a/../", "/.."] {
        assert_eq!(leaf_name(path), None, "{:?}", path);
    }
}

#[test]
fn leaf_name_agrees_with_the_standard_path() {
    for path in [
        "", "/", ".", "..", "a", "a/", "a/.", "a/..", "./a", "../a", "a/b", "/a/b/", "a//b", ".a",
        "a.", "a/.b", "a/b./", "/.", "./.", "a/./.", "é/ü", "a/ /",
    ] {
        let std = Path::new(path).file_name().map(|n| n.to_string_lossy().into_owned());
        assert_eq!(leaf_name(path), std, "{:?}", path);
    }
}
