use department_roster::sorting::sort_strings;
use department_roster::text::{
    i32_to_string, parse_u32, str_ci_eq, str_eq, str_leq, tokenize, trim_str, u64_to_string,
};

fn owned(words: &[&str]) -> Vec<String> {
    words.iter().map(|w| w.to_string()).collect()
}

#[test]
fn tokenize_splits_on_whitespace_runs() {
    assert_eq!(tokenize("add Alice to Engineering"), owned(&["add", "Alice", "to", "Engineering"]));
    assert_eq!(tokenize("  a \t b  "), owned(&["a", "b"]));
    assert_eq!(tokenize("one"), owned(&["one"]));
    assert_eq!(tokenize(""), Vec::<String>::new());
    assert_eq!(tokenize(" \n\t "), Vec::<String>::new());
}

#[test]
fn tokenize_handles_wide_whitespace() {
    assert_eq!(tokenize("a\u{2003}b\u{a0}c"), owned(&["a", "b", "c"]));
}

#[test]
fn case_insensitive_comparison() {
    assert!(str_ci_eq("add", "ADD"));
    assert!(str_ci_eq("LiSt-AlL", "list-all"));
    assert!(!str_ci_eq("list", "list-all"));
    assert!(!str_ci_eq("lisp", "list"));
}

#[test]
fn exact_string_comparison() {
    assert!(str_eq("Engineering", "Engineering"));
    assert!(!str_eq("Engineering", "engineering"));
    assert!(!str_eq("a", "ab"));
}

#[test]
fn lexicographic_order() {
    assert!(str_leq("apple", "banana"));
    assert!(!str_leq("banana", "apple"));
    assert!(str_leq("app", "apple"));
    assert!(!str_leq("apple", "app"));
    assert!(str_leq("same", "same"));
    assert!(str_leq("Banana", "apple"));
}

#[test]
fn decimal_rendering() {
    assert_eq!(u64_to_string(0), "0");
    assert_eq!(u64_to_string(7), "7");
    assert_eq!(u64_to_string(10), "10");
    assert_eq!(u64_to_string(907), "907");
    assert_eq!(u64_to_string(18446744073709551615), "18446744073709551615");
}

#[test]
fn signed_decimal_rendering() {
    assert_eq!(i32_to_string(0), "0");
    assert_eq!(i32_to_string(42), "42");
    assert_eq!(i32_to_string(-1), "-1");
    assert_eq!(i32_to_string(i32::MIN), "-2147483648");
    assert_eq!(i32_to_string(i32::MAX), "2147483647");
}

#[test]
fn parsing_decimal_numbers() {
    assert_eq!(parse_u32("123"), Some(123));
    assert_eq!(parse_u32("0"), Some(0));
    assert_eq!(parse_u32("007"), Some(7));
    assert_eq!(parse_u32("4294967295"), Some(u32::MAX));
    assert_eq!(parse_u32("4294967296"), None);
    assert_eq!(parse_u32("99999999999"), None);
    assert_eq!(parse_u32(""), None);
    assert_eq!(parse_u32("12a"), None);
    assert_eq!(parse_u32("+5"), None);
    assert_eq!(parse_u32(" 5"), None);
}

#[test]
fn trimming_whitespace() {
    assert_eq!(trim_str("  hola  "), "hola");
    assert_eq!(trim_str("hola"), "hola");
    assert_eq!(trim_str("\t42\n"), "42");
    assert_eq!(trim_str("   "), "");
    assert_eq!(trim_str(""), "");
    assert_eq!(trim_str(" a b "), "a b");
}

#[test]
fn sorting_strings_lexicographically() {
    let mut v = owned(&["pear", "apple", "apple", "Banana"]);
    sort_strings(&mut v);
    assert_eq!(v, owned(&["Banana", "apple", "apple", "pear"]));
}

#[test]
fn sorting_twice_changes_nothing() {
    let mut v = owned(&["delta", "alpha", "charlie", "bravo"]);
    sort_strings(&mut v);
    let once = v.clone();
    sort_strings(&mut v);
    assert_eq!(v, once);
}

#[test]
fn sorting_the_empty_and_singleton_vectors() {
    let mut v: Vec<String> = Vec::new();
    sort_strings(&mut v);
    assert!(v.is_empty());
    let mut v = owned(&["solo"]);
    sort_strings(&mut v);
    assert_eq!(v, owned(&["solo"]));
}
