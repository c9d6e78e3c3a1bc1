use rust_shell::text::{
    before_char_str, contains_str, decimal_string, join_strings, parse_i32_str, replace_str,
    split_fields, split_once_str, starts_with_str, trim_str,
};

fn owned(v: &[&str]) -> Vec<String> {
    v.iter().map(|s| s.to_string()).collect()
}

#[test]
fn trim_drops_unicode_whitespace_at_both_ends() {
    assert_eq!(trim_str("  \t a b \n"), "a b");
    assert_eq!(trim_str("\u{a0}x\u{3000}"), "x");
    assert_eq!(trim_str("   "), "");
    assert_eq!(trim_str(""), "");
}

#[test]
fn trim_twice_is_trim_once() {
    let once = trim_str(" \u{2003} word \r\n");
    assert_eq!(trim_str(&once), once);
}

#[test]
fn split_once_cuts_at_first_occurrence() {
    assert_eq!(split_once_str("a=b=c", "="), Some(("a".to_string(), "b=c".to_string())));
    assert_eq!(split_once_str("abc", "="), None);
    assert_eq!(split_once_str("abc", ""), Some(("".to_string(), "abc".to_string())));
}

#[test]
fn contains_and_starts_with() {
    assert!(contains_str("echo $HOME", "$"));
    assert!(!contains_str("echo", "$"));
    assert!(contains_str("x", ""));
    assert!(starts_with_str("#comment", "#"));
    assert!(!starts_with_str("a#", "#"));
}

#[test]
fn replace_all_occurrences_left_to_right() {
    assert_eq!(replace_str("/home/u/src", "/home/u", "~"), "~/src");
    assert_eq!(replace_str("aaa", "aa", "b"), "ba");
    assert_eq!(replace_str("abc", "", "~"), "~a~b~c~");
    assert_eq!(replace_str("%{x%}", "%{", ""), "x%}");
}

#[test]
fn fields_split_on_whitespace() {
    assert_eq!(split_fields("  ls   -l\t-a ", false), owned(&["ls", "-l", "-a"]));
    assert_eq!(split_fields("a\u{a0}b", false), owned(&["a", "b"]));
    assert_eq!(split_fields("a\u{a0}b", true), owned(&["a\u{a0}b"]));
    assert!(split_fields("   ", true).is_empty());
}

#[test]
fn join_with_separator() {
    assert_eq!(join_strings(&owned(&["a", "b", "c"]), " "), "a b c");
    assert_eq!(join_strings(&owned(&[]), " "), "");
    assert_eq!(join_strings(&owned(&["x"]), ", "), "x");
}

#[test]
fn before_char_keeps_text_before_first_mark() {
    assert_eq!(before_char_str("ls # list", '#'), "ls ");
    assert_eq!(before_char_str("ls", '#'), "ls");
    assert_eq!(before_char_str("#x", '#'), "");
}

#[test]
fn decimal_text_of_numbers() {
    assert_eq!(decimal_string(0), "0");
    assert_eq!(decimal_string(127), "127");
    assert_eq!(decimal_string(-5), "-5");
    assert_eq!(decimal_string(i32::MIN), i32::MIN.to_string());
    assert_eq!(decimal_string(i32::MAX), i32::MAX.to_string());
}

#[test]
fn parse_i32_like_std() {
    for s in ["0", "42", "-42", "+7", "2147483647", "-2147483648", "2147483648", "-2147483649",
        "", "-", "+", "1a", " 1", "007", "99999999999999999999"]
    {
        assert_eq!(parse_i32_str(s), s.parse::<i32>().ok(), "input {:?}", s);
    }
}

#[test]
fn decimal_reads_back() {
    for n in [0, 1, -1, 255, i32::MAX, i32::MIN, 1000000] {
        assert_eq!(parse_i32_str(&decimal_string(n)), Some(n));
    }
}
