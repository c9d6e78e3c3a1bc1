use rust_shell::lineutils::{bold_hint, CommandHighlighter};

#[test]
fn builtin_word_is_gold() {
    let h = CommandHighlighter::new();
    assert_eq!(h.highlight("cd /tmp", 0), "\x1b[38;2;255;215;0mcd\x1b[0m /tmp");
    assert_eq!(h.highlight_with("cd /tmp", false), "\x1b[38;2;255;215;0mcd\x1b[0m /tmp");
}

#[test]
fn found_and_missing_programs() {
    let h = CommandHighlighter::new();
    assert_eq!(h.highlight_with("ls -l", true), "\x1b[0;35mls\x1b[0m -l");
    assert_eq!(h.highlight_with("ls -l", false), "\x1b[1;31mls\x1b[0m -l");
    let r = h.highlight("zz_no_such_program_zz -x", 0);
    assert_eq!(r, "\x1b[1;31mzz_no_such_program_zz\x1b[0m -x");
}

#[test]
fn short_lines_and_lines_without_space() {
    let h = CommandHighlighter::new();
    assert_eq!(h.highlight("ls", 0), "ls");
    assert_eq!(h.highlight_with("abcdef", false), "\x1b[1;31mabcdef\x1b[0mabcdef");
    assert_eq!(h.highlight_with("   ", false), "\x1b[1;31m\x1b[0m   ");
}

#[test]
fn quotes_and_spaces_repaint() {
    let h = CommandHighlighter::new();
    assert!(h.highlight_char("a b", 0));
    assert!(h.highlight_char("'", 0));
    assert!(h.highlight_char("\"", 0));
    assert!(!h.highlight_char("abc", 0));
}

#[test]
fn hints_are_bold() {
    assert_eq!(bold_hint("xyz"), "\x1b[1mxyz\x1b[m");
}
