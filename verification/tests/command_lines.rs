use rust_shell::commands::{expand_arguments, parse_command_line, resolve_alias, CommandLine};
use rust_shell::status::CommandStatus;
use rust_shell::vars::VarTable;

fn owned(v: &[&str]) -> Vec<String> {
    v.iter().map(|s| s.to_string()).collect()
}

fn groups(line: &str) -> Vec<Vec<Vec<String>>> {
    match parse_command_line(line) {
        CommandLine::Run(g) => g,
        _ => panic!("expected commands"),
    }
}

#[test]
fn blank_and_comment_lines_are_empty() {
    assert!(matches!(parse_command_line(""), CommandLine::Empty));
    assert!(matches!(parse_command_line("   "), CommandLine::Empty));
    assert!(matches!(parse_command_line("  # just a comment"), CommandLine::Empty));
    assert!(matches!(parse_command_line("#"), CommandLine::Empty));
}

#[test]
fn broken_quoting_is_a_syntax_error() {
    match parse_command_line("echo 'abc") {
        CommandLine::Invalid(CommandStatus::Message(m, 1)) => assert_eq!(m, "syntax error 'echo 'abc'"),
        _ => panic!("expected a syntax error"),
    }
}

#[test]
fn groups_and_pipelines() {
    let g = groups("ls -l | grep x ; echo hi && pwd || true");
    assert_eq!(g, vec![
        vec![owned(&["ls", "-l"]), owned(&["grep", "x"])],
        vec![owned(&["echo", "hi"])],
        vec![owned(&["pwd"])],
        vec![owned(&["true"])],
    ]);
}

#[test]
fn comment_after_command_is_dropped() {
    assert_eq!(groups("echo a # b c"), vec![vec![owned(&["echo", "a"])]]);
    assert_eq!(groups("echo 'a b' \"c\""), vec![vec![owned(&["echo", "a b", "c"])]]);
    assert_eq!(groups("ls\t#it's"), vec![vec![owned(&["ls"])]]);
}

#[test]
fn hash_inside_a_word_is_no_comment() {
    assert_eq!(groups("export X=a#b"), vec![vec![owned(&["export", "X=a#b"])]]);
    assert_eq!(groups("echo a#b #c"), vec![vec![owned(&["echo", "a#b"])]]);
    assert_eq!(groups("echo \"a #b\" c"), vec![vec![owned(&["echo", "a #b", "c"])]]);
    assert_eq!(groups("echo '#x'"), vec![vec![owned(&["echo", "#x"])]]);
}

#[test]
fn broken_quoting_before_a_comment_quotes_the_whole_line() {
    match parse_command_line("echo 'abc # x") {
        CommandLine::Invalid(CommandStatus::Message(m, 1)) => assert_eq!(m, "syntax error 'echo 'abc # x'"),
        _ => panic!("expected a syntax error"),
    }
}

#[test]
fn trailing_separator_leaves_an_empty_command() {
    assert_eq!(groups("ls ;"), vec![vec![owned(&["ls"])], vec![owned(&[])]]);
    assert_eq!(groups("a | | b"), vec![vec![owned(&["a"]), owned(&[]), owned(&["b"])]]);
}

#[test]
fn alias_definition_replaces_the_command_word() {
    let mut aliases = VarTable::new();
    aliases.insert("ll".to_string(), "ls -l  --all".to_string());
    aliases.insert("e".to_string(), "exa".to_string());
    let (p, a) = resolve_alias(&owned(&["ll", "x"]), &aliases);
    assert_eq!(p, "ls");
    assert_eq!(a, owned(&["-l", "--all", "x"]));
    let (p, a) = resolve_alias(&owned(&["e"]), &aliases);
    assert_eq!(p, "exa");
    assert!(a.is_empty());
    let (p, a) = resolve_alias(&owned(&["cat", "f"]), &aliases);
    assert_eq!(p, "cat");
    assert_eq!(a, owned(&["f"]));
}

#[test]
fn arguments_with_dollar_or_tilde_are_expanded() {
    let mut vars = VarTable::new();
    vars.insert("HOME".to_string(), "/h".to_string());
    let out = expand_arguments(&owned(&["$HOME/x", "~/y", "plain", "$NOPE", "${HOME}"]), "/home/u", &vars);
    assert_eq!(out, owned(&["/h/x", "/home/u/y", "plain", "$NOPE", "/h"]));
}
