use rust_shell::builtins::{
    alias_bash_syntax, build_map, cd_status, cd_target, exit, export, export_or_alias,
    run_builtin, source_command, unalias, unset, Builtin, EnvEffect,
};
use rust_shell::status::CommandStatus;
use rust_shell::vars::VarTable;

fn owned(v: &[&str]) -> Vec<String> {
    v.iter().map(|s| s.to_string()).collect()
}

fn message(s: &CommandStatus) -> Option<(String, i32)> {
    match s {
        CommandStatus::Message(m, c) => Some((m.clone(), *c)),
        _ => None,
    }
}

#[test]
fn build_map_holds_the_seven_builtins() {
    let m = build_map();
    for (name, kind) in [("cd", Builtin::Cd), ("export", Builtin::Export), ("alias", Builtin::Alias),
        ("exit", Builtin::Exit), ("source", Builtin::Source), ("unalias", Builtin::Unalias),
        ("unset", Builtin::Unset)]
    {
        assert_eq!(m.get(name), Some(&kind));
    }
    assert_eq!(m.len(), 7);
    assert!(!m.contains_key("ls"));
}

#[test]
fn export_without_arguments_lists_the_variables() {
    let mut env = VarTable::new();
    let mut aliases = VarTable::new();
    let out = export(&owned(&[]), &mut env, &mut aliases);
    assert_eq!(message(&out.status), Some(("export: {}".to_string(), 0)));
    env.insert("a".to_string(), "1".to_string());
    let out = export(&owned(&["  "]), &mut env, &mut aliases);
    assert_eq!(message(&out.status), Some(("export: {\n    \"a\": \"1\",\n}".to_string(), 0)));
    assert!(out.effects.is_empty());
}

#[test]
fn export_binds_and_asks_the_process_environment() {
    let mut env = VarTable::new();
    let mut aliases = VarTable::new();
    let out = export(&owned(&["FOO=bar baz"]), &mut env, &mut aliases);
    assert!(matches!(out.status, CommandStatus::NORMAL));
    assert_eq!(env.lookup("FOO"), Some("bar baz"));
    assert_eq!(out.effects.len(), 1);
    match &out.effects[0] {
        EnvEffect::SetVar(k, v) => {
            assert_eq!(k, "FOO");
            assert_eq!(v, "bar baz");
        }
        _ => panic!("expected a set"),
    }
    assert_eq!(aliases.len(), 0);
}

#[test]
fn export_query_shows_the_value() {
    let mut env = VarTable::new();
    let mut aliases = VarTable::new();
    export(&owned(&["X", "=", "1"]), &mut env, &mut aliases);
    let out = export(&owned(&["X"]), &mut env, &mut aliases);
    assert_eq!(message(&out.status), Some(("1".to_string(), 0)));
    assert!(out.effects.is_empty());
    let out = export(&owned(&["Y"]), &mut env, &mut aliases);
    assert!(matches!(out.status, CommandStatus::NORMAL));
}

#[test]
fn alias_with_spaces_around_equals() {
    let mut env = VarTable::new();
    let mut aliases = VarTable::new();
    let st = alias_bash_syntax(&owned(&["ls", "=", "ls --color=tty"]), &mut env, &mut aliases);
    assert!(matches!(st, CommandStatus::NORMAL));
    assert_eq!(aliases.lookup("ls"), Some("ls --color=tty"));
    let st = alias_bash_syntax(&owned(&["ls"]), &mut env, &mut aliases);
    assert_eq!(message(&st), Some(("ls --color=tty".to_string(), 0)));
    assert_eq!(env.len(), 0);
}

#[test]
fn alias_plain_form() {
    let mut env = VarTable::new();
    let mut aliases = VarTable::new();
    alias_bash_syntax(&owned(&["ls=exa"]), &mut env, &mut aliases);
    assert_eq!(aliases.lookup("ls"), Some("exa"));
    let st = alias_bash_syntax(&owned(&[]), &mut env, &mut aliases);
    assert_eq!(message(&st), Some(("alias: {\n    \"ls\": \"exa\",\n}".to_string(), 0)));
}

#[test]
fn export_or_alias_with_empty_delimiter_splits_first_word() {
    let mut map = VarTable::new();
    let out = export_or_alias(&owned(&[" k ", "v", "w"]), &mut map, "t".to_string(), "");
    assert!(matches!(out.status, CommandStatus::NORMAL));
    assert!(out.effects.is_empty());
    assert_eq!(map.lookup("k"), Some("v w"));
}

#[test]
fn export_or_alias_under_export_sets_the_process_variable() {
    let mut map = VarTable::new();
    let out = export_or_alias(&owned(&["A", "=", " 1 "]), &mut map, "export".to_string(), "=");
    assert!(matches!(out.status, CommandStatus::NORMAL));
    assert_eq!(map.lookup("A"), Some("1"));
    assert_eq!(out.effects.len(), 1);
    assert!(matches!(&out.effects[0], EnvEffect::SetVar(k, v) if k == "A" && v == "1"));
    let out = export_or_alias(&owned(&["A"]), &mut map, "export".to_string(), "=");
    assert_eq!(message(&out.status), Some(("1".to_string(), 0)));
    assert!(out.effects.is_empty());
    let out = export_or_alias(&owned(&["B=2"]), &mut map, "alias".to_string(), "=");
    assert!(out.effects.is_empty());
    assert_eq!(map.lookup("B"), Some("2"));
}

#[test]
fn unalias_forgets_aliases() {
    let mut env = VarTable::new();
    let mut aliases = VarTable::new();
    aliases.insert("ls".to_string(), "exa".to_string());
    aliases.insert("g".to_string(), "git".to_string());
    let st = unalias(&owned(&["ls", "nope"]), &mut env, &mut aliases);
    assert!(matches!(st, CommandStatus::NORMAL));
    assert!(!aliases.contains_key("ls"));
    assert_eq!(aliases.lookup("g"), Some("git"));
}

#[test]
fn unset_removes_and_reports_each_removed_name_once() {
    let mut env = VarTable::new();
    let mut aliases = VarTable::new();
    env.insert("A".to_string(), "1".to_string());
    env.insert("B".to_string(), "2".to_string());
    let out = unset(&owned(&["A", "C", "A"]), &mut env, &mut aliases);
    assert!(matches!(out.status, CommandStatus::NORMAL));
    assert!(!env.contains_key("A"));
    assert_eq!(env.lookup("B"), Some("2"));
    assert_eq!(out.effects.len(), 1);
    assert!(matches!(&out.effects[0], EnvEffect::RemoveVar(k) if k == "A"));
}

#[test]
fn exit_codes() {
    let mut env = VarTable::new();
    let mut aliases = VarTable::new();
    assert!(matches!(exit(&owned(&[]), &mut env, &mut aliases), CommandStatus::EXIT(0)));
    assert!(matches!(exit(&owned(&["3"]), &mut env, &mut aliases), CommandStatus::EXIT(3)));
    assert!(matches!(exit(&owned(&["-1", "9"]), &mut env, &mut aliases), CommandStatus::EXIT(-1)));
    assert!(matches!(exit(&owned(&["x"]), &mut env, &mut aliases), CommandStatus::EXIT(1)));
    assert!(matches!(exit(&owned(&["99999999999"]), &mut env, &mut aliases), CommandStatus::EXIT(1)));
}

#[test]
fn cd_goes_home_to_root_without_argument() {
    assert_eq!(cd_target(&owned(&[])), "/");
    assert_eq!(cd_target(&owned(&["/tmp", "x"])), "/tmp");
    assert!(matches!(cd_status(None), CommandStatus::NORMAL));
    assert_eq!(message(&cd_status(Some("no such dir".to_string()))), Some(("no such dir".to_string(), 1)));
}

#[test]
fn source_keeps_only_files() {
    let files = source_command(&owned(&["a", "b", "c"]), &vec![true, false, true]);
    assert_eq!(files, owned(&["a", "c"]));
}

#[test]
fn run_builtin_dispatches() {
    let mut env = VarTable::new();
    let mut aliases = VarTable::new();
    let out = run_builtin(Builtin::Alias, &owned(&["x=y"]), &mut env, &mut aliases);
    assert!(matches!(out.status, CommandStatus::NORMAL));
    assert_eq!(aliases.lookup("x"), Some("y"));
    let out = run_builtin(Builtin::Exit, &owned(&["4"]), &mut env, &mut aliases);
    assert!(matches!(out.status, CommandStatus::EXIT(4)));
    let out = run_builtin(Builtin::Unalias, &owned(&["x"]), &mut env, &mut aliases);
    assert!(matches!(out.status, CommandStatus::NORMAL));
    assert!(!aliases.contains_key("x"));
}

#[test]
fn unalias_undoes_alias() {
    let mut env = VarTable::new();
    let mut aliases = VarTable::new();
    aliases.insert("g".to_string(), "git".to_string());
    let before = aliases.render();
    alias_bash_syntax(&owned(&["ll=ls -l"]), &mut env, &mut aliases);
    assert_eq!(aliases.lookup("ll"), Some("ls -l"));
    unalias(&owned(&["ll"]), &mut env, &mut aliases);
    assert_eq!(aliases.render(), before);
}
