use rust_shell::session::{spawn_failure_message, CommandRun, ShellStep};
use rust_shell::status::CommandStatus;
use rust_shell::vars::VarTable;

fn owned(v: &[&str]) -> Vec<String> {
    v.iter().map(|s| s.to_string()).collect()
}

fn start(line: &str, env: &VarTable) -> CommandRun {
    CommandRun::start(line, env)
}

#[test]
fn alias_defined_then_used_on_the_same_line() {
    let mut env = VarTable::new();
    let mut aliases = VarTable::new();
    let mut run = start("alias x=echo ; x hi", &env);
    match run.next(&mut env, &mut aliases, "/home/u") {
        ShellStep::Report { message: None, to_stderr: false, effects } => assert!(effects.is_empty()),
        _ => panic!("expected a silent report"),
    }
    match run.next(&mut env, &mut aliases, "/home/u") {
        ShellStep::Spawn { program, args, stdin_from_previous, stdout_to_next } => {
            assert_eq!(program, "echo");
            assert_eq!(args, owned(&["hi"]));
            assert!(!stdin_from_previous);
            assert!(!stdout_to_next);
        }
        _ => panic!("expected a spawn"),
    }
    run.spawned();
    assert!(matches!(run.next(&mut env, &mut aliases, "/home/u"), ShellStep::Wait));
    run.waited(true, Some(0));
    assert!(matches!(run.next(&mut env, &mut aliases, "/home/u"), ShellStep::Finished(CommandStatus::NORMAL)));
}

#[test]
fn exit_stops_the_line() {
    let mut env = VarTable::new();
    let mut aliases = VarTable::new();
    let mut run = start("exit 3 ; ls", &env);
    assert!(matches!(run.next(&mut env, &mut aliases, "/home/u"), ShellStep::Finished(CommandStatus::EXIT(3))));
}

#[test]
fn pipeline_connects_and_reports_last_failure() {
    let mut env = VarTable::new();
    let mut aliases = VarTable::new();
    let mut run = start("a | b", &env);
    match run.next(&mut env, &mut aliases, "/home/u") {
        ShellStep::Spawn { program, stdin_from_previous, stdout_to_next, .. } => {
            assert_eq!(program, "a");
            assert!(!stdin_from_previous);
            assert!(stdout_to_next);
        }
        _ => panic!("expected a spawn"),
    }
    run.spawned();
    match run.next(&mut env, &mut aliases, "/home/u") {
        ShellStep::Spawn { program, stdin_from_previous, stdout_to_next, .. } => {
            assert_eq!(program, "b");
            assert!(stdin_from_previous);
            assert!(!stdout_to_next);
        }
        _ => panic!("expected a spawn"),
    }
    run.spawned();
    assert!(matches!(run.next(&mut env, &mut aliases, "/home/u"), ShellStep::Wait));
    run.waited(false, Some(2));
    assert!(matches!(run.next(&mut env, &mut aliases, "/home/u"), ShellStep::Finished(CommandStatus::ERROR(2))));
}

#[test]
fn killed_program_counts_as_code_one() {
    let mut env = VarTable::new();
    let mut aliases = VarTable::new();
    let mut run = start("sleep 9", &env);
    assert!(matches!(run.next(&mut env, &mut aliases, "/home/u"), ShellStep::Spawn { .. }));
    run.spawned();
    assert!(matches!(run.next(&mut env, &mut aliases, "/home/u"), ShellStep::Wait));
    run.waited(false, None);
    assert!(matches!(run.next(&mut env, &mut aliases, "/home/u"), ShellStep::Finished(CommandStatus::ERROR(1))));
}

#[test]
fn empty_command_after_separator_aborts() {
    let mut env = VarTable::new();
    let mut aliases = VarTable::new();
    let mut run = start("ls ;", &env);
    assert!(matches!(run.next(&mut env, &mut aliases, "/home/u"), ShellStep::Spawn { .. }));
    run.spawned();
    assert!(matches!(run.next(&mut env, &mut aliases, "/home/u"), ShellStep::Wait));
    run.waited(true, Some(0));
    assert!(matches!(run.next(&mut env, &mut aliases, "/home/u"), ShellStep::Abort));
}

#[test]
fn cd_is_handed_out_and_its_failure_reported() {
    let mut env = VarTable::new();
    let mut aliases = VarTable::new();
    let mut run = start("cd /nowhere", &env);
    match run.next(&mut env, &mut aliases, "/home/u") {
        ShellStep::ChangeDirectory(d) => assert_eq!(d, "/nowhere"),
        _ => panic!("expected a change of directory"),
    }
    assert!(run.awaits_builtin());
    match run.builtin_done(CommandStatus::Message("no such dir".to_string(), 1)) {
        ShellStep::Report { message: Some(m), to_stderr: true, .. } => assert_eq!(m, "no such dir"),
        _ => panic!("expected an error report"),
    }
    match run.next(&mut env, &mut aliases, "/home/u") {
        ShellStep::Finished(CommandStatus::Message(m, 1)) => assert_eq!(m, "no such dir"),
        _ => panic!("expected the message as status"),
    }
}

#[test]
fn source_is_handed_out() {
    let mut env = VarTable::new();
    let mut aliases = VarTable::new();
    let mut run = start("source a b", &env);
    match run.next(&mut env, &mut aliases, "/home/u") {
        ShellStep::Source(f) => assert_eq!(f, owned(&["a", "b"])),
        _ => panic!("expected a source"),
    }
    assert!(matches!(run.builtin_done(CommandStatus::EXIT(5)), ShellStep::Finished(CommandStatus::EXIT(5))));
}

#[test]
fn arguments_expand_with_variables_from_line_start() {
    let mut env = VarTable::new();
    let mut aliases = VarTable::new();
    env.insert("B".to_string(), "old".to_string());
    let mut run = start("export A=1 ; export B=new ; echo $A $B ~", &env);
    match run.next(&mut env, &mut aliases, "/home/u") {
        ShellStep::Report { message: None, effects, .. } => assert_eq!(effects.len(), 1),
        _ => panic!("expected a report"),
    }
    assert!(matches!(run.next(&mut env, &mut aliases, "/home/u"), ShellStep::Report { .. }));
    match run.next(&mut env, &mut aliases, "/home/u") {
        ShellStep::Spawn { program, args, .. } => {
            assert_eq!(program, "echo");
            assert_eq!(args, owned(&["$A", "old", "/home/u"]));
        }
        _ => panic!("expected a spawn"),
    }
    assert_eq!(env.lookup("A"), Some("1"));
}

#[test]
fn blank_and_broken_lines_finish_at_once() {
    let mut env = VarTable::new();
    let mut aliases = VarTable::new();
    let mut run = start("  # nothing", &env);
    assert!(matches!(run.next(&mut env, &mut aliases, "/home/u"), ShellStep::Finished(CommandStatus::NORMAL)));
    let mut run = start("echo \"x", &env);
    match run.next(&mut env, &mut aliases, "/home/u") {
        ShellStep::Finished(CommandStatus::Message(m, 1)) => assert_eq!(m, "syntax error 'echo \"x'"),
        _ => panic!("expected a syntax error"),
    }
}

#[test]
fn failed_start_fails_the_line() {
    let mut env = VarTable::new();
    let mut aliases = VarTable::new();
    let mut run = start("nosuchprogram", &env);
    assert!(matches!(run.next(&mut env, &mut aliases, "/home/u"), ShellStep::Spawn { .. }));
    run.spawn_failed(true);
    assert!(matches!(run.next(&mut env, &mut aliases, "/home/u"), ShellStep::Finished(CommandStatus::ERROR(127))));
    let mut run = start("./not-executable", &env);
    assert!(matches!(run.next(&mut env, &mut aliases, "/home/u"), ShellStep::Spawn { .. }));
    run.spawn_failed(false);
    assert!(matches!(run.next(&mut env, &mut aliases, "/home/u"), ShellStep::Finished(CommandStatus::ERROR(126))));
}

#[test]
fn failed_start_then_a_started_program_takes_its_status() {
    let mut env = VarTable::new();
    let mut aliases = VarTable::new();
    let mut run = start("nosuch ; true", &env);
    assert!(matches!(run.next(&mut env, &mut aliases, "/home/u"), ShellStep::Spawn { .. }));
    run.spawn_failed(true);
    assert!(matches!(run.next(&mut env, &mut aliases, "/home/u"), ShellStep::Spawn { .. }));
    run.spawned();
    assert!(matches!(run.next(&mut env, &mut aliases, "/home/u"), ShellStep::Wait));
    run.waited(true, Some(0));
    assert!(matches!(run.next(&mut env, &mut aliases, "/home/u"), ShellStep::Finished(CommandStatus::NORMAL)));
}

#[test]
fn export_with_hash_inside_the_value_binds_all_of_it() {
    let mut env = VarTable::new();
    let mut aliases = VarTable::new();
    let mut run = start("export X=a#b # comment", &env);
    match run.next(&mut env, &mut aliases, "/home/u") {
        ShellStep::Report { message: None, to_stderr: false, effects } => {
            assert_eq!(effects.len(), 1);
            match &effects[0] {
                rust_shell::builtins::EnvEffect::SetVar(k, v) => {
                    assert_eq!(k, "X");
                    assert_eq!(v, "a#b");
                }
                _ => panic!("expected a variable to be set"),
            }
        }
        _ => panic!("expected a silent report"),
    }
    assert!(matches!(run.next(&mut env, &mut aliases, "/home/u"), ShellStep::Finished(CommandStatus::NORMAL)));
    assert_eq!(env.lookup("X"), Some("a#b"));
}

#[test]
fn spawn_failure_messages() {
    assert_eq!(spawn_failure_message("foo", true, "ignored"), "foo: command not found");
    assert_eq!(spawn_failure_message("foo", false, "Permission denied"), "foo: Permission denied");
}

#[test]
fn tilde_follows_the_home_given_at_each_step() {
    let mut env = VarTable::new();
    let mut aliases = VarTable::new();
    let mut run = CommandRun::start("echo ~ ; echo ~/x", &env);
    match run.next(&mut env, &mut aliases, "/a") {
        ShellStep::Spawn { args, .. } => assert_eq!(args, owned(&["/a"])),
        _ => panic!("expected a spawn"),
    }
    run.spawned();
    assert!(matches!(run.next(&mut env, &mut aliases, "/a"), ShellStep::Wait));
    run.waited(true, Some(0));
    match run.next(&mut env, &mut aliases, "/b") {
        ShellStep::Spawn { args, .. } => assert_eq!(args, owned(&["/b/x"])),
        _ => panic!("expected a spawn"),
    }
}

#[test]
fn only_table_builtins_change_the_tables() {
    let mut env = VarTable::new();
    let mut aliases = VarTable::new();
    env.insert("A".to_string(), "1".to_string());
    aliases.insert("l".to_string(), "ls".to_string());
    let mut run = start("cd / ; unset A ; unalias l", &env);
    assert!(matches!(run.next(&mut env, &mut aliases, "/home/u"), ShellStep::ChangeDirectory(_)));
    assert_eq!(env.lookup("A"), Some("1"));
    assert_eq!(aliases.lookup("l"), Some("ls"));
    assert!(matches!(run.builtin_done(CommandStatus::NORMAL), ShellStep::Report { .. }));
    assert!(matches!(run.next(&mut env, &mut aliases, "/home/u"), ShellStep::Report { .. }));
    assert_eq!(env.lookup("A"), None);
    assert_eq!(aliases.lookup("l"), Some("ls"));
    assert!(matches!(run.next(&mut env, &mut aliases, "/home/u"), ShellStep::Report { .. }));
    assert_eq!(aliases.lookup("l"), None);
    assert!(matches!(run.next(&mut env, &mut aliases, "/home/u"), ShellStep::Finished(CommandStatus::NORMAL)));
}

#[test]
fn upcoming_shows_the_command_as_written() {
    let mut env = VarTable::new();
    let mut aliases = VarTable::new();
    aliases.insert("l".to_string(), "ls -a".to_string());
    let mut run = start("l $X | wc", &env);
    assert_eq!(run.upcoming(), Some(owned(&["l", "$X"])));
    assert!(matches!(run.next(&mut env, &mut aliases, "/home/u"), ShellStep::Spawn { .. }));
    run.spawned();
    assert_eq!(run.upcoming(), Some(owned(&["wc"])));
    assert!(matches!(run.next(&mut env, &mut aliases, "/home/u"), ShellStep::Spawn { .. }));
    run.spawned();
    assert_eq!(run.upcoming(), None);
}

#[test]
fn line_without_table_builtins_keeps_the_tables() {
    let mut env = VarTable::new();
    let mut aliases = VarTable::new();
    env.insert("A".to_string(), "1".to_string());
    aliases.insert("l".to_string(), "ls".to_string());
    let mut run = start("l $A ; cd / ; exit 0", &env);
    assert!(matches!(run.next(&mut env, &mut aliases, "/home/u"), ShellStep::Spawn { .. }));
    run.spawn_failed(true);
    assert!(matches!(run.next(&mut env, &mut aliases, "/home/u"), ShellStep::ChangeDirectory(_)));
    assert!(matches!(run.builtin_done(CommandStatus::NORMAL), ShellStep::Report { .. }));
    assert!(matches!(run.next(&mut env, &mut aliases, "/home/u"), ShellStep::Finished(CommandStatus::EXIT(0))));
    assert_eq!(env.lookup("A"), Some("1"));
    assert_eq!(aliases.lookup("l"), Some("ls"));
}
