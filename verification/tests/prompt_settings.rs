use rust_shell::prompt::{
    default_aliases, display_pwd, exit_request, exit_status, finish_prompt, get_home_dir,
    init_environment, prepare_prompt, ps1_template, remove_colors,
};
use rust_shell::status::CommandStatus;
use rust_shell::vars::VarTable;

#[test]
fn colors_are_removed_and_padded() {
    let p = "\x1b[1;32m~\x1b[0m\x1b[0;31m>\x1b[0m".to_string();
    assert_eq!(remove_colors(p).as_deref(), Some("~>     "));
    assert_eq!(remove_colors("plain".to_string()).as_deref(), Some("plain     "));
}

#[test]
fn home_directory_fallbacks() {
    assert_eq!(get_home_dir(Some("/h".to_string()), Some("/u".to_string())), "/h");
    assert_eq!(get_home_dir(None, Some("/u".to_string())), "/u");
    assert_eq!(get_home_dir(None, None), "/");
}

#[test]
fn pwd_shows_home_as_tilde() {
    assert_eq!(display_pwd("/home/u/src", "/home/u"), "~/src");
    assert_eq!(display_pwd("/tmp", "/home/u"), "/tmp");
}

#[test]
fn exit_status_of_each_status() {
    assert_eq!(exit_status(&CommandStatus::NORMAL), 0);
    assert_eq!(exit_status(&CommandStatus::ERROR(3)), 3);
    assert_eq!(exit_status(&CommandStatus::EXIT(4)), 4);
    assert_eq!(exit_status(&CommandStatus::Message("x".to_string(), 1)), 1);
    assert_eq!(exit_request(&CommandStatus::EXIT(4)), Some(4));
    assert_eq!(exit_request(&CommandStatus::ERROR(4)), None);
}

#[test]
fn default_prompt_is_green_after_success_and_red_after_failure() {
    let mut env = VarTable::new();
    init_environment(&mut env);
    let t = ps1_template(&env);
    assert_eq!(t, "${green}\\w${reset}${red_or_green}>${reset}");
    let ok = prepare_prompt(&mut env, &CommandStatus::NORMAL, &t);
    assert_eq!(ok, "\x1b[1;32m\\w\x1b[0m\x1b[1;32m>\x1b[0m");
    assert_eq!(env.lookup("exit_status"), Some("0"));
    finish_prompt(&mut env);
    assert!(!env.contains_key("exit_status"));
    assert!(!env.contains_key("red_or_green"));
    let bad = prepare_prompt(&mut env, &CommandStatus::ERROR(127), &t);
    assert_eq!(bad, "\x1b[1;32m\\w\x1b[0m\x1b[0;31m>\x1b[0m");
    assert_eq!(env.lookup("exit_status"), Some("127"));
}

#[test]
fn start_up_settings() {
    let mut env = VarTable::new();
    init_environment(&mut env);
    assert_eq!(env.lookup("0"), Some("rust-shell"));
    assert_eq!(env.lookup("red"), Some("\x1b[0;31m"));
    let a = default_aliases();
    assert_eq!(a.lookup("cls"), Some("printf '\\033[2J\\033[H'"));
    let empty = VarTable::new();
    assert_eq!(ps1_template(&empty), "${green}\\w${reset}${red_or_green}>${reset}");
}

#[test]
fn prompt_watch_reports_each_change() {
    let mut w = rust_shell::prompt::PromptWatch::new();
    assert_eq!(w.observe("~", "$ "), (true, true));
    assert_eq!(w.observe("~", "$ "), (false, false));
    assert_eq!(w.observe("~/src", "$ "), (true, false));
    assert_eq!(w.observe("~/src", "> "), (false, true));
}
