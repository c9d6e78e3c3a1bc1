use rust_shell::ps1::{command_parts, finish_text, Ps1Context, Ps1Environment, Ps1Expansion, Ps1Progress};

fn context() -> Ps1Context {
    Ps1Context {
        date: Some("Thu Jan 01".to_string()),
        time_24: Some("00:00:00".to_string()),
        time_12: Some("12:00:00 AM".to_string()),
        time_am_pm: Some("12:00 AM".to_string()),
        time_hm: Some("00:00".to_string()),
        hostname: "box.local".to_string(),
        jobs: "0".to_string(),
        tty_name: Some("tty".to_string()),
        shell_name: Some("rust-shell".to_string()),
        user: "alice".to_string(),
        cwd_display: "~/src".to_string(),
        cwd_base: None,
        history_number: "0".to_string(),
        line_number: "0".to_string(),
        prompt_sign: "$".to_string(),
    }
}

/// Expands a template, answering each command with `outputs` in turn.
fn expand(template: &str, ctx: &Ps1Context, outputs: &[&str]) -> (Option<String>, Vec<String>) {
    let mut e = Ps1Expansion::new(template);
    let mut asked = Vec::new();
    let mut next = 0;
    loop {
        match e.advance(ctx) {
            Ps1Progress::Command(c) => {
                asked.push(c);
                e.supply_output(outputs[next]);
                next += 1;
            }
            Ps1Progress::Finished(s) => return (Some(s), asked),
            Ps1Progress::Aborted => return (None, asked),
        }
    }
}

#[test]
fn user_and_short_host() {
    let (r, asked) = expand("\\u@\\h> ", &context(), &[]);
    assert_eq!(r.as_deref(), Some("alice@box> "));
    assert!(asked.is_empty());
}

#[test]
fn lone_escape_is_its_value() {
    let (r, _) = expand("\\u", &context(), &[]);
    assert_eq!(r.as_deref(), Some("alice"));
    let (r, _) = expand("\\[", &context(), &[]);
    assert_eq!(r.as_deref(), Some(""));
}

#[test]
fn non_printing_brackets_and_escape() {
    let (r, _) = expand("\\[\\e[31m\\]x", &context(), &[]);
    assert_eq!(r.as_deref(), Some("\x1b[31mx"));
}

#[test]
fn many_escapes() {
    let (r, _) = expand("\\w \\H \\t \\$ \\j \\s \\l \\d", &context(), &[]);
    assert_eq!(r.as_deref(), Some("~/src box.local 00:00:00 $ 0 rust-shell tty Thu Jan 01"));
}

#[test]
fn escaped_backslash_at_the_end_aborts() {
    // the second backslash is read as an escape of its own, past the end of the text
    let (r, _) = expand("x \\\\", &context(), &[]);
    assert_eq!(r, None);
    let (r, _) = expand("\\\\x", &context(), &[]);
    assert_eq!(r.as_deref(), Some("\\x"));
}

#[test]
fn unknown_escape_stays() {
    let (r, _) = expand("a\\qb", &context(), &[]);
    assert_eq!(r.as_deref(), Some("a\\qb"));
}

#[test]
fn plain_template_is_unchanged() {
    let (r, _) = expand("just text > ", &context(), &[]);
    assert_eq!(r.as_deref(), Some("just text > "));
}

#[test]
fn command_substitution() {
    let (r, asked) = expand("$(echo hi)>", &context(), &["hi\n"]);
    assert_eq!(asked, vec!["echo hi".to_string()]);
    assert_eq!(r.as_deref(), Some("hi>"));
}

#[test]
fn empty_command_output_leaves_text() {
    let (r, asked) = expand("$(true)x", &context(), &[""]);
    assert_eq!(asked, vec!["true".to_string()]);
    assert_eq!(r.as_deref(), Some("$(true)x"));
}

#[test]
fn output_of_nearly_the_same_width_aborts() {
    let (r, _) = expand("$(a)", &context(), &["xyz"]);
    assert_eq!(r, None);
}

#[test]
fn missing_base_name_aborts() {
    let (r, _) = expand("\\W> ", &context(), &[]);
    assert_eq!(r, None);
}

#[test]
fn percent_brace_markers_are_dropped_around_colors() {
    let (r, _) = expand("%{\x1b[31m%}x", &context(), &[]);
    assert_eq!(r.as_deref(), Some("\x1b[31mx"));
    assert_eq!(finish_text("%{a%}"), "%{a%}");
}

#[test]
fn gather_reads_time_paths_and_defaults() {
    let env = Ps1Environment {
        jobs: None,
        tty: None,
        shell: None,
        user: Some("bob".to_string()),
        home: Some("/home/bob".to_string()),
        histcmd: None,
        lineno: Some("7".to_string()),
        euid: Some("0".to_string()),
    };
    let c = Ps1Context::gather("h.example".to_string(), "/home/bob/src", &env, 0, 0);
    assert_eq!(c.date.as_deref(), Some("Thu Jan 01"));
    assert_eq!(c.time_24.as_deref(), Some("00:00:00"));
    assert_eq!(c.time_12.as_deref(), Some("12:00:00 AM"));
    assert_eq!(c.time_am_pm.as_deref(), Some("12:00 AM"));
    assert_eq!(c.time_hm.as_deref(), Some("00:00"));
    assert_eq!(c.jobs, "0");
    assert_eq!(c.tty_name.as_deref(), Some("tty"));
    assert_eq!(c.shell_name.as_deref(), Some("rust-shell"));
    assert_eq!(c.user, "bob");
    assert_eq!(c.cwd_display, "src");
    assert_eq!(c.cwd_base.as_deref(), Some("src"));
    assert_eq!(c.line_number, "7");
    assert_eq!(c.prompt_sign, "#");
}

#[test]
fn gather_home_and_root_directories() {
    let env = Ps1Environment {
        jobs: None, tty: None, shell: None, user: None,
        home: Some("/home/bob".to_string()), histcmd: None, lineno: None, euid: None,
    };
    let c = Ps1Context::gather("h".to_string(), "/home/bob", &env, 3600, 3600);
    assert_eq!(c.cwd_base.as_deref(), Some("~"));
    assert_eq!(c.user, "user");
    assert_eq!(c.prompt_sign, "$");
    assert_eq!(c.time_hm.as_deref(), Some("02:00"));
    let c = Ps1Context::gather("h".to_string(), "/", &env, 0, 0);
    assert_eq!(c.cwd_base, None);
    assert_eq!(c.cwd_display, "/");
}

#[test]
fn command_parts_split_program_and_words() {
    let (p, a) = command_parts("git  branch --show-current");
    assert_eq!(p, "git");
    assert_eq!(a, vec!["branch".to_string(), "--show-current".to_string()]);
    let (p, a) = command_parts("date");
    assert_eq!(p, "date");
    assert!(a.is_empty());
}

#[test]
fn file_names_of_tty_and_shell_paths() {
    let cases: [(&str, Option<&str>); 8] = [
        ("/dev/pts/3", Some("3")),
        ("/dev/pts//3/", Some("3")),
        ("a/./b/.", Some("b")),
        ("./x", Some("x")),
        (".", None),
        ("/", None),
        ("a/..", None),
        ("", None),
    ];
    for (path, name) in cases {
        let env = Ps1Environment {
            jobs: None,
            tty: Some(path.to_string()),
            shell: Some(path.to_string()),
            user: None,
            home: Some("/home/bob".to_string()),
            histcmd: None,
            lineno: None,
            euid: None,
        };
        let c = Ps1Context::gather("h".to_string(), "/home/bob", &env, 0, 0);
        assert_eq!(c.tty_name.as_deref(), name, "tty {:?}", path);
        assert_eq!(c.shell_name.as_deref(), name, "shell {:?}", path);
        let std_name = std::path::Path::new(path).file_name().map(|n| n.to_string_lossy().to_string());
        assert_eq!(std_name.as_deref(), name, "std {:?}", path);
    }
}
