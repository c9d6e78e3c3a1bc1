//! Running one command line: the decisions between the outside work (changing directory,
//! sourcing files, starting and waiting for programs), which the host performs.

use vstd::prelude::*;
use vstd::hash_map::StringHashMap;
use crate::builtins::{
    Builtin, BuiltinOutcome, EnvEffect, EnvEffectView, build_map, builtin_names, builtin_result,
    cd_target, cd_target_spec, effect_views, run_builtin, changes_tables,
};
use crate::commands::{
    CommandLine, command_line, expand_arguments, expanded_arguments, parse_command_line,
    resolve_alias, resolved, views3, CommandLineView,
};
use crate::prompt::{law_prompt_color, prompt_variables, red};
use crate::status::{CommandStatus, StatusView};
use crate::text::{lemma_views_push, views};
use crate::vars::VarTable;

verus! {

broadcast use vstd::string::group_string_axioms;

/// What the run asks of its host next.
pub enum ShellStep {
    /// Show `message` (on standard error when `to_stderr`) and make the environment changes.
    Report { message: Option<String>, to_stderr: bool, effects: Vec<EnvEffect> },
    /// Change the working directory, then report how it went (`builtin_done`).
    ChangeDirectory(String),
    /// Run these files as scripts (`source`), then report the status (`builtin_done`).
    Source(Vec<String>),
    /// Start a program, then report whether it started (`spawned`).
    Spawn { program: String, args: Vec<String>, stdin_from_previous: bool, stdout_to_next: bool },
    /// Wait for the last started program of the group, then report its exit (`waited`).
    Wait,
    /// The line holds an empty command: the shell aborts here.
    Abort,
    /// The line is done; this is its status.
    Finished(CommandStatus),
}

/// The view of a step.
pub enum StepView {
    Report(Option<Seq<char>>, bool, Seq<EnvEffectView>),
    ChangeDirectory(Seq<char>),
    Source(Seq<Seq<char>>),
    Spawn(Seq<char>, Seq<Seq<char>>, bool, bool),
    Wait,
    Abort,
    Finished(StatusView),
}

impl View for ShellStep {
    type V = StepView;

    open spec fn view(&self) -> StepView {
        match self {
            ShellStep::Report { message, to_stderr, effects } => StepView::Report(
                match message {
                    Some(m) => Some(m@),
                    None => None,
                },
                *to_stderr,
                effect_views(effects@),
            ),
            ShellStep::ChangeDirectory(d) => StepView::ChangeDirectory(d@),
            ShellStep::Source(f) => StepView::Source(views(f@)),
            ShellStep::Spawn { program, args, stdin_from_previous, stdout_to_next } =>
                StepView::Spawn(program@, views(args@), *stdin_from_previous, *stdout_to_next),
            ShellStep::Wait => StepView::Wait,
            ShellStep::Abort => StepView::Abort,
            ShellStep::Finished(s) => StepView::Finished(s@),
        }
    }
}

/// What a status shows: the text of a message, on standard error when its code is not 0.
pub open spec fn report_of(s: StatusView, effects: Seq<EnvEffectView>) -> StepView {
    match s {
        StatusView::Message(m, code) => StepView::Report(Some(m), code != 0, effects),
        _ => StepView::Report(None, false, effects),
    }
}

fn report(s: &CommandStatus, effects: Vec<EnvEffect>) -> (r: ShellStep)
    ensures
        r@ == report_of(s@, effect_views(effects@)),
{
    match s {
        CommandStatus::Message(m, code) => ShellStep::Report {
            message: Some(m.clone()),
            to_stderr: *code != 0,
            effects,
        },
        _ => ShellStep::Report { message: None, to_stderr: false, effects },
    }
}

/// Where a run stands.
pub enum StageView {
    Ready,
    AwaitBuiltin,
    AwaitSpawn,
    AwaitWait,
    Done,
}

/// The state of a run: the groups of the line, the next group and command, the status so far,
/// whether a started program of the current group is still to be waited for, the stage, and the
/// variables that arguments are expanded with (those of the line's start).
pub struct RunView {
    pub groups: Seq<Seq<Seq<Seq<char>>>>,
    pub g: int,
    pub c: int,
    pub previous: StatusView,
    pub child: bool,
    pub stage: StageView,
    pub snapshot: Map<Seq<char>, Seq<char>>,
}

/// The run moved past the groups that are done and have nothing to wait for.
pub open spec fn settle(s: RunView) -> RunView
    decreases s.groups.len() - s.g,
{
    if 0 <= s.g < s.groups.len() && s.c >= s.groups[s.g].len() && !s.child {
        settle(RunView { g: s.g + 1, c: 0, ..s })
    } else {
        s
    }
}

/// What `next` does from state `s`, with variables `env` (walked in `env_order`), aliases
/// `al` (walked in `al_order`) and home directory `home`: the new state, variables and aliases,
/// and the step.
pub open spec fn next_outcome(
    s: RunView,
    env: Map<Seq<char>, Seq<char>>,
    env_order: Seq<(Seq<char>, Seq<char>)>,
    al: Map<Seq<char>, Seq<char>>,
    al_order: Seq<(Seq<char>, Seq<char>)>,
    home: Seq<char>,
) -> (RunView, Map<Seq<char>, Seq<char>>, Map<Seq<char>, Seq<char>>, StepView) {
    let t = settle(s);
    if !(0 <= t.g < t.groups.len()) {
        (RunView { stage: StageView::Done, ..t }, env, al, StepView::Finished(t.previous))
    } else if t.c >= t.groups[t.g].len() {
        (RunView { stage: StageView::AwaitWait, ..t }, env, al, StepView::Wait)
    } else if t.c < 0 || t.groups[t.g][t.c].len() == 0 {
        (RunView { stage: StageView::Done, ..t }, env, al, StepView::Abort)
    } else {
        let words = t.groups[t.g][t.c];
        let r = resolved(words, al);
        let args = expanded_arguments(r.1, home, t.snapshot);
        let t1 = RunView { c: t.c + 1, ..t };
        if builtin_names().contains_key(r.0) {
            let kind = builtin_names()[r.0];
            if kind == Builtin::Cd {
                (
                    RunView { stage: StageView::AwaitBuiltin, ..t1 },
                    env,
                    al,
                    StepView::ChangeDirectory(cd_target_spec(args)),
                )
            } else if kind == Builtin::Source {
                (RunView { stage: StageView::AwaitBuiltin, ..t1 }, env, al, StepView::Source(args))
            } else {
                let b = builtin_result(kind, args, env, env_order, al, al_order);
                if b.2 is Exit {
                    (
                        RunView { stage: StageView::Done, previous: b.2, ..t1 },
                        b.0,
                        b.1,
                        StepView::Finished(b.2),
                    )
                } else {
                    (
                        RunView { stage: StageView::Ready, previous: b.2, ..t1 },
                        b.0,
                        b.1,
                        report_of(b.2, b.3),
                    )
                }
            }
        } else {
            (
                RunView { stage: StageView::AwaitSpawn, ..t1 },
                env,
                al,
                StepView::Spawn(r.0, args, t.child, t.c + 1 < t.groups[t.g].len()),
            )
        }
    }
}

/// The run once a handed-out `cd` or `source` yielded `status`, and the step that follows.
pub open spec fn after_builtin(s: RunView, status: StatusView) -> (RunView, StepView) {
    if status is Exit {
        (RunView { stage: StageView::Done, previous: status, ..s }, StepView::Finished(status))
    } else {
        (
            RunView { stage: StageView::Ready, previous: status, ..s },
            report_of(status, Seq::<EnvEffectView>::empty()),
        )
    }
}

/// The run once the program it asked for started.
pub open spec fn after_spawn(s: RunView) -> RunView {
    RunView { stage: StageView::Ready, child: true, ..s }
}

/// The exit code of a program that could not be started: 127 when it was not found, else 126.
pub open spec fn spawn_failure_code(not_found: bool) -> i32 {
    if not_found {
        127
    } else {
        126
    }
}

/// The run once the program it asked for could not be started: nothing is left to wait for, and
/// the failure is the status so far.
pub open spec fn after_spawn_failed(s: RunView, not_found: bool) -> RunView {
    RunView {
        stage: StageView::Ready,
        child: false,
        previous: StatusView::Error(spawn_failure_code(not_found)),
        ..s
    }
}

/// The run once the group's last program ended: its status is the group's, and the next group
/// comes.
pub open spec fn after_wait(s: RunView, success: bool, code: Option<i32>) -> RunView {
    RunView {
        stage: StageView::Ready,
        child: false,
        g: s.g + 1,
        c: 0,
        previous: if success {
            StatusView::Normal
        } else {
            StatusView::Error(
                match code {
                    Some(c) => c,
                    None => 1,
                },
            )
        },
        ..s
    }
}

enum Stage {
    Ready,
    AwaitBuiltin,
    AwaitSpawn,
    AwaitWait,
    Done,
}

/// One command line being run.
pub struct CommandRun {
    groups: Vec<Vec<Vec<String>>>,
    g: usize,
    c: usize,
    previous: CommandStatus,
    child: bool,
    stage: Stage,
    snapshot: VarTable,
    builtins: StringHashMap<Builtin>,
}

impl View for CommandRun {
    type V = RunView;

    closed spec fn view(&self) -> RunView {
        RunView {
            groups: views3(self.groups@),
            g: self.g as int,
            c: self.c as int,
            previous: self.previous@,
            child: self.child,
            stage: match self.stage {
                Stage::Ready => StageView::Ready,
                Stage::AwaitBuiltin => StageView::AwaitBuiltin,
                Stage::AwaitSpawn => StageView::AwaitSpawn,
                Stage::AwaitWait => StageView::AwaitWait,
                Stage::Done => StageView::Done,
            },
            snapshot: self.snapshot@,
        }
    }
}

/// The state in which the run of line `raw` starts, with variables `env`.
pub open spec fn run_start(raw: Seq<char>, env: Map<Seq<char>, Seq<char>>) -> RunView {
    let (groups, previous) = match command_line(raw) {
        CommandLineView::Empty => (Seq::empty(), StatusView::Normal),
        CommandLineView::Invalid(st) => (Seq::empty(), st),
        CommandLineView::Run(gs) => (gs, StatusView::Normal),
    };
    RunView {
        groups,
        g: 0,
        c: 0,
        previous,
        child: false,
        stage: StageView::Ready,
        snapshot: env,
    }
}

impl CommandRun {
    #[verifier::type_invariant]
    closed spec fn well_formed(self) -> bool {
        self.builtins@ == builtin_names()
    }

    /// Starts running the line `raw`; arguments will be expanded with the variables as they are
    /// now.
    pub fn start(raw: &str, environment: &VarTable) -> (r: CommandRun)
        ensures
            r@ == run_start(raw@, environment@),
    {
        let (groups, previous) = match parse_command_line(raw) {
            CommandLine::Empty => (Vec::new(), CommandStatus::NORMAL),
            CommandLine::Invalid(st) => (Vec::new(), st),
            CommandLine::Run(gs) => (gs, CommandStatus::NORMAL),
        };
        let r = CommandRun {
            groups,
            g: 0,
            c: 0,
            previous,
            child: false,
            stage: Stage::Ready,
            snapshot: environment.duplicate(),
            builtins: build_map(),
        };
        assert(r@.groups =~= run_start(raw@, environment@).groups);
        r
    }

    /// The status of the `cd` or `source` that the run handed out.
    pub fn builtin_done(&mut self, status: CommandStatus) -> (r: ShellStep)
        requires
            old(self)@.stage is AwaitBuiltin,
        ensures
            (final(self)@, r@) == after_builtin(old(self)@, status@),
    {
        proof {
            use_type_invariant(&*self);
        }
        match status {
            CommandStatus::EXIT(code) => {
                self.previous = CommandStatus::EXIT(code);
                self.stage = Stage::Done;
                ShellStep::Finished(CommandStatus::EXIT(code))
            },
            _ => {
                let effects: Vec<EnvEffect> = Vec::new();
                assert(effect_views(effects@) =~= Seq::<EnvEffectView>::empty());
                let step = report(&status, effects);
                self.previous = status;
                self.stage = Stage::Ready;
                step
            },
        }
    }

    /// The program that the run asked to start did start.
    pub fn spawned(&mut self)
        requires
            old(self)@.stage is AwaitSpawn,
        ensures
            final(self)@ == after_spawn(old(self)@),
    {
        proof {
            use_type_invariant(&*self);
        }
        self.child = true;
        self.stage = Stage::Ready;
    }

    /// The program that the run asked to start could not be started (`not_found`: there is no
    /// such program).
    pub fn spawn_failed(&mut self, not_found: bool)
        requires
            old(self)@.stage is AwaitSpawn,
        ensures
            final(self)@ == after_spawn_failed(old(self)@, not_found),
    {
        proof {
            use_type_invariant(&*self);
        }
        self.child = false;
        self.previous = CommandStatus::ERROR(if not_found { 127 } else { 126 });
        self.stage = Stage::Ready;
    }

    /// How the last program of the group ended: success, or the exit code if it had one.
    pub fn waited(&mut self, success: bool, code: Option<i32>)
        requires
            old(self)@.stage is AwaitWait,
            old(self)@.g < old(self)@.groups.len(),
        ensures
            final(self)@ == after_wait(old(self)@, success, code),
    {
        proof {
            use_type_invariant(&*self);
        }
        assert(self.g < self.groups.len());
        self.previous = if success {
            CommandStatus::NORMAL
        } else {
            CommandStatus::ERROR(
                match code {
                    Some(c) => c,
                    None => 1,
                },
            )
        };
        self.child = false;
        self.g = self.g + 1;
        self.c = 0;
        self.stage = Stage::Ready;
    }

    /// The words of the command that `next` runs, as the line wrote them (before any alias or
    /// expansion), if `next` runs one.
    pub fn upcoming(&self) -> (r: Option<Vec<String>>)
        ensures
            ({
                let t = settle(self@);
                match r {
                    Some(w) => 0 <= t.g < t.groups.len() && 0 <= t.c < t.groups[t.g].len()
                        && views(w@) == t.groups[t.g][t.c],
                    None => !(0 <= t.g < t.groups.len() && 0 <= t.c < t.groups[t.g].len()),
                }
            }),
    {
        let ghost s0 = self@;
        let mut g = self.g;
        let mut c = self.c;
        assert(RunView { g: g as int, c: c as int, ..s0 } == s0);
        while g < self.groups.len() && c >= self.groups[g].len() && !self.child
            invariant
                s0 == self@,
                settle(RunView { g: g as int, c: c as int, ..s0 }) == settle(s0),
            decreases self.groups.len() - g,
        {
            g = g + 1;
            c = 0;
        }
        let ghost t = RunView { g: g as int, c: c as int, ..s0 };
        assert(settle(t) == t);
        if g >= self.groups.len() || c >= self.groups[g].len() {
            return None;
        }
        let cmd = &self.groups[g][c];
        assert(t.groups[g as int][c as int] == views(cmd@));
        let mut w: Vec<String> = Vec::new();
        let mut i: usize = 0;
        while i < cmd.len()
            invariant
                i <= cmd.len(),
                views(w@) == views(cmd@).take(i as int),
            decreases cmd.len() - i,
        {
            let x = cmd[i].clone();
            proof {
                lemma_views_push(w@, x);
            }
            w.push(x);
            i = i + 1;
            assert(views(w@) =~= views(cmd@).take(i as int));
        }
        assert(views(cmd@).take(cmd.len() as int) =~= views(cmd@));
        Some(w)
    }

    /// Whether the run is waiting for the status of a `cd` or `source`.
    pub fn awaits_builtin(&self) -> (b: bool)
        ensures
            b == self@.stage is AwaitBuiltin,
    {
        match self.stage {
            Stage::AwaitBuiltin => true,
            _ => false,
        }
    }

    /// The next step of the run; a `~` in an argument stands for `home`.
    pub fn next(&mut self, environment: &mut VarTable, aliases: &mut VarTable, home: &str) -> (r:
        ShellStep)
        requires
            old(self)@.stage is Ready,
        ensures
            (final(self)@, final(environment)@, final(aliases)@, r@) == next_outcome(
                old(self)@,
                old(environment)@,
                old(environment).bindings(),
                old(aliases)@,
                old(aliases).bindings(),
                home@,
            ),
    {
        proof {
            use_type_invariant(&*self);
        }
        while self.g < self.groups.len() && self.c >= self.groups[self.g].len() && !self.child
            invariant
                settle(self@) == settle(old(self)@),
                self@.stage is Ready,
                self.builtins@ == builtin_names(),
            decreases self.groups.len() - self.g,
        {
            self.g = self.g + 1;
            self.c = 0;
        }
        assert(settle(self@) == self@);
        if self.g >= self.groups.len() {
            self.stage = Stage::Done;
            return ShellStep::Finished(self.previous.duplicate());
        }
        if self.c >= self.groups[self.g].len() {
            self.stage = Stage::AwaitWait;
            return ShellStep::Wait;
        }
        let ghost t = self@;
        assert(self@.groups[self.g as int][self.c as int] == views(
            self.groups@[self.g as int]@[self.c as int]@,
        ));
        if self.groups[self.g][self.c].len() == 0 {
            self.stage = Stage::Done;
            return ShellStep::Abort;
        }
        let (program, raw_args) = resolve_alias(&self.groups[self.g][self.c], aliases);
        let args = expand_arguments(&raw_args, home, &self.snapshot);
        let more = self.c + 1 < self.groups[self.g].len();
        self.c = self.c + 1;
        match self.builtins.get(program.as_str()) {
            Some(kind) => {
                let kind = *kind;
                if kind == Builtin::Cd {
                    self.stage = Stage::AwaitBuiltin;
                    ShellStep::ChangeDirectory(cd_target(&args))
                } else if kind == Builtin::Source {
                    self.stage = Stage::AwaitBuiltin;
                    ShellStep::Source(args)
                } else {
                    let outcome = run_builtin(kind, &args, environment, aliases);
                    let BuiltinOutcome { status, effects } = outcome;
                    match status {
                        CommandStatus::EXIT(code) => {
                            self.previous = CommandStatus::EXIT(code);
                            self.stage = Stage::Done;
                            ShellStep::Finished(CommandStatus::EXIT(code))
                        },
                        _ => {
                            let step = report(&status, effects);
                            self.previous = status;
                            self.stage = Stage::Ready;
                            step
                        },
                    }
                }
            },
            None => {
                self.stage = Stage::AwaitSpawn;
                ShellStep::Spawn {
                    program,
                    args,
                    stdin_from_previous: self.child,
                    stdout_to_next: more,
                }
            },
        }
    }
}


/// What the shell says when a program cannot be started: "not found" for a missing program,
/// else the system's description of the failure.
pub open spec fn spawn_failure_text(program: Seq<char>, not_found: bool, description: Seq<char>) -> Seq<char> {
    program + ": "@ + (if not_found {
        "command not found"@
    } else {
        description
    })
}

/// The message for a program that could not be started.
pub fn spawn_failure_message(program: &str, not_found: bool, description: &str) -> (r: String)
    ensures
        r@ == spawn_failure_text(program@, not_found, description@),
{
    let mut r = program.to_string();
    crate::text::append_str(&mut r, ": ");
    if not_found {
        crate::text::append_str(&mut r, "command not found");
    } else {
        crate::text::append_str(&mut r, description);
    }
    r
}

/// The arguments a command gets are its words after alias replacement, each expanded when it
/// holds `$` or `~` (with the variables of the line's start and the home directory given):
/// `cd` goes to the first of them (to the root without one), and `source` and a started
/// program get all of them.
pub proof fn law_commands_get_expanded_arguments(
    s: RunView,
    e: Map<Seq<char>, Seq<char>>,
    eo: Seq<(Seq<char>, Seq<char>)>,
    a: Map<Seq<char>, Seq<char>>,
    ao: Seq<(Seq<char>, Seq<char>)>,
    home: Seq<char>,
)
    ensures
        ({
            let t = settle(s);
            let r = resolved(t.groups[t.g][t.c], a);
            let args = Seq::new(
                r.1.len(),
                |i: int| crate::commands::expanded_argument(r.1[i], home, t.snapshot),
            );
            let step = next_outcome(s, e, eo, a, ao, home).3;
            &&& step matches StepView::ChangeDirectory(d) ==> d == (if r.1.len() > 0 {
                crate::commands::expanded_argument(r.1[0], home, t.snapshot)
            } else {
                "/"@
            })
            &&& step matches StepView::Source(xs) ==> xs == args
            &&& step matches StepView::Spawn(p, xs, _, _) ==> p == r.0 && xs == args
        }),
{
    let t = settle(s);
    let r = resolved(t.groups[t.g][t.c], a);
    let args = Seq::new(
        r.1.len(),
        |i: int| crate::commands::expanded_argument(r.1[i], home, t.snapshot),
    );
    assert(expanded_arguments(r.1, home, t.snapshot) =~= args);
}

/// A blank line, or one that is all comment, finishes at once with success and changes nothing.
pub proof fn law_blank_line(
    raw: Seq<char>,
    env: Map<Seq<char>, Seq<char>>,
    e: Map<Seq<char>, Seq<char>>,
    eo: Seq<(Seq<char>, Seq<char>)>,
    a: Map<Seq<char>, Seq<char>>,
    ao: Seq<(Seq<char>, Seq<char>)>,
    home: Seq<char>,
)
    requires
        crate::text::trim(raw).len() == 0 || crate::text::starts_with(crate::text::trim(raw), "#"@),
    ensures
        next_outcome(run_start(raw, env), e, eo, a, ao, home).1 == e,
        next_outcome(run_start(raw, env), e, eo, a, ao, home).2 == a,
        next_outcome(run_start(raw, env), e, eo, a, ao, home).3 == StepView::Finished(
            StatusView::Normal,
        ),
{
}

/// A line with broken quoting finishes at once with a syntax error that quotes it.
pub proof fn law_broken_quoting(
    raw: Seq<char>,
    env: Map<Seq<char>, Seq<char>>,
    e: Map<Seq<char>, Seq<char>>,
    eo: Seq<(Seq<char>, Seq<char>)>,
    a: Map<Seq<char>, Seq<char>>,
    ao: Seq<(Seq<char>, Seq<char>)>,
    home: Seq<char>,
)
    requires
        crate::text::trim(raw).len() > 0,
        !crate::text::starts_with(crate::text::trim(raw), "#"@),
        crate::commands::shell_words(raw) is None,
    ensures
        next_outcome(run_start(raw, env), e, eo, a, ao, home).3 == StepView::Finished(
            StatusView::Message(
                "syntax error '"@ + raw + "'"@,
                1,
            ),
        ),
{
}


/// A variable exported on one line is among the variables that the next line expands `$NAME`
/// with.
pub proof fn law_exported_variable_seen_by_next_line(
    args: Seq<Seq<char>>,
    m: Map<Seq<char>, Seq<char>>,
    order: Seq<(Seq<char>, Seq<char>)>,
    raw: Seq<char>,
)
    requires
        crate::text::trim(crate::builtins::full_argument(args)).len() > 0,
        crate::text::contains(crate::builtins::full_argument(args), "="@),
    ensures
        ({
            let after = crate::builtins::table_command(args, m, order, "export"@, "="@).0;
            let k = crate::builtins::assigned_name(args);
            run_start(raw, after).snapshot.contains_key(k) && run_start(raw, after).snapshot[k]
                == crate::builtins::assigned_value(args)
        }),
{
    crate::builtins::law_assignment_binds(args, m, order, "export"@);
}

/// A program that cannot be started, as the last command of its line, leaves the line failed:
/// the line finishes with code 127 ("command not found") or 126, and the prompt that follows
/// shows red.
pub proof fn law_failed_start_fails_line(
    s: RunView,
    not_found: bool,
    e: Map<Seq<char>, Seq<char>>,
    eo: Seq<(Seq<char>, Seq<char>)>,
    a: Map<Seq<char>, Seq<char>>,
    ao: Seq<(Seq<char>, Seq<char>)>,
    home: Seq<char>,
)
    requires
        s.groups.len() > 0,
        s.g == s.groups.len() - 1,
        s.c == s.groups[s.g].len(),
    ensures
        next_outcome(after_spawn_failed(s, not_found), e, eo, a, ao, home).3 == StepView::Finished(
            StatusView::Error(spawn_failure_code(not_found)),
        ),
        spawn_failure_code(not_found) != 0,
        prompt_variables(e, StatusView::Error(spawn_failure_code(not_found)))["red_or_green"@]
            == red(),
{
    let t = after_spawn_failed(s, not_found);
    assert(settle(RunView { g: t.g + 1, c: 0, ..t }) == RunView { g: t.g + 1, c: 0, ..t });
    law_prompt_color(e, StatusView::Error(spawn_failure_code(not_found)));
}

/// A step of a run changes the variables or the aliases only when the command it runs is
/// `export`, `alias`, `unalias` or `unset`: `exit` changes neither, and `cd`, `source` and
/// programs are handed to the host.
pub proof fn law_tables_change_only_by_table_builtins(
    s: RunView,
    e: Map<Seq<char>, Seq<char>>,
    eo: Seq<(Seq<char>, Seq<char>)>,
    a: Map<Seq<char>, Seq<char>>,
    ao: Seq<(Seq<char>, Seq<char>)>,
    home: Seq<char>,
)
    ensures
        ({
            let o = next_outcome(s, e, eo, a, ao, home);
            let t = settle(s);
            (o.1 != e || o.2 != a) ==> {
                &&& 0 <= t.g < t.groups.len()
                &&& 0 <= t.c < t.groups[t.g].len()
                &&& builtin_names().contains_key(resolved(t.groups[t.g][t.c], a).0)
                &&& changes_tables(builtin_names()[resolved(t.groups[t.g][t.c], a).0])
            }
        }),
{
}


/// A host event in a run: a request for the next step (with the orders in which the two tables
/// are walked and the home directory that step sees), or the host's report of what it did.
pub enum RunEvent {
    Next(Seq<(Seq<char>, Seq<char>)>, Seq<(Seq<char>, Seq<char>)>, Seq<char>),
    BuiltinDone(StatusView),
    Spawned,
    SpawnFailed(bool),
    Waited(bool, Option<i32>),
}

/// The run, variables and aliases after one event, as the methods of `CommandRun` state it.
pub open spec fn run_event(
    s: RunView,
    e: Map<Seq<char>, Seq<char>>,
    a: Map<Seq<char>, Seq<char>>,
    ev: RunEvent,
) -> (RunView, Map<Seq<char>, Seq<char>>, Map<Seq<char>, Seq<char>>) {
    match ev {
        RunEvent::Next(eo, ao, home) => {
            let o = next_outcome(s, e, eo, a, ao, home);
            (o.0, o.1, o.2)
        },
        RunEvent::BuiltinDone(st) => (after_builtin(s, st).0, e, a),
        RunEvent::Spawned => (after_spawn(s), e, a),
        RunEvent::SpawnFailed(nf) => (after_spawn_failed(s, nf), e, a),
        RunEvent::Waited(ok, code) => (after_wait(s, ok, code), e, a),
    }
}

/// Whether the next step from `s`, with aliases `a`, runs `export`, `alias`, `unalias` or
/// `unset`.
pub open spec fn runs_table_builtin(s: RunView, a: Map<Seq<char>, Seq<char>>) -> bool {
    let t = settle(s);
    &&& 0 <= t.g < t.groups.len()
    &&& 0 <= t.c < t.groups[t.g].len()
    &&& builtin_names().contains_key(resolved(t.groups[t.g][t.c], a).0)
    &&& changes_tables(builtin_names()[resolved(t.groups[t.g][t.c], a).0])
}

/// The run, variables and aliases after the events, and whether some step ran a builtin that
/// changes the tables.
pub open spec fn run_trace(
    s: RunView,
    e: Map<Seq<char>, Seq<char>>,
    a: Map<Seq<char>, Seq<char>>,
    events: Seq<RunEvent>,
) -> (RunView, Map<Seq<char>, Seq<char>>, Map<Seq<char>, Seq<char>>, bool)
    decreases events.len(),
{
    if events.len() == 0 {
        (s, e, a, false)
    } else {
        let p = run_trace(s, e, a, events.drop_last());
        let q = run_event(p.0, p.1, p.2, events.last());
        (q.0, q.1, q.2, p.3 || (events.last() is Next && runs_table_builtin(p.0, p.2)))
    }
}

/// A whole line run through any sequence of host events leaves the variables and the aliases as
/// they were unless one of its steps ran `export`, `alias`, `unalias` or `unset` (after alias
/// replacement).
pub proof fn law_line_keeps_tables(
    raw: Seq<char>,
    snapshot: Map<Seq<char>, Seq<char>>,
    e: Map<Seq<char>, Seq<char>>,
    a: Map<Seq<char>, Seq<char>>,
    events: Seq<RunEvent>,
)
    ensures
        !run_trace(run_start(raw, snapshot), e, a, events).3 ==> run_trace(
            run_start(raw, snapshot),
            e,
            a,
            events,
        ).1 == e && run_trace(run_start(raw, snapshot), e, a, events).2 == a,
{
    lemma_trace_keeps_tables(run_start(raw, snapshot), e, a, events);
}

proof fn lemma_trace_keeps_tables(
    s: RunView,
    e: Map<Seq<char>, Seq<char>>,
    a: Map<Seq<char>, Seq<char>>,
    events: Seq<RunEvent>,
)
    ensures
        !run_trace(s, e, a, events).3 ==> run_trace(s, e, a, events).1 == e && run_trace(
            s,
            e,
            a,
            events,
        ).2 == a,
    decreases events.len(),
{
    if events.len() > 0 {
        lemma_trace_keeps_tables(s, e, a, events.drop_last());
        let p = run_trace(s, e, a, events.drop_last());
        match events.last() {
            RunEvent::Next(eo, ao, home) => {
                law_tables_change_only_by_table_builtins(p.0, p.1, eo, p.2, ao, home);
            },
            _ => {},
        }
    }
}

} // verus!
