//! The shell's prompt and start-up settings.

use vstd::prelude::*;
use crate::ps1::opt_view;
use crate::status::{CommandStatus, StatusView};
use crate::text::{append_str, decimal, decimal_string, replace_all, replace_str};
use crate::vars::VarTable;

verus! {

broadcast use vstd::string::group_string_axioms;

/// The pattern of terminal color and cursor sequences that the plain prompt drops.
pub open spec fn color_pattern() -> Seq<char> {
    "[\x1B]\\[[()#;?]*(?:[0-9]{1,4}(?:;[0-9]{0,4})*)?[0-9A-ORZcf-nqry=><]"@
}

/// What `regex` makes of `text` when every match of `pattern` is replaced by `replacement`;
/// `None` when the pattern does not compile.
pub uninterp spec fn regex_replaced(pattern: Seq<char>, text: Seq<char>, replacement: Seq<char>) -> Option<Seq<char>>;

/// Compiles `pattern` with `regex::Regex::new` and calls `Regex::replace_all`. The contract
/// claims that the result is the fixed function `regex_replaced` of the three arguments.
#[verifier::external_body]
fn regex_replace_all(pattern: &str, text: &str, replacement: &str) -> (r: Option<String>)
    ensures
        opt_view(r) == regex_replaced(pattern@, text@, replacement@),
{
    let re = regex::Regex::new(pattern).ok()?;
    Some(re.replace_all(text, replacement).to_string())
}

/// The prompt without its color sequences, padded with five spaces; `None` if the color pattern
/// did not compile.
pub fn remove_colors(data: String) -> (r: Option<String>)
    ensures
        match regex_replaced(color_pattern(), data@, ""@) {
            Some(t) => r matches Some(s) && s@ == t + "     "@,
            None => r is None,
        },
{
    match regex_replace_all(
        "[\x1B]\\[[()#;?]*(?:[0-9]{1,4}(?:;[0-9]{0,4})*)?[0-9A-ORZcf-nqry=><]",
        data.as_str(),
        "",
    ) {
        Some(mut s) => {
            append_str(&mut s, "     ");
            Some(s)
        },
        None => None,
    }
}

/// The home directory: `HOME`, else `userprofile`, else the root.
pub fn get_home_dir(home: Option<String>, userprofile: Option<String>) -> (r: String)
    ensures
        r@ == match (home, userprofile) {
            (Some(h), _) => h@,
            (None, Some(u)) => u@,
            (None, None) => "/"@,
        },
{
    match home {
        Some(h) => h,
        None => match userprofile {
            Some(u) => u,
            None => "/".to_string(),
        },
    }
}

/// The working directory as the prompt shows it: the home directory written `~`.
pub fn display_pwd(cwd: &str, home: &str) -> (r: String)
    ensures
        r@ == replace_all(cwd@, home@, "~"@),
{
    replace_str(cwd, home, "~")
}

/// The exit status a command status stands for (0 for success).
pub open spec fn exit_status_of(s: StatusView) -> i32 {
    match s {
        StatusView::Exit(n) => n,
        StatusView::Error(n) => n,
        StatusView::Message(_, n) => n,
        StatusView::Normal => 0,
    }
}

pub fn exit_status(s: &CommandStatus) -> (n: i32)
    ensures
        n == exit_status_of(s@),
{
    match s {
        CommandStatus::EXIT(n) => *n,
        CommandStatus::ERROR(n) => *n,
        CommandStatus::Message(_, n) => *n,
        CommandStatus::NORMAL => 0,
    }
}

/// Bold green.
pub open spec fn green() -> Seq<char> {
    "\x1b[1;32m"@
}

/// Plain.
pub open spec fn reset() -> Seq<char> {
    "\x1b[0m"@
}

/// Red.
pub open spec fn red() -> Seq<char> {
    "\x1b[0;31m"@
}

/// The prompt template used when `PS1` is not set.
pub open spec fn default_ps1() -> Seq<char> {
    "${green}\\w${reset}${red_or_green}>${reset}"@
}

/// The prompt template: `PS1`, or the default.
pub fn ps1_template(environment: &VarTable) -> (r: String)
    ensures
        r@ == if environment@.contains_key("PS1"@) {
            environment@["PS1"@]
        } else {
            default_ps1()
        },
{
    match environment.get("PS1") {
        Some(p) => p.clone(),
        None => "${green}\\w${reset}${red_or_green}>${reset}".to_string(),
    }
}

/// The variables the shell sets at start-up on top of the inherited environment.
pub open spec fn started_environment(env: Map<Seq<char>, Seq<char>>) -> Map<Seq<char>, Seq<char>> {
    env.insert("0"@, "rust-shell"@).insert("green"@, green()).insert("reset"@, reset()).insert(
        "red"@,
        red(),
    ).insert("PS1"@, default_ps1())
}

/// Sets the shell's own variables: its name, the prompt colors and the default prompt.
pub fn init_environment(environment: &mut VarTable)
    ensures
        final(environment)@ == started_environment(old(environment)@),
{
    environment.insert("0".to_string(), "rust-shell".to_string());
    environment.insert("green".to_string(), "\x1b[1;32m".to_string());
    environment.insert("reset".to_string(), "\x1b[0m".to_string());
    environment.insert("red".to_string(), "\x1b[0;31m".to_string());
    environment.insert("PS1".to_string(), "${green}\\w${reset}${red_or_green}>${reset}".to_string());
}

/// The aliases the shell starts with.
pub fn default_aliases() -> (t: VarTable)
    ensures
        t@ == Map::<Seq<char>, Seq<char>>::empty().insert("cls"@, "printf '\\033[2J\\033[H'"@),
{
    let mut t = VarTable::new();
    t.insert("cls".to_string(), "printf '\\033[2J\\033[H'".to_string());
    t
}

/// What `shellexpand::env` makes of `input` with the variables `vars` (`$NAME` and `${NAME}`).
pub uninterp spec fn env_expanded(input: Seq<char>, vars: Map<Seq<char>, Seq<char>>) -> Seq<char>;

/// Calls `shellexpand::env_with_context_no_errors` with the table as the variables. The contract
/// claims that the result is the fixed function `env_expanded` of the input and the bindings.
#[verifier::external_body]
fn shellexpand_env(input: &str, vars: &VarTable) -> (r: String)
    ensures
        r@ == env_expanded(input@, vars@),
{
    shellexpand::env_with_context_no_errors(input, |name: &str| vars.lookup(name)).to_string()
}

/// The variables while the prompt is expanded: the last exit status, and the color that shows it.
pub open spec fn prompt_variables(env: Map<Seq<char>, Seq<char>>, status: StatusView) -> Map<
    Seq<char>,
    Seq<char>,
> {
    let n = exit_status_of(status);
    env.insert("exit_status"@, decimal(n as int)).insert(
        "red_or_green"@,
        if n == 0 {
            green()
        } else {
            red()
        },
    )
}

/// Sets `exit_status` and `red_or_green` for the last status and expands the variables of the
/// template; the backslash escapes are expanded next (`Ps1Expansion`), then `finish_prompt`.
pub fn prepare_prompt(environment: &mut VarTable, status: &CommandStatus, template: &str) -> (r:
    String)
    ensures
        final(environment)@ == prompt_variables(old(environment)@, status@),
        r@ == env_expanded(template@, prompt_variables(old(environment)@, status@)),
{
    let n = exit_status(status);
    environment.insert("exit_status".to_string(), decimal_string(n));
    let color = if n == 0 {
        "\x1b[1;32m".to_string()
    } else {
        "\x1b[0;31m".to_string()
    };
    environment.insert("red_or_green".to_string(), color);
    shellexpand_env(template, environment)
}

/// Drops the variables that only the prompt expansion sees.
pub fn finish_prompt(environment: &mut VarTable)
    ensures
        final(environment)@ == old(environment)@.remove("exit_status"@).remove("red_or_green"@),
{
    environment.remove("exit_status");
    environment.remove("red_or_green");
}

/// The code to leave with when a line asked the shell to exit.
pub fn exit_request(status: &CommandStatus) -> (r: Option<i32>)
    ensures
        match status@ {
            StatusView::Exit(n) => r == Some(n),
            _ => r is None,
        },
{
    match status {
        CommandStatus::EXIT(n) => Some(*n),
        _ => None,
    }
}


/// What the current prompt was made for: the working directory as shown and the `PS1` template.
pub struct PromptWatch {
    pwd: String,
    template: String,
}

impl View for PromptWatch {
    type V = (Seq<char>, Seq<char>);

    closed spec fn view(&self) -> (Seq<char>, Seq<char>) {
        (self.pwd@, self.template@)
    }
}

impl PromptWatch {
    /// Nothing seen yet: the first directory and template both call for a prompt.
    pub fn new() -> (r: PromptWatch)
        ensures
            r@ == (Seq::<char>::empty(), Seq::<char>::empty()),
    {
        PromptWatch { pwd: String::new(), template: String::new() }
    }

    /// Records the directory and template of the coming prompt, and says whether the prompt
    /// must be remade because the directory changed, and whether because the template changed.
    pub fn observe(&mut self, pwd: &str, template: &str) -> (r: (bool, bool))
        ensures
            r == (old(self)@.0 != pwd@, old(self)@.1 != template@),
            final(self)@ == (pwd@, template@),
    {
        let new_pwd = pwd.to_string();
        let new_template = template.to_string();
        let r = (!(self.pwd == new_pwd), !(self.template == new_template));
        self.pwd = new_pwd;
        self.template = new_template;
        r
    }
}


/// The prompt shows green after success and red after failure, and `exit_status` holds the
/// status in decimal.
pub proof fn law_prompt_color(env: Map<Seq<char>, Seq<char>>, s: StatusView)
    ensures
        prompt_variables(env, s)["red_or_green"@] == (if exit_status_of(s) == 0 {
            green()
        } else {
            red()
        }),
        prompt_variables(env, s)["exit_status"@] == decimal(exit_status_of(s) as int),
{
    reveal_strlit("red_or_green");
    reveal_strlit("exit_status");
    assert("exit_status"@.len() != "red_or_green"@.len());
    assert("exit_status"@ != "red_or_green"@);
}

/// Preparing and finishing a prompt leaves the variables as they were, but for the two prompt
/// variables, which are gone.
pub proof fn law_prompt_leaves_no_trace(env: Map<Seq<char>, Seq<char>>, s: StatusView)
    ensures
        prompt_variables(env, s).remove("exit_status"@).remove("red_or_green"@) == env.remove(
            "exit_status"@,
        ).remove("red_or_green"@),
{
    reveal_strlit("red_or_green");
    reveal_strlit("exit_status");
    assert(prompt_variables(env, s).remove("exit_status"@).remove("red_or_green"@) =~= env.remove(
        "exit_status"@,
    ).remove("red_or_green"@));
}

/// A working directory inside the home directory is shown starting with `~`.
pub proof fn law_home_as_tilde(home: Seq<char>, rest: Seq<char>)
    requires
        home.len() > 0,
    ensures
        replace_all(home + rest, home, "~"@) == "~"@ + replace_all(rest, home, "~"@),
{
    let s = home + rest;
    assert(s.take(home.len() as int) =~= home);
    assert(s.skip(home.len() as int) =~= rest);
}

} // verus!
