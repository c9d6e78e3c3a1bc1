//! The shell's builtin commands.

use vstd::prelude::*;
use vstd::hash_map::StringHashMap;
use crate::status::{CommandStatus, StatusView};
use crate::text::{
    decimal, lemma_parse_decimal, lemma_trim_idempotent,
    append_str, contains, contains_str, join, join_strings, join_strings_from,
    lemma_trim_keeps_occurrence, parse_i32, parse_i32_str, split_once, split_once_str, trim,
    trim_str, views,
};
use crate::vars::{VarTable, render_map};

verus! {

broadcast use vstd::string::group_string_axioms;

/// The commands that the shell runs itself.
#[derive(PartialEq, Eq, Structural, Clone, Copy, Debug)]
pub enum Builtin {
    Cd,
    Export,
    Alias,
    Exit,
    Source,
    Unalias,
    Unset,
}

/// A change to the process environment that a builtin asks the host to make.
pub enum EnvEffect {
    /// Set the variable to the value.
    SetVar(String, String),
    /// Remove the variable.
    RemoveVar(String),
}

/// The view of an effect.
pub enum EnvEffectView {
    SetVar(Seq<char>, Seq<char>),
    RemoveVar(Seq<char>),
}

impl View for EnvEffect {
    type V = EnvEffectView;

    open spec fn view(&self) -> EnvEffectView {
        match self {
            EnvEffect::SetVar(k, v) => EnvEffectView::SetVar(k@, v@),
            EnvEffect::RemoveVar(k) => EnvEffectView::RemoveVar(k@),
        }
    }
}

/// The views of a sequence of effects.
pub open spec fn effect_views(e: Seq<EnvEffect>) -> Seq<EnvEffectView> {
    e.map_values(|x: EnvEffect| x@)
}

/// What a builtin yields: its status and the process-environment changes it asks for.
pub struct BuiltinOutcome {
    pub status: CommandStatus,
    pub effects: Vec<EnvEffect>,
}

/// The builtin commands by name.
pub open spec fn builtin_names() -> Map<Seq<char>, Builtin> {
    map![
        "cd"@ => Builtin::Cd,
        "export"@ => Builtin::Export,
        "alias"@ => Builtin::Alias,
        "exit"@ => Builtin::Exit,
        "source"@ => Builtin::Source,
        "unalias"@ => Builtin::Unalias,
        "unset"@ => Builtin::Unset,
    ]
}

/// The table of builtin commands, keyed by the name the user types.
pub fn build_map() -> (m: StringHashMap<Builtin>)
    ensures
        m@ == builtin_names(),
{
    let mut m: StringHashMap<Builtin> = StringHashMap::new();
    m.insert("cd".to_string(), Builtin::Cd);
    m.insert("export".to_string(), Builtin::Export);
    m.insert("alias".to_string(), Builtin::Alias);
    m.insert("exit".to_string(), Builtin::Exit);
    m.insert("source".to_string(), Builtin::Source);
    m.insert("unalias".to_string(), Builtin::Unalias);
    m.insert("unset".to_string(), Builtin::Unset);
    assert(m@ =~= builtin_names());
    m
}

/// The arguments joined with single spaces, as the table builtins read them.
pub open spec fn full_argument(args: Seq<Seq<char>>) -> Seq<char> {
    join(args, " "@)
}

/// The name and value that `name=value` style arguments bind, split at the first `delim` of the
/// trimmed argument text (or, with an empty `delim`, the first argument against the rest).
pub open spec fn assignment(args: Seq<Seq<char>>, delim: Seq<char>) -> Option<(Seq<char>, Seq<char>)> {
    let full = full_argument(args);
    let t = trim(full);
    if t.len() == 0 {
        None
    } else if delim.len() == 0 {
        Some((trim(args[0]), trim(join(args.drop_first(), " "@))))
    } else if contains(full, delim) {
        match split_once(t, delim) {
            Some(p) => Some((trim(p.0), trim(p.1))),
            None => None,
        }
    } else {
        None
    }
}

/// The arguments hold `delim` only in whitespace that trimming drops: the one input on which
/// splitting the trimmed text fails.
pub open spec fn assignment_aborts(args: Seq<Seq<char>>, delim: Seq<char>) -> bool {
    let full = full_argument(args);
    &&& delim.len() > 0
    &&& trim(full).len() > 0
    &&& contains(full, delim)
    &&& split_once(trim(full), delim) is None
}

/// What `export`/`alias` do to their table `m` (walked in the order `order`) and what they yield:
/// with no argument, list the table; with an assignment, bind it; with a bound name, show its
/// value.
pub open spec fn table_command(
    args: Seq<Seq<char>>,
    m: Map<Seq<char>, Seq<char>>,
    order: Seq<(Seq<char>, Seq<char>)>,
    name: Seq<char>,
    delim: Seq<char>,
) -> (Map<Seq<char>, Seq<char>>, StatusView) {
    let full = full_argument(args);
    let t = trim(full);
    if t.len() == 0 {
        (m, StatusView::Message(name + ": "@ + render_map(order), 0))
    } else if delim.len() == 0 || contains(full, delim) {
        match assignment(args, delim) {
            Some(kv) => (m.insert(kv.0, kv.1), StatusView::Normal),
            None => (m, StatusView::Normal),
        }
    } else if m.contains_key(t) {
        (m, StatusView::Message(m[t], 0))
    } else {
        (m, StatusView::Normal)
    }
}

/// The assignment that the arguments hold, if any.
pub fn assignment_of(args: &Vec<String>, delimiter: &str) -> (r: Option<(String, String)>)
    requires
        !assignment_aborts(views(args@), delimiter@),
    ensures
        r matches Some(p) ==> assignment(views(args@), delimiter@) == Some((p.0@, p.1@)),
        r is None ==> assignment(views(args@), delimiter@) is None,
{
    let full = join_strings(args, " ");
    let t = trim_str(full.as_str());
    if t.as_str().is_empty() {
        return None;
    }
    if delimiter.is_empty() {
        if args.len() == 0 {
            assert(trim(Seq::<char>::empty()) =~= Seq::<char>::empty());
            assert(false);
        }
        let k = trim_str(args[0].as_str());
        let rest = join_strings_from(args, 1, " ");
        assert(views(args@).skip(1) =~= views(args@).drop_first());
        let v = trim_str(rest.as_str());
        return Some((k, v));
    }
    if contains_str(full.as_str(), delimiter) {
        match split_once_str(t.as_str(), delimiter) {
            Some(p) => {
                let k = trim_str(p.0.as_str());
                let v = trim_str(p.1.as_str());
                Some((k, v))
            },
            None => None,
        }
    } else {
        None
    }
}

/// The process-environment changes that `export_or_alias` asks for: under the name `export`, the
/// binding it makes (if any) is also made in the process environment.
pub open spec fn table_effects(args: Seq<Seq<char>>, name: Seq<char>, delim: Seq<char>) -> Seq<
    EnvEffectView,
> {
    if name == "export"@ {
        match assignment(args, delim) {
            Some(kv) => seq![EnvEffectView::SetVar(kv.0, kv.1)],
            None => Seq::<EnvEffectView>::empty(),
        }
    } else {
        Seq::<EnvEffectView>::empty()
    }
}

/// The shared work of `export` and `alias` on their table `map`: list it, bind a
/// `name<delimiter>value` assignment, or show the value of a bound name; under the name `export`
/// a binding is also asked of the process environment.
pub fn export_or_alias(args: &Vec<String>, map: &mut VarTable, name: String, delimiter: &str) -> (r:
    BuiltinOutcome)
    requires
        !assignment_aborts(views(args@), delimiter@),
    ensures
        (final(map)@, r.status@) == table_command(
            views(args@),
            old(map)@,
            old(map).bindings(),
            name@,
            delimiter@,
        ),
        effect_views(r.effects@) == table_effects(views(args@), name@, delimiter@),
{
    let to_process = name == "export".to_string();
    let mut effects: Vec<EnvEffect> = Vec::new();
    assert(effect_views(effects@) =~= Seq::<EnvEffectView>::empty());
    let full = join_strings(args, " ");
    let t = trim_str(full.as_str());
    if t.as_str().is_empty() {
        let mut msg = name;
        append_str(&mut msg, ": ");
        let listing = map.render();
        append_str(&mut msg, listing.as_str());
        return BuiltinOutcome { status: CommandStatus::Message(msg, 0), effects };
    }
    if contains_str(full.as_str(), delimiter) || delimiter.is_empty() {
        match assignment_of(args, delimiter) {
            Some(p) => {
                if to_process {
                    effects.push(EnvEffect::SetVar(p.0.clone(), p.1.clone()));
                    assert(effect_views(effects@) =~= seq![EnvEffectView::SetVar(p.0@, p.1@)]);
                }
                map.insert(p.0, p.1);
            },
            None => {},
        }
    } else {
        match map.get(t.as_str()) {
            Some(v) => {
                return BuiltinOutcome { status: CommandStatus::Message(v.clone(), 0), effects };
            },
            None => {},
        }
    }
    BuiltinOutcome { status: CommandStatus::NORMAL, effects }
}

/// The assignment delimiter of `export` and `alias` never aborts the split: it is not whitespace.
pub proof fn lemma_equals_never_aborts(args: Seq<Seq<char>>)
    ensures
        !assignment_aborts(args, "="@),
{
    reveal_strlit("=");
    let full = full_argument(args);
    if "="@.len() > 0 && trim(full).len() > 0 && contains(full, "="@) {
        crate::text::lemma_find_from_facts(full, "="@, 0);
        let i = crate::text::find(full, "="@)->0;
        lemma_trim_keeps_occurrence(full, "="@, i);
        crate::text::lemma_find_from_facts(trim(full), "="@, 0);
    }
}

/// `export`: list, set or show shell variables; a new binding is also asked of the process
/// environment.
pub fn export(args: &Vec<String>, environment: &mut VarTable, aliases: &mut VarTable) -> (r:
    BuiltinOutcome)
    ensures
        (final(environment)@, r.status@) == table_command(
            views(args@),
            old(environment)@,
            old(environment).bindings(),
            "export"@,
            "="@,
        ),
        final(aliases)@ == old(aliases)@,
        effect_views(r.effects@) == match assignment(views(args@), "="@) {
            Some(kv) => seq![EnvEffectView::SetVar(kv.0, kv.1)],
            None => Seq::<EnvEffectView>::empty(),
        },
{
    proof {
        lemma_equals_never_aborts(views(args@));
    }
    export_or_alias(args, environment, "export".to_string(), "=")
}

/// `alias`: list, define or show aliases.
pub fn alias_bash_syntax(args: &Vec<String>, environment: &mut VarTable, aliases: &mut VarTable) -> (r:
    CommandStatus)
    ensures
        (final(aliases)@, r@) == table_command(
            views(args@),
            old(aliases)@,
            old(aliases).bindings(),
            "alias"@,
            "="@,
        ),
        final(environment)@ == old(environment)@,
{
    proof {
        lemma_equals_never_aborts(views(args@));
    }
    let outcome = export_or_alias(args, aliases, "alias".to_string(), "=");
    proof {
        reveal_strlit("alias");
        reveal_strlit("export");
        assert("alias"@.len() != "export"@.len());
    }
    assert(effect_views(outcome.effects@) =~= Seq::<EnvEffectView>::empty());
    outcome.status
}

/// The names in `names`, taken as a set.
pub open spec fn name_set(names: Seq<Seq<char>>) -> Set<Seq<char>> {
    Set::new(|k: Seq<char>| names.contains(k))
}

pub proof fn lemma_name_set_push(names: Seq<Seq<char>>, x: Seq<char>)
    ensures
        name_set(names.push(x)) == name_set(names).insert(x),
{
    assert forall|k: Seq<char>| #[trigger] name_set(names.push(x)).contains(k) == name_set(
        names,
    ).insert(x).contains(k) by {
        if names.push(x).contains(k) && k != x {
            let j = choose|j: int| 0 <= j < names.push(x).len() && names.push(x)[j] == k;
            assert(names[j] == k);
        }
        if names.contains(k) {
            let j = choose|j: int| 0 <= j < names.len() && names[j] == k;
            assert(names.push(x)[j] == k);
        }
        if k == x {
            assert(names.push(x)[names.len() as int] == x);
        }
    }
    assert(name_set(names.push(x)) =~= name_set(names).insert(x));
}

/// `unalias`: removes every named alias.
pub fn unalias(args: &Vec<String>, environment: &mut VarTable, aliases: &mut VarTable) -> (r:
    CommandStatus)
    ensures
        final(aliases)@ == old(aliases)@.remove_keys(name_set(views(args@))),
        final(environment)@ == old(environment)@,
        r@ == StatusView::Normal,
{
    let mut i: usize = 0;
    while i < args.len()
        invariant
            i <= args.len(),
            aliases@ == old(aliases)@.remove_keys(name_set(views(args@).take(i as int))),
        decreases args.len() - i,
    {
        if aliases.contains_key(args[i].as_str()) {
            aliases.remove(args[i].as_str());
        }
        i = i + 1;
        assert(aliases@ =~= old(aliases)@.remove_keys(name_set(views(args@).take(i as int)))) by {
            assert(views(args@).take(i as int) =~= views(args@).take(i - 1).push(args@[i - 1]@));
            lemma_name_set_push(views(args@).take(i - 1), args@[i - 1]@);
        }
    }
    assert(views(args@).take(args.len() as int) =~= views(args@));
    CommandStatus::NORMAL
}

/// The names, in order, that removing `names` one after another from `m` actually removes.
pub open spec fn removed_names(m: Map<Seq<char>, Seq<char>>, names: Seq<Seq<char>>) -> Seq<
    Seq<char>,
>
    decreases names.len(),
{
    if names.len() == 0 {
        seq![]
    } else {
        let k = names[0];
        if m.contains_key(k) {
            seq![k] + removed_names(m.remove(k), names.drop_first())
        } else {
            removed_names(m, names.drop_first())
        }
    }
}

/// `unset`: removes every named shell variable; each one that was set is also removed from the
/// process environment.
pub fn unset(args: &Vec<String>, environment: &mut VarTable, aliases: &mut VarTable) -> (r:
    BuiltinOutcome)
    ensures
        final(environment)@ == old(environment)@.remove_keys(name_set(views(args@))),
        final(aliases)@ == old(aliases)@,
        r.status@ == StatusView::Normal,
        effect_views(r.effects@) == removed_names(old(environment)@, views(args@)).map_values(
            |k: Seq<char>| EnvEffectView::RemoveVar(k),
        ),
{
    let mut effects: Vec<EnvEffect> = Vec::new();
    let mut i: usize = 0;
    let ghost names = views(args@);
    assert(names.skip(0) =~= names);
    while i < args.len()
        invariant
            i <= args.len(),
            names == views(args@),
            environment@ == old(environment)@.remove_keys(name_set(names.take(i as int))),
            effect_views(effects@) + removed_names(environment@, names.skip(i as int)).map_values(
                |k: Seq<char>| EnvEffectView::RemoveVar(k),
            ) == removed_names(old(environment)@, names).map_values(
                |k: Seq<char>| EnvEffectView::RemoveVar(k),
            ),
        decreases args.len() - i,
    {
        let ghost before_env = environment@;
        let ghost before_fx = effect_views(effects@);
        let ghost rest = names.skip(i as int);
        assert(rest.drop_first() =~= names.skip(i + 1));
        assert(rest[0] == args@[i as int]@);
        if environment.contains_key(args[i].as_str()) {
            environment.remove(args[i].as_str());
            effects.push(EnvEffect::RemoveVar(args[i].clone()));
            assert(effect_views(effects@) =~= before_fx.push(EnvEffectView::RemoveVar(rest[0])));
            assert(removed_names(before_env, rest) == seq![rest[0]] + removed_names(
                environment@,
                rest.drop_first(),
            ));
            assert(removed_names(before_env, rest).map_values(
                |k: Seq<char>| EnvEffectView::RemoveVar(k),
            ) =~= seq![EnvEffectView::RemoveVar(rest[0])] + removed_names(
                environment@,
                rest.drop_first(),
            ).map_values(|k: Seq<char>| EnvEffectView::RemoveVar(k)));
            assert(effect_views(effects@) + removed_names(environment@, names.skip(i + 1)).map_values(
                |k: Seq<char>| EnvEffectView::RemoveVar(k),
            ) =~= before_fx + removed_names(before_env, rest).map_values(
                |k: Seq<char>| EnvEffectView::RemoveVar(k),
            ));
        }
        i = i + 1;
        assert(environment@ =~= old(environment)@.remove_keys(name_set(names.take(i as int)))) by {
            assert(names.take(i as int) =~= names.take(i - 1).push(names[i - 1]));
            lemma_name_set_push(names.take(i - 1), names[i - 1]);
        }
    }
    assert(names.take(args.len() as int) =~= names);
    assert(names.skip(args.len() as int) =~= Seq::<Seq<char>>::empty());
    assert(effect_views(effects@) =~= effect_views(effects@) + removed_names(
        environment@,
        names.skip(args.len() as int),
    ).map_values(|k: Seq<char>| EnvEffectView::RemoveVar(k)));
    BuiltinOutcome { status: CommandStatus::NORMAL, effects }
}

/// The code that `exit` leaves with: 0 without an argument, the first argument when it is a
/// number, else 1.
pub open spec fn exit_code(args: Seq<Seq<char>>) -> i32 {
    if args.len() == 0 {
        0
    } else {
        match parse_i32(args[0]) {
            Some(c) => c,
            None => 1,
        }
    }
}

/// `exit`: asks the shell to leave.
pub fn exit(args: &Vec<String>, environment: &mut VarTable, aliases: &mut VarTable) -> (r:
    CommandStatus)
    ensures
        r@ == StatusView::Exit(exit_code(views(args@))),
        final(environment)@ == old(environment)@,
        final(aliases)@ == old(aliases)@,
{
    let mut code: i32 = 0;
    if args.len() > 0 {
        match parse_i32_str(args[0].as_str()) {
            Some(c) => code = c,
            None => code = 1,
        }
    }
    CommandStatus::EXIT(code)
}

/// The directory `cd` goes to: its first argument, else the root.
pub open spec fn cd_target_spec(args: Seq<Seq<char>>) -> Seq<char> {
    if args.len() > 0 {
        args[0]
    } else {
        "/"@
    }
}

/// The directory `cd` goes to.
pub fn cd_target(args: &Vec<String>) -> (r: String)
    ensures
        r@ == cd_target_spec(views(args@)),
{
    if args.len() > 0 {
        args[0].clone()
    } else {
        "/".to_string()
    }
}

/// What `cd` yields once the change of directory was tried: the failure's text with code 1, or
/// success.
pub fn cd_status(failure: Option<String>) -> (r: CommandStatus)
    ensures
        r@ == match failure {
            Some(e) => StatusView::Message(e@, 1),
            None => StatusView::Normal,
        },
{
    match failure {
        Some(e) => CommandStatus::Message(e, 1),
        None => CommandStatus::NORMAL,
    }
}

/// The arguments of `source` that name files (`is_file[i]` tells whether `args[i]` does), in order.
pub open spec fn files_among(args: Seq<Seq<char>>, is_file: Seq<bool>) -> Seq<Seq<char>>
    decreases args.len(),
{
    if args.len() == 0 || is_file.len() == 0 {
        seq![]
    } else if is_file[0] {
        seq![args[0]] + files_among(args.drop_first(), is_file.drop_first())
    } else {
        files_among(args.drop_first(), is_file.drop_first())
    }
}

/// `source`: the files among its arguments, which the shell then runs line by line.
pub fn source_command(args: &Vec<String>, is_file: &Vec<bool>) -> (r: Vec<String>)
    requires
        is_file.len() == args.len(),
    ensures
        views(r@) == files_among(views(args@), is_file@),
{
    let mut r: Vec<String> = Vec::new();
    let mut i: usize = 0;
    let ghost names = views(args@);
    assert(names.skip(0) =~= names);
    assert(is_file@.skip(0) =~= is_file@);
    while i < args.len()
        invariant
            i <= args.len() == is_file.len(),
            names == views(args@),
            views(r@) + files_among(names.skip(i as int), is_file@.skip(i as int)) == files_among(
                names,
                is_file@,
            ),
        decreases args.len() - i,
    {
        assert(names.skip(i as int).drop_first() =~= names.skip(i + 1));
        assert(is_file@.skip(i as int).drop_first() =~= is_file@.skip(i + 1));
        let ghost before = views(r@);
        if is_file[i] {
            r.push(args[i].clone());
            assert(views(r@) =~= before.push(names[i as int]));
            assert(views(r@) + files_among(names.skip(i + 1), is_file@.skip(i + 1)) =~= before
                + files_among(names.skip(i as int), is_file@.skip(i as int)));
        }
        i = i + 1;
    }
    assert(files_among(names.skip(args.len() as int), is_file@.skip(args.len() as int))
        =~= Seq::<Seq<char>>::empty());
    assert(views(r@) =~= views(r@) + Seq::<Seq<char>>::empty());
    r
}


/// Builtins that run entirely on the shell's tables (all but `cd` and `source`).
pub open spec fn runs_on_tables(b: Builtin) -> bool {
    b != Builtin::Cd && b != Builtin::Source
}

/// Builtins that change the shell's variables or aliases.
pub open spec fn changes_tables(b: Builtin) -> bool {
    b == Builtin::Export || b == Builtin::Alias || b == Builtin::Unalias || b == Builtin::Unset
}

/// What a table builtin does: the new variables, the new aliases, its status and its effects.
pub open spec fn builtin_result(
    kind: Builtin,
    args: Seq<Seq<char>>,
    env: Map<Seq<char>, Seq<char>>,
    env_order: Seq<(Seq<char>, Seq<char>)>,
    aliases: Map<Seq<char>, Seq<char>>,
    alias_order: Seq<(Seq<char>, Seq<char>)>,
) -> (Map<Seq<char>, Seq<char>>, Map<Seq<char>, Seq<char>>, StatusView, Seq<EnvEffectView>) {
    match kind {
        Builtin::Export => {
            let r = table_command(args, env, env_order, "export"@, "="@);
            (
                r.0,
                aliases,
                r.1,
                match assignment(args, "="@) {
                    Some(kv) => seq![EnvEffectView::SetVar(kv.0, kv.1)],
                    None => Seq::<EnvEffectView>::empty(),
                },
            )
        },
        Builtin::Alias => {
            let r = table_command(args, aliases, alias_order, "alias"@, "="@);
            (env, r.0, r.1, seq![])
        },
        Builtin::Unalias => (env, aliases.remove_keys(name_set(args)), StatusView::Normal, seq![]),
        Builtin::Unset => (
            env.remove_keys(name_set(args)),
            aliases,
            StatusView::Normal,
            removed_names(env, args).map_values(|k: Seq<char>| EnvEffectView::RemoveVar(k)),
        ),
        Builtin::Exit => (env, aliases, StatusView::Exit(exit_code(args)), seq![]),
        _ => (env, aliases, StatusView::Normal, seq![]),
    }
}

/// Runs a table builtin.
pub fn run_builtin(kind: Builtin, args: &Vec<String>, environment: &mut VarTable, aliases: &mut VarTable) -> (r:
    BuiltinOutcome)
    requires
        runs_on_tables(kind),
    ensures
        (final(environment)@, final(aliases)@, r.status@, effect_views(r.effects@))
            == builtin_result(
            kind,
            views(args@),
            old(environment)@,
            old(environment).bindings(),
            old(aliases)@,
            old(aliases).bindings(),
        ),
{
    match kind {
        Builtin::Export => export(args, environment, aliases),
        Builtin::Alias => {
            let status = alias_bash_syntax(args, environment, aliases);
            let effects: Vec<EnvEffect> = Vec::new();
            assert(effect_views(effects@) =~= Seq::<EnvEffectView>::empty());
            BuiltinOutcome { status, effects }
        },
        Builtin::Unalias => {
            let status = unalias(args, environment, aliases);
            let effects: Vec<EnvEffect> = Vec::new();
            assert(effect_views(effects@) =~= Seq::<EnvEffectView>::empty());
            BuiltinOutcome { status, effects }
        },
        Builtin::Unset => unset(args, environment, aliases),
        _ => {
            let status = exit(args, environment, aliases);
            let effects: Vec<EnvEffect> = Vec::new();
            assert(effect_views(effects@) =~= Seq::<EnvEffectView>::empty());
            BuiltinOutcome { status, effects }
        },
    }
}


/// The name that an assignment binds.
pub open spec fn assigned_name(args: Seq<Seq<char>>) -> Seq<char> {
    match assignment(args, "="@) {
        Some(kv) => kv.0,
        None => seq![],
    }
}

/// The value that an assignment binds.
pub open spec fn assigned_value(args: Seq<Seq<char>>) -> Seq<char> {
    match assignment(args, "="@) {
        Some(kv) => kv.1,
        None => seq![],
    }
}

/// `export`/`alias` with an assignment bind its trimmed name to its trimmed value and say
/// nothing.
pub proof fn law_assignment_binds(
    args: Seq<Seq<char>>,
    m: Map<Seq<char>, Seq<char>>,
    order: Seq<(Seq<char>, Seq<char>)>,
    name: Seq<char>,
)
    requires
        trim(full_argument(args)).len() > 0,
        contains(full_argument(args), "="@),
    ensures
        assignment(args, "="@) is Some,
        table_command(args, m, order, name, "="@) == (
            m.insert(assigned_name(args), assigned_value(args)),
            StatusView::Normal,
        ),
{
    lemma_equals_never_aborts(args);
    reveal_strlit("=");
}

/// Once a name is bound, asking for it (the name alone as argument) shows its value.
pub proof fn law_query_shows_binding(
    k: Seq<char>,
    v: Seq<char>,
    m: Map<Seq<char>, Seq<char>>,
    order: Seq<(Seq<char>, Seq<char>)>,
    name: Seq<char>,
)
    requires
        k.len() > 0,
        trim(k) == k,
        !contains(k, "="@),
    ensures
        table_command(seq![k], m.insert(k, v), order, name, "="@) == (
            m.insert(k, v),
            StatusView::Message(v, 0),
        ),
{
    reveal_strlit("=");
    assert(full_argument(seq![k]) == k);
}

/// What an assignment binds reads back: after `alias n=v` (or `export n=v`), `alias n` shows `v`
/// (for a name without `=`).
pub proof fn law_binding_reads_back(
    args: Seq<Seq<char>>,
    m: Map<Seq<char>, Seq<char>>,
    order: Seq<(Seq<char>, Seq<char>)>,
    order2: Seq<(Seq<char>, Seq<char>)>,
    name: Seq<char>,
)
    requires
        trim(full_argument(args)).len() > 0,
        contains(full_argument(args), "="@),
        assignment(args, "="@) matches Some(kv) && kv.0.len() > 0 && !contains(kv.0, "="@),
    ensures
        ({
            let kv = assignment(args, "="@)->0;
            let m2 = table_command(args, m, order, name, "="@).0;
            table_command(seq![kv.0], m2, order2, name, "="@).1 == StatusView::Message(kv.1, 0)
        }),
{
    law_assignment_binds(args, m, order, name);
    let kv = assignment(args, "="@)->0;
    reveal_strlit("=");
    let p = split_once(trim(full_argument(args)), "="@)->0;
    assert(kv.0 == trim(p.0));
    lemma_trim_idempotent(p.0);
    law_query_shows_binding(kv.0, kv.1, m, order2, name);
}

/// `unalias`/`unset` forget every name they are given and keep every other binding.
pub proof fn law_removal_forgets(names: Seq<Seq<char>>, m: Map<Seq<char>, Seq<char>>, k: Seq<char>)
    ensures
        names.contains(k) ==> !m.remove_keys(name_set(names)).contains_key(k),
        !names.contains(k) ==> (m.remove_keys(name_set(names)).contains_key(k) == m.contains_key(k)
            && (m.contains_key(k) ==> m.remove_keys(name_set(names))[k] == m[k])),
{
}

/// `exit` with the decimal text of a status leaves with that status.
pub proof fn law_exit_reads_code(n: i32)
    ensures
        exit_code(seq![decimal(n as int)]) == n,
{
    lemma_parse_decimal(n);
}


/// Removing a name undoes binding it: `alias n=v` then `unalias n` (or `export n=v` then
/// `unset n`) leaves the table as it was, less any earlier binding of `n`.
pub proof fn law_removal_undoes_binding(
    args: Seq<Seq<char>>,
    m: Map<Seq<char>, Seq<char>>,
    order: Seq<(Seq<char>, Seq<char>)>,
    name: Seq<char>,
)
    requires
        trim(full_argument(args)).len() > 0,
        contains(full_argument(args), "="@),
    ensures
        table_command(args, m, order, name, "="@).0.remove_keys(
            name_set(seq![assigned_name(args)]),
        ) == m.remove(assigned_name(args)),
{
    law_assignment_binds(args, m, order, name);
    let k = assigned_name(args);
    assert(seq![k].contains(k)) by {
        assert(seq![k][0] == k);
    }
    assert forall|q: Seq<char>| #[trigger] name_set(seq![k]).contains(q) == (q == k) by {
        if seq![k].contains(q) {
            let j = choose|j: int| 0 <= j < seq![k].len() && seq![k][j] == q;
            assert(j == 0);
        }
    }
    assert(table_command(args, m, order, name, "="@).0.remove_keys(name_set(seq![k])) =~= m.remove(
        k,
    ));
}

} // verus!
