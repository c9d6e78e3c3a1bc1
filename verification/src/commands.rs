//! From a command line to the commands it runs: comments, quoting, `;`/`&&`/`||` groups, `|`
//! pipelines, aliases and argument expansion.

use vstd::prelude::*;
use crate::status::{CommandStatus, StatusView};
use crate::text::{
    lemma_views_push, append_str, contains, contains_str, fields, split_fields,
    split_once, split_once_str, starts_with, starts_with_str, trim, trim_str, views,
    is_whitespace, lemma_trim_end, trailing_ws, trim_start,
};
use crate::vars::VarTable;

verus! {

broadcast use vstd::string::group_string_axioms;

/// The words that `shlex::split` makes of `line` (POSIX shell quoting, with a `#` that begins a
/// word starting a comment that runs to the end of its line); `None` when the quoting is
/// unbalanced or the line ends in a lone backslash.
pub uninterp spec fn shell_words(line: Seq<char>) -> Option<Seq<Seq<char>>>;

/// The characters that `shlex` reads as word separators.
pub open spec fn is_blank(c: char) -> bool {
    c == ' ' || c == '\t' || c == '\n'
}

/// The characters that quote or escape in `shlex`.
pub open spec fn is_quoting(c: char) -> bool {
    c == '"' || c == '\'' || c == '\\'
}

/// The part of `s` before the first `#` that begins a word, that is one at the start of `s` (when
/// `after_blank`) or right after a blank.
pub open spec fn uncommented_from(s: Seq<char>, after_blank: bool) -> Seq<char>
    decreases s.len(),
{
    if s.len() == 0 || (after_blank && s[0] == '#') {
        seq![]
    } else {
        seq![s[0]] + uncommented_from(s.drop_first(), is_blank(s[0]))
    }
}

/// The part of a line before its comment.
pub open spec fn uncommented(s: Seq<char>) -> Seq<char> {
    uncommented_from(s, true)
}

/// The maximal runs of non-blank characters of `s`, the run in progress being `cur`.
pub open spec fn blank_words_from(s: Seq<char>, cur: Seq<char>) -> Seq<Seq<char>>
    decreases s.len(),
{
    let done = if cur.len() == 0 {
        Seq::<Seq<char>>::empty()
    } else {
        seq![cur]
    };
    if s.len() == 0 {
        done
    } else if is_blank(s[0]) {
        done + blank_words_from(s.drop_first(), seq![])
    } else {
        blank_words_from(s.drop_first(), cur.push(s[0]))
    }
}

/// The blank-separated words of `s`.
pub open spec fn blank_words(s: Seq<char>) -> Seq<Seq<char>> {
    blank_words_from(s, seq![])
}

/// No character of `s` quotes or escapes.
pub open spec fn unquoted(s: Seq<char>) -> bool {
    forall|i: int| 0 <= i < s.len() ==> !is_quoting(#[trigger] s[i])
}

/// Calls `shlex::split`. The contract claims that the result is the fixed function `shell_words`
/// of the line, and, as `shlex`'s source shows for a single line whose text before its comment
/// holds no quote or backslash, that the words are then the blank-separated runs of that text (a
/// `#` inside a word is an ordinary character).
#[verifier::external_body]
fn shlex_split(line: &str) -> (r: Option<Vec<String>>)
    ensures
        match r {
            Some(v) => shell_words(line@) == Some(views(v@)),
            None => shell_words(line@) is None,
        },
        match r {
            Some(v) => !line@.contains('\n') && unquoted(uncommented(line@)) ==> views(v@)
                == blank_words(uncommented(line@)),
            None => line@.contains('\n') || !unquoted(uncommented(line@)),
        },
{
    shlex::split(line)
}

/// The views of a sequence of word lists.
pub open spec fn views2(v: Seq<Vec<String>>) -> Seq<Seq<Seq<char>>> {
    v.map_values(|x: Vec<String>| views(x@))
}

/// The views of a sequence of lists of word lists.
pub open spec fn views3(v: Seq<Vec<Vec<String>>>) -> Seq<Seq<Seq<Seq<char>>>> {
    v.map_values(|x: Vec<Vec<String>>| views2(x@))
}

/// `words.split(|w| seps.contains(w))`: the runs between separator words, empty runs included,
/// the run in progress being `cur`.
pub open spec fn split_on(words: Seq<Seq<char>>, cur: Seq<Seq<char>>, seps: Seq<Seq<char>>) -> Seq<
    Seq<Seq<char>>,
>
    decreases words.len(),
{
    if words.len() == 0 {
        seq![cur]
    } else if seps.contains(words[0]) {
        seq![cur] + split_on(words.drop_first(), seq![], seps)
    } else {
        split_on(words.drop_first(), cur.push(words[0]), seps)
    }
}

/// The words that separate command groups.
pub open spec fn group_separators() -> Seq<Seq<char>> {
    seq!["||"@, "&&"@, ";"@]
}

/// The word that separates the commands of a pipeline.
pub open spec fn pipe_separators() -> Seq<Seq<char>> {
    seq!["|"@]
}

fn is_one_of(w: &String, seps: &Vec<String>) -> (b: bool)
    ensures
        b == views(seps@).contains(w@),
{
    let mut i: usize = 0;
    while i < seps.len()
        invariant
            i <= seps.len(),
            forall|j: int| 0 <= j < i ==> seps@[j]@ != w@,
        decreases seps.len() - i,
    {
        if *w == seps[i] {
            assert(views(seps@)[i as int] == w@);
            return true;
        }
        i = i + 1;
    }
    proof {
        if views(seps@).contains(w@) {
            let j = choose|j: int| 0 <= j < views(seps@).len() && views(seps@)[j] == w@;
            assert(seps@[j]@ == w@);
        }
    }
    false
}

/// Splits `words` at every separator word.
fn split_words(words: &Vec<String>, seps: &Vec<String>) -> (r: Vec<Vec<String>>)
    ensures
        views2(r@) == split_on(views(words@), seq![], views(seps@)),
{
    let mut done: Vec<Vec<String>> = Vec::new();
    let mut cur: Vec<String> = Vec::new();
    let mut i: usize = 0;
    let ghost ws = views(words@);
    assert(ws.skip(0) =~= ws);
    assert(views(cur@) =~= Seq::<Seq<char>>::empty());
    assert(views2(done@) =~= Seq::<Seq<Seq<char>>>::empty());
    while i < words.len()
        invariant
            i <= words.len(),
            ws == views(words@),
            views2(done@) + split_on(ws.skip(i as int), views(cur@), views(seps@)) == split_on(
                ws,
                seq![],
                views(seps@),
            ),
        decreases words.len() - i,
    {
        let ghost rest = ws.skip(i as int);
        assert(rest.drop_first() =~= ws.skip(i + 1));
        assert(rest[0] == words@[i as int]@);
        let ghost before = views2(done@);
        if is_one_of(&words[i], seps) {
            let ghost c = views(cur@);
            let mut fresh: Vec<String> = Vec::new();
            std::mem::swap(&mut fresh, &mut cur);
            done.push(fresh);
            assert(views2(done@) =~= before.push(c));
            assert(views(cur@) =~= Seq::<Seq<char>>::empty());
            assert(views2(done@) + split_on(ws.skip(i + 1), views(cur@), views(seps@)) =~= before
                + split_on(rest, c, views(seps@)));
        } else {
            let ghost c = views(cur@);
            let w = words[i].clone();
            proof {
                lemma_views_push(cur@, w);
            }
            cur.push(w);
            assert(views(cur@) =~= c.push(rest[0]));
        }
        i = i + 1;
    }
    let ghost c = views(cur@);
    let ghost before = views2(done@);
    done.push(cur);
    assert(ws.skip(words.len() as int) =~= Seq::<Seq<char>>::empty());
    assert(views2(done@) =~= before + split_on(
        ws.skip(words.len() as int),
        c,
        views(seps@),
    ));
    done
}

/// What a command line stands for.
pub enum CommandLine {
    /// Nothing to run: a blank line or a comment.
    Empty,
    /// The quoting is broken; the status to report.
    Invalid(CommandStatus),
    /// Groups (separated by `;`, `&&` or `||`) of pipelines (separated by `|`) of commands (word
    /// lists).
    Run(Vec<Vec<Vec<String>>>),
}

/// The view of a command line.
pub enum CommandLineView {
    Empty,
    Invalid(StatusView),
    Run(Seq<Seq<Seq<Seq<char>>>>),
}

impl View for CommandLine {
    type V = CommandLineView;

    open spec fn view(&self) -> CommandLineView {
        match self {
            CommandLine::Empty => CommandLineView::Empty,
            CommandLine::Invalid(s) => CommandLineView::Invalid(s@),
            CommandLine::Run(g) => CommandLineView::Run(views3(g@)),
        }
    }
}

/// The groups of pipelines of commands that a list of words makes.
pub open spec fn groups_of(words: Seq<Seq<char>>) -> Seq<Seq<Seq<Seq<char>>>> {
    split_on(words, seq![], group_separators()).map_values(
        |g: Seq<Seq<char>>| split_on(g, seq![], pipe_separators()),
    )
}

/// What the line `raw` stands for.
pub open spec fn command_line(raw: Seq<char>) -> CommandLineView {
    if trim(raw).len() == 0 || starts_with(trim(raw), "#"@) {
        CommandLineView::Empty
    } else {
        match shell_words(raw) {
            None => CommandLineView::Invalid(
                StatusView::Message("syntax error '"@ + raw + "'"@, 1),
            ),
            Some(ws) => CommandLineView::Run(groups_of(ws)),
        }
    }
}

/// A single line that has commands to run and no quote or backslash before its comment: its
/// words are simply its blank-separated runs.
pub open spec fn plain_line(raw: Seq<char>) -> bool {
    &&& !raw.contains('\n')
    &&& unquoted(uncommented(raw))
    &&& trim(raw).len() > 0
    &&& !starts_with(trim(raw), "#"@)
}

fn strings(a: &str, b: &str, c: &str) -> (r: Vec<String>)
    ensures
        views(r@) == seq![a@, b@, c@],
{
    let mut r: Vec<String> = Vec::new();
    r.push(a.to_string());
    r.push(b.to_string());
    r.push(c.to_string());
    assert(views(r@) =~= seq![a@, b@, c@]);
    r
}

/// Reads a command line: splits the words (dropping the comment), the groups and the pipelines.
pub fn parse_command_line(raw: &str) -> (r: CommandLine)
    ensures
        r@ == command_line(raw@),
        plain_line(raw@) ==> r@ == CommandLineView::Run(groups_of(blank_words(uncommented(raw@)))),
{
    let t = trim_str(raw);
    if t.as_str().is_empty() || starts_with_str(t.as_str(), "#") {
        return CommandLine::Empty;
    }
    match shlex_split(raw) {
        None => {
            let mut msg = "syntax error '".to_string();
            append_str(&mut msg, raw);
            append_str(&mut msg, "'");
            CommandLine::Invalid(CommandStatus::Message(msg, 1))
        },
        Some(words) => {
            let gseps = strings("||", "&&", ";");
            let mut pseps: Vec<String> = Vec::new();
            pseps.push("|".to_string());
            assert(views(pseps@) =~= pipe_separators());
            let groups = split_words(&words, &gseps);
            let mut out: Vec<Vec<Vec<String>>> = Vec::new();
            let mut i: usize = 0;
            while i < groups.len()
                invariant
                    i <= groups.len(),
                    out@.len() == i,
                    views(pseps@) == pipe_separators(),
                    views3(out@) == views2(groups@).take(i as int).map_values(
                        |g: Seq<Seq<char>>| split_on(g, seq![], pipe_separators()),
                    ),
                decreases groups.len() - i,
            {
                let pipeline = split_words(&groups[i], &pseps);
                let ghost before = views3(out@);
                let ghost pv = views2(pipeline@);
                assert(views2(groups@)[i as int] == views(groups@[i as int]@));
                out.push(pipeline);
                assert(views3(out@) =~= before.push(pv));
                i = i + 1;
                assert(views3(out@) =~= views2(groups@).take(i as int).map_values(
                    |g: Seq<Seq<char>>| split_on(g, seq![], pipe_separators()),
                ));
            }
            assert(views2(groups@).take(groups.len() as int) =~= views2(groups@));
            CommandLine::Run(out)
        },
    }
}

/// The program and arguments that the words of a command come to once an alias of the first
/// word is replaced by its definition: the definition's first space-separated part is the
/// program, the rest of it gives leading arguments.
pub open spec fn resolved(words: Seq<Seq<char>>, aliases: Map<Seq<char>, Seq<char>>) -> (
    Seq<char>,
    Seq<Seq<char>>,
) {
    let cmd = words[0];
    let rest = words.drop_first();
    if aliases.contains_key(cmd) {
        let full = aliases[cmd];
        let parts = match split_once(full, " "@) {
            Some(p) => p,
            None => (full, Seq::<char>::empty()),
        };
        (parts.0, fields(parts.1, false) + rest)
    } else {
        (cmd, rest)
    }
}

/// Replaces an alias at the head of a command.
pub fn resolve_alias(words: &Vec<String>, aliases: &VarTable) -> (r: (String, Vec<String>))
    requires
        words.len() > 0,
    ensures
        (r.0@, views(r.1@)) == resolved(views(words@), aliases@),
{
    let mut rest: Vec<String> = Vec::new();
    let mut i: usize = 1;
    while i < words.len()
        invariant
            1 <= i <= words.len(),
            views(rest@) == views(words@).subrange(1, i as int),
        decreases words.len() - i,
    {
        let w = words[i].clone();
        proof {
            lemma_views_push(rest@, w);
        }
        rest.push(w);
        i = i + 1;
        assert(views(rest@) =~= views(words@).subrange(1, i as int));
    }
    assert(views(words@).subrange(1, words.len() as int) =~= views(words@).drop_first());
    match aliases.get(words[0].as_str()) {
        Some(full) => {
            let (cmd, tail) = match split_once_str(full.as_str(), " ") {
                Some(p) => p,
                None => (full.clone(), String::new()),
            };
            let mut args = split_fields(tail.as_str(), false);
            let ghost head = views(args@);
            let mut j: usize = 0;
            while j < rest.len()
                invariant
                    j <= rest.len(),
                    views(args@) == head + views(rest@).take(j as int),
                decreases rest.len() - j,
            {
                let w = rest[j].clone();
                proof {
                    lemma_views_push(args@, w);
                }
                args.push(w);
                j = j + 1;
                assert(views(args@) =~= head + views(rest@).take(j as int));
            }
            assert(views(rest@).take(rest.len() as int) =~= views(rest@));
            (cmd, args)
        },
        None => (words[0].clone(), rest),
    }
}

/// What `shellexpand::full` makes of `word` (`~` expanded to `home`, `$NAME` and `${NAME}` to the
/// values in `vars`).
pub uninterp spec fn expanded_word(word: Seq<char>, home: Seq<char>, vars: Map<Seq<char>, Seq<char>>) -> Seq<char>;

/// Calls `shellexpand::full_with_context_no_errors`, with `home` as the home directory and the
/// table as the variables. The contract claims that the result is the fixed function
/// `expanded_word` of the word, the home directory and the table's bindings.
#[verifier::external_body]
fn shellexpand_full(word: &str, home: &str, vars: &VarTable) -> (r: String)
    ensures
        r@ == expanded_word(word@, home@, vars@),
{
    shellexpand::full_with_context_no_errors(word, || Some(home), |name: &str| vars.lookup(name))
        .to_string()
}

/// An argument as the shell passes it on: expanded when it holds `$` or `~`.
pub open spec fn expanded_argument(word: Seq<char>, home: Seq<char>, vars: Map<Seq<char>, Seq<char>>) -> Seq<char> {
    if contains(word, "$"@) || contains(word, "~"@) {
        expanded_word(word, home, vars)
    } else {
        word
    }
}

/// The arguments as the shell passes them on.
pub open spec fn expanded_arguments(
    words: Seq<Seq<char>>,
    home: Seq<char>,
    vars: Map<Seq<char>, Seq<char>>,
) -> Seq<Seq<char>> {
    words.map_values(|w: Seq<char>| expanded_argument(w, home, vars))
}

/// Expands the arguments that hold `$` or `~`.
pub fn expand_arguments(words: &Vec<String>, home: &str, vars: &VarTable) -> (r: Vec<String>)
    ensures
        views(r@) == expanded_arguments(views(words@), home@, vars@),
{
    let mut r: Vec<String> = Vec::new();
    let mut i: usize = 0;
    while i < words.len()
        invariant
            i <= words.len(),
            views(r@) == expanded_arguments(views(words@), home@, vars@).take(i as int),
        decreases words.len() - i,
    {
        let w = &words[i];
        let x = if contains_str(w.as_str(), "$") || contains_str(w.as_str(), "~") {
            shellexpand_full(w.as_str(), home, vars)
        } else {
            w.clone()
        };
        proof {
            lemma_views_push(r@, x);
        }
        r.push(x);
        i = i + 1;
        assert(views(r@) =~= expanded_arguments(views(words@), home@, vars@).take(i as int));
    }
    assert(expanded_arguments(views(words@), home@, vars@).take(words.len() as int)
        =~= expanded_arguments(views(words@), home@, vars@));
    r
}


/// A word that the shell reads as it is written: not empty, without whitespace, quote or
/// backslash, and not starting with `#` (a `#` further in is part of it).
pub open spec fn plain_word(w: Seq<char>) -> bool {
    &&& w.len() > 0
    &&& w[0] != '#'
    &&& forall|i: int| 0 <= i < w.len() ==> !is_whitespace(#[trigger] w[i]) && !is_quoting(w[i])
}

/// The words written one after another with a single space between them.
pub open spec fn spaced(ws: Seq<Seq<char>>) -> Seq<char>
    decreases ws.len(),
{
    if ws.len() == 0 {
        seq![]
    } else if ws.len() == 1 {
        ws[0]
    } else {
        ws[0] + seq![' '] + spaced(ws.drop_first())
    }
}

proof fn lemma_word_uncommented(w: Seq<char>, t: Seq<char>, after_blank: bool)
    requires
        forall|i: int| 0 <= i < w.len() ==> !is_blank(#[trigger] w[i]),
        w.len() > 0 && after_blank ==> w[0] != '#',
    ensures
        uncommented_from(w + t, after_blank) == w + uncommented_from(
            t,
            if w.len() == 0 {
                after_blank
            } else {
                false
            },
        ),
    decreases w.len(),
{
    if w.len() > 0 {
        assert((w + t)[0] == w[0]);
        assert((w + t).drop_first() =~= w.drop_first() + t);
        lemma_word_uncommented(w.drop_first(), t, false);
        assert(w =~= seq![w[0]] + w.drop_first());
    } else {
        assert(w + t =~= t);
    }
}

proof fn lemma_word_blank_words(w: Seq<char>, t: Seq<char>, cur: Seq<char>)
    requires
        forall|i: int| 0 <= i < w.len() ==> !is_blank(#[trigger] w[i]),
    ensures
        blank_words_from(w + t, cur) == blank_words_from(t, cur + w),
    decreases w.len(),
{
    if w.len() > 0 {
        assert((w + t)[0] == w[0]);
        assert((w + t).drop_first() =~= w.drop_first() + t);
        lemma_word_blank_words(w.drop_first(), t, cur.push(w[0]));
        assert(cur.push(w[0]) + w.drop_first() =~= cur + w);
    } else {
        assert(w + t =~= t);
        assert(cur + w =~= cur);
    }
}

/// Reading spaced plain words, with the text `t` after them.
proof fn lemma_spaced_read(ws: Seq<Seq<char>>, t: Seq<char>)
    requires
        ws.len() > 0,
        forall|i: int| 0 <= i < ws.len() ==> plain_word(#[trigger] ws[i]),
    ensures
        uncommented(spaced(ws) + t) == spaced(ws) + uncommented_from(t, false),
        blank_words(spaced(ws) + t) == ws.drop_last() + blank_words_from(t, ws.last()),
    decreases ws.len(),
{
    let w = ws[0];
    assert(plain_word(w));
    assert forall|i: int| 0 <= i < w.len() implies !is_blank(#[trigger] w[i]) by {
        assert(!is_whitespace(w[i]));
    }
    if ws.len() == 1 {
        lemma_word_uncommented(w, t, true);
        lemma_word_blank_words(w, t, seq![]);
        assert(Seq::<char>::empty() + w =~= w);
        assert(ws.drop_last() =~= Seq::<Seq<char>>::empty());
    } else {
        let rest = ws.drop_first();
        assert forall|i: int| 0 <= i < rest.len() implies plain_word(#[trigger] rest[i]) by {
            assert(rest[i] == ws[i + 1]);
        }
        lemma_spaced_read(rest, t);
        let u = seq![' '] + spaced(rest) + t;
        assert(spaced(ws) + t =~= w + u);
        lemma_word_uncommented(w, u, true);
        assert(u[0] == ' ');
        assert(u.drop_first() =~= spaced(rest) + t);
        assert(uncommented_from(u, false) == seq![' '] + uncommented(spaced(rest) + t));
        assert(uncommented(spaced(ws) + t) =~= spaced(ws) + uncommented_from(t, false));
        lemma_word_blank_words(w, u, seq![]);
        assert(Seq::<char>::empty() + w =~= w);
        assert(blank_words_from(u, w) == seq![w] + blank_words(spaced(rest) + t));
        assert(ws.drop_last() =~= seq![w] + rest.drop_last());
        assert(ws.last() == rest.last());
        assert(blank_words(spaced(ws) + t) =~= ws.drop_last() + blank_words_from(t, ws.last()));
    }
}

/// The characters of spaced plain words are the words' characters and single spaces.
proof fn lemma_spaced_chars(ws: Seq<Seq<char>>)
    requires
        ws.len() > 0,
        forall|i: int| 0 <= i < ws.len() ==> plain_word(#[trigger] ws[i]),
    ensures
        spaced(ws).len() > 0,
        spaced(ws)[0] == ws[0][0],
        forall|i: int|
            0 <= i < spaced(ws).len() ==> #[trigger] spaced(ws)[i] == ' ' || (!is_whitespace(
                spaced(ws)[i],
            ) && !is_quoting(spaced(ws)[i])),
    decreases ws.len(),
{
    let w = ws[0];
    assert(plain_word(w));
    if ws.len() > 1 {
        let rest = ws.drop_first();
        assert forall|i: int| 0 <= i < rest.len() implies plain_word(#[trigger] rest[i]) by {
            assert(rest[i] == ws[i + 1]);
        }
        lemma_spaced_chars(rest);
        let s = spaced(ws);
        assert(s == w + seq![' '] + spaced(rest));
        assert forall|i: int| 0 <= i < s.len() implies #[trigger] s[i] == ' ' || (!is_whitespace(
            s[i],
        ) && !is_quoting(s[i])) by {
            if i < w.len() {
                assert(s[i] == w[i]);
            } else if i > w.len() {
                assert(s[i] == spaced(rest)[i - w.len() - 1]);
            }
        }
    }
}

/// A text that starts with a character other than whitespace keeps that character first when
/// trimmed.
proof fn lemma_trim_first(s: Seq<char>)
    requires
        s.len() > 0,
        !is_whitespace(s[0]),
    ensures
        trim(s).len() > 0,
        trim(s)[0] == s[0],
{
    assert(trim_start(s) == s);
    lemma_trim_end(s);
    if trailing_ws(s) == s.len() {
        assert(is_whitespace(s[0]));
    }
}

/// Plain words written with single spaces, then the text `t`: the line is read plainly when `t`
/// holds no newline and no quote or backslash before its comment.
proof fn lemma_spaced_line(ws: Seq<Seq<char>>, t: Seq<char>)
    requires
        ws.len() > 0,
        forall|i: int| 0 <= i < ws.len() ==> plain_word(#[trigger] ws[i]),
        !t.contains('\n'),
        unquoted(uncommented_from(t, false)),
    ensures
        plain_line(spaced(ws) + t),
{
    lemma_spaced_chars(ws);
    lemma_spaced_read(ws, t);
    let s = spaced(ws);
    let line = s + t;
    assert(plain_word(ws[0]));
    assert(line[0] == ws[0][0]);
    lemma_trim_first(line);
    assert(!starts_with(trim(line), "#"@)) by {
        reveal_strlit("#");
        if starts_with(trim(line), "#"@) {
            assert(trim(line).take(1)[0] == trim(line)[0]);
        }
    }
    assert(!line.contains('\n')) by {
        if line.contains('\n') {
            let j = choose|j: int| 0 <= j < line.len() && line[j] == '\n';
            if j < s.len() {
                assert(s[j] == line[j]);
            } else {
                assert(t[j - s.len()] == line[j]);
            }
        }
    }
    let u = uncommented(line);
    assert(u == s + uncommented_from(t, false));
    assert forall|i: int| 0 <= i < u.len() implies !is_quoting(#[trigger] u[i]) by {
        if i < s.len() {
            assert(u[i] == s[i]);
        } else {
            assert(u[i] == uncommented_from(t, false)[i - s.len()]);
        }
    }
}

/// Plain words with single spaces between them are read as exactly those words: a `#` that
/// follows a non-blank character inside a word is kept as part of the word.
pub proof fn law_plain_words_read(ws: Seq<Seq<char>>)
    requires
        ws.len() > 0,
        forall|i: int| 0 <= i < ws.len() ==> plain_word(#[trigger] ws[i]),
    ensures
        plain_line(spaced(ws)),
        blank_words(uncommented(spaced(ws))) == ws,
{
    let t = Seq::<char>::empty();
    assert(spaced(ws) + t =~= spaced(ws));
    assert(uncommented_from(t, false) =~= t);
    lemma_spaced_line(ws, t);
    lemma_spaced_read(ws, t);
    lemma_spaced_read(ws, uncommented_from(t, false));
    assert(blank_words_from(t, ws.last()) == seq![ws.last()]);
    assert(ws.drop_last() + seq![ws.last()] =~= ws);
}

/// A `#` that begins a word starts a comment: whatever follows it on the line changes nothing.
pub proof fn law_comment_dropped(ws: Seq<Seq<char>>, rest: Seq<char>)
    requires
        ws.len() > 0,
        forall|i: int| 0 <= i < ws.len() ==> plain_word(#[trigger] ws[i]),
        !rest.contains('\n'),
    ensures
        plain_line(spaced(ws) + seq![' ', '#'] + rest),
        blank_words(uncommented(spaced(ws) + seq![' ', '#'] + rest)) == ws,
{
    let t = seq![' ', '#'] + rest;
    assert(spaced(ws) + seq![' ', '#'] + rest =~= spaced(ws) + t);
    assert(t.drop_first() =~= seq!['#'] + rest);
    assert(uncommented_from(seq!['#'] + rest, true) =~= Seq::<char>::empty());
    assert(uncommented_from(t, false) =~= seq![' ']);
    assert(!t.contains('\n')) by {
        if t.contains('\n') {
            let j = choose|j: int| 0 <= j < t.len() && t[j] == '\n';
            assert(rest[j - 2] == t[j]);
        }
    }
    assert(unquoted(seq![' ']));
    lemma_spaced_line(ws, t);
    lemma_spaced_read(ws, t);
    lemma_spaced_read(ws, seq![' ']);
    assert(spaced(ws) + uncommented_from(t, false) =~= spaced(ws) + seq![' ']);
    assert(seq![' '].drop_first() =~= Seq::<char>::empty());
    assert(plain_word(ws[ws.len() - 1]));
    assert(blank_words_from(Seq::<char>::empty(), Seq::<char>::empty()) =~= Seq::<Seq<char>>::empty());
    assert(blank_words_from(seq![' '], ws.last()) =~= seq![ws.last()]);
    assert(ws.drop_last() + seq![ws.last()] =~= ws);
}

/// A command whose first word is no alias keeps its program and arguments.
pub proof fn law_non_alias_unchanged(words: Seq<Seq<char>>, aliases: Map<Seq<char>, Seq<char>>)
    requires
        words.len() > 0,
        !aliases.contains_key(words[0]),
    ensures
        resolved(words, aliases) == (words[0], words.drop_first()),
{
}

/// Arguments without `$` and `~` are passed on as they are.
pub proof fn law_plain_arguments_kept(
    words: Seq<Seq<char>>,
    home: Seq<char>,
    vars: Map<Seq<char>, Seq<char>>,
)
    requires
        forall|i: int|
            0 <= i < words.len() ==> !contains(#[trigger] words[i], "$"@) && !contains(
                words[i],
                "~"@,
            ),
    ensures
        expanded_arguments(words, home, vars) == words,
{
    assert(expanded_arguments(words, home, vars) =~= words);
}

} // verus!
