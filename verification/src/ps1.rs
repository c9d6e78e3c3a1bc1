//! Expansion of the PS1 prompt: backslash escapes and `$(command)` substitutions.
//!
//! The expansion walks the characters of the prompt template while it edits a copy of it in
//! place; positions into the copy are byte offsets, kept in step by two counters. Running a `$(command)` is left to the host: the expansion stops, hands out the
//! command, and goes on with its output.

use std::fmt::Write;
use vstd::prelude::*;
use crate::text::{
    fields, split_fields, split_once, split_once_str, views,
    before_char, chars_of, contains, push_char, replace_all, replace_str, string_of,
    trim, trim_str, contains_str,
};

verus! {

broadcast use vstd::string::group_string_axioms;

// ---------------------------------------------------------------------------------------------
// Byte positions in a character sequence
// ---------------------------------------------------------------------------------------------

/// The number of bytes that the UTF-8 encoding of `c` takes.
pub open spec fn utf8_width(c: char) -> nat {
    let n = c as u32;
    if n < 0x80 {
        1
    } else if n < 0x800 {
        2
    } else if n < 0x10000 {
        3
    } else {
        4
    }
}

/// The number of bytes of the UTF-8 encoding of `s` (what `str::len` returns).
pub open spec fn byte_len(s: Seq<char>) -> nat
    decreases s.len(),
{
    if s.len() == 0 {
        0
    } else {
        byte_len(s.drop_last()) + utf8_width(s.last())
    }
}

/// The character index, at or after `k` (which starts at byte `acc`), where byte offset `b` of `s`
/// falls on a character boundary.
pub open spec fn boundary_from(s: Seq<char>, b: int, k: int, acc: int) -> Option<int>
    decreases s.len() - k,
{
    if acc == b {
        Some(k)
    } else if acc > b || k < 0 || k >= s.len() {
        None
    } else {
        boundary_from(s, b, k + 1, acc + utf8_width(s[k]))
    }
}

/// The character index at byte offset `b` of `s`, when `b` is a character boundary (the end
/// included).
pub open spec fn char_index_at(s: Seq<char>, b: int) -> Option<int> {
    boundary_from(s, b, 0, 0)
}

/// `str::get(a..b)` on the text `s`, with byte offsets.
pub open spec fn byte_slice(s: Seq<char>, a: int, b: int) -> Option<Seq<char>> {
    match (char_index_at(s, a), char_index_at(s, b)) {
        (Some(x), Some(y)) => if a <= b {
            Some(s.subrange(x, y))
        } else {
            None
        },
        _ => None,
    }
}

/// `String::replace_range(a..b, rep)` on the text `s`, with byte offsets; `None` where that
/// call panics.
pub open spec fn replace_bytes(s: Seq<char>, a: int, b: int, rep: Seq<char>) -> Option<Seq<char>> {
    match (char_index_at(s, a), char_index_at(s, b)) {
        (Some(x), Some(y)) => if a <= b {
            Some(s.take(x) + rep + s.skip(y))
        } else {
            None
        },
        _ => None,
    }
}

pub proof fn lemma_boundary_from_range(s: Seq<char>, b: int, k: int, acc: int)
    requires
        0 <= k <= s.len(),
    ensures
        boundary_from(s, b, k, acc) matches Some(x) ==> k <= x <= s.len(),
    decreases s.len() - k,
{
    if acc == b {
    } else if acc > b || k >= s.len() {
    } else {
        lemma_boundary_from_range(s, b, k + 1, acc + utf8_width(s[k]));
    }
}

fn utf8_width_of(c: char) -> (w: usize)
    ensures
        w == utf8_width(c),
{
    let n = c as u32;
    if n < 0x80 {
        1
    } else if n < 0x800 {
        2
    } else if n < 0x10000 {
        3
    } else {
        4
    }
}

/// `str::len` of a text given as characters.
pub fn byte_len_of(s: &Vec<char>) -> (n: u128)
    ensures
        n == byte_len(s@),
{
    let mut n: u128 = 0;
    let mut i: usize = 0;
    while i < s.len()
        invariant
            i <= s.len(),
            n == byte_len(s@.take(i as int)),
            n <= 4 * i,
        decreases s.len() - i,
    {
        n = n + utf8_width_of(s[i]) as u128;
        i = i + 1;
        assert(s@.take(i as int).drop_last() =~= s@.take(i - 1));
    }
    assert(s@.take(s.len() as int) =~= s@);
    n
}

/// The character index at byte offset `b` of `s`.
fn char_index_at_exec(s: &Vec<char>, b: usize) -> (r: Option<usize>)
    ensures
        r matches Some(x) ==> char_index_at(s@, b as int) == Some(x as int),
        r is None ==> char_index_at(s@, b as int) is None,
{
    let mut k: usize = 0;
    let mut acc: u128 = 0;
    while acc < b as u128 && k < s.len()
        invariant
            k <= s.len(),
            acc <= b as int + 4,
            char_index_at(s@, b as int) == boundary_from(s@, b as int, k as int, acc as int),
        decreases s.len() - k,
    {
        acc = acc + utf8_width_of(s[k]) as u128;
        k = k + 1;
    }
    if acc == b as u128 {
        Some(k)
    } else {
        None
    }
}

/// `v[from..to]` as a vector.
fn sub_chars(v: &Vec<char>, from: usize, to: usize) -> (r: Vec<char>)
    requires
        from <= to <= v.len(),
    ensures
        r@ == v@.subrange(from as int, to as int),
{
    let mut r: Vec<char> = Vec::new();
    let mut i = from;
    while i < to
        invariant
            from <= i <= to <= v.len(),
            r@ == v@.subrange(from as int, i as int),
        decreases to - i,
    {
        r.push(v[i]);
        i = i + 1;
        assert(r@ =~= v@.subrange(from as int, i as int));
    }
    r
}

/// `v[..x] + rep + v[y..]`.
fn splice_chars(v: &Vec<char>, x: usize, y: usize, rep: &Vec<char>) -> (r: Vec<char>)
    requires
        x <= v.len(),
        y <= v.len(),
    ensures
        r@ == v@.take(x as int) + rep@ + v@.skip(y as int),
{
    let mut r = sub_chars(v, 0, x);
    let mut i: usize = 0;
    while i < rep.len()
        invariant
            i <= rep.len(),
            x <= v.len(),
            r@ == v@.take(x as int) + rep@.take(i as int),
        decreases rep.len() - i,
    {
        r.push(rep[i]);
        i = i + 1;
        assert(r@ =~= v@.take(x as int) + rep@.take(i as int));
    }
    let ghost mid = r@;
    let mut j = y;
    while j < v.len()
        invariant
            y <= j <= v.len(),
            mid == v@.take(x as int) + rep@,
            r@ == mid + v@.subrange(y as int, j as int),
        decreases v.len() - j,
    {
        r.push(v[j]);
        j = j + 1;
        assert(r@ =~= mid + v@.subrange(y as int, j as int));
    }
    assert(v@.take(x as int) =~= v@.subrange(0, x as int));
    assert(rep@.take(rep.len() as int) =~= rep@);
    assert(v@.subrange(y as int, v.len() as int) =~= v@.skip(y as int));
    r
}

/// `str::get(a..b)` on characters, with byte offsets.
fn byte_slice_exec(s: &Vec<char>, a: usize, b: usize) -> (r: Option<Vec<char>>)
    ensures
        r matches Some(t) ==> byte_slice(s@, a as int, b as int) == Some(t@),
        r is None ==> byte_slice(s@, a as int, b as int) is None,
{
    let x = char_index_at_exec(s, a);
    let y = char_index_at_exec(s, b);
    match (x, y) {
        (Some(x), Some(y)) => {
            if a <= b {
                proof {
                    lemma_boundary_from_range(s@, a as int, 0, 0);
                    lemma_boundary_from_range(s@, b as int, 0, 0);
                    lemma_boundary_monotone(s@, a as int, b as int);
                }
                Some(sub_chars(s, x, y))
            } else {
                None
            }
        },
        _ => None,
    }
}

/// `String::replace_range(a..b, rep)` on characters, with byte offsets; `None` where it panics.
fn replace_bytes_exec(s: &Vec<char>, a: usize, b: usize, rep: &Vec<char>) -> (r: Option<Vec<char>>)
    ensures
        r matches Some(t) ==> replace_bytes(s@, a as int, b as int, rep@) == Some(t@),
        r is None ==> replace_bytes(s@, a as int, b as int, rep@) is None,
{
    let x = char_index_at_exec(s, a);
    let y = char_index_at_exec(s, b);
    match (x, y) {
        (Some(x), Some(y)) => {
            if a <= b {
                proof {
                    lemma_boundary_from_range(s@, a as int, 0, 0);
                    lemma_boundary_from_range(s@, b as int, 0, 0);
                }
                Some(splice_chars(s, x, y, rep))
            } else {
                None
            }
        },
        _ => None,
    }
}

pub proof fn lemma_boundary_from_monotone(s: Seq<char>, a: int, b: int, k: int, acc: int)
    requires
        0 <= k <= s.len(),
        acc <= a <= b,
        boundary_from(s, a, k, acc) is Some,
        boundary_from(s, b, k, acc) is Some,
    ensures
        boundary_from(s, a, k, acc)->0 <= boundary_from(s, b, k, acc)->0,
    decreases s.len() - k,
{
    lemma_boundary_from_range(s, a, k, acc);
    lemma_boundary_from_range(s, b, k, acc);
    if acc == a {
    } else {
        lemma_boundary_from_monotone(s, a, b, k + 1, acc + utf8_width(s[k]));
    }
}

pub proof fn lemma_boundary_monotone(s: Seq<char>, a: int, b: int)
    requires
        0 <= a <= b,
        char_index_at(s, a) is Some,
        char_index_at(s, b) is Some,
    ensures
        char_index_at(s, a)->0 <= char_index_at(s, b)->0,
{
    lemma_boundary_from_monotone(s, a, b, 0, 0);
}


// ---------------------------------------------------------------------------------------------
// What the escapes stand for
// ---------------------------------------------------------------------------------------------

/// The view of an optional string.
pub open spec fn opt_view(o: Option<String>) -> Option<Seq<char>> {
    match o {
        Some(s) => Some(s@),
        None => None,
    }
}

/// The values that the prompt escapes stand for. A `None` marks a value that could not be had:
/// the escape that needs it aborts the expansion.
pub struct Ps1Context {
    /// `\d`: the date, as `%a %b %d`.
    pub date: Option<String>,
    /// `\t`: the time, as `%T`.
    pub time_24: Option<String>,
    /// `\T`: the time, as `%r`.
    pub time_12: Option<String>,
    /// `\@`: the time, as `%I:%M %p`.
    pub time_am_pm: Option<String>,
    /// `\A`: the time, as `%R`.
    pub time_hm: Option<String>,
    /// `\H` (and, up to its first dot, `\h`): the host name.
    pub hostname: String,
    /// `\j`: the number of jobs.
    pub jobs: String,
    /// `\l`: the base name of the terminal device.
    pub tty_name: Option<String>,
    /// `\s`: the base name of the shell.
    pub shell_name: Option<String>,
    /// `\u`: the user name.
    pub user: String,
    /// `\w`: the working directory.
    pub cwd_display: String,
    /// `\W`: the base name of the working directory, `~` for the home directory.
    pub cwd_base: Option<String>,
    /// `\!`: the history number.
    pub history_number: String,
    /// `\#`: the command number.
    pub line_number: String,
    /// `\$`: `#` for the superuser, else `$`.
    pub prompt_sign: String,
}

/// The view of a prompt context.
pub struct Ps1ContextView {
    pub date: Option<Seq<char>>,
    pub time_24: Option<Seq<char>>,
    pub time_12: Option<Seq<char>>,
    pub time_am_pm: Option<Seq<char>>,
    pub time_hm: Option<Seq<char>>,
    pub hostname: Seq<char>,
    pub jobs: Seq<char>,
    pub tty_name: Option<Seq<char>>,
    pub shell_name: Option<Seq<char>>,
    pub user: Seq<char>,
    pub cwd_display: Seq<char>,
    pub cwd_base: Option<Seq<char>>,
    pub history_number: Seq<char>,
    pub line_number: Seq<char>,
    pub prompt_sign: Seq<char>,
}

impl View for Ps1Context {
    type V = Ps1ContextView;

    open spec fn view(&self) -> Ps1ContextView {
        Ps1ContextView {
            date: opt_view(self.date),
            time_24: opt_view(self.time_24),
            time_12: opt_view(self.time_12),
            time_am_pm: opt_view(self.time_am_pm),
            time_hm: opt_view(self.time_hm),
            hostname: self.hostname@,
            jobs: self.jobs@,
            tty_name: opt_view(self.tty_name),
            shell_name: opt_view(self.shell_name),
            user: self.user@,
            cwd_display: self.cwd_display@,
            cwd_base: opt_view(self.cwd_base),
            history_number: self.history_number@,
            line_number: self.line_number@,
            prompt_sign: self.prompt_sign@,
        }
    }
}

/// What `\` followed by `next` turns into: `None` when it is no escape (the text stays), else the
/// replacement, itself `None` when its value could not be had.
pub open spec fn replacement(ctx: Ps1ContextView, next: char) -> Option<Option<Seq<char>>> {
    if next == 'a' {
        Some(Some(seq!['\x07']))
    } else if next == 'd' {
        Some(ctx.date)
    } else if next == 'e' {
        Some(Some(seq!['\x1B']))
    } else if next == 'h' {
        Some(Some(before_char(ctx.hostname, '.')))
    } else if next == 'H' {
        Some(Some(ctx.hostname))
    } else if next == 'j' {
        Some(Some(ctx.jobs))
    } else if next == 'l' {
        Some(ctx.tty_name)
    } else if next == 'n' {
        Some(Some(seq!['\n']))
    } else if next == 'r' {
        Some(Some(seq!['\r']))
    } else if next == 's' {
        Some(ctx.shell_name)
    } else if next == 't' {
        Some(ctx.time_24)
    } else if next == 'T' {
        Some(ctx.time_12)
    } else if next == '@' {
        Some(ctx.time_am_pm)
    } else if next == 'A' {
        Some(ctx.time_hm)
    } else if next == 'u' {
        Some(Some(ctx.user))
    } else if next == 'w' {
        Some(Some(ctx.cwd_display))
    } else if next == 'W' {
        Some(ctx.cwd_base)
    } else if next == '!' {
        Some(Some(ctx.history_number))
    } else if next == '#' {
        Some(Some(ctx.line_number))
    } else if next == '$' {
        Some(Some(ctx.prompt_sign))
    } else if next == '\\' {
        Some(Some(seq!['\\']))
    } else if next == '[' || next == ']' {
        Some(Some(seq![]))
    } else {
        None
    }
}

fn opt_chars(o: &Option<String>) -> (r: Option<Vec<char>>)
    ensures
        r matches Some(v) ==> opt_view(*o) == Some(v@),
        r is None ==> o is None,
{
    match o {
        Some(s) => Some(chars_of(s.as_str())),
        None => None,
    }
}

fn one_char(c: char) -> (r: Vec<char>)
    ensures
        r@ == seq![c],
{
    let mut r: Vec<char> = Vec::new();
    r.push(c);
    assert(r@ =~= seq![c]);
    r
}

fn replacement_exec(ctx: &Ps1Context, next: char) -> (r: Option<Option<Vec<char>>>)
    ensures
        match r {
            None => replacement(ctx@, next) is None,
            Some(None) => replacement(ctx@, next) == Some(None::<Seq<char>>),
            Some(Some(v)) => replacement(ctx@, next) == Some(Some(v@)),
        },
{
    if next == 'a' {
        Some(Some(one_char('\x07')))
    } else if next == 'd' {
        Some(opt_chars(&ctx.date))
    } else if next == 'e' {
        Some(Some(one_char('\x1B')))
    } else if next == 'h' {
        let h = crate::text::before_char_str(ctx.hostname.as_str(), '.');
        Some(Some(chars_of(h.as_str())))
    } else if next == 'H' {
        Some(Some(chars_of(ctx.hostname.as_str())))
    } else if next == 'j' {
        Some(Some(chars_of(ctx.jobs.as_str())))
    } else if next == 'l' {
        Some(opt_chars(&ctx.tty_name))
    } else if next == 'n' {
        Some(Some(one_char('\n')))
    } else if next == 'r' {
        Some(Some(one_char('\r')))
    } else if next == 's' {
        Some(opt_chars(&ctx.shell_name))
    } else if next == 't' {
        Some(opt_chars(&ctx.time_24))
    } else if next == 'T' {
        Some(opt_chars(&ctx.time_12))
    } else if next == '@' {
        Some(opt_chars(&ctx.time_am_pm))
    } else if next == 'A' {
        Some(opt_chars(&ctx.time_hm))
    } else if next == 'u' {
        Some(Some(chars_of(ctx.user.as_str())))
    } else if next == 'w' {
        Some(Some(chars_of(ctx.cwd_display.as_str())))
    } else if next == 'W' {
        Some(opt_chars(&ctx.cwd_base))
    } else if next == '!' {
        Some(Some(chars_of(ctx.history_number.as_str())))
    } else if next == '#' {
        Some(Some(chars_of(ctx.line_number.as_str())))
    } else if next == '$' {
        Some(Some(chars_of(ctx.prompt_sign.as_str())))
    } else if next == '\\' {
        Some(Some(one_char('\\')))
    } else if next == '[' || next == ']' {
        let v: Vec<char> = Vec::new();
        assert(v@ =~= Seq::<char>::empty());
        Some(Some(v))
    } else {
        None
    }
}


// ---------------------------------------------------------------------------------------------
// The expansion as a sequence of steps
// ---------------------------------------------------------------------------------------------

/// The value fits a `usize`: arithmetic that leaves this range aborts the shell.
pub open spec fn fits(x: int) -> bool {
    0 <= x <= usize::MAX
}

/// Where an expansion stands.
pub enum Ps1PhaseView {
    /// Walking the template.
    Scanning,
    /// Waiting for the output of `command`, whose `)` is at index `end` of the template.
    Awaiting(int, Seq<char>),
    /// Finished; the text is the expanded prompt.
    Done,
    /// The shell would have aborted.
    Failed,
}

/// The state of an expansion: the template, the text being edited, the next template index,
/// the byte counters that map template positions into the text, and the `$(` tracking.
pub struct Ps1State {
    pub src: Seq<char>,
    pub buf: Seq<char>,
    pub i: int,
    pub delay: int,
    pub undelay: int,
    pub is_dollar: bool,
    pub is_command: bool,
    pub command_start: int,
    pub phase: Ps1PhaseView,
}

/// The state before the first step.
pub open spec fn ps1_start(src: Seq<char>) -> Ps1State {
    Ps1State {
        src,
        buf: src,
        i: 0,
        delay: 0,
        undelay: 0,
        is_dollar: false,
        is_command: false,
        command_start: 0,
        phase: Ps1PhaseView::Scanning,
    }
}

/// The state after a failure.
pub open spec fn failed(s: Ps1State) -> Ps1State {
    Ps1State { phase: Ps1PhaseView::Failed, ..s }
}

/// The counters after the replacement `rep` (of `n` bytes) took the place of a two-character
/// escape: longer replacements add to `delay`, shorter ones to `undelay`.
pub open spec fn after_replacement(s: Ps1State, buf: Seq<char>, n: int) -> Ps1State {
    if n >= 2 {
        if fits(s.delay + (n - 2)) {
            Ps1State { buf, delay: s.delay + (n - 2), ..s }
        } else {
            failed(s)
        }
    } else if n == 1 {
        if fits(s.undelay + 1) {
            Ps1State { buf, undelay: s.undelay + 1, ..s }
        } else {
            failed(s)
        }
    } else {
        if fits(s.undelay + 2) {
            Ps1State { buf, undelay: s.undelay + 2, ..s }
        } else {
            failed(s)
        }
    }
}

/// The escape `\` + `next` at template index `s.i` (`s1` is the state with the index advanced).
pub open spec fn escape_step(s: Ps1State, s1: Ps1State, rep: Seq<char>) -> Ps1State {
    let p0 = s.i + s.delay;
    let start = p0 - s.undelay;
    let e0 = p0 + 2;
    let end = e0 - s.undelay;
    if !fits(p0) || !fits(start) || !fits(e0) || !fits(end) {
        failed(s1)
    } else {
        match replace_bytes(s.buf, start, end, rep) {
            None => failed(s1),
            Some(nb) => after_replacement(s1, nb, byte_len(rep) as int),
        }
    }
}

/// One character of the template.
pub open spec fn ps1_step(s: Ps1State, ctx: Ps1ContextView) -> Ps1State {
    let c = s.src[s.i];
    let s1 = Ps1State { i: s.i + 1, ..s };
    if c != '\\' {
        if c == ')' && s.is_command {
            let a0 = s.command_start + s.delay;
            let a1 = a0 - s.undelay;
            let a = a1 + 1;
            let b0 = s.i + s.delay;
            let b = b0 - s.undelay;
            if !fits(a0) || !fits(a1) || !fits(a) || !fits(b0) || !fits(b) {
                failed(s1)
            } else {
                let cmd = match byte_slice(s.buf, a, b) {
                    Some(t) => t,
                    None => seq![],
                };
                Ps1State { phase: Ps1PhaseView::Awaiting(s.i, cmd), ..s1 }
            }
        } else {
            let s2 = if c == '(' && s.is_dollar {
                Ps1State { is_command: true, command_start: s.i, ..s1 }
            } else {
                s1
            };
            if c == '$' {
                Ps1State { is_dollar: true, ..s2 }
            } else {
                s2
            }
        }
    } else {
        let next = if s.i + 1 < s.src.len() {
            s.src[s.i + 1]
        } else {
            '\\'
        };
        match replacement(ctx, next) {
            None => s1,
            Some(None) => failed(s1),
            Some(Some(rep)) => escape_step(s, s1, rep),
        }
    }
}

/// The output `out` of the awaited command replaces `$(...)` in the text (an empty output leaves
/// everything as it was).
pub open spec fn ps1_resume(s: Ps1State, out: Seq<char>) -> Ps1State {
    let end = match s.phase {
        Ps1PhaseView::Awaiting(e, _) => e,
        _ => 0,
    };
    if out.len() == 0 {
        Ps1State { phase: Ps1PhaseView::Scanning, ..s }
    } else {
        let r0 = s.command_start + s.delay;
        let r1 = r0 - s.undelay;
        let rs = r1 - 1;
        let e0 = end + s.delay;
        let e1 = e0 - s.undelay;
        let re = e1 + 1;
        let width = re - rs;
        let ol = byte_len(out) as int;
        let diff = if ol >= width {
            ol - width
        } else {
            width - ol
        };
        let inc = diff - 2;
        let nd = s.delay + inc;
        if !fits(r0) || !fits(r1) || !fits(rs) || !fits(e0) || !fits(e1) || !fits(re) || !fits(
            width,
        ) || !fits(inc) || !fits(nd) {
            failed(s)
        } else {
            match replace_bytes(s.buf, rs, re, trim(out)) {
                None => failed(s),
                Some(nb) => Ps1State {
                    buf: nb,
                    delay: nd,
                    is_dollar: false,
                    is_command: false,
                    phase: Ps1PhaseView::Scanning,
                    ..s
                },
            }
        }
    }
}

/// The final pass: `%{` and `%}` markers are dropped when the text holds `%{` + ESC and `%}`.
pub open spec fn ps1_finish_text(b: Seq<char>) -> Seq<char> {
    if contains(b, seq!['%', '{', '\x1B']) && contains(b, seq!['%', '}']) {
        replace_all(replace_all(b, seq!['%', '{'], seq![]), seq!['%', '}'], seq![])
    } else {
        b
    }
}

/// The state reached by stepping until a command is needed, the template ends, or a failure.
pub open spec fn ps1_run(s: Ps1State, ctx: Ps1ContextView) -> Ps1State
    decreases s.src.len() - s.i,
{
    if !(s.phase is Scanning) {
        s
    } else if s.i < 0 || s.i >= s.src.len() {
        Ps1State { buf: ps1_finish_text(s.buf), phase: Ps1PhaseView::Done, ..s }
    } else {
        ps1_run(ps1_step(s, ctx), ctx)
    }
}


// ---------------------------------------------------------------------------------------------
// The expansion machine
// ---------------------------------------------------------------------------------------------

enum Phase {
    Scanning,
    Awaiting(usize),
    Done,
    Failed,
}

/// What an expansion asks of its host, or hands back.
pub enum Ps1Progress {
    /// Run this command line and supply its standard output.
    Command(String),
    /// The expanded prompt.
    Finished(String),
    /// The expansion aborted where the shell itself would have panicked.
    Aborted,
}

/// A prompt expansion in progress.
pub struct Ps1Expansion {
    src: Vec<char>,
    buf: Vec<char>,
    i: usize,
    delay: usize,
    undelay: usize,
    is_dollar: bool,
    is_command: bool,
    command_start: usize,
    phase: Phase,
    pending: Vec<char>,
}

impl View for Ps1Expansion {
    type V = Ps1State;

    closed spec fn view(&self) -> Ps1State {
        Ps1State {
            src: self.src@,
            buf: self.buf@,
            i: self.i as int,
            delay: self.delay as int,
            undelay: self.undelay as int,
            is_dollar: self.is_dollar,
            is_command: self.is_command,
            command_start: self.command_start as int,
            phase: match self.phase {
                Phase::Scanning => Ps1PhaseView::Scanning,
                Phase::Awaiting(e) => Ps1PhaseView::Awaiting(e as int, self.pending@),
                Phase::Done => Ps1PhaseView::Done,
                Phase::Failed => Ps1PhaseView::Failed,
            },
        }
    }
}

fn checked_plus(a: usize, b: usize) -> (r: Option<usize>)
    ensures
        match r {
            Some(x) => fits(a + b) && x == a + b,
            None => !fits(a + b),
        },
{
    a.checked_add(b)
}

fn checked_minus(a: usize, b: usize) -> (r: Option<usize>)
    ensures
        match r {
            Some(x) => fits(a - b) && x == a - b,
            None => !fits(a - b),
        },
{
    a.checked_sub(b)
}

impl Ps1Expansion {
    #[verifier::type_invariant]
    closed spec fn well_formed(self) -> bool {
        self.i <= self.src.len()
    }

    /// Starts the expansion of `template`.
    pub fn new(template: &str) -> (e: Ps1Expansion)
        ensures
            e@ == ps1_start(template@),
    {
        let src = chars_of(template);
        let buf = chars_of(template);
        Ps1Expansion {
            src,
            buf,
            i: 0,
            delay: 0,
            undelay: 0,
            is_dollar: false,
            is_command: false,
            command_start: 0,
            phase: Phase::Scanning,
            pending: Vec::new(),
        }
    }

    fn scanning(&self) -> (b: bool)
        ensures
            b == self@.phase is Scanning,
    {
        match self.phase {
            Phase::Scanning => true,
            _ => false,
        }
    }

    fn fail(&mut self)
        ensures
            final(self)@ == failed(old(self)@),
    {
        proof {
            use_type_invariant(&*self);
        }
        self.phase = Phase::Failed;
    }

    /// One character of the template.
    fn step(&mut self, ctx: &Ps1Context)
        requires
            old(self)@.phase is Scanning,
            0 <= old(self)@.i < old(self)@.src.len(),
        ensures
            final(self)@ == ps1_step(old(self)@, ctx@),
    {
        proof {
            use_type_invariant(&*self);
        }
        assert(self.i < self.src.len());
        let c = self.src[self.i];
        let i = self.i;
        self.i = self.i + 1;
        if c != '\\' {
            if c == ')' && self.is_command {
                let a0 = match checked_plus(self.command_start, self.delay) {
                    Some(x) => x,
                    None => {
                        self.fail();
                        return;
                    },
                };
                let a1 = match checked_minus(a0, self.undelay) {
                    Some(x) => x,
                    None => {
                        self.fail();
                        return;
                    },
                };
                let a = match checked_plus(a1, 1) {
                    Some(x) => x,
                    None => {
                        self.fail();
                        return;
                    },
                };
                let b0 = match checked_plus(i, self.delay) {
                    Some(x) => x,
                    None => {
                        self.fail();
                        return;
                    },
                };
                let b = match checked_minus(b0, self.undelay) {
                    Some(x) => x,
                    None => {
                        self.fail();
                        return;
                    },
                };
                let cmd = match byte_slice_exec(&self.buf, a, b) {
                    Some(t) => t,
                    None => {
                        let v: Vec<char> = Vec::new();
                        assert(v@ =~= Seq::<char>::empty());
                        v
                    },
                };
                self.pending = cmd;
                self.phase = Phase::Awaiting(i);
            } else {
                if c == '(' && self.is_dollar {
                    self.is_command = true;
                    self.command_start = i;
                }
                if c == '$' {
                    self.is_dollar = true;
                }
            }
        } else {
            let next = if i + 1 < self.src.len() {
                self.src[i + 1]
            } else {
                '\\'
            };
            match replacement_exec(ctx, next) {
                None => {},
                Some(None) => {
                    self.fail();
                },
                Some(Some(rep)) => {
                    self.escape(i, &rep);
                },
            }
        }
    }

    /// The replacement `rep` takes the place of the escape at template index `i`.
    fn escape(&mut self, i: usize, rep: &Vec<char>)
        requires
            old(self)@.phase is Scanning,
            i + 1 == old(self)@.i,
        ensures
            final(self)@ == escape_step(Ps1State { i: i as int, ..old(self)@ }, old(self)@, rep@),
    {
        proof {
            use_type_invariant(&*self);
        }
        let p0 = match checked_plus(i, self.delay) {
            Some(x) => x,
            None => {
                self.fail();
                return;
            },
        };
        let start = match checked_minus(p0, self.undelay) {
            Some(x) => x,
            None => {
                self.fail();
                return;
            },
        };
        let e0 = match checked_plus(p0, 2) {
            Some(x) => x,
            None => {
                self.fail();
                return;
            },
        };
        let end = match checked_minus(e0, self.undelay) {
            Some(x) => x,
            None => {
                self.fail();
                return;
            },
        };
        let nb = match replace_bytes_exec(&self.buf, start, end, rep) {
            Some(t) => t,
            None => {
                self.fail();
                return;
            },
        };
        let n = byte_len_of(rep);
        if n >= 2 {
            if n - 2 > (usize::MAX - self.delay) as u128 {
                self.fail();
                return;
            }
            self.buf = nb;
            self.delay = self.delay + (n - 2) as usize;
        } else {
            let k: usize = if n == 1 { 1 } else { 2 };
            match checked_plus(self.undelay, k) {
                Some(u) => {
                    self.buf = nb;
                    self.undelay = u;
                },
                None => {
                    self.fail();
                },
            }
        }
    }

    /// Walks the template until a command must run, the template ends, or the expansion aborts.
    pub fn advance(&mut self, ctx: &Ps1Context) -> (r: Ps1Progress)
        ensures
            final(self)@ == ps1_run(old(self)@, ctx@),
            match r {
                Ps1Progress::Command(c) => final(self)@.phase matches Ps1PhaseView::Awaiting(
                    _,
                    cmd,
                ) && cmd == c@,
                Ps1Progress::Finished(t) => final(self)@.phase is Done && t@ == final(self)@.buf,
                Ps1Progress::Aborted => final(self)@.phase is Failed,
            },
    {
        proof {
            use_type_invariant(&*self);
        }
        while self.i < self.src.len() && self.scanning()
            invariant
                0 <= self@.i <= self@.src.len(),
                self@.phase is Scanning ==> ps1_run(self@, ctx@) == ps1_run(old(self)@, ctx@),
                !(self@.phase is Scanning) ==> self@ == ps1_run(old(self)@, ctx@),
                self@.phase is Done ==> self@ == old(self)@,
            decreases self.src.len() - self.i,
        {
            self.step(ctx);
        }
        match self.phase {
            Phase::Scanning => {
                let ghost s0 = self@;
                assert(ps1_run(s0, ctx@) == Ps1State {
                    buf: ps1_finish_text(s0.buf),
                    phase: Ps1PhaseView::Done,
                    ..s0
                });
                let text = string_of(&self.buf, 0, self.buf.len());
                assert(self.buf@.subrange(0, self.buf.len() as int) =~= self.buf@);
                let done = finish_text(text.as_str());
                self.buf = chars_of(done.as_str());
                self.phase = Phase::Done;
                Ps1Progress::Finished(done)
            },
            Phase::Awaiting(_) => Ps1Progress::Command(string_of(&self.pending, 0, self.pending.len())),
            Phase::Done => Ps1Progress::Finished(string_of(&self.buf, 0, self.buf.len())),
            Phase::Failed => Ps1Progress::Aborted,
        }
    }

    /// Hands the expansion the output of the command it asked for.
    pub fn supply_output(&mut self, out: &str)
        requires
            old(self)@.phase is Awaiting,
        ensures
            final(self)@ == ps1_resume(old(self)@, out@),
    {
        proof {
            use_type_invariant(&*self);
        }
        let end = match self.phase {
            Phase::Awaiting(e) => e,
            _ => 0,
        };
        let o = chars_of(out);
        if o.len() == 0 {
            self.phase = Phase::Scanning;
            return;
        }
        let r0 = match checked_plus(self.command_start, self.delay) {
            Some(x) => x,
            None => {
                self.fail();
                return;
            },
        };
        let r1 = match checked_minus(r0, self.undelay) {
            Some(x) => x,
            None => {
                self.fail();
                return;
            },
        };
        let rs = match checked_minus(r1, 1) {
            Some(x) => x,
            None => {
                self.fail();
                return;
            },
        };
        let e0 = match checked_plus(end, self.delay) {
            Some(x) => x,
            None => {
                self.fail();
                return;
            },
        };
        let e1 = match checked_minus(e0, self.undelay) {
            Some(x) => x,
            None => {
                self.fail();
                return;
            },
        };
        let re = match checked_plus(e1, 1) {
            Some(x) => x,
            None => {
                self.fail();
                return;
            },
        };
        let width = match checked_minus(re, rs) {
            Some(x) => x,
            None => {
                self.fail();
                return;
            },
        };
        let ol = byte_len_of(&o);
        let diff: u128 = if ol >= width as u128 {
            ol - width as u128
        } else {
            width as u128 - ol
        };
        if diff < 2 {
            self.fail();
            return;
        }
        let inc128 = diff - 2;
        if inc128 > (usize::MAX - self.delay) as u128 {
            self.fail();
            return;
        }
        let nd = self.delay + inc128 as usize;
        let t = trim_str(out);
        let tv = chars_of(t.as_str());
        match replace_bytes_exec(&self.buf, rs, re, &tv) {
            Some(nb) => {
                self.buf = nb;
                self.delay = nd;
                self.is_dollar = false;
                self.is_command = false;
                self.phase = Phase::Scanning;
            },
            None => {
                self.fail();
            },
        }
    }
}

/// The final pass over the expanded text.
pub fn finish_text(b: &str) -> (r: String)
    ensures
        r@ == ps1_finish_text(b@),
{
    let mut open_esc = String::new();
    push_char(&mut open_esc, '%');
    push_char(&mut open_esc, '{');
    push_char(&mut open_esc, '\x1B');
    let mut open = String::new();
    push_char(&mut open, '%');
    push_char(&mut open, '{');
    let mut close = String::new();
    push_char(&mut close, '%');
    push_char(&mut close, '}');
    let empty = String::new();
    assert(open_esc@ =~= seq!['%', '{', '\x1B']);
    assert(open@ =~= seq!['%', '{']);
    assert(close@ =~= seq!['%', '}']);
    if contains_str(b, open_esc.as_str()) && contains_str(b, close.as_str()) {
        let once = replace_str(b, open.as_str(), empty.as_str());
        replace_str(once.as_str(), close.as_str(), empty.as_str())
    } else {
        b.to_string()
    }
}


// ---------------------------------------------------------------------------------------------
// Gathering the values of the escapes
// ---------------------------------------------------------------------------------------------

/// What `chrono` writes for the instant `timestamp` (seconds since the epoch) seen at
/// `offset` seconds east of UTC, in the strftime `pattern`; `None` when chrono rejects the
/// instant, the offset or the pattern.
pub uninterp spec fn time_text(timestamp: int, offset: int, pattern: Seq<char>) -> Option<Seq<char>>;

/// Formats with `chrono::DateTime::<FixedOffset>::format`, after
/// `DateTime::<Utc>::from_timestamp` and `FixedOffset::east_opt`. The contract claims that the
/// result is the fixed function `time_text` of the three arguments.
#[verifier::external_body]
fn format_time(timestamp: i64, offset: i32, pattern: &str) -> (r: Option<String>)
    ensures
        opt_view(r) == time_text(timestamp as int, offset as int, pattern@),
{
    let zone = chrono::FixedOffset::east_opt(offset)?;
    let instant = chrono::DateTime::<chrono::Utc>::from_timestamp(timestamp, 0)?;
    let mut out = String::new();
    match write!(out, "{}", instant.with_timezone(&zone).format(pattern)) {
        Ok(()) => Some(out),
        Err(_) => None,
    }
}

/// The last `/`-separated segment of `s` that is neither empty nor `.` (`last` if there is none),
/// the segment in progress being `cur`.
pub open spec fn last_segment_from(s: Seq<char>, cur: Seq<char>, last: Option<Seq<char>>) -> Option<
    Seq<char>,
>
    decreases s.len(),
{
    let upto = if cur.len() == 0 || cur == seq!['.'] {
        last
    } else {
        Some(cur)
    };
    if s.len() == 0 {
        upto
    } else if s[0] == '/' {
        last_segment_from(s.drop_first(), seq![], upto)
    } else {
        last_segment_from(s.drop_first(), cur.push(s[0]), last)
    }
}

/// The last component of a path, as `Path::file_name` documents it for Unix paths: repeated
/// separators and `.` components are ignored, and there is none for a path that ends in `..` or
/// is a root or empty.
pub open spec fn file_name_of(path: Seq<char>) -> Option<Seq<char>> {
    match last_segment_from(path, seq![], None) {
        Some(n) => if n == seq!['.', '.'] {
            None
        } else {
            Some(n)
        },
        None => None,
    }
}

/// The segment `v[from..to]` as the last segment seen, unless it is empty or `.`.
fn note_segment(v: &Vec<char>, from: usize, to: usize, last: Option<(usize, usize)>) -> (r: Option<
    (usize, usize),
>)
    requires
        from <= to <= v.len(),
        last matches Some(p) ==> p.0 <= p.1 <= v.len(),
    ensures
        r matches Some(p) ==> p.0 <= p.1 <= v.len(),
        segment_view(v@, r) == (if v@.subrange(from as int, to as int).len() == 0 || v@.subrange(
            from as int,
            to as int,
        ) == seq!['.'] {
            segment_view(v@, last)
        } else {
            Some(v@.subrange(from as int, to as int))
        }),
{
    let ghost cur = v@.subrange(from as int, to as int);
    if to == from {
        last
    } else if to == from + 1 && v[from] == '.' {
        assert(cur =~= seq!['.']);
        last
    } else {
        assert(cur != seq!['.']) by {
            if cur == seq!['.'] {
                assert(cur.len() == 1);
                assert(cur[0] == v@[from as int]);
            }
        }
        Some((from, to))
    }
}

/// The characters that a pair of positions marks in `v`.
pub open spec fn segment_view(v: Seq<char>, p: Option<(usize, usize)>) -> Option<Seq<char>> {
    match p {
        Some(q) => Some(v.subrange(q.0 as int, q.1 as int)),
        None => None,
    }
}

/// `Path::file_name` for a Unix path: its final normal component.
fn path_file_name(path: &str) -> (r: Option<String>)
    ensures
        opt_view(r) == file_name_of(path@),
{
    let v = chars_of(path);
    let mut i: usize = 0;
    let mut a: usize = 0;
    let mut last: Option<(usize, usize)> = None;
    assert(v@.skip(0) =~= v@);
    assert(v@.subrange(0, 0) =~= Seq::<char>::empty());
    while i < v.len()
        invariant
            a <= i <= v.len(),
            last matches Some(p) ==> p.0 <= p.1 <= v.len(),
            last_segment_from(v@.skip(i as int), v@.subrange(a as int, i as int), segment_view(
                v@,
                last,
            )) == last_segment_from(v@, seq![], None),
        decreases v.len() - i,
    {
        let ghost rest = v@.skip(i as int);
        assert(rest.drop_first() =~= v@.skip(i + 1));
        assert(rest[0] == v@[i as int]);
        if v[i] == '/' {
            last = note_segment(&v, a, i, last);
            i = i + 1;
            a = i;
            assert(v@.subrange(a as int, i as int) =~= Seq::<char>::empty());
        } else {
            assert(v@.subrange(a as int, i + 1) =~= v@.subrange(a as int, i as int).push(v@[i as int]));
            i = i + 1;
        }
    }
    assert(v@.skip(i as int) =~= Seq::<char>::empty());
    let last = note_segment(&v, a, i, last);
    match last {
        Some((x, y)) => {
            if y - x == 2 && v[x] == '.' && v[x + 1] == '.' {
                assert(v@.subrange(x as int, y as int) =~= seq!['.', '.']);
                None
            } else {
                proof {
                    let n = v@.subrange(x as int, y as int);
                    if n == seq!['.', '.'] {
                        assert(n.len() == 2);
                        assert(n[0] == v@[x as int]);
                        assert(n[1] == v@[x + 1]);
                    }
                }
                Some(string_of(&v, x, y))
            }
        },
        None => None,
    }
}

/// The rest of `path` after the leading components `base`, as `Path::strip_prefix` gives it.
pub uninterp spec fn path_stripped(path: Seq<char>, base: Seq<char>) -> Option<Seq<char>>;

/// Calls `std::path::Path::strip_prefix`; the contract claims that the result is the fixed
/// function `path_stripped` of the two paths.
#[verifier::external_body]
fn path_strip_prefix(path: &str, base: &str) -> (r: Option<String>)
    ensures
        opt_view(r) == path_stripped(path@, base@),
{
    std::path::Path::new(path).strip_prefix(base).ok().map(|p| p.to_string_lossy().to_string())
}

/// The process environment variables that the escapes read (`None` when unset).
pub struct Ps1Environment {
    /// `JOBS`
    pub jobs: Option<String>,
    /// `TTY`
    pub tty: Option<String>,
    /// `0`
    pub shell: Option<String>,
    /// `USER`
    pub user: Option<String>,
    /// `HOME`
    pub home: Option<String>,
    /// `HISTCMD`
    pub histcmd: Option<String>,
    /// `LINENO`
    pub lineno: Option<String>,
    /// `EUID`
    pub euid: Option<String>,
}

/// The value, or the default when it is unset.
pub open spec fn or_default(o: Option<String>, d: Seq<char>) -> Seq<char> {
    match o {
        Some(s) => s@,
        None => d,
    }
}

/// The working directory as `\w` shows it: relative to the home directory when it lies in it.
pub open spec fn cwd_display_of(pwd: Seq<char>, home: Seq<char>) -> Seq<char> {
    match path_stripped(pwd, home) {
        Some(r) => r,
        None => pwd,
    }
}

/// The base name `\W` shows: `~` when it is that of the home directory.
pub open spec fn cwd_base_of(pwd: Seq<char>, home: Seq<char>) -> Option<Seq<char>> {
    match (file_name_of(pwd), file_name_of(home)) {
        (Some(a), Some(b)) => Some(
            if a == b {
                "~"@
            } else {
                a
            },
        ),
        _ => None,
    }
}

/// The context that `Ps1Context::gather` builds.
pub open spec fn gathered(
    hostname: Seq<char>,
    pwd: Seq<char>,
    env: Ps1Environment,
    timestamp: int,
    offset: int,
) -> Ps1ContextView {
    let home = or_default(env.home, "/home/user"@);
    Ps1ContextView {
        date: time_text(timestamp, offset, "%a %b %d"@),
        time_24: time_text(timestamp, offset, "%T"@),
        time_12: time_text(timestamp, offset, "%r"@),
        time_am_pm: time_text(timestamp, offset, "%I:%M %p"@),
        time_hm: time_text(timestamp, offset, "%R"@),
        hostname,
        jobs: or_default(env.jobs, "0"@),
        tty_name: file_name_of(or_default(env.tty, "/dev/tty"@)),
        shell_name: file_name_of(or_default(env.shell, "rust-shell"@)),
        user: or_default(env.user, "user"@),
        cwd_display: cwd_display_of(pwd, home),
        cwd_base: cwd_base_of(pwd, home),
        history_number: or_default(env.histcmd, "0"@),
        line_number: or_default(env.lineno, "0"@),
        prompt_sign: if or_default(env.euid, "1000"@) == "0"@ {
            "#"@
        } else {
            "$"@
        },
    }
}

fn value_or(o: &Option<String>, d: &str) -> (r: String)
    ensures
        r@ == or_default(*o, d@),
{
    match o {
        Some(s) => s.clone(),
        None => d.to_string(),
    }
}

impl Ps1Context {
    /// The values of the escapes for host `hostname`, working directory `pwd`, the process
    /// environment `env` and the local time `timestamp` (seconds since the epoch, `offset`
    /// seconds east of UTC).
    pub fn gather(hostname: String, pwd: &str, env: &Ps1Environment, timestamp: i64, offset: i32) -> (c:
        Ps1Context)
        ensures
            c@ == gathered(hostname@, pwd@, *env, timestamp as int, offset as int),
            c@.hostname == hostname@,
            c@.user == or_default(env.user, "user"@),
            c@.jobs == or_default(env.jobs, "0"@),
            c@.history_number == or_default(env.histcmd, "0"@),
            c@.line_number == or_default(env.lineno, "0"@),
            c@.prompt_sign == (if or_default(env.euid, "1000"@) == "0"@ {
                "#"@
            } else {
                "$"@
            }),
            c@.tty_name == file_name_of(or_default(env.tty, "/dev/tty"@)),
            c@.shell_name == file_name_of(or_default(env.shell, "rust-shell"@)),
            c@.date == time_text(timestamp as int, offset as int, "%a %b %d"@),
            c@.time_24 == time_text(timestamp as int, offset as int, "%T"@),
            c@.time_12 == time_text(timestamp as int, offset as int, "%r"@),
            c@.time_am_pm == time_text(timestamp as int, offset as int, "%I:%M %p"@),
            c@.time_hm == time_text(timestamp as int, offset as int, "%R"@),
            c@.cwd_display == cwd_display_of(pwd@, or_default(env.home, "/home/user"@)),
            c@.cwd_base == cwd_base_of(pwd@, or_default(env.home, "/home/user"@)),
    {
        let home = value_or(&env.home, "/home/user");
        let cwd_display = match path_strip_prefix(pwd, home.as_str()) {
            Some(r) => r,
            None => pwd.to_string(),
        };
        let cwd_base = match (path_file_name(pwd), path_file_name(home.as_str())) {
            (Some(a), Some(b)) => Some(
                if a == b {
                    "~".to_string()
                } else {
                    a
                },
            ),
            _ => None,
        };
        let tty = value_or(&env.tty, "/dev/tty");
        let shell = value_or(&env.shell, "rust-shell");
        let euid = value_or(&env.euid, "1000");
        let root = "0".to_string();
        let prompt_sign = if euid == root {
            "#".to_string()
        } else {
            "$".to_string()
        };
        Ps1Context {
            date: format_time(timestamp, offset, "%a %b %d"),
            time_24: format_time(timestamp, offset, "%T"),
            time_12: format_time(timestamp, offset, "%r"),
            time_am_pm: format_time(timestamp, offset, "%I:%M %p"),
            time_hm: format_time(timestamp, offset, "%R"),
            hostname,
            jobs: value_or(&env.jobs, "0"),
            tty_name: path_file_name(tty.as_str()),
            shell_name: path_file_name(shell.as_str()),
            user: value_or(&env.user, "user"),
            cwd_display,
            cwd_base,
            history_number: value_or(&env.histcmd, "0"),
            line_number: value_or(&env.lineno, "0"),
            prompt_sign,
        }
    }
}


/// The program and arguments of a `$(...)` command line: the program is everything before the
/// first space, the arguments are the whitespace-separated words after it.
pub open spec fn command_parts_of(full: Seq<char>) -> (Seq<char>, Seq<Seq<char>>) {
    let p = match split_once(full, " "@) {
        Some(p) => p,
        None => (full, Seq::<char>::empty()),
    };
    (p.0, fields(p.1, false))
}

/// Splits a `$(...)` command line into program and arguments.
pub fn command_parts(full: &str) -> (r: (String, Vec<String>))
    ensures
        (r.0@, views(r.1@)) == command_parts_of(full@),
{
    let (program, rest) = match split_once_str(full, " ") {
        Some(p) => p,
        None => (full.to_string(), String::new()),
    };
    let args = split_fields(rest.as_str(), false);
    (program, args)
}


pub proof fn lemma_plain_run(s: Ps1State, ctx: Ps1ContextView)
    requires
        s.phase is Scanning,
        0 <= s.i <= s.src.len(),
        forall|j: int| s.i <= j < s.src.len() ==> #[trigger] s.src[j] != '\\' && s.src[j] != ')',
    ensures
        ps1_run(s, ctx).phase is Done,
        ps1_run(s, ctx).buf == ps1_finish_text(s.buf),
    decreases s.src.len() - s.i,
{
    if s.i < s.src.len() {
        let t = ps1_step(s, ctx);
        assert(s.src[s.i] != '\\' && s.src[s.i] != ')');
        assert(t.buf == s.buf && t.phase is Scanning && t.i == s.i + 1 && t.src == s.src);
        lemma_plain_run(t, ctx);
    }
}

/// A template without backslashes and without `)` expands to itself, up to the final pass that
/// drops `%{`/`%}` markers.
pub proof fn law_plain_template(src: Seq<char>, ctx: Ps1ContextView)
    requires
        forall|j: int| 0 <= j < src.len() ==> #[trigger] src[j] != '\\' && src[j] != ')',
    ensures
        ps1_run(ps1_start(src), ctx).phase is Done,
        ps1_run(ps1_start(src), ctx).buf == ps1_finish_text(src),
{
    lemma_plain_run(ps1_start(src), ctx);
}

/// Text without `%{` followed by ESC is left alone by the final pass.
pub proof fn law_finish_keeps_unmarked(b: Seq<char>)
    requires
        !contains(b, seq!['%', '{', '\x1B']),
    ensures
        ps1_finish_text(b) == b,
{
}

/// A template made of one escape of an ASCII letter expands to what the escape stands for.
pub proof fn law_lone_escape(x: char, rep: Seq<char>, ctx: Ps1ContextView)
    requires
        (x as u32) < 0x80,
        x != '\\',
        x != ')',
        replacement(ctx, x) == Some(Some(rep)),
        byte_len(rep) <= usize::MAX,
    ensures
        ps1_run(ps1_start(seq!['\\', x]), ctx).phase is Done,
        ps1_run(ps1_start(seq!['\\', x]), ctx).buf == ps1_finish_text(rep),
{
    let src = seq!['\\', x];
    let s0 = ps1_start(src);
    assert(char_index_at(src, 0) == Some(0int));
    assert(boundary_from(src, 2, 2, 2) == Some(2int));
    assert(boundary_from(src, 2, 1, 1) == Some(2int));
    assert(char_index_at(src, 2) == Some(2int));
    assert(src.take(0) + rep + src.skip(2) =~= rep);
    let s1 = ps1_step(s0, ctx);
    assert(s1.buf == rep);
    assert(s1.phase is Scanning);
    assert(s1.i == 1);
    let s2 = ps1_step(s1, ctx);
    assert(s2.buf == rep && s2.phase is Scanning && s2.i == 2);
    assert(ps1_run(s2, ctx).buf == ps1_finish_text(rep));
    assert(ps1_run(s1, ctx) == ps1_run(s2, ctx));
}

/// What each escape stands for, in any context: the fixed characters (`\a` bell, `\e` escape,
/// `\n` newline, `\r` carriage return, `\\` backslash, `\[` and `\]` nothing), the host name
/// (short before the first `.` for `\h`, whole for `\H`), and the context's values for the
/// others; any other character is no escape.
pub proof fn law_escape_values(ctx: Ps1ContextView, other: char)
    requires
        !"adehHjlnrstT@AuwW!#$\\[]"@.contains(other),
    ensures
        replacement(ctx, 'a') == Some(Some(seq!['\x07'])),
        replacement(ctx, 'e') == Some(Some(seq!['\x1B'])),
        replacement(ctx, 'n') == Some(Some(seq!['\n'])),
        replacement(ctx, 'r') == Some(Some(seq!['\r'])),
        replacement(ctx, '\\') == Some(Some(seq!['\\'])),
        replacement(ctx, '[') == Some(Some(Seq::<char>::empty())),
        replacement(ctx, ']') == Some(Some(Seq::<char>::empty())),
        replacement(ctx, 'H') == Some(Some(ctx.hostname)),
        replacement(ctx, 'h') == Some(Some(before_char(ctx.hostname, '.'))),
        replacement(ctx, 'd') == Some(ctx.date),
        replacement(ctx, 'j') == Some(Some(ctx.jobs)),
        replacement(ctx, 'l') == Some(ctx.tty_name),
        replacement(ctx, 's') == Some(ctx.shell_name),
        replacement(ctx, 't') == Some(ctx.time_24),
        replacement(ctx, 'T') == Some(ctx.time_12),
        replacement(ctx, '@') == Some(ctx.time_am_pm),
        replacement(ctx, 'A') == Some(ctx.time_hm),
        replacement(ctx, 'u') == Some(Some(ctx.user)),
        replacement(ctx, 'w') == Some(Some(ctx.cwd_display)),
        replacement(ctx, 'W') == Some(ctx.cwd_base),
        replacement(ctx, '!') == Some(Some(ctx.history_number)),
        replacement(ctx, '#') == Some(Some(ctx.line_number)),
        replacement(ctx, '$') == Some(Some(ctx.prompt_sign)),
        replacement(ctx, other) is None,
{
    reveal_strlit("adehHjlnrstT@AuwW!#$\\[]");
    let k = "adehHjlnrstT@AuwW!#$\\[]"@;
    assert(k[0] == 'a' && k[1] == 'd' && k[2] == 'e' && k[3] == 'h' && k[4] == 'H');
    assert(k[5] == 'j' && k[6] == 'l' && k[7] == 'n' && k[8] == 'r' && k[9] == 's');
    assert(k[10] == 't' && k[11] == 'T' && k[12] == '@' && k[13] == 'A' && k[14] == 'u');
    assert(k[15] == 'w' && k[16] == 'W' && k[17] == '!' && k[18] == '#' && k[19] == '$');
    assert(k[20] == '\\' && k[21] == '[' && k[22] == ']');
}

/// In any context, the template `\n` expands to a single newline: a two-line prompt.
pub proof fn law_newline_escape(ctx: Ps1ContextView)
    ensures
        ps1_run(ps1_start(seq!['\\', 'n']), ctx).phase is Done,
        ps1_run(ps1_start(seq!['\\', 'n']), ctx).buf == seq!['\n'],
{
    assert(byte_len(seq!['\n']) == 1) by {
        assert(seq!['\n'].drop_last() =~= Seq::<char>::empty());
        assert(byte_len(Seq::<char>::empty()) == 0);
        assert(utf8_width('\n') == 1);
    }
    law_lone_escape('n', seq!['\n'], ctx);
    assert(!contains(seq!['\n'], seq!['%', '{', '\x1B'])) by {
        crate::text::lemma_find_from_facts(seq!['\n'], seq!['%', '{', '\x1B'], 0);
    }
}

} // verus!
