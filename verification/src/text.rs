//! Character-level string operations with their specifications.

use vstd::prelude::*;

verus! {

broadcast use vstd::string::group_string_axioms;

/// Appends one character to a string.
#[verifier::external_body]
pub(crate) fn push_char(s: &mut String, c: char)
    ensures
        final(s)@ == old(s)@.push(c),
{
    s.push(c);
}

/// The characters of `s`, as a vector.
pub fn chars_of(s: &str) -> (v: Vec<char>)
    ensures
        v@ == s@,
{
    let mut v: Vec<char> = Vec::new();
    for c in it: s.chars()
        invariant
            v@ == it.seq().take(it.index() as int),
            it.seq() == s@,
    {
        v.push(c);
    }
    v
}

/// The string made of the characters `v[from..to]`.
pub fn string_of(v: &Vec<char>, from: usize, to: usize) -> (s: String)
    requires
        from <= to <= v.len(),
    ensures
        s@ == v@.subrange(from as int, to as int),
{
    let mut s = String::new();
    let mut i = from;
    while i < to
        invariant
            from <= i <= to <= v.len(),
            s@ == v@.subrange(from as int, i as int),
        decreases to - i,
    {
        push_char(&mut s, v[i]);
        i = i + 1;
    }
    s
}


/// Unicode `White_Space`, the set that `char::is_whitespace` documents.
pub open spec fn is_whitespace(c: char) -> bool {
    let n = c as u32;
    (0x9 <= n <= 0xd) || n == 0x20 || n == 0x85 || n == 0xa0 || n == 0x1680 || (0x2000 <= n
        <= 0x200a) || n == 0x2028 || n == 0x2029 || n == 0x202f || n == 0x205f || n == 0x3000
}

/// ASCII whitespace as `char::is_ascii_whitespace` documents it.
pub open spec fn is_ascii_whitespace(c: char) -> bool {
    c == ' ' || c == '\t' || c == '\n' || c == '\x0C' || c == '\r'
}

/// The separator test used by word splitting: ASCII whitespace only, or all Unicode whitespace.
pub open spec fn is_separator(c: char, ascii_only: bool) -> bool {
    if ascii_only {
        is_ascii_whitespace(c)
    } else {
        is_whitespace(c)
    }
}

pub fn is_whitespace_char(c: char) -> (b: bool)
    ensures
        b == is_whitespace(c),
{
    let n = c as u32;
    (0x9 <= n && n <= 0xd) || n == 0x20 || n == 0x85 || n == 0xa0 || n == 0x1680 || (0x2000 <= n
        && n <= 0x200a) || n == 0x2028 || n == 0x2029 || n == 0x202f || n == 0x205f || n == 0x3000
}

pub fn is_separator_char(c: char, ascii_only: bool) -> (b: bool)
    ensures
        b == is_separator(c, ascii_only),
{
    if ascii_only {
        c == ' ' || c == '\t' || c == '\n' || c == '\x0C' || c == '\r'
    } else {
        is_whitespace_char(c)
    }
}

/// `s` without its leading whitespace.
pub open spec fn trim_start(s: Seq<char>) -> Seq<char>
    decreases s.len(),
{
    if s.len() > 0 && is_whitespace(s[0]) {
        trim_start(s.drop_first())
    } else {
        s
    }
}

/// `s` without its trailing whitespace.
pub open spec fn trim_end(s: Seq<char>) -> Seq<char>
    decreases s.len(),
{
    if s.len() > 0 && is_whitespace(s.last()) {
        trim_end(s.drop_last())
    } else {
        s
    }
}

/// `s` without leading and trailing whitespace, as `str::trim` gives it.
pub open spec fn trim(s: Seq<char>) -> Seq<char> {
    trim_end(trim_start(s))
}

/// Position of the first character of `v[from..to]` that is not whitespace (or `to`).
fn skip_whitespace(v: &Vec<char>, from: usize, to: usize) -> (a: usize)
    requires
        from <= to <= v.len(),
    ensures
        from <= a <= to,
        trim_start(v@.subrange(from as int, to as int)) == v@.subrange(a as int, to as int),
        a < to ==> !is_whitespace(v@[a as int]),
{
    let mut a = from;
    while a < to && is_whitespace_char(v[a])
        invariant
            from <= a <= to <= v.len(),
            trim_start(v@.subrange(from as int, to as int)) == trim_start(
                v@.subrange(a as int, to as int),
            ),
        decreases to - a,
    {
        assert(v@.subrange(a as int, to as int).drop_first() =~= v@.subrange(a + 1, to as int));
        a = a + 1;
    }
    a
}

/// End of `v[from..to]` once its trailing whitespace is dropped.
fn skip_whitespace_back(v: &Vec<char>, from: usize, to: usize) -> (b: usize)
    requires
        from <= to <= v.len(),
    ensures
        from <= b <= to,
        trim_end(v@.subrange(from as int, to as int)) == v@.subrange(from as int, b as int),
{
    let mut b = to;
    while b > from && is_whitespace_char(v[b - 1])
        invariant
            from <= b <= to <= v.len(),
            trim_end(v@.subrange(from as int, to as int)) == trim_end(
                v@.subrange(from as int, b as int),
            ),
        decreases b - from,
    {
        assert(v@.subrange(from as int, b as int).drop_last() =~= v@.subrange(
            from as int,
            b - 1,
        ));
        b = b - 1;
    }
    b
}

/// `str::trim`: the string without leading and trailing whitespace.
pub fn trim_str(s: &str) -> (r: String)
    ensures
        r@ == trim(s@),
{
    let v = chars_of(s);
    let a = skip_whitespace(&v, 0, v.len());
    let b = skip_whitespace_back(&v, a, v.len());
    assert(v@.subrange(0, v.len() as int) =~= v@);
    string_of(&v, a, b)
}


/// `pat` occurs in `s` at position `i`.
pub open spec fn occurs_at(s: Seq<char>, pat: Seq<char>, i: int) -> bool {
    0 <= i && i + pat.len() <= s.len() && s.subrange(i, i + pat.len()) == pat
}

/// The first position at or after `i` where `pat` occurs in `s`.
pub open spec fn find_from(s: Seq<char>, pat: Seq<char>, i: int) -> Option<int>
    decreases s.len() + 1 - i,
{
    if i < 0 || i + pat.len() > s.len() {
        None
    } else if occurs_at(s, pat, i) {
        Some(i)
    } else {
        find_from(s, pat, i + 1)
    }
}

/// The first position where `pat` occurs in `s`, as `str::find` gives it (in characters).
pub open spec fn find(s: Seq<char>, pat: Seq<char>) -> Option<int> {
    find_from(s, pat, 0)
}

pub proof fn lemma_find_from_facts(s: Seq<char>, pat: Seq<char>, i: int)
    requires
        0 <= i,
    ensures
        find_from(s, pat, i) matches Some(k) ==> i <= k && occurs_at(s, pat, k) && forall|j: int|
            i <= j < k ==> !occurs_at(s, pat, j),
        find_from(s, pat, i) is None ==> forall|j: int| i <= j ==> !occurs_at(s, pat, j),
    decreases s.len() + 1 - i,
{
    if i + pat.len() > s.len() {
    } else if occurs_at(s, pat, i) {
    } else {
        lemma_find_from_facts(s, pat, i + 1);
    }
}

/// Whether `pat` occurs in `v` at position `i`.
fn occurs_at_exec(v: &Vec<char>, pat: &Vec<char>, i: usize) -> (b: bool)
    ensures
        b == occurs_at(v@, pat@, i as int),
{
    if i > v.len() || pat.len() > v.len() - i {
        return false;
    }
    let mut k: usize = 0;
    while k < pat.len()
        invariant
            i + pat.len() <= v.len(),
            k <= pat.len(),
            forall|j: int| 0 <= j < k ==> v@[i + j] == pat@[j],
        decreases pat.len() - k,
    {
        if v[i + k] != pat[k] {
            assert(v@.subrange(i as int, i + pat.len())[k as int] != pat@[k as int]);
            return false;
        }
        k = k + 1;
    }
    assert(v@.subrange(i as int, i + pat.len()) =~= pat@);
    true
}

/// The first position where `pat` occurs in `v`.
pub fn find_chars(v: &Vec<char>, pat: &Vec<char>) -> (r: Option<usize>)
    ensures
        r matches Some(k) ==> find(v@, pat@) == Some(k as int),
        r is None ==> find(v@, pat@) is None,
{
    if pat.len() > v.len() {
        return None;
    }
    let mut i: usize = 0;
    while i <= v.len() - pat.len()
        invariant
            pat.len() <= v.len(),
            i <= v.len() - pat.len() + 1,
            find(v@, pat@) == find_from(v@, pat@, i as int),
        decreases v.len() - pat.len() + 1 - i,
    {
        if occurs_at_exec(v, pat, i) {
            return Some(i);
        }
        if i == v.len() - pat.len() {
            assert(find_from(v@, pat@, i + 1) is None);
            return None;
        }
        i = i + 1;
    }
    None
}

/// Whether `pat` occurs anywhere in `s`, as `str::contains` says.
pub open spec fn contains(s: Seq<char>, pat: Seq<char>) -> bool {
    find(s, pat) is Some
}

pub fn contains_str(s: &str, pat: &str) -> (b: bool)
    ensures
        b == contains(s@, pat@),
{
    let v = chars_of(s);
    let p = chars_of(pat);
    find_chars(&v, &p).is_some()
}

/// `str::split_once`: the parts before and after the first occurrence of `pat`.
pub open spec fn split_once(s: Seq<char>, pat: Seq<char>) -> Option<(Seq<char>, Seq<char>)> {
    match find(s, pat) {
        Some(k) => Some((s.take(k), s.skip(k + pat.len()))),
        None => None,
    }
}

pub fn split_once_str(s: &str, pat: &str) -> (r: Option<(String, String)>)
    ensures
        r matches Some(p) ==> split_once(s@, pat@) == Some((p.0@, p.1@)),
        r is None ==> split_once(s@, pat@) is None,
{
    let v = chars_of(s);
    let p = chars_of(pat);
    match find_chars(&v, &p) {
        Some(k) => {
            proof {
                lemma_find_from_facts(v@, p@, 0);
                assert(occurs_at(v@, p@, k as int));
            }
            assert(k + p.len() <= v.len());
            let a = string_of(&v, 0, k);
            let b = string_of(&v, k + p.len(), v.len());
            assert(v@.subrange(0, k as int) =~= v@.take(k as int));
            assert(v@.subrange(k + p.len(), v.len() as int) =~= v@.skip(k + p.len()));
            Some((a, b))
        },
        None => None,
    }
}

/// `s` with every non-overlapping occurrence of `from` replaced by `to`, scanning left to right,
/// as `str::replace` does (an empty `from` matches before every character and at the end).
pub open spec fn replace_all(s: Seq<char>, from: Seq<char>, to: Seq<char>) -> Seq<char>
    decreases s.len(),
{
    if from.len() == 0 {
        if s.len() == 0 {
            to
        } else {
            to + seq![s[0]] + replace_all(s.drop_first(), from, to)
        }
    } else if s.len() >= from.len() && s.take(from.len() as int) == from {
        to + replace_all(s.skip(from.len() as int), from, to)
    } else if s.len() == 0 {
        seq![]
    } else {
        seq![s[0]] + replace_all(s.drop_first(), from, to)
    }
}

pub fn replace_str(s: &str, from: &str, to: &str) -> (r: String)
    ensures
        r@ == replace_all(s@, from@, to@),
{
    let v = chars_of(s);
    let f = chars_of(from);
    let t = chars_of(to);
    let n = v.len();
    let mut out = String::new();
    let mut i: usize = 0;
    assert(v@.subrange(0, n as int) =~= v@);
    while i < n
        invariant
            n == v.len(),
            i <= n,
            f@ == from@,
            t@ == to@,
            out@ + replace_all(v@.subrange(i as int, n as int), f@, t@) == replace_all(
                v@,
                f@,
                t@,
            ),
        decreases n - i,
    {
        let ghost rest = v@.subrange(i as int, n as int);
        if f.len() == 0 {
            let ghost before = out@;
            append_chars(&mut out, &t);
            push_char(&mut out, v[i]);
            assert(rest.drop_first() =~= v@.subrange(i + 1, n as int));
            assert(out@ == before + t@ + seq![rest[0]]);
            assert(out@ + replace_all(v@.subrange(i + 1, n as int), f@, t@) =~= before
                + replace_all(rest, f@, t@));
            i = i + 1;
        } else if occurs_at_exec(&v, &f, i) {
            let ghost before = out@;
            append_chars(&mut out, &t);
            assert(rest.take(f.len() as int) =~= v@.subrange(i as int, i + f.len()));
            assert(rest.skip(f.len() as int) =~= v@.subrange(i + f.len(), n as int));
            assert(out@ + replace_all(v@.subrange(i + f.len(), n as int), f@, t@) =~= before
                + replace_all(rest, f@, t@));
            i = i + f.len();
        } else {
            let ghost before = out@;
            push_char(&mut out, v[i]);
            assert(rest.drop_first() =~= v@.subrange(i + 1, n as int));
            proof {
                if rest.len() >= f@.len() {
                    assert(rest.take(f@.len() as int) =~= v@.subrange(i as int, i + f@.len()));
                }
            }
            assert(out@ + replace_all(v@.subrange(i + 1, n as int), f@, t@) =~= before
                + replace_all(rest, f@, t@));
            i = i + 1;
        }
    }
    if f.len() == 0 {
        append_chars(&mut out, &t);
    }
    assert(v@.subrange(0, n as int) =~= v@);
    out
}

/// Appends the characters of `v` to `s`.
pub fn append_chars(s: &mut String, v: &Vec<char>)
    ensures
        final(s)@ == old(s)@ + v@,
{
    let mut i: usize = 0;
    while i < v.len()
        invariant
            i <= v.len(),
            s@ == old(s)@ + v@.take(i as int),
        decreases v.len() - i,
    {
        push_char(s, v[i]);
        i = i + 1;
        assert(v@.take(i as int) =~= v@.take(i - 1).push(v@[i - 1]));
    }
    assert(v@.take(v.len() as int) =~= v@);
}

/// Appends `t` to `s`.
pub fn append_str(s: &mut String, t: &str)
    ensures
        final(s)@ == old(s)@ + t@,
{
    let v = chars_of(t);
    append_chars(s, &v);
}


/// The views of a sequence of strings.
pub open spec fn views(v: Seq<String>) -> Seq<Seq<char>> {
    v.map_values(|s: String| s@)
}

pub proof fn lemma_views_push(v: Seq<String>, x: String)
    ensures
        views(v.push(x)) == views(v).push(x@),
{
    assert(views(v.push(x)) =~= views(v).push(x@));
}

/// The non-empty runs of non-separator characters of `s`, the run in progress being `cur`.
pub open spec fn fields_from(s: Seq<char>, cur: Seq<char>, ascii_only: bool) -> Seq<Seq<char>>
    decreases s.len(),
{
    if s.len() == 0 {
        if cur.len() > 0 {
            seq![cur]
        } else {
            seq![]
        }
    } else if is_separator(s[0], ascii_only) {
        (if cur.len() > 0 {
            seq![cur]
        } else {
            seq![]
        }) + fields_from(s.drop_first(), seq![], ascii_only)
    } else {
        fields_from(s.drop_first(), cur.push(s[0]), ascii_only)
    }
}

/// The words of `s`: `str::split_whitespace` (or `split_ascii_whitespace` when `ascii_only`).
pub open spec fn fields(s: Seq<char>, ascii_only: bool) -> Seq<Seq<char>> {
    fields_from(s, seq![], ascii_only)
}

pub fn split_fields(s: &str, ascii_only: bool) -> (r: Vec<String>)
    ensures
        views(r@) == fields(s@, ascii_only),
{
    let v = chars_of(s);
    let n = v.len();
    let mut done: Vec<String> = Vec::new();
    let mut cur = String::new();
    let mut i: usize = 0;
    assert(v@.subrange(0, n as int) =~= v@);
    while i < n
        invariant
            n == v.len(),
            i <= n,
            views(done@) + fields_from(v@.subrange(i as int, n as int), cur@, ascii_only)
                == fields(v@, ascii_only),
        decreases n - i,
    {
        let ghost rest = v@.subrange(i as int, n as int);
        assert(rest.drop_first() =~= v@.subrange(i + 1, n as int));
        let ghost before = views(done@);
        if is_separator_char(v[i], ascii_only) {
            if !cur.as_str().is_empty() {
                let ghost c = cur@;
                proof {
                    lemma_views_push(done@, cur);
                }
                done.push(cur);
                assert(views(done@) == before.push(c));
                assert(seq![c] + fields_from(v@.subrange(i + 1, n as int), seq![], ascii_only)
                    =~= fields_from(rest, c, ascii_only));
                assert(views(done@) + fields_from(v@.subrange(i + 1, n as int), seq![], ascii_only)
                    =~= before + fields_from(rest, c, ascii_only));
            } else {
                assert(cur@.len() == 0);
                assert(fields_from(rest, cur@, ascii_only) =~= fields_from(
                    v@.subrange(i + 1, n as int),
                    seq![],
                    ascii_only,
                ));
            }
            cur = String::new();
        } else {
            push_char(&mut cur, v[i]);
        }
        i = i + 1;
    }
    if !cur.as_str().is_empty() {
        let ghost c = cur@;
        proof {
            lemma_views_push(done@, cur);
        }
        done.push(cur);
        assert(views(done@) =~= views(done@) + fields_from(
            v@.subrange(n as int, n as int),
            seq![],
            ascii_only,
        ));
    } else {
        assert(fields_from(v@.subrange(n as int, n as int), cur@, ascii_only) =~= seq![]);
        assert(views(done@) =~= views(done@) + fields_from(
            v@.subrange(n as int, n as int),
            cur@,
            ascii_only,
        ));
    }
    done
}

/// The words of `ws` joined with `sep` between them, as `[String]::join` gives it.
pub open spec fn join(ws: Seq<Seq<char>>, sep: Seq<char>) -> Seq<char>
    decreases ws.len(),
{
    if ws.len() == 0 {
        seq![]
    } else if ws.len() == 1 {
        ws[0]
    } else {
        join(ws.drop_last(), sep) + sep + ws.last()
    }
}

pub fn join_strings(ws: &Vec<String>, sep: &str) -> (r: String)
    ensures
        r@ == join(views(ws@), sep@),
{
    let r = join_strings_from(ws, 0, sep);
    assert(views(ws@).skip(0) =~= views(ws@));
    r
}

/// `ws[from..].join(sep)`.
pub fn join_strings_from(ws: &Vec<String>, from: usize, sep: &str) -> (r: String)
    requires
        from <= ws.len(),
    ensures
        r@ == join(views(ws@).skip(from as int), sep@),
{
    let mut r = String::new();
    let mut i: usize = from;
    let ghost w = views(ws@).skip(from as int);
    while i < ws.len()
        invariant
            from <= i <= ws.len(),
            w == views(ws@).skip(from as int),
            r@ == join(w.take(i - from), sep@),
        decreases ws.len() - i,
    {
        if i > from {
            append_str(&mut r, sep);
        }
        append_str(&mut r, ws[i].as_str());
        i = i + 1;
        assert(w.take(i - from).drop_last() =~= w.take(i - 1 - from));
        assert(w.take(i - from).last() == ws@[i - 1]@);
    }
    assert(w.take(ws.len() - from) =~= w);
    r
}

/// The part of `s` before the first `c` (all of `s` when there is none), as the first item of
/// `str::split(c)` gives it.
pub open spec fn before_char(s: Seq<char>, c: char) -> Seq<char>
    decreases s.len(),
{
    if s.len() == 0 || s[0] == c {
        seq![]
    } else {
        seq![s[0]] + before_char(s.drop_first(), c)
    }
}

pub fn before_char_str(s: &str, c: char) -> (r: String)
    ensures
        r@ == before_char(s@, c),
{
    let v = chars_of(s);
    let mut i: usize = 0;
    assert(v@.subrange(0, v.len() as int) =~= v@);
    while i < v.len() && v[i] != c
        invariant
            i <= v.len(),
            v@.subrange(0, i as int) + before_char(v@.subrange(i as int, v.len() as int), c)
                == before_char(v@, c),
        decreases v.len() - i,
    {
        assert(v@.subrange(i as int, v.len() as int).drop_first() =~= v@.subrange(
            i + 1,
            v.len() as int,
        ));
        assert(v@.subrange(0, i + 1) =~= v@.subrange(0, i as int) + seq![v@[i as int]]);
        i = i + 1;
    }
    assert(before_char(v@.subrange(i as int, v.len() as int), c) =~= seq![]);
    string_of(&v, 0, i)
}

/// Whether `s` starts with `p`.
pub open spec fn starts_with(s: Seq<char>, p: Seq<char>) -> bool {
    p.len() <= s.len() && s.take(p.len() as int) == p
}

pub fn starts_with_str(s: &str, p: &str) -> (b: bool)
    ensures
        b == starts_with(s@, p@),
{
    let v = chars_of(s);
    let q = chars_of(p);
    let b = occurs_at_exec(&v, &q, 0);
    proof {
        if q@.len() <= v@.len() {
            assert(v@.take(q@.len() as int) =~= v@.subrange(0, q@.len() as int));
        }
    }
    b
}


/// The decimal digit character for `d < 10`.
pub open spec fn digit_char(d: int) -> char {
    (d + 48) as char
}

/// The decimal digits of `n`, most significant first, without leading zeros ("0" for zero).
pub open spec fn digits(n: nat) -> Seq<char>
    decreases n,
{
    if n < 10 {
        seq![digit_char(n as int)]
    } else {
        digits(n / 10).push(digit_char((n % 10) as int))
    }
}

/// The decimal text of `n`, as `i32::to_string` writes it.
pub open spec fn decimal(n: int) -> Seq<char> {
    if n < 0 {
        seq!['-'] + digits((-n) as nat)
    } else {
        digits(n as nat)
    }
}

fn digits_of(n: u64) -> (r: Vec<char>)
    ensures
        r@ == digits(n as nat),
    decreases n,
{
    let d = (n % 10) as u8;
    let c = (d + 48) as char;
    if n < 10 {
        let mut r = Vec::new();
        r.push(c);
        r
    } else {
        let mut r = digits_of(n / 10);
        r.push(c);
        r
    }
}

pub fn decimal_string(n: i32) -> (r: String)
    ensures
        r@ == decimal(n as int),
{
    let mut r = String::new();
    let m: i64 = n as i64;
    if m < 0 {
        push_char(&mut r, '-');
        let d = digits_of((0 - m) as u64);
        append_chars(&mut r, &d);
    } else {
        let d = digits_of(m as u64);
        append_chars(&mut r, &d);
    }
    r
}

/// Every character of `s` is an ASCII digit.
pub open spec fn all_digits(s: Seq<char>) -> bool {
    forall|i: int| 0 <= i < s.len() ==> '0' <= #[trigger] s[i] <= '9'
}

/// The value of a run of decimal digits.
pub open spec fn digits_value(s: Seq<char>) -> int
    decreases s.len(),
{
    if s.len() == 0 {
        0
    } else {
        digits_value(s.drop_last()) * 10 + (s.last() as int - 48)
    }
}

/// `str::parse::<i32>`: an optional sign, then one or more ASCII digits, within range.
pub open spec fn parse_i32(s: Seq<char>) -> Option<i32> {
    let neg = s.len() > 0 && s[0] == '-';
    let body = if s.len() > 0 && (s[0] == '-' || s[0] == '+') {
        s.drop_first()
    } else {
        s
    };
    let v = if neg {
        -digits_value(body)
    } else {
        digits_value(body)
    };
    if body.len() == 0 || !all_digits(body) || v < i32::MIN || v > i32::MAX {
        None
    } else {
        Some(v as i32)
    }
}

pub proof fn lemma_digits_value_grows(s: Seq<char>, k: int)
    requires
        0 <= k <= s.len(),
        all_digits(s),
    ensures
        0 <= digits_value(s.take(k)) <= digits_value(s),
    decreases s.len(),
{
    if s.len() == 0 {
        assert(s.take(k) =~= s);
    } else if k == s.len() {
        assert(s.take(k) =~= s);
        lemma_digits_value_grows(s.drop_last(), k - 1);
        assert(s.drop_last().take(k - 1) =~= s.drop_last());
    } else {
        assert(all_digits(s.drop_last())) by {
            assert forall|i: int| 0 <= i < s.drop_last().len() implies '0' <= #[trigger] s.drop_last()[i] <= '9' by {
                assert(s.drop_last()[i] == s[i]);
            }
        }
        lemma_digits_value_grows(s.drop_last(), k);
        assert(s.drop_last().take(k) =~= s.take(k));
        assert(s[s.len() - 1] == s.last());
        lemma_digits_value_grows(s.drop_last(), s.len() - 1);
        assert(s.drop_last().take(s.len() - 1) =~= s.drop_last());
    }
}

pub fn parse_i32_str(s: &str) -> (r: Option<i32>)
    ensures
        r == parse_i32(s@),
{
    let v = chars_of(s);
    let n = v.len();
    let neg = n > 0 && v[0] == '-';
    let start: usize = if n > 0 && (v[0] == '-' || v[0] == '+') {
        1
    } else {
        0
    };
    let ghost body = v@.subrange(start as int, n as int);
    assert(body =~= (if v@.len() > 0 && (v@[0] == '-' || v@[0] == '+') {
        v@.drop_first()
    } else {
        v@
    }));
    if start == n {
        return None;
    }
    let mut acc: i64 = 0;
    let mut i = start;
    while i < n
        invariant
            start <= i <= n == v.len(),
            v@ == s@,
            neg == (v@.len() > 0 && v@[0] == '-'),
            body == v@.subrange(start as int, n as int),
            body == (if v@.len() > 0 && (v@[0] == '-' || v@[0] == '+') {
                v@.drop_first()
            } else {
                v@
            }),
            all_digits(body.take(i - start)),
            acc == digits_value(body.take(i - start)),
            0 <= acc <= 2147483648,
        decreases n - i,
    {
        let c = v[i];
        if !('0' <= c && c <= '9') {
            assert(body[i - start] == c);
            assert(!all_digits(body));
            return None;
        }
        let d = (c as u32 - 48) as i64;
        let next = acc * 10 + d;
        assert(body.take(i - start + 1).drop_last() =~= body.take(i - start));
        assert(all_digits(body.take(i - start + 1))) by {
            assert forall|j: int| 0 <= j < body.take(i - start + 1).len() implies '0'
                <= #[trigger] body.take(i - start + 1)[j] <= '9' by {
                if j < i - start {
                    assert(body.take(i - start)[j] == body.take(i - start + 1)[j]);
                }
            }
        }
        if next > 2147483648 {
            proof {
                if all_digits(body) {
                    lemma_digits_value_grows(body, i - start + 1);
                }
            }
            return None;
        }
        acc = next;
        i = i + 1;
    }
    assert(body.take(n - start) =~= body);
    if neg {
        Some((0 - acc) as i32)
    } else if acc > 2147483647 {
        None
    } else {
        Some(acc as i32)
    }
}


/// The number of leading whitespace characters of `s`.
pub open spec fn leading_ws(s: Seq<char>) -> nat
    decreases s.len(),
{
    if s.len() > 0 && is_whitespace(s[0]) {
        1 + leading_ws(s.drop_first())
    } else {
        0
    }
}

/// The number of trailing whitespace characters of `s`.
pub open spec fn trailing_ws(s: Seq<char>) -> nat
    decreases s.len(),
{
    if s.len() > 0 && is_whitespace(s.last()) {
        1 + trailing_ws(s.drop_last())
    } else {
        0
    }
}

pub proof fn lemma_trim_start(s: Seq<char>)
    ensures
        leading_ws(s) <= s.len(),
        trim_start(s) == s.skip(leading_ws(s) as int),
        forall|x: int| 0 <= x < leading_ws(s) ==> is_whitespace(#[trigger] s[x]),
    decreases s.len(),
{
    if s.len() > 0 && is_whitespace(s[0]) {
        lemma_trim_start(s.drop_first());
        assert(s.drop_first().skip(leading_ws(s.drop_first()) as int) =~= s.skip(
            leading_ws(s) as int,
        ));
        assert forall|x: int| 0 <= x < leading_ws(s) implies is_whitespace(#[trigger] s[x]) by {
            if x > 0 {
                assert(s[x] == s.drop_first()[x - 1]);
            }
        }
    } else {
        assert(s.skip(0) =~= s);
    }
}

pub proof fn lemma_trim_end(s: Seq<char>)
    ensures
        trailing_ws(s) <= s.len(),
        trim_end(s) == s.take(s.len() - trailing_ws(s)),
        forall|x: int| s.len() - trailing_ws(s) <= x < s.len() ==> is_whitespace(#[trigger] s[x]),
    decreases s.len(),
{
    if s.len() > 0 && is_whitespace(s.last()) {
        lemma_trim_end(s.drop_last());
        assert(s.drop_last().take(s.drop_last().len() - trailing_ws(s.drop_last())) =~= s.take(
            s.len() - trailing_ws(s),
        ));
        assert forall|x: int| s.len() - trailing_ws(s) <= x < s.len() implies is_whitespace(
            #[trigger] s[x],
        ) by {
            if x < s.len() - 1 {
                assert(s[x] == s.drop_last()[x]);
            }
        }
    } else {
        assert(s.take(s.len() as int) =~= s);
    }
}

/// Trimming keeps every occurrence of a pattern that starts and ends with non-whitespace.
pub proof fn lemma_trim_keeps_occurrence(s: Seq<char>, d: Seq<char>, i: int)
    requires
        d.len() > 0,
        !is_whitespace(d[0]),
        !is_whitespace(d.last()),
        occurs_at(s, d, i),
    ensures
        contains(trim(s), d),
{
    lemma_trim_start(s);
    let a = leading_ws(s) as int;
    let u = s.skip(a);
    lemma_trim_end(u);
    let b = u.len() - trailing_ws(u);
    assert(s.subrange(i, i + d.len())[0] == s[i]);
    assert(s[i] == d[0]);
    assert(i >= a);
    let e = i + d.len() - 1;
    assert(s.subrange(i, i + d.len())[d.len() - 1] == s[e]);
    assert(u[e - a] == s[e]);
    assert(e - a < b);
    let t = trim(s);
    assert(t == u.take(b));
    assert(t.subrange(i - a, i - a + d.len()) =~= s.subrange(i, i + d.len()));
    assert(occurs_at(t, d, i - a));
    lemma_find_from_facts(t, d, 0);
}


pub proof fn lemma_trim_start_first(s: Seq<char>)
    ensures
        trim_start(s).len() > 0 ==> !is_whitespace(trim_start(s)[0]),
    decreases s.len(),
{
    if s.len() > 0 && is_whitespace(s[0]) {
        lemma_trim_start_first(s.drop_first());
    }
}

pub proof fn lemma_trim_end_last(s: Seq<char>)
    ensures
        trim_end(s).len() > 0 ==> !is_whitespace(trim_end(s).last()),
    decreases s.len(),
{
    if s.len() > 0 && is_whitespace(s.last()) {
        lemma_trim_end_last(s.drop_last());
    }
}

/// Trimming twice is trimming once.
pub proof fn lemma_trim_idempotent(s: Seq<char>)
    ensures
        trim(trim(s)) == trim(s),
{
    let u = trim_start(s);
    let t = trim(s);
    lemma_trim_start_first(s);
    lemma_trim_end(u);
    lemma_trim_end_last(u);
    if t.len() > 0 {
        assert(t[0] == u[0]);
    }
    assert(trim_start(t) == t);
    assert(trim_end(t) == t);
}

pub proof fn lemma_digits_facts(m: nat)
    ensures
        digits(m).len() > 0,
        all_digits(digits(m)),
        digits_value(digits(m)) == m,
    decreases m,
{
    if m < 10 {
        assert(digit_char(m as int) as int == m + 48);
        assert(digits(m).drop_last() =~= Seq::<char>::empty());
        assert(digits_value(Seq::<char>::empty()) == 0);
        assert(digits_value(digits(m)) == m);
    } else {
        lemma_digits_facts(m / 10);
        let d = digits(m);
        assert(d.drop_last() == digits(m / 10));
        assert(digit_char((m % 10) as int) as int == (m % 10) + 48);
        assert(d.last() == digit_char((m % 10) as int));
        assert((m / 10) * 10 + m % 10 == m) by (nonlinear_arith);
        assert(digits_value(d) == digits_value(d.drop_last()) * 10 + (d.last() as int - 48));
        assert(digits_value(d) == m);
        assert forall|i: int| 0 <= i < d.len() implies '0' <= #[trigger] d[i] <= '9' by {
            if i < d.len() - 1 {
                assert(d[i] == digits(m / 10)[i]);
            }
        }
    }
}

/// Reading back the decimal text of a number gives the number: `i32::to_string` and
/// `str::parse::<i32>` undo each other.
pub proof fn lemma_parse_decimal(n: i32)
    ensures
        parse_i32(decimal(n as int)) == Some(n),
{
    if n < 0 {
        let m = (-(n as int)) as nat;
        lemma_digits_facts(m);
        let s = decimal(n as int);
        assert(s[0] == '-');
        assert(s.drop_first() =~= digits(m));
    } else {
        let m = n as nat;
        lemma_digits_facts(m);
        let s = decimal(n as int);
        assert('0' <= s[0] <= '9');
    }
}

} // verus!
