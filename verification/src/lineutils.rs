//! Highlighting of the command line being edited.

use vstd::prelude::*;
use vstd::hash_map::StringHashMap;
use crate::builtins::{Builtin, build_map, builtin_names};
use crate::ps1::{byte_len, byte_len_of};
use crate::text::{
    append_str, chars_of, contains, fields, find, find_chars, split_fields, string_of, trim,
    trim_str,
};

verus! {

broadcast use vstd::string::group_string_axioms;

/// Bold red: a command that is neither a builtin nor found.
pub open spec fn invalid_color() -> Seq<char> {
    "\x1b[1;31m"@
}

/// Purple: a program found on the search path.
pub open spec fn exe_color() -> Seq<char> {
    "\x1b[0;35m"@
}

/// Gold: a builtin.
pub open spec fn builtins_color() -> Seq<char> {
    "\x1b[38;2;255;215;0m"@
}

/// The first ASCII-whitespace-separated word of the trimmed line (empty when there is none).
pub open spec fn first_word(line: Seq<char>) -> Seq<char> {
    let f = fields(trim(line), true);
    if f.len() > 0 {
        f[0]
    } else {
        seq![]
    }
}

/// The line with its command word painted in `color`: the colored word takes the place of
/// everything before the first space (or goes in front of the line when it has no space).
/// Lines shorter than three bytes stay as they are.
pub open spec fn highlighted(line: Seq<char>, color: Seq<char>) -> Seq<char> {
    if byte_len(line) < 3 {
        line
    } else {
        let colored = color + first_word(line) + "\x1b[0m"@;
        match find(line, " "@) {
            Some(k) => colored + line.skip(k),
            None => colored + line,
        }
    }
}

/// The color of a command word: builtins first, then whether the program was found.
pub open spec fn command_color(word: Seq<char>, found: bool) -> Seq<char> {
    if builtin_names().contains_key(word) {
        builtins_color()
    } else if found {
        exe_color()
    } else {
        invalid_color()
    }
}

/// Looks the program up with `which::which`. What it finds depends on the search path and the
/// files on disk, so the contract states nothing of the result.
#[verifier::external_body]
fn executable_found(name: &str) -> bool {
    which::which(name).is_ok()
}

/// Paints command words as the user types them.
pub struct CommandHighlighter {
    builtins_map: StringHashMap<Builtin>,
    invalid_color: String,
    exe_color: String,
    builtins_color: String,
}

impl CommandHighlighter {
    #[verifier::type_invariant]
    closed spec fn well_formed(self) -> bool {
        &&& self.builtins_map@ == builtin_names()
        &&& self.invalid_color@ == invalid_color()
        &&& self.exe_color@ == exe_color()
        &&& self.builtins_color@ == builtins_color()
    }

    /// The builtins that the highlighter knows.
    pub closed spec fn known_builtins(&self) -> Map<Seq<char>, Builtin> {
        self.builtins_map@
    }

    /// The colors for unknown commands, found programs and builtins.
    pub closed spec fn palette(&self) -> (Seq<char>, Seq<char>, Seq<char>) {
        (self.invalid_color@, self.exe_color@, self.builtins_color@)
    }

    /// A highlighter that knows the builtins.
    pub fn new() -> (h: CommandHighlighter)
        ensures
            h.known_builtins() == builtin_names(),
            h.palette() == (invalid_color(), exe_color(), builtins_color()),
    {
        CommandHighlighter {
            builtins_map: build_map(),
            invalid_color: "\x1b[1;31m".to_string(),
            exe_color: "\x1b[0;35m".to_string(),
            builtins_color: "\x1b[38;2;255;215;0m".to_string(),
        }
    }

    /// The line painted for a command word that was (`found`) or was not found as a program.
    pub fn highlight_with(&self, line: &str, found: bool) -> (r: String)
        ensures
            r@ == highlighted(line@, command_color(first_word(line@), found)),
    {
        proof {
            use_type_invariant(self);
        }
        let v = chars_of(line);
        if byte_len_of(&v) < 3 {
            return line.to_string();
        }
        let exe = self.command_word(line);
        let color = if self.builtins_map.contains_key(exe.as_str()) {
            &self.builtins_color
        } else if found {
            &self.exe_color
        } else {
            &self.invalid_color
        };
        self.paint(line, &v, color, &exe)
    }

    /// The first word of the trimmed line.
    fn command_word(&self, line: &str) -> (w: String)
        ensures
            w@ == first_word(line@),
    {
        let t = trim_str(line);
        let f = split_fields(t.as_str(), true);
        if f.len() > 0 {
            f[0].clone()
        } else {
            String::new()
        }
    }

    fn paint(&self, line: &str, v: &Vec<char>, color: &String, exe: &String) -> (r: String)
        requires
            v@ == line@,
            exe@ == first_word(line@),
            byte_len(line@) >= 3,
        ensures
            r@ == highlighted(line@, color@),
    {
        let mut r = color.clone();
        append_str(&mut r, exe.as_str());
        append_str(&mut r, "\x1b[0m");
        let space = chars_of(" ");
        match find_chars(v, &space) {
            Some(k) => {
                proof {
                    crate::text::lemma_find_from_facts(v@, space@, 0);
                }
                assert(k <= v.len()) by {
                    assert(crate::text::occurs_at(v@, space@, k as int));
                }
                let rest = string_of(v, k, v.len());
                assert(v@.subrange(k as int, v.len() as int) =~= v@.skip(k as int));
                append_str(&mut r, rest.as_str());
            },
            None => {
                append_str(&mut r, line);
            },
        }
        r
    }

    /// The line painted for display: builtins in gold, programs found on the search path in
    /// purple, anything else in red.
    pub fn highlight(&self, line: &str, pos: usize) -> (r: String)
        ensures
            r@ == highlighted(line@, command_color(first_word(line@), true)) || r@ == highlighted(
                line@,
                command_color(first_word(line@), false),
            ),
            builtin_names().contains_key(first_word(line@)) ==> r@ == highlighted(
                line@,
                builtins_color(),
            ),
    {
        proof {
            use_type_invariant(self);
        }
        let v = chars_of(line);
        if byte_len_of(&v) < 3 {
            return line.to_string();
        }
        let exe = self.command_word(line);
        let found = if self.builtins_map.contains_key(exe.as_str()) {
            true
        } else {
            executable_found(exe.as_str())
        };
        self.highlight_with(line, found)
    }

    /// Whether the line holds a quote or a space (so that the editor repaints it).
    pub fn highlight_char(&self, line: &str, pos: usize) -> (b: bool)
        ensures
            b == (contains(line@, "\""@) || contains(line@, "'"@) || contains(line@, " "@)),
    {
        crate::text::contains_str(line, "\"") || crate::text::contains_str(line, "'")
            || crate::text::contains_str(line, " ")
    }
}

/// A hint shown in bold.
pub fn bold_hint(hint: &str) -> (r: String)
    ensures
        r@ == "\x1b[1m"@ + hint@ + "\x1b[m"@,
{
    let mut r = "\x1b[1m".to_string();
    append_str(&mut r, hint);
    append_str(&mut r, "\x1b[m");
    r
}

} // verus!
