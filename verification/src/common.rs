//! The values the linter works on: one physical line of a scanned file, and
//! one reported warning.

use vstd::prelude::*;

verus! {

use vstd::string::StrSliceExecFns;
use crate::text::{trim_seq, str_trim};

/// A line is blank or a full-line comment; such lines are never inspected.
pub open spec fn blank_or_comment(raw: Seq<char>) -> bool {
    raw.len() == 0 || raw[0] == '#'
}

/// The position of the first unescaped `=` at or after `i`, if any.
pub open spec fn first_delim_from(raw: Seq<char>, i: int) -> Option<int>
    decreases raw.len() - i,
{
    if i < 0 || i >= raw.len() {
        None
    } else if raw[i] == '=' && (i == 0 || raw[i - 1] != '\\') {
        Some(i)
    } else {
        first_delim_from(raw, i + 1)
    }
}

/// The position of the first unescaped `=` of the line, if any.
pub open spec fn first_delim(raw: Seq<char>) -> Option<int> {
    first_delim_from(raw, 0)
}

/// The key of a line: the part before the first unescaped `=`, trimmed of
/// surrounding blanks; absent when the line has no such delimiter.
pub open spec fn key_of(raw: Seq<char>) -> Option<Seq<char>> {
    match first_delim(raw) {
        Some(i) => Some(trim_seq(raw.take(i))),
        None => None,
    }
}

/// One physical line of one source file: its 1-based number, the owning
/// file's path, and the raw text.
#[derive(Debug)]
pub struct LineEntry {
    pub number: usize,
    pub file_path: String,
    pub raw_string: String,
}

impl Clone for LineEntry {
    fn clone(&self) -> (r: Self)
        ensures
            r == *self,
    {
        let r = LineEntry {
            number: self.number,
            file_path: self.file_path.clone(),
            raw_string: self.raw_string.clone(),
        };
        proof {
            assert(r == *self);
        }
        r
    }
}

impl LineEntry {
    /// True when the line is empty or a full-line comment.
    pub fn is_empty_or_comment(&self) -> (r: bool)
        ensures
            r == blank_or_comment(self.raw_string@),
    {
        let s: &str = self.raw_string.as_str();
        if s.unicode_len() == 0 {
            true
        } else {
            s.get_char(0) == '#'
        }
    }

    /// The key of the line, if it has one; see [`key_of`].
    pub fn get_key(&self) -> (r: Option<String>)
        ensures
            (match r {
                Some(k) => key_of(self.raw_string@) == Some(k@),
                None => key_of(self.raw_string@) is None,
            }),
    {
        let s: &str = self.raw_string.as_str();
        let n: usize = s.unicode_len();
        let mut i: usize = 0;
        let mut prev: char = ' ';
        while i < n
            invariant
                i <= n,
                n == s@.len(),
                s@ == self.raw_string@,
                first_delim(s@) == first_delim_from(s@, i as int),
                i > 0 ==> prev == s@[i - 1],
            decreases n - i,
        {
            let c = s.get_char(i);
            if c == '=' && (i == 0 || prev != '\\') {
                let prefix: &str = s.substring_char(0, i);
                let trimmed: String = str_trim(prefix);
                proof {
                    assert(first_delim_from(s@, i as int) == Some(i as int));
                    assert(prefix@ =~= s@.take(i as int));
                }
                return Some(trimmed);
            }
            prev = c;
            i = i + 1;
        }
        None
    }
}

/// One reported violation: the originating line and a message of the shape
/// `"<CheckName>: <description>"`.
#[derive(Debug)]
pub struct Warning {
    pub line: LineEntry,
    pub message: String,
}

impl Warning {
    pub fn new(line: LineEntry, message: String) -> (w: Warning)
        ensures
            w.line == line,
            w.message == message,
    {
        Warning { line, message }
    }
}

/// The mathematical content of a list of string pairs: the sequence of the
/// pairs of their characters.
pub open spec fn pairs_view(s: Seq<(String, String)>) -> Seq<(Seq<char>, Seq<char>)> {
    s.map_values(|e: (String, String)| (e.0@, e.1@))
}

/// How a check's result relates to the message it owes for a line: when a
/// message is owed, the result carries that line and that message; otherwise
/// the check abstains.
pub open spec fn reports(r: Option<Warning>, line: LineEntry, m: Option<Seq<char>>) -> bool {
    match m {
        Some(msg) => r matches Some(w) && w.line == line && w.message@ == msg,
        None => r is None,
    }
}

/// Two warnings are the same report when they point at the same place and
/// carry the same message; the raw text of the line is not compared.
impl PartialEq for Warning {
    fn eq(&self, other: &Self) -> (r: bool) {
        self.line.number == other.line.number && self.line.file_path.eq(&other.line.file_path)
            && self.message.eq(&other.message)
    }
}

impl vstd::std_specs::cmp::PartialEqSpecImpl for Warning {
    open spec fn obeys_eq_spec() -> bool {
        true
    }

    open spec fn eq_spec(&self, other: &Warning) -> bool {
        self.line.number == other.line.number && self.line.file_path@ == other.line.file_path@
            && self.message@ == other.message@
    }
}

} // verus!
