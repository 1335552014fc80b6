//! Flags a line that contains a single or double quote character.

use vstd::prelude::*;

verus! {

use vstd::string::StrSliceExecFns;
use crate::common::{LineEntry, Warning, reports};

pub struct QuoteCharacterChecker {}

impl Default for QuoteCharacterChecker {
    fn default() -> (r: Self)
        ensures
            r == (QuoteCharacterChecker {  }),
    {
        QuoteCharacterChecker {  }
    }
}

/// True when the line holds a quote character.
pub open spec fn has_quote(raw: Seq<char>) -> bool {
    exists|t: int| 0 <= t < raw.len() && (raw[t] == '"' || raw[t] == '\'')
}

/// The warning this check owes for a line, if any.
pub open spec fn quote_character_msg(raw: Seq<char>) -> Option<Seq<char>> {
    if has_quote(raw) {
        Some("QuoteCharacter: The value has quote characters"@)
    } else {
        None
    }
}

impl QuoteCharacterChecker {
    pub fn name(&self) -> (r: &str)
        ensures
            r@ == "QuoteCharacter"@,
    {
        "QuoteCharacter"
    }

    pub fn run(&mut self, line: &LineEntry) -> (r: Option<Warning>)
        ensures
            *final(self) == *old(self),
            reports(r, *line, quote_character_msg(line.raw_string@)),
    {
        let s: &str = line.raw_string.as_str();
        let n: usize = s.unicode_len();
        let mut t: usize = 0;
        while t < n
            invariant
                t <= n,
                n == s@.len(),
                s@ == line.raw_string@,
                forall|u: int| 0 <= u < t ==> !(s@[u] == '"' || s@[u] == '\''),
            decreases n - t,
        {
            let c = s.get_char(t);
            if c == '"' || c == '\'' {
                return Some(
                    Warning::new(line.clone(), "QuoteCharacter: The value has quote characters".to_owned()),
                );
            }
            t = t + 1;
        }
        None
    }
}

} // verus!
