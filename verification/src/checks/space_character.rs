//! Flags a space directly before or after an `=` sign.

use vstd::prelude::*;

verus! {

use vstd::string::StrSliceExecFns;
use crate::common::{LineEntry, Warning, reports};

pub struct SpaceCharacterChecker {}

impl Default for SpaceCharacterChecker {
    fn default() -> (r: Self)
        ensures
            r == (SpaceCharacterChecker {  }),
    {
        SpaceCharacterChecker {  }
    }
}

/// True when a space stands directly before or after an `=` sign.
pub open spec fn has_space_at_delim(raw: Seq<char>) -> bool {
    exists|t: int|
        #![trigger raw[t]]
        0 <= t && t + 1 < raw.len() && ((raw[t] == ' ' && raw[t + 1] == '=') || (raw[t] == '='
            && raw[t + 1] == ' '))
}

/// The warning this check owes for a line, if any.
pub open spec fn space_character_msg(raw: Seq<char>) -> Option<Seq<char>> {
    if has_space_at_delim(raw) {
        Some("SpaceCharacter: The line has spaces around equal sign"@)
    } else {
        None
    }
}

impl SpaceCharacterChecker {
    pub fn name(&self) -> (r: &str)
        ensures
            r@ == "SpaceCharacter"@,
    {
        "SpaceCharacter"
    }

    pub fn run(&mut self, line: &LineEntry) -> (r: Option<Warning>)
        ensures
            *final(self) == *old(self),
            reports(r, *line, space_character_msg(line.raw_string@)),
    {
        let s: &str = line.raw_string.as_str();
        let n: usize = s.unicode_len();
        if n < 2 {
            return None;
        }
        let mut prev = s.get_char(0);
        let mut t: usize = 1;
        while t < n
            invariant
                1 <= t <= n,
                n == s@.len(),
                s@ == line.raw_string@,
                prev == s@[t - 1],
                forall|u: int|
                    #![trigger s@[u]]
                    0 <= u && u + 1 < t ==> !((s@[u] == ' ' && s@[u + 1] == '=') || (s@[u] == '='
                        && s@[u + 1] == ' ')),
            decreases n - t,
        {
            let c = s.get_char(t);
            if (prev == ' ' && c == '=') || (prev == '=' && c == ' ') {
                proof {
                    let u = t as int;
                    assert((s@[u - 1] == ' ' && s@[u] == '=') || (s@[u - 1] == '=' && s@[u]
                        == ' '));
                }
                return Some(
                    Warning::new(
                        line.clone(),
                        "SpaceCharacter: The line has spaces around equal sign".to_owned(),
                    ),
                );
            }
            prev = c;
            t = t + 1;
        }
        None
    }
}

} // verus!
