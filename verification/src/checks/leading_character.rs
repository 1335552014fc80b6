//! Flags a line whose first character is not a letter or an underscore.

use vstd::prelude::*;

verus! {

use vstd::string::StrSliceExecFns;
use crate::common::{LineEntry, Warning, reports};
use crate::text::is_ascii_letter;
use crate::text::char_is_letter_or_underscore;

pub struct LeadingCharacterChecker {}

impl Default for LeadingCharacterChecker {
    fn default() -> (r: Self)
        ensures
            r == (LeadingCharacterChecker {  }),
    {
        LeadingCharacterChecker {  }
    }
}

/// The warning this check owes for a line, if any.
pub open spec fn leading_character_msg(raw: Seq<char>) -> Option<Seq<char>> {
    if raw.len() > 0 && !(is_ascii_letter(raw[0]) || raw[0] == '_') {
        Some("LeadingCharacter: Invalid leading character detected"@)
    } else {
        None
    }
}

impl LeadingCharacterChecker {
    pub fn name(&self) -> (r: &str)
        ensures
            r@ == "LeadingCharacter"@,
    {
        "LeadingCharacter"
    }

    pub fn run(&mut self, line: &LineEntry) -> (r: Option<Warning>)
        ensures
            *final(self) == *old(self),
            reports(r, *line, leading_character_msg(line.raw_string@)),
    {
        let s: &str = line.raw_string.as_str();
        if s.unicode_len() == 0 {
            return None;
        }
        let c = s.get_char(0);
        if char_is_letter_or_underscore(c) {
            None
        } else {
            Some(
                Warning::new(
                    line.clone(),
                    "LeadingCharacter: Invalid leading character detected".to_owned(),
                ),
            )
        }
    }
}

} // verus!
