//! Flags a line that has no unescaped `=` delimiter at all.

use vstd::prelude::*;

verus! {

use vstd::string::StringExecFns;
use crate::common::{LineEntry, Warning, key_of, reports};

pub struct KeyWithoutValueChecker {}

impl Default for KeyWithoutValueChecker {
    fn default() -> (r: Self)
        ensures
            r == (KeyWithoutValueChecker {  }),
    {
        KeyWithoutValueChecker {  }
    }
}

/// The warning this check owes for a line, if any; the raw text stands in for
/// the missing key.
pub open spec fn key_without_value_msg(raw: Seq<char>) -> Option<Seq<char>> {
    if key_of(raw) is None {
        Some("KeyWithoutValue: The "@ + raw + " key should be with a value or have an equal sign"@)
    } else {
        None
    }
}

impl KeyWithoutValueChecker {
    pub fn name(&self) -> (r: &str)
        ensures
            r@ == "KeyWithoutValue"@,
    {
        "KeyWithoutValue"
    }

    pub fn run(&mut self, line: &LineEntry) -> (r: Option<Warning>)
        ensures
            *final(self) == *old(self),
            reports(r, *line, key_without_value_msg(line.raw_string@)),
    {
        match line.get_key() {
            Some(_) => None,
            None => {
                let mut m: String = "KeyWithoutValue: The ".to_owned();
                m.append(line.raw_string.as_str());
                m.append(" key should be with a value or have an equal sign");
                Some(Warning::new(line.clone(), m))
            },
        }
    }
}

} // verus!
