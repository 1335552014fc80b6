//! Flags a key that uppercasing would change: a key must already be its own
//! uppercase form.

use vstd::prelude::*;

verus! {

use vstd::string::StringExecFns;
use crate::common::{LineEntry, Warning, key_of, reports};
use crate::text::str_eq;

pub struct LowercaseKeyChecker {}

impl Default for LowercaseKeyChecker {
    fn default() -> (r: Self)
        ensures
            r == (LowercaseKeyChecker {  }),
    {
        LowercaseKeyChecker {  }
    }
}

/// What `str::to_uppercase` returns for the characters `s`: Unicode
/// uppercasing, a function of the characters alone.
pub uninterp spec fn upper_of(s: Seq<char>) -> Seq<char>;

/// Relies on str::to_uppercase: its result depends on the characters of `s`
/// alone, and is named `upper_of` here.
#[verifier::external_body]
fn uppercase(s: &str) -> (r: String)
    ensures
        r@ == upper_of(s@),
{
    s.to_uppercase()
}

/// The text of the warning for `key`.
pub open spec fn lowercase_key_message(k: Seq<char>) -> Seq<char> {
    "LowercaseKey: The "@ + k + " key should be in uppercase"@
}

/// The warning this check owes for a line, if any: one is owed exactly when
/// the key differs from its own uppercase form.
pub open spec fn lowercase_key_msg(raw: Seq<char>) -> Option<Seq<char>> {
    match key_of(raw) {
        Some(k) => if upper_of(k) != k {
            Some(lowercase_key_message(k))
        } else {
            None
        },
        None => None,
    }
}

impl LowercaseKeyChecker {
    pub fn name(&self) -> (r: &str)
        ensures
            r@ == "LowercaseKey"@,
    {
        "LowercaseKey"
    }

    /// The rendered warning message for `key`.
    pub fn message(&self, key: &str) -> (r: String)
        ensures
            r@ == lowercase_key_message(key@),
    {
        let mut m: String = "LowercaseKey: The ".to_owned();
        m.append(key);
        m.append(" key should be in uppercase");
        m
    }

    pub fn run(&mut self, line: &LineEntry) -> (r: Option<Warning>)
        ensures
            *final(self) == *old(self),
            reports(r, *line, lowercase_key_msg(line.raw_string@)),
    {
        match line.get_key() {
            None => None,
            Some(key) => {
                let upper = uppercase(key.as_str());
                if str_eq(upper.as_str(), key.as_str()) {
                    None
                } else {
                    let m = self.message(key.as_str());
                    Some(Warning::new(line.clone(), m))
                }
            },
        }
    }
}

} // verus!
