//! Flags a key that contains a character other than letters, digits and
//! underscores.

use vstd::prelude::*;

verus! {

use vstd::string::StrSliceExecFns;
use vstd::string::StringExecFns;
use crate::common::{LineEntry, Warning, key_of, reports};
use crate::text::is_key_char;
use crate::text::char_is_key_char;

pub struct IncorrectDelimiterChecker {}

impl Default for IncorrectDelimiterChecker {
    fn default() -> (r: Self)
        ensures
            r == (IncorrectDelimiterChecker {  }),
    {
        IncorrectDelimiterChecker {  }
    }
}

/// True when the key holds a character that no key may hold.
pub open spec fn has_bad_delimiter(k: Seq<char>) -> bool {
    exists|t: int| 0 <= t < k.len() && !is_key_char(k[t])
}

/// The warning this check owes for a line, if any.
pub open spec fn incorrect_delimiter_msg(raw: Seq<char>) -> Option<Seq<char>> {
    match key_of(raw) {
        Some(k) => if has_bad_delimiter(k) {
            Some("IncorrectDelimiter: The "@ + k + " key has incorrect delimiter"@)
        } else {
            None
        },
        None => None,
    }
}

impl IncorrectDelimiterChecker {
    pub fn name(&self) -> (r: &str)
        ensures
            r@ == "IncorrectDelimiter"@,
    {
        "IncorrectDelimiter"
    }

    pub fn run(&mut self, line: &LineEntry) -> (r: Option<Warning>)
        ensures
            *final(self) == *old(self),
            reports(r, *line, incorrect_delimiter_msg(line.raw_string@)),
    {
        match line.get_key() {
            None => None,
            Some(key) => {
                let ks: &str = key.as_str();
                let n: usize = ks.unicode_len();
                let mut t: usize = 0;
                while t < n
                    invariant
                        t <= n,
                        n == key@.len(),
                        ks@ == key@,
                        key_of(line.raw_string@) == Some(key@),
                        forall|u: int| 0 <= u < t ==> is_key_char(key@[u]),
                    decreases n - t,
                {
                    if !char_is_key_char(ks.get_char(t)) {
                        proof {
                            assert(!is_key_char(key@[t as int]));
                            assert(has_bad_delimiter(key@));
                            assert(incorrect_delimiter_msg(line.raw_string@) == Some(
                                "IncorrectDelimiter: The "@ + key@
                                    + " key has incorrect delimiter"@,
                            ));
                        }
                        let mut m: String = "IncorrectDelimiter: The ".to_owned();
                        m.append(ks);
                        m.append(" key has incorrect delimiter");
                        return Some(Warning::new(line.clone(), m));
                    }
                    t = t + 1;
                }
                None
            },
        }
    }
}

} // verus!
