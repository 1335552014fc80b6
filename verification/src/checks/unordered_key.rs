//! Flags a key that sorts strictly before the key seen just above it in the
//! same file. Each comparison is against the immediately preceding key of
//! that file, not the smallest key seen so far.

use vstd::prelude::*;

verus! {

use vstd::string::StringExecFns;
use crate::common::{LineEntry, Warning, key_of, pairs_view};
use crate::text::{lex_lt, str_eq, str_lex_lt};

/// Remembers, in order, every `(file path, key)` pair observed; the most
/// recent pair of a path carries that file's current baseline key.
pub struct UnorderedKeyChecker {
    keys: Vec<(String, String)>,
}

/// The key of the latest pair recorded for `path`, if any.
pub open spec fn last_key_for(h: Seq<(Seq<char>, Seq<char>)>, path: Seq<char>) -> Option<Seq<char>>
    decreases h.len(),
{
    if h.len() == 0 {
        None
    } else if h.last().0 == path {
        Some(h.last().1)
    } else {
        last_key_for(h.drop_last(), path)
    }
}

/// The text of the warning for `key` against the preceding key `prev`.
pub open spec fn unordered_key_message(k: Seq<char>, prev: Seq<char>) -> Seq<char> {
    "UnorderedKey: The "@ + k + " key should go before the "@ + prev + " key"@
}

/// What one call of `run` does: a keyed line warns exactly when its file
/// already has a baseline key and the new key sorts strictly before it; the
/// new key becomes the baseline either way.
pub open spec fn unordered_key_post(
    pre: UnorderedKeyChecker,
    post: UnorderedKeyChecker,
    line: LineEntry,
    r: Option<Warning>,
) -> bool {
    match key_of(line.raw_string@) {
        None => post == pre && r is None,
        Some(k) => post.model() == pre.model().push((line.file_path@, k)) && (match last_key_for(
            pre.model(),
            line.file_path@,
        ) {
            Some(prev) => if lex_lt(k, prev) {
                r matches Some(w) && w.line == line && w.message@ == unordered_key_message(k, prev)
            } else {
                r is None
            },
            None => r is None,
        }),
    }
}

/// The key of the latest entry whose path equals `path`, cloned.
fn last_key_for_path(keys: &Vec<(String, String)>, path: &str) -> (r: Option<String>)
    ensures
        (match r {
            Some(prev) => last_key_for(pairs_view(keys@), path@) == Some(prev@),
            None => last_key_for(pairs_view(keys@), path@) is None,
        }),
{
    let mut t: usize = keys.len();
    proof {
        assert(pairs_view(keys@).take(keys@.len() as int) =~= pairs_view(keys@));
    }
    while t > 0
        invariant
            t <= keys@.len(),
            last_key_for(pairs_view(keys@), path@) == last_key_for(
                pairs_view(keys@).take(t as int),
                path@,
            ),
        decreases t,
    {
        proof {
            let h = pairs_view(keys@).take(t as int);
            assert(h.last() == (keys@[t - 1].0@, keys@[t - 1].1@));
            assert(h.drop_last() =~= pairs_view(keys@).take(t - 1));
        }
        if str_eq(keys[t - 1].0.as_str(), path) {
            return Some(keys[t - 1].1.clone());
        }
        t = t - 1;
    }
    None
}

impl Default for UnorderedKeyChecker {
    fn default() -> (r: Self)
        ensures
            r.model() == Seq::<(Seq<char>, Seq<char>)>::empty(),
    {
        let r = UnorderedKeyChecker { keys: Vec::new() };
        proof {
            assert(r.model() =~= Seq::<(Seq<char>, Seq<char>)>::empty());
        }
        r
    }
}

impl UnorderedKeyChecker {
    /// The pairs this check has recorded so far, in order.
    pub closed spec fn model(self) -> Seq<(Seq<char>, Seq<char>)> {
        pairs_view(self.keys@)
    }

    pub fn name(&self) -> (r: &str)
        ensures
            r@ == "UnorderedKey"@,
    {
        "UnorderedKey"
    }

    pub fn run(&mut self, line: &LineEntry) -> (r: Option<Warning>)
        ensures
            unordered_key_post(*old(self), *final(self), *line, r),
    {
        match line.get_key() {
            None => None,
            Some(key) => {
                let prev_opt = last_key_for_path(&self.keys, line.file_path.as_str());
                let result: Option<Warning> = match prev_opt {
                    Some(prev) => {
                        if str_lex_lt(key.as_str(), prev.as_str()) {
                            let mut m: String = "UnorderedKey: The ".to_owned();
                            m.append(key.as_str());
                            m.append(" key should go before the ");
                            m.append(prev.as_str());
                            m.append(" key");
                            Some(Warning::new(line.clone(), m))
                        } else {
                            None
                        }
                    },
                    None => None,
                };
                let ghost gk = key@;
                self.keys.push((line.file_path.clone(), key));
                proof {
                    assert(self.model() =~= old(self).model().push((line.file_path@, gk)));
                }
                result
            },
        }
    }
}

} // verus!
