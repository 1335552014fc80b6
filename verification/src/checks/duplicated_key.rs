//! Flags a key that was already seen in the same file. The memory is
//! partitioned by file path, so each file is judged on its own.

use vstd::prelude::*;

verus! {

use vstd::string::StringExecFns;
use crate::common::{LineEntry, Warning, key_of, pairs_view};
use crate::text::str_eq;

/// Remembers every `(file path, key)` pair already observed.
pub struct DuplicatedKeyChecker {
    seen: Vec<(String, String)>,
}

/// The text of the warning for `key`.
pub open spec fn duplicated_key_message(k: Seq<char>) -> Seq<char> {
    "DuplicatedKey: The "@ + k + " key is duplicated"@
}

/// What one call of `run` does: a keyed line warns exactly when its
/// `(path, key)` pair was seen before, and otherwise records the pair.
pub open spec fn duplicated_key_post(
    pre: DuplicatedKeyChecker,
    post: DuplicatedKeyChecker,
    line: LineEntry,
    r: Option<Warning>,
) -> bool {
    match key_of(line.raw_string@) {
        None => post == pre && r is None,
        Some(k) => if pre.model().contains((line.file_path@, k)) {
            post == pre && (r matches Some(w) && w.line == line && w.message@
                == duplicated_key_message(k))
        } else {
            post.model() == pre.model().push((line.file_path@, k)) && r is None
        },
    }
}

impl Default for DuplicatedKeyChecker {
    fn default() -> (r: Self)
        ensures
            r.model() == Seq::<(Seq<char>, Seq<char>)>::empty(),
    {
        let r = DuplicatedKeyChecker { seen: Vec::new() };
        proof {
            assert(r.model() =~= Seq::<(Seq<char>, Seq<char>)>::empty());
        }
        r
    }
}

impl DuplicatedKeyChecker {
    /// The pairs this check has recorded so far.
    pub closed spec fn model(self) -> Seq<(Seq<char>, Seq<char>)> {
        pairs_view(self.seen@)
    }

    pub fn name(&self) -> (r: &str)
        ensures
            r@ == "DuplicatedKey"@,
    {
        "DuplicatedKey"
    }

    pub fn run(&mut self, line: &LineEntry) -> (r: Option<Warning>)
        ensures
            duplicated_key_post(*old(self), *final(self), *line, r),
    {
        match line.get_key() {
            None => None,
            Some(key) => {
                let n: usize = self.seen.len();
                let mut idx: usize = 0;
                while idx < n
                    invariant
                        idx <= n,
                        n == self.seen@.len(),
                        *self == *old(self),
                        key_of(line.raw_string@) == Some(key@),
                        forall|u: int|
                            0 <= u < idx ==> !(self.seen@[u].0@ == line.file_path@
                                && self.seen@[u].1@ == key@),
                    decreases n - idx,
                {
                    if str_eq(self.seen[idx].0.as_str(), line.file_path.as_str()) && str_eq(
                        self.seen[idx].1.as_str(),
                        key.as_str(),
                    ) {
                        proof {
                            assert(self.model()[idx as int] == (line.file_path@, key@));
                            assert(self.model().contains((line.file_path@, key@)));
                        }
                        let mut m: String = "DuplicatedKey: The ".to_owned();
                        m.append(key.as_str());
                        m.append(" key is duplicated");
                        return Some(Warning::new(line.clone(), m));
                    }
                    idx = idx + 1;
                }
                proof {
                    assert(!self.model().contains((line.file_path@, key@))) by {
                        if self.model().contains((line.file_path@, key@)) {
                            let u = choose|u: int|
                                0 <= u < self.model().len() && self.model()[u] == (
                                line.file_path@,
                                key@,
                                );
                            assert(self.seen@[u].0@ == line.file_path@ && self.seen@[u].1@
                                == key@);
                        }
                    }
                }
                let ghost gk = key@;
                self.seen.push((line.file_path.clone(), key));
                proof {
                    assert(self.model() =~= old(self).model().push((line.file_path@, gk)));
                }
                None
            },
        }
    }
}

} // verus!
