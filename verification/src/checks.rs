//! The pluggable line-checking engine: the closed set of checks, the registry
//! that builds and filters their list, and the runner that feeds every active
//! check each non-comment line and collects the warnings.

pub mod duplicated_key;
pub mod incorrect_delimiter;
pub mod key_without_value;
pub mod leading_character;
pub mod lowercase_key;
pub mod quote_character;
pub mod space_character;
pub mod unordered_key;

use vstd::prelude::*;

verus! {

use crate::common::{LineEntry, Warning, blank_or_comment, key_of, reports};
use crate::text::{lex_lt, str_eq};
use crate::checks::duplicated_key::{DuplicatedKeyChecker, duplicated_key_message, duplicated_key_post};
use crate::checks::incorrect_delimiter::{IncorrectDelimiterChecker, incorrect_delimiter_msg};
use crate::checks::key_without_value::{KeyWithoutValueChecker, key_without_value_msg};
use crate::checks::leading_character::{LeadingCharacterChecker, leading_character_msg};
use crate::checks::lowercase_key::{LowercaseKeyChecker, lowercase_key_msg};
use crate::checks::quote_character::{QuoteCharacterChecker, quote_character_msg};
use crate::checks::space_character::{SpaceCharacterChecker, space_character_msg};
use crate::checks::unordered_key::{UnorderedKeyChecker, last_key_for, unordered_key_message, unordered_key_post};

/// The identity of one check, apart from any state it holds.
pub enum CheckId {
    DuplicatedKey,
    IncorrectDelimiter,
    LeadingCharacter,
    KeyWithoutValue,
    LowercaseKey,
    QuoteCharacter,
    SpaceCharacter,
    UnorderedKey,
}

/// One check instance: a named rule that inspects one line at a time and may
/// hold state of its own across lines.
pub enum Checker {
    DuplicatedKey(DuplicatedKeyChecker),
    IncorrectDelimiter(IncorrectDelimiterChecker),
    LeadingCharacter(LeadingCharacterChecker),
    KeyWithoutValue(KeyWithoutValueChecker),
    LowercaseKey(LowercaseKeyChecker),
    QuoteCharacter(QuoteCharacterChecker),
    SpaceCharacter(SpaceCharacterChecker),
    UnorderedKey(UnorderedKeyChecker),
}

/// The stable name of a check, used for skip-list matching and as the message
/// prefix.
pub open spec fn check_name(id: CheckId) -> Seq<char> {
    match id {
        CheckId::DuplicatedKey => "DuplicatedKey"@,
        CheckId::IncorrectDelimiter => "IncorrectDelimiter"@,
        CheckId::LeadingCharacter => "LeadingCharacter"@,
        CheckId::KeyWithoutValue => "KeyWithoutValue"@,
        CheckId::LowercaseKey => "LowercaseKey"@,
        CheckId::QuoteCharacter => "QuoteCharacter"@,
        CheckId::SpaceCharacter => "SpaceCharacter"@,
        CheckId::UnorderedKey => "UnorderedKey"@,
    }
}

/// The fixed registration order of the checks.
pub open spec fn reg_index(id: CheckId) -> int {
    match id {
        CheckId::DuplicatedKey => 0,
        CheckId::IncorrectDelimiter => 1,
        CheckId::LeadingCharacter => 2,
        CheckId::KeyWithoutValue => 3,
        CheckId::LowercaseKey => 4,
        CheckId::QuoteCharacter => 5,
        CheckId::SpaceCharacter => 6,
        CheckId::UnorderedKey => 7,
    }
}

/// All checks, in registration order.
pub open spec fn registration_ids() -> Seq<CheckId> {
    seq![
        CheckId::DuplicatedKey,
        CheckId::IncorrectDelimiter,
        CheckId::LeadingCharacter,
        CheckId::KeyWithoutValue,
        CheckId::LowercaseKey,
        CheckId::QuoteCharacter,
        CheckId::SpaceCharacter,
        CheckId::UnorderedKey,
    ]
}

impl Checker {
    pub open spec fn id(self) -> CheckId {
        match self {
            Checker::DuplicatedKey(_) => CheckId::DuplicatedKey,
            Checker::IncorrectDelimiter(_) => CheckId::IncorrectDelimiter,
            Checker::LeadingCharacter(_) => CheckId::LeadingCharacter,
            Checker::KeyWithoutValue(_) => CheckId::KeyWithoutValue,
            Checker::LowercaseKey(_) => CheckId::LowercaseKey,
            Checker::QuoteCharacter(_) => CheckId::QuoteCharacter,
            Checker::SpaceCharacter(_) => CheckId::SpaceCharacter,
            Checker::UnorderedKey(_) => CheckId::UnorderedKey,
        }
    }

    /// A check that has seen no line yet.
    pub open spec fn fresh(self) -> bool {
        match self {
            Checker::DuplicatedKey(c) => c.model() == Seq::<(Seq<char>, Seq<char>)>::empty(),
            Checker::UnorderedKey(c) => c.model() == Seq::<(Seq<char>, Seq<char>)>::empty(),
            _ => true,
        }
    }

    pub fn name(&self) -> (r: &str)
        ensures
            r@ == check_name(self.id()),
    {
        match self {
            Checker::DuplicatedKey(_) => "DuplicatedKey",
            Checker::IncorrectDelimiter(_) => "IncorrectDelimiter",
            Checker::LeadingCharacter(_) => "LeadingCharacter",
            Checker::KeyWithoutValue(_) => "KeyWithoutValue",
            Checker::LowercaseKey(_) => "LowercaseKey",
            Checker::QuoteCharacter(_) => "QuoteCharacter",
            Checker::SpaceCharacter(_) => "SpaceCharacter",
            Checker::UnorderedKey(_) => "UnorderedKey",
        }
    }

    pub fn run(&mut self, line: &LineEntry) -> (r: Option<Warning>)
        ensures
            final(self).id() == old(self).id(),
            checker_post(*old(self), *final(self), *line, r),
    {
        match self {
            Checker::DuplicatedKey(c) => c.run(line),
            Checker::IncorrectDelimiter(c) => c.run(line),
            Checker::LeadingCharacter(c) => c.run(line),
            Checker::KeyWithoutValue(c) => c.run(line),
            Checker::LowercaseKey(c) => c.run(line),
            Checker::QuoteCharacter(c) => c.run(line),
            Checker::SpaceCharacter(c) => c.run(line),
            Checker::UnorderedKey(c) => c.run(line),
        }
    }
}

/// What one call of a check's `run` does, by variant.
pub open spec fn checker_post(pre: Checker, post: Checker, line: LineEntry, r: Option<
    Warning,
>) -> bool {
    match pre {
        Checker::DuplicatedKey(c) => post matches Checker::DuplicatedKey(c2)
            && duplicated_key_post(c, c2, line, r),
        Checker::UnorderedKey(c) => post matches Checker::UnorderedKey(c2)
            && unordered_key_post(c, c2, line, r),
        Checker::IncorrectDelimiter(_) => post == pre && reports(
            r,
            line,
            incorrect_delimiter_msg(line.raw_string@),
        ),
        Checker::LeadingCharacter(_) => post == pre && reports(
            r,
            line,
            leading_character_msg(line.raw_string@),
        ),
        Checker::KeyWithoutValue(_) => post == pre && reports(
            r,
            line,
            key_without_value_msg(line.raw_string@),
        ),
        Checker::LowercaseKey(_) => post == pre && reports(
            r,
            line,
            lowercase_key_msg(line.raw_string@),
        ),
        Checker::QuoteCharacter(_) => post == pre && reports(
            r,
            line,
            quote_character_msg(line.raw_string@),
        ),
        Checker::SpaceCharacter(_) => post == pre && reports(
            r,
            line,
            space_character_msg(line.raw_string@),
        ),
    }
}

/// The identities of a list of check instances.
pub open spec fn checker_ids(s: Seq<Checker>) -> Seq<CheckId> {
    s.map_values(|c: Checker| c.id())
}

/// The full default checklist, in registration order, with every check fresh.
pub fn checklist() -> (r: Vec<Checker>)
    ensures
        checker_ids(r@) == registration_ids(),
        forall|t: int| 0 <= t < r@.len() ==> (#[trigger] r@[t]).fresh(),
{
    let mut v: Vec<Checker> = Vec::new();
    v.push(Checker::DuplicatedKey(DuplicatedKeyChecker::default()));
    v.push(Checker::IncorrectDelimiter(IncorrectDelimiterChecker::default()));
    v.push(Checker::LeadingCharacter(LeadingCharacterChecker::default()));
    v.push(Checker::KeyWithoutValue(KeyWithoutValueChecker::default()));
    v.push(Checker::LowercaseKey(LowercaseKeyChecker::default()));
    v.push(Checker::QuoteCharacter(QuoteCharacterChecker::default()));
    v.push(Checker::SpaceCharacter(SpaceCharacterChecker::default()));
    v.push(Checker::UnorderedKey(UnorderedKeyChecker::default()));
    proof {
        assert(checker_ids(v@) =~= registration_ids());
    }
    v
}

/// The `(file path, key)` pairs of the keyed, non-comment lines among
/// `lines[..i]`, in order: what the stateful checks have observed so far.
pub open spec fn keyed_history(lines: Seq<LineEntry>, i: int) -> Seq<(Seq<char>, Seq<char>)>
    decreases i,
{
    if i <= 0 {
        Seq::empty()
    } else {
        let rest = keyed_history(lines, i - 1);
        let l = lines[i - 1];
        if !blank_or_comment(l.raw_string@) && key_of(l.raw_string@) is Some {
            rest.push((l.file_path@, key_of(l.raw_string@)->Some_0))
        } else {
            rest
        }
    }
}

/// The duplicate-key warning owed for line `i`: its key was already seen in
/// the same file.
pub open spec fn dup_msg_at(lines: Seq<LineEntry>, i: int) -> Option<Seq<char>> {
    let l = lines[i];
    match key_of(l.raw_string@) {
        Some(k) => if keyed_history(lines, i).contains((l.file_path@, k)) {
            Some(duplicated_key_message(k))
        } else {
            None
        },
        None => None,
    }
}

/// The unordered-key warning owed for line `i`: its key sorts strictly before
/// the latest key seen in the same file.
pub open spec fn unordered_msg_at(lines: Seq<LineEntry>, i: int) -> Option<Seq<char>> {
    let l = lines[i];
    match key_of(l.raw_string@) {
        Some(k) => match last_key_for(keyed_history(lines, i), l.file_path@) {
            Some(prev) => if lex_lt(k, prev) {
                Some(unordered_key_message(k, prev))
            } else {
                None
            },
            None => None,
        },
        None => None,
    }
}

/// The warning check `id` owes for line `i` of the scan, if any.
pub open spec fn check_msg(id: CheckId, lines: Seq<LineEntry>, i: int) -> Option<Seq<char>> {
    match id {
        CheckId::DuplicatedKey => dup_msg_at(lines, i),
        CheckId::IncorrectDelimiter => incorrect_delimiter_msg(lines[i].raw_string@),
        CheckId::LeadingCharacter => leading_character_msg(lines[i].raw_string@),
        CheckId::KeyWithoutValue => key_without_value_msg(lines[i].raw_string@),
        CheckId::LowercaseKey => lowercase_key_msg(lines[i].raw_string@),
        CheckId::QuoteCharacter => quote_character_msg(lines[i].raw_string@),
        CheckId::SpaceCharacter => space_character_msg(lines[i].raw_string@),
        CheckId::UnorderedKey => unordered_msg_at(lines, i),
    }
}

/// `name` appears in the skip list, by exact string equality.
pub open spec fn skipped(name: Seq<char>, skips: Seq<&str>) -> bool {
    exists|t: int| 0 <= t < skips.len() && skips[t]@ == name
}

/// `ids` with every skipped check removed, order kept.
pub open spec fn active_ids_of(ids: Seq<CheckId>, skips: Seq<&str>) -> Seq<CheckId>
    decreases ids.len(),
{
    if ids.len() == 0 {
        Seq::empty()
    } else {
        let rest = active_ids_of(ids.drop_first(), skips);
        if skipped(check_name(ids[0]), skips) {
            rest
        } else {
            seq![ids[0]] + rest
        }
    }
}

/// The checks a scan with skip list `skips` actually runs, in order.
pub open spec fn active_ids(skips: Seq<&str>) -> Seq<CheckId> {
    active_ids_of(registration_ids(), skips)
}

/// One warning of the model: the line that produced it (with its position in
/// the input), the check it came from, and the message.
pub struct WarnModel {
    pub at: int,
    pub source: CheckId,
    pub line: LineEntry,
    pub msg: Seq<char>,
}

/// The model warnings check `id` owes for line `i`: one or none.
pub open spec fn opt_warn(id: CheckId, lines: Seq<LineEntry>, i: int) -> Seq<WarnModel> {
    match check_msg(id, lines, i) {
        Some(m) => seq![WarnModel { at: i, source: id, line: lines[i], msg: m }],
        None => Seq::empty(),
    }
}

/// The warnings the checks `ids` owe for line `i`, in the order of `ids`.
pub open spec fn warnings_from(ids: Seq<CheckId>, lines: Seq<LineEntry>, i: int) -> Seq<WarnModel>
    decreases ids.len(),
{
    if ids.len() == 0 {
        Seq::empty()
    } else {
        opt_warn(ids[0], lines, i) + warnings_from(ids.drop_first(), lines, i)
    }
}

/// All warnings owed for the lines from `i` on; blank and comment lines are
/// never inspected.
pub open spec fn run_model_from(lines: Seq<LineEntry>, skips: Seq<&str>, i: int) -> Seq<WarnModel>
    decreases lines.len() - i,
{
    if i < 0 || i >= lines.len() {
        Seq::empty()
    } else if blank_or_comment(lines[i].raw_string@) {
        run_model_from(lines, skips, i + 1)
    } else {
        warnings_from(active_ids(skips), lines, i) + run_model_from(lines, skips, i + 1)
    }
}

/// The full outcome of a scan: every warning each active check owes each
/// non-comment line, ordered by line, then by registration order.
pub open spec fn run_model(lines: Seq<LineEntry>, skips: Seq<&str>) -> Seq<WarnModel> {
    run_model_from(lines, skips, 0)
}

/// The executable warning `w` realises the model warning `m`.
pub open spec fn warning_matches(w: Warning, m: WarnModel) -> bool {
    w.line == m.line && w.message@ == m.msg
}

/// A check instance's state corresponds to the first `i` lines of the scan.
pub open spec fn checker_inv(c: Checker, lines: Seq<LineEntry>, i: int) -> bool {
    match c {
        Checker::DuplicatedKey(d) => forall|e: (Seq<char>, Seq<char>)|
            #![trigger d.model().contains(e)]
            #![trigger keyed_history(lines, i).contains(e)]
            d.model().contains(e) <==> keyed_history(lines, i).contains(e),
        Checker::UnorderedKey(u) => u.model() == keyed_history(lines, i),
        _ => true,
    }
}

proof fn lemma_push_contains<A>(s: Seq<A>, x: A, e: A)
    ensures
        s.push(x).contains(e) <==> (s.contains(e) || e == x),
{
    if s.contains(e) {
        let t = choose|t: int| 0 <= t < s.len() && s[t] == e;
        assert(s.push(x)[t] == e);
    }
    if e == x {
        assert(s.push(x)[s.len() as int] == e);
    }
    if s.push(x).contains(e) && e != x {
        let t = choose|t: int| 0 <= t < s.push(x).len() && s.push(x)[t] == e;
        assert(s[t] == e);
    }
}

/// A blank or comment line leaves the key history unchanged.
proof fn lemma_history_inactive(lines: Seq<LineEntry>, i: int)
    requires
        0 <= i < lines.len(),
        blank_or_comment(lines[i].raw_string@),
    ensures
        keyed_history(lines, i + 1) == keyed_history(lines, i),
{
}

proof fn lemma_inv_inactive(c: Checker, lines: Seq<LineEntry>, i: int)
    requires
        0 <= i < lines.len(),
        blank_or_comment(lines[i].raw_string@),
        checker_inv(c, lines, i),
    ensures
        checker_inv(c, lines, i + 1),
{
    lemma_history_inactive(lines, i);
}

proof fn lemma_inv_fresh(c: Checker, lines: Seq<LineEntry>)
    requires
        c.fresh(),
    ensures
        checker_inv(c, lines, 0),
{
    assert(keyed_history(lines, 0) == Seq::<(Seq<char>, Seq<char>)>::empty());
}

/// One call of an active check on one non-comment line: the state keeps
/// corresponding to the scan, and the result is exactly the warning the model
/// owes that check for that line.
proof fn lemma_checker_step(
    pre: Checker,
    post: Checker,
    lines: Seq<LineEntry>,
    i: int,
    r: Option<Warning>,
)
    requires
        0 <= i < lines.len(),
        !blank_or_comment(lines[i].raw_string@),
        checker_inv(pre, lines, i),
        checker_post(pre, post, lines[i], r),
    ensures
        checker_inv(post, lines, i + 1),
        reports(r, lines[i], check_msg(pre.id(), lines, i)),
{
    let l = lines[i];
    let kh = keyed_history(lines, i);
    let kh2 = keyed_history(lines, i + 1);
    match key_of(l.raw_string@) {
        Some(k) => {
            let pair = (l.file_path@, k);
            assert(kh2 == kh.push(pair));
            match pre {
                Checker::DuplicatedKey(d) => {
                    let d2 = post->DuplicatedKey_0;
                    if d.model().contains(pair) {
                        assert(kh.contains(pair));
                        assert forall|e: (Seq<char>, Seq<char>)|
                            d2.model().contains(e) <==> kh2.contains(e) by {
                            lemma_push_contains(kh, pair, e);
                        }
                    } else {
                        assert(!kh.contains(pair));
                        assert forall|e: (Seq<char>, Seq<char>)|
                            d2.model().contains(e) <==> kh2.contains(e) by {
                            lemma_push_contains(d.model(), pair, e);
                            lemma_push_contains(kh, pair, e);
                        }
                    }
                },
                Checker::UnorderedKey(u) => {
                    let u2 = post->UnorderedKey_0;
                    assert(u2.model() == kh2);
                },
                _ => {},
            }
        },
        None => {
            assert(kh2 == kh);
        },
    }
}

proof fn lemma_warnings_from_concat(
    ids1: Seq<CheckId>,
    ids2: Seq<CheckId>,
    lines: Seq<LineEntry>,
    i: int,
)
    ensures
        warnings_from(ids1 + ids2, lines, i) == warnings_from(ids1, lines, i) + warnings_from(
            ids2,
            lines,
            i,
        ),
    decreases ids1.len(),
{
    if ids1.len() == 0 {
        assert(ids1 + ids2 =~= ids2);
        assert(warnings_from(ids1, lines, i) + warnings_from(ids2, lines, i) =~= warnings_from(
            ids2,
            lines,
            i,
        ));
    } else {
        assert((ids1 + ids2).drop_first() =~= ids1.drop_first() + ids2);
        lemma_warnings_from_concat(ids1.drop_first(), ids2, lines, i);
        assert((ids1 + ids2)[0] == ids1[0]);
        assert(opt_warn(ids1[0], lines, i) + (warnings_from(ids1.drop_first(), lines, i)
            + warnings_from(ids2, lines, i)) =~= (opt_warn(ids1[0], lines, i) + warnings_from(
            ids1.drop_first(),
            lines,
            i,
        )) + warnings_from(ids2, lines, i));
    }
}

/// Appending one check to a list appends its warnings.
proof fn lemma_warnings_from_snoc(ids: Seq<CheckId>, id: CheckId, lines: Seq<LineEntry>, i: int)
    ensures
        warnings_from(ids.push(id), lines, i) == warnings_from(ids, lines, i) + opt_warn(
            id,
            lines,
            i,
        ),
{
    assert(ids.push(id) =~= ids + seq![id]);
    lemma_warnings_from_concat(ids, seq![id], lines, i);
    assert(seq![id].drop_first() =~= Seq::<CheckId>::empty());
    assert(seq![id][0] == id);
    assert(warnings_from(Seq::<CheckId>::empty(), lines, i) == Seq::<WarnModel>::empty());
    assert(warnings_from(seq![id], lines, i) == opt_warn(id, lines, i) + Seq::<WarnModel>::empty());
    assert(opt_warn(id, lines, i) + Seq::<WarnModel>::empty() =~= opt_warn(id, lines, i));
}

/// `name` appears in `skips`, decided by exact string comparison.
fn name_in(skips: &Vec<&str>, name: &str) -> (r: bool)
    ensures
        r == skipped(name@, skips@),
{
    let mut t: usize = 0;
    while t < skips.len()
        invariant
            t <= skips@.len(),
            forall|u: int| 0 <= u < t ==> skips@[u]@ != name@,
        decreases skips@.len() - t,
    {
        if str_eq(skips[t], name) {
            return true;
        }
        t = t + 1;
    }
    false
}

/// Scans the whole ordered sequence of line records: every non-comment line
/// is offered to every active check in registration order, and the warnings
/// come back in that order. The skip list removes checks by exact name.
#[verifier::loop_isolation(false)]
pub fn run(lines: Vec<LineEntry>, skip_checks: &Vec<&str>) -> (warnings: Vec<Warning>)
    ensures
        warnings@.len() == run_model(lines@, skip_checks@).len(),
        forall|k: int|
            0 <= k < warnings@.len() ==> warning_matches(
                warnings@[k],
                run_model(lines@, skip_checks@)[k],
            ),
{
    let ghost aids = active_ids(skip_checks@);
    let ghost total = run_model(lines@, skip_checks@);
    let mut src: Vec<Checker> = checklist();
    let mut checks: Vec<Checker> = Vec::new();
    proof {
        assert(checker_ids(Seq::<Checker>::empty()) + active_ids_of(
            checker_ids(src@),
            skip_checks@,
        ) =~= aids);
    }
    while src.len() > 0
        invariant
            checker_ids(checks@) + active_ids_of(checker_ids(src@), skip_checks@) == aids,
            forall|t: int| 0 <= t < checks@.len() ==> (#[trigger] checks@[t]).fresh(),
            forall|t: int| 0 <= t < src@.len() ==> (#[trigger] src@[t]).fresh(),
        decreases src@.len(),
    {
        let ghost src_before = src@;
        let c = src.remove(0);
        proof {
            assert(checker_ids(src@) =~= checker_ids(src_before).drop_first());
            assert(checker_ids(src_before)[0] == c.id());
        }
        if !name_in(skip_checks, c.name()) {
            let ghost checks_before = checks@;
            checks.push(c);
            proof {
                assert(checker_ids(checks@) =~= checker_ids(checks_before).push(c.id()));
                assert(checker_ids(checks_before).push(c.id()) + active_ids_of(
                    checker_ids(src@),
                    skip_checks@,
                ) =~= checker_ids(checks_before) + (seq![c.id()] + active_ids_of(
                    checker_ids(src@),
                    skip_checks@,
                )));
            }
        }
    }
    proof {
        assert(checker_ids(checks@) + Seq::<CheckId>::empty() =~= checker_ids(checks@));
        assert(checker_ids(checks@) == aids);
    }
    let mut warnings: Vec<Warning> = Vec::new();
    let ghost mut done: Seq<WarnModel> = Seq::empty();
    let mut i: usize = 0;
    proof {
        assert(done + run_model_from(lines@, skip_checks@, 0) =~= total);
        assert forall|t: int| 0 <= t < checks@.len() implies checker_inv(
            #[trigger] checks@[t],
            lines@,
            0,
        ) by {
            lemma_inv_fresh(checks@[t], lines@);
        }
    }
    while i < lines.len()
        invariant
            i <= lines@.len(),
            checker_ids(checks@) == aids,
            forall|t: int|
                0 <= t < checks@.len() ==> checker_inv(#[trigger] checks@[t], lines@, i as int),
            done + run_model_from(lines@, skip_checks@, i as int) == total,
            warnings@.len() == done.len(),
            forall|k: int| 0 <= k < done.len() ==> warning_matches(warnings@[k], #[trigger] done[k]),
        decreases lines@.len() - i,
    {
        let line: &LineEntry = &lines[i];
        if line.is_empty_or_comment() {
            proof {
                assert forall|t: int| 0 <= t < checks@.len() implies checker_inv(
                    #[trigger] checks@[t],
                    lines@,
                    i + 1,
                ) by {
                    lemma_inv_inactive(checks@[t], lines@, i as int);
                }
                assert(run_model_from(lines@, skip_checks@, i as int) == run_model_from(
                    lines@,
                    skip_checks@,
                    i + 1,
                ));
            }
            i = i + 1;
            continue ;
        }
        let ghost mut lw: Seq<WarnModel> = Seq::empty();
        proof {
            assert(aids.take(0) =~= Seq::<CheckId>::empty());
        }
        let mut j: usize = 0;
        while j < checks.len()
            invariant
                j <= checks@.len(),
                checker_ids(checks@) == aids,
                forall|t: int|
                    0 <= t < j ==> checker_inv(#[trigger] checks@[t], lines@, i + 1),
                forall|t: int|
                    j <= t < checks@.len() ==> checker_inv(#[trigger] checks@[t], lines@, i as int),
                lw == warnings_from(aids.take(j as int), lines@, i as int),
                warnings@.len() == done.len() + lw.len(),
                forall|k: int|
                    0 <= k < done.len() ==> warning_matches(warnings@[k], #[trigger] done[k]),
                forall|k: int|
                    0 <= k < lw.len() ==> warning_matches(
                        warnings@[done.len() + k],
                        #[trigger] lw[k],
                    ),
            decreases checks@.len() - j,
        {
            let ghost checks_before = checks@;
            let mut c = checks.remove(j);
            let w = c.run(line);
            proof {
                lemma_checker_step(checks_before[j as int], c, lines@, i as int, w);
                assert(checks_before[j as int].id() == aids[j as int]);
            }
            checks.insert(j, c);
            proof {
                assert(checks@ =~= checks_before.update(j as int, c));
                assert(checker_ids(checks@) =~= checker_ids(checks_before));
                lemma_warnings_from_snoc(aids.take(j as int), aids[j as int], lines@, i as int);
                assert(aids.take(j + 1) =~= aids.take(j as int).push(aids[j as int]));
            }
            if let Some(w) = w {
                warnings.push(w);
                proof {
                    let m = opt_warn(aids[j as int], lines@, i as int)[0];
                    lw = lw.push(m);
                }
            }
            j = j + 1;
        }
        proof {
            assert(aids.take(checks@.len() as int) =~= aids);
            assert(run_model_from(lines@, skip_checks@, i as int) == warnings_from(
                aids,
                lines@,
                i as int,
            ) + run_model_from(lines@, skip_checks@, i + 1));
            let old_done = done;
            done = done + lw;
            assert(done + run_model_from(lines@, skip_checks@, i + 1) =~= old_done + (lw
                + run_model_from(lines@, skip_checks@, i + 1)));
            assert forall|k: int| 0 <= k < done.len() implies warning_matches(
                warnings@[k],
                #[trigger] done[k],
            ) by {
                if k < old_done.len() {
                    assert(done[k] == old_done[k]);
                } else {
                    assert(done[k] == lw[k - old_done.len()]);
                }
            }
        }
        i = i + 1;
    }
    proof {
        assert(run_model_from(lines@, skip_checks@, lines@.len() as int) =~= Seq::<
            WarnModel,
        >::empty());
        assert(done =~= total);
    }
    warnings
}

} // verus!

