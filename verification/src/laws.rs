//! The global laws of a scan, proved over the scan model that `checks::run`
//! is verified against: determinism, the effect of the skip list, the order
//! of the warnings, and the inertness of blank and comment lines.

use vstd::prelude::*;

verus! {

use crate::common::{LineEntry, Warning, blank_or_comment};
use crate::checks::{
    CheckId,
    WarnModel,
    active_ids,
    active_ids_of,
    check_msg,
    check_name,
    keyed_history,
    opt_warn,
    reg_index,
    registration_ids,
    run_model,
    run_model_from,
    skipped,
    warning_matches,
    warnings_from,
};

/// Re-running a scan on the same lines with the same skip list yields the
/// identical warning sequence: the outcome is a function of the input alone.
pub proof fn lemma_scan_deterministic(
    lines1: Seq<LineEntry>,
    skips1: Seq<&str>,
    lines2: Seq<LineEntry>,
    skips2: Seq<&str>,
)
    requires
        lines1 == lines2,
        skips1 == skips2,
    ensures
        run_model(lines1, skips1) == run_model(lines2, skips2),
{
}

/// Two runs on the same input return byte-identical warning sequences: any
/// two results that meet `checks::run`'s contract for the same lines and the
/// same skip list agree line for line and character for character.
pub proof fn lemma_rerun_identical(
    lines: Seq<LineEntry>,
    skips: Seq<&str>,
    w1: Seq<Warning>,
    w2: Seq<Warning>,
)
    requires
        w1.len() == run_model(lines, skips).len(),
        forall|k: int| 0 <= k < w1.len() ==> warning_matches(w1[k], run_model(lines, skips)[k]),
        w2.len() == run_model(lines, skips).len(),
        forall|k: int| 0 <= k < w2.len() ==> warning_matches(w2[k], run_model(lines, skips)[k]),
    ensures
        w1.len() == w2.len(),
        forall|k: int|
            0 <= k < w1.len() ==> #[trigger] w1[k].line == w2[k].line && w1[k].message@
                == w2[k].message@,
{
    assert forall|k: int|
        0 <= k < w1.len() implies #[trigger] w1[k].line == w2[k].line && w1[k].message@
        == w2[k].message@ by {
        assert(warning_matches(w1[k], run_model(lines, skips)[k]));
        assert(warning_matches(w2[k], run_model(lines, skips)[k]));
    }
}

proof fn lemma_active_unskipped(ids: Seq<CheckId>, skips: Seq<&str>, t: int)
    requires
        0 <= t < active_ids_of(ids, skips).len(),
    ensures
        !skipped(check_name(active_ids_of(ids, skips)[t]), skips),
    decreases ids.len(),
{
    if ids.len() > 0 {
        let rest = active_ids_of(ids.drop_first(), skips);
        if skipped(check_name(ids[0]), skips) {
            lemma_active_unskipped(ids.drop_first(), skips, t);
        } else {
            if t == 0 {
                assert((seq![ids[0]] + rest)[0] == ids[0]);
            } else {
                assert((seq![ids[0]] + rest)[t] == rest[t - 1]);
                lemma_active_unskipped(ids.drop_first(), skips, t - 1);
            }
        }
    }
}

proof fn lemma_wf_source(ids: Seq<CheckId>, lines: Seq<LineEntry>, i: int, k: int)
    requires
        0 <= k < warnings_from(ids, lines, i).len(),
    ensures
        exists|u: int| 0 <= u < ids.len() && ids[u] == warnings_from(ids, lines, i)[k].source,
    decreases ids.len(),
{
    if ids.len() > 0 {
        let head = opt_warn(ids[0], lines, i);
        let rest = warnings_from(ids.drop_first(), lines, i);
        if k < head.len() {
            assert((head + rest)[k] == head[k]);
            assert(head[k].source == ids[0]);
        } else {
            assert((head + rest)[k] == rest[k - head.len()]);
            lemma_wf_source(ids.drop_first(), lines, i, k - head.len());
            let u = choose|u: int|
                0 <= u < ids.drop_first().len() && ids.drop_first()[u] == rest[k
                    - head.len()].source;
            assert(ids[u + 1] == rest[k - head.len()].source);
        }
    }
}

proof fn lemma_model_source(lines: Seq<LineEntry>, skips: Seq<&str>, i: int, k: int)
    requires
        0 <= k < run_model_from(lines, skips, i).len(),
    ensures
        !skipped(check_name(run_model_from(lines, skips, i)[k].source), skips),
    decreases lines.len() - i,
{
    if 0 <= i < lines.len() {
        if blank_or_comment(lines[i].raw_string@) {
            lemma_model_source(lines, skips, i + 1, k);
        } else {
            let block = warnings_from(active_ids(skips), lines, i);
            let rest = run_model_from(lines, skips, i + 1);
            if k < block.len() {
                assert((block + rest)[k] == block[k]);
                lemma_wf_source(active_ids(skips), lines, i, k);
                let u = choose|u: int|
                    0 <= u < active_ids(skips).len() && active_ids(skips)[u] == block[k].source;
                lemma_active_unskipped(registration_ids(), skips, u);
            } else {
                assert((block + rest)[k] == rest[k - block.len()]);
                lemma_model_source(lines, skips, i + 1, k - block.len());
            }
        }
    }
}

/// No warning of a scan comes from a check whose name stands in the skip
/// list.
pub proof fn lemma_skipped_checks_silent(lines: Seq<LineEntry>, skips: Seq<&str>, k: int)
    requires
        0 <= k < run_model(lines, skips).len(),
    ensures
        !skipped(check_name(run_model(lines, skips)[k].source), skips),
{
    lemma_model_source(lines, skips, 0, k);
}

/// `s` without the warnings of the check named `n`, order kept.
pub open spec fn without_name(s: Seq<WarnModel>, n: Seq<char>) -> Seq<WarnModel>
    decreases s.len(),
{
    if s.len() == 0 {
        Seq::empty()
    } else if check_name(s[0].source) == n {
        without_name(s.drop_first(), n)
    } else {
        seq![s[0]] + without_name(s.drop_first(), n)
    }
}

/// `ids` without the checks named `n`, order kept.
pub open spec fn ids_without_name(ids: Seq<CheckId>, n: Seq<char>) -> Seq<CheckId>
    decreases ids.len(),
{
    if ids.len() == 0 {
        Seq::empty()
    } else if check_name(ids[0]) == n {
        ids_without_name(ids.drop_first(), n)
    } else {
        seq![ids[0]] + ids_without_name(ids.drop_first(), n)
    }
}

proof fn lemma_active_extra(ids: Seq<CheckId>, skips1: Seq<&str>, skips2: Seq<&str>, n: Seq<char>)
    requires
        forall|m: Seq<char>|
            #![trigger skipped(m, skips2)]
            skipped(m, skips2) <==> (skipped(m, skips1) || m == n),
    ensures
        active_ids_of(ids, skips2) == ids_without_name(active_ids_of(ids, skips1), n),
    decreases ids.len(),
{
    if ids.len() == 0 {
    } else {
        lemma_active_extra(ids.drop_first(), skips1, skips2, n);
        let h = ids[0];
        let rest1 = active_ids_of(ids.drop_first(), skips1);
        if skipped(check_name(h), skips1) {
            assert(skipped(check_name(h), skips2));
        } else if check_name(h) == n {
            assert(skipped(check_name(h), skips2));
            assert((seq![h] + rest1)[0] == h);
            assert((seq![h] + rest1).drop_first() =~= rest1);
        } else {
            assert(!skipped(check_name(h), skips2));
            assert((seq![h] + rest1)[0] == h);
            assert((seq![h] + rest1).drop_first() =~= rest1);
        }
    }
}

proof fn lemma_wf_without(ids: Seq<CheckId>, n: Seq<char>, lines: Seq<LineEntry>, i: int)
    ensures
        warnings_from(ids_without_name(ids, n), lines, i) == without_name(
            warnings_from(ids, lines, i),
            n,
        ),
    decreases ids.len(),
{
    if ids.len() == 0 {
    } else {
        lemma_wf_without(ids.drop_first(), n, lines, i);
        let h = ids[0];
        let head = opt_warn(h, lines, i);
        let rest = warnings_from(ids.drop_first(), lines, i);
        let iwn = ids_without_name(ids.drop_first(), n);
        if check_name(h) == n {
            if head.len() == 0 {
                assert(head + rest =~= rest);
            } else {
                assert((head + rest)[0] == head[0]);
                assert((head + rest).drop_first() =~= rest);
                assert(check_name((head + rest)[0].source) == n);
            }
        } else {
            assert((seq![h] + iwn)[0] == h);
            assert((seq![h] + iwn).drop_first() =~= iwn);
            if head.len() == 0 {
                assert(head + rest =~= rest);
                assert(head + without_name(rest, n) =~= without_name(rest, n));
            } else {
                assert((head + rest)[0] == head[0]);
                assert((head + rest).drop_first() =~= rest);
                assert(check_name((head + rest)[0].source) != n);
                assert(seq![(head + rest)[0]] =~= head);
            }
        }
    }
}

proof fn lemma_without_name_concat(a: Seq<WarnModel>, b: Seq<WarnModel>, n: Seq<char>)
    ensures
        without_name(a + b, n) == without_name(a, n) + without_name(b, n),
    decreases a.len(),
{
    if a.len() == 0 {
        assert(a + b =~= b);
        assert(without_name(a, n) + without_name(b, n) =~= without_name(b, n));
    } else {
        lemma_without_name_concat(a.drop_first(), b, n);
        assert((a + b)[0] == a[0]);
        assert((a + b).drop_first() =~= a.drop_first() + b);
        if check_name(a[0].source) != n {
            assert(seq![a[0]] + (without_name(a.drop_first(), n) + without_name(b, n)) =~= (seq![
                a[0],
            ] + without_name(a.drop_first(), n)) + without_name(b, n));
        }
    }
}

proof fn lemma_model_without(
    lines: Seq<LineEntry>,
    skips1: Seq<&str>,
    skips2: Seq<&str>,
    n: Seq<char>,
    i: int,
)
    requires
        forall|m: Seq<char>|
            #![trigger skipped(m, skips2)]
            skipped(m, skips2) <==> (skipped(m, skips1) || m == n),
    ensures
        run_model_from(lines, skips2, i) == without_name(run_model_from(lines, skips1, i), n),
    decreases lines.len() - i,
{
    if i < 0 || i >= lines.len() {
    } else if blank_or_comment(lines[i].raw_string@) {
        lemma_model_without(lines, skips1, skips2, n, i + 1);
    } else {
        lemma_model_without(lines, skips1, skips2, n, i + 1);
        lemma_active_extra(registration_ids(), skips1, skips2, n);
        lemma_wf_without(active_ids(skips1), n, lines, i);
        lemma_without_name_concat(
            warnings_from(active_ids(skips1), lines, i),
            run_model_from(lines, skips1, i + 1),
            n,
        );
    }
}

/// Enlarging the skip list by one name removes exactly the warnings of the
/// check so named and leaves every other warning unchanged, in order.
pub proof fn lemma_skip_removes_exactly(
    lines: Seq<LineEntry>,
    skips1: Seq<&str>,
    skips2: Seq<&str>,
    n: Seq<char>,
)
    requires
        forall|m: Seq<char>|
            #![trigger skipped(m, skips2)]
            skipped(m, skips2) <==> (skipped(m, skips1) || m == n),
    ensures
        run_model(lines, skips2) == without_name(run_model(lines, skips1), n),
{
    lemma_model_without(lines, skips1, skips2, n, 0);
}

/// The warnings stand in line order; two warnings of the same line stand in
/// registration order.
pub open spec fn warns_ordered(s: Seq<WarnModel>) -> bool {
    forall|a: int, b: int|
        0 <= a < b < s.len() ==> (s[a].at < s[b].at || (s[a].at == s[b].at && reg_index(
            s[a].source,
        ) < reg_index(s[b].source)))
}

/// Strictly ascending registration indices.
pub open spec fn ids_reg_sorted(ids: Seq<CheckId>) -> bool {
    forall|a: int, b: int| 0 <= a < b < ids.len() ==> reg_index(ids[a]) < reg_index(ids[b])
}

proof fn lemma_registration_sorted()
    ensures
        ids_reg_sorted(registration_ids()),
{
    let ids = registration_ids();
    assert forall|a: int, b: int| 0 <= a < b < ids.len() implies reg_index(ids[a]) < reg_index(
        ids[b],
    ) by {
        assert(reg_index(ids[0]) == 0);
        assert(reg_index(ids[1]) == 1);
        assert(reg_index(ids[2]) == 2);
        assert(reg_index(ids[3]) == 3);
        assert(reg_index(ids[4]) == 4);
        assert(reg_index(ids[5]) == 5);
        assert(reg_index(ids[6]) == 6);
        assert(reg_index(ids[7]) == 7);
    }
}

proof fn lemma_active_sorted(ids: Seq<CheckId>, skips: Seq<&str>)
    requires
        ids_reg_sorted(ids),
    ensures
        ids_reg_sorted(active_ids_of(ids, skips)),
        forall|t: int|
            0 <= t < active_ids_of(ids, skips).len() ==> ids.contains(
                #[trigger] active_ids_of(ids, skips)[t],
            ),
    decreases ids.len(),
{
    if ids.len() == 0 {
    } else {
        assert(ids_reg_sorted(ids.drop_first())) by {
            assert forall|a: int, b: int|
                0 <= a < b < ids.drop_first().len() implies reg_index(ids.drop_first()[a])
                < reg_index(ids.drop_first()[b]) by {
                assert(ids.drop_first()[a] == ids[a + 1]);
                assert(ids.drop_first()[b] == ids[b + 1]);
            }
        }
        lemma_active_sorted(ids.drop_first(), skips);
        let h = ids[0];
        let rest = active_ids_of(ids.drop_first(), skips);
        assert forall|t: int|
            0 <= t < rest.len() implies ids.contains(#[trigger] rest[t]) && reg_index(h)
            < reg_index(rest[t]) by {
            assert(ids.drop_first().contains(rest[t]));
            let u = choose|u: int| 0 <= u < ids.drop_first().len() && ids.drop_first()[u] == rest[t];
            assert(ids[u + 1] == rest[t]);
            assert(reg_index(ids[0]) < reg_index(ids[u + 1]));
        }
        if skipped(check_name(h), skips) {
        } else {
            let act = seq![h] + rest;
            assert(act[0] == h);
            assert(ids.contains(h)) by {
                assert(ids[0] == h);
            }
            assert forall|a: int, b: int| 0 <= a < b < act.len() implies reg_index(act[a])
                < reg_index(act[b]) by {
                if a == 0 {
                    assert(act[b] == rest[b - 1]);
                } else {
                    assert(act[a] == rest[a - 1]);
                    assert(act[b] == rest[b - 1]);
                }
            }
            assert forall|t: int| 0 <= t < act.len() implies ids.contains(#[trigger] act[t]) by {
                if t > 0 {
                    assert(act[t] == rest[t - 1]);
                }
            }
        }
    }
}

proof fn lemma_wf_ordered(ids: Seq<CheckId>, lines: Seq<LineEntry>, i: int)
    requires
        ids_reg_sorted(ids),
    ensures
        warns_ordered(warnings_from(ids, lines, i)),
        forall|k: int|
            0 <= k < warnings_from(ids, lines, i).len() ==> (#[trigger] warnings_from(
                ids,
                lines,
                i,
            )[k]).at == i && ids.contains(warnings_from(ids, lines, i)[k].source),
    decreases ids.len(),
{
    if ids.len() == 0 {
    } else {
        assert(ids_reg_sorted(ids.drop_first())) by {
            assert forall|a: int, b: int|
                0 <= a < b < ids.drop_first().len() implies reg_index(ids.drop_first()[a])
                < reg_index(ids.drop_first()[b]) by {
                assert(ids.drop_first()[a] == ids[a + 1]);
                assert(ids.drop_first()[b] == ids[b + 1]);
            }
        }
        lemma_wf_ordered(ids.drop_first(), lines, i);
        let head = opt_warn(ids[0], lines, i);
        let rest = warnings_from(ids.drop_first(), lines, i);
        let whole = head + rest;
        assert forall|k: int| 0 <= k < whole.len() implies (#[trigger] whole[k]).at == i
            && ids.contains(whole[k].source) by {
            if k < head.len() {
                assert(whole[k] == head[k]);
                assert(ids[0] == head[k].source);
            } else {
                assert(whole[k] == rest[k - head.len()]);
                assert(ids.drop_first().contains(rest[k - head.len()].source));
                let u = choose|u: int|
                    0 <= u < ids.drop_first().len() && ids.drop_first()[u] == rest[k
                        - head.len()].source;
                assert(ids[u + 1] == rest[k - head.len()].source);
            }
        }
        assert forall|a: int, b: int| 0 <= a < b < whole.len() implies (whole[a].at < whole[b].at
            || (whole[a].at == whole[b].at && reg_index(whole[a].source) < reg_index(
            whole[b].source,
        ))) by {
            if a < head.len() {
                assert(whole[a] == head[a]);
                assert(whole[b] == rest[b - head.len()]);
                assert(ids.drop_first().contains(rest[b - head.len()].source));
                let u = choose|u: int|
                    0 <= u < ids.drop_first().len() && ids.drop_first()[u] == rest[b
                        - head.len()].source;
                assert(ids[u + 1] == rest[b - head.len()].source);
                assert(reg_index(ids[0]) < reg_index(ids[u + 1]));
            } else {
                assert(whole[a] == rest[a - head.len()]);
                assert(whole[b] == rest[b - head.len()]);
            }
        }
    }
}

proof fn lemma_model_ordered(lines: Seq<LineEntry>, skips: Seq<&str>, i: int)
    ensures
        warns_ordered(run_model_from(lines, skips, i)),
        forall|k: int|
            0 <= k < run_model_from(lines, skips, i).len() ==> (#[trigger] run_model_from(
                lines,
                skips,
                i,
            )[k]).at >= i,
    decreases lines.len() - i,
{
    if i < 0 || i >= lines.len() {
    } else if blank_or_comment(lines[i].raw_string@) {
        lemma_model_ordered(lines, skips, i + 1);
        assert forall|k: int|
            0 <= k < run_model_from(lines, skips, i).len() implies (#[trigger] run_model_from(
            lines,
            skips,
            i,
        )[k]).at >= i by {
            assert(run_model_from(lines, skips, i)[k] == run_model_from(lines, skips, i + 1)[k]);
        }
    } else {
        lemma_model_ordered(lines, skips, i + 1);
        lemma_registration_sorted();
        lemma_active_sorted(registration_ids(), skips);
        lemma_wf_ordered(active_ids(skips), lines, i);
        let block = warnings_from(active_ids(skips), lines, i);
        let rest = run_model_from(lines, skips, i + 1);
        let whole = block + rest;
        assert forall|k: int| 0 <= k < whole.len() implies (#[trigger] whole[k]).at >= i by {
            if k < block.len() {
                assert(whole[k] == block[k]);
            } else {
                assert(whole[k] == rest[k - block.len()]);
            }
        }
        assert forall|a: int, b: int| 0 <= a < b < whole.len() implies (whole[a].at < whole[b].at
            || (whole[a].at == whole[b].at && reg_index(whole[a].source) < reg_index(
            whole[b].source,
        ))) by {
            if b < block.len() {
                assert(whole[a] == block[a]);
                assert(whole[b] == block[b]);
            } else if a < block.len() {
                assert(whole[a] == block[a]);
                assert(whole[b] == rest[b - block.len()]);
                assert(whole[a].at == i);
                assert(whole[b].at >= i + 1);
            } else {
                assert(whole[a] == rest[a - block.len()]);
                assert(whole[b] == rest[b - block.len()]);
            }
        }
    }
}

/// The warnings of a scan come in line order; warnings of one line come in
/// registration order.
pub proof fn lemma_warning_order(lines: Seq<LineEntry>, skips: Seq<&str>)
    ensures
        warns_ordered(run_model(lines, skips)),
{
    lemma_model_ordered(lines, skips, 0);
}

/// What a caller sees of a model warning: the line, the check, the message —
/// everything but the line's position in the input sequence.
pub open spec fn visible(s: Seq<WarnModel>) -> Seq<(LineEntry, CheckId, Seq<char>)> {
    s.map_values(|w: WarnModel| (w.line, w.source, w.msg))
}

proof fn lemma_visible_concat(a: Seq<WarnModel>, b: Seq<WarnModel>)
    ensures
        visible(a + b) == visible(a) + visible(b),
{
    assert(visible(a + b) =~= visible(a) + visible(b));
}

proof fn lemma_check_msg_aligned(
    lines2: Seq<LineEntry>,
    lines: Seq<LineEntry>,
    idx2: int,
    idx: int,
    id: CheckId,
)
    requires
        lines2[idx2] == lines[idx],
        keyed_history(lines2, idx2) == keyed_history(lines, idx),
    ensures
        check_msg(id, lines2, idx2) == check_msg(id, lines, idx),
{
}

proof fn lemma_wf_aligned(
    ids: Seq<CheckId>,
    lines2: Seq<LineEntry>,
    lines: Seq<LineEntry>,
    idx2: int,
    idx: int,
)
    requires
        lines2[idx2] == lines[idx],
        keyed_history(lines2, idx2) == keyed_history(lines, idx),
    ensures
        visible(warnings_from(ids, lines2, idx2)) == visible(warnings_from(ids, lines, idx)),
    decreases ids.len(),
{
    if ids.len() == 0 {
        assert(visible(warnings_from(ids, lines2, idx2)) =~= visible(
            warnings_from(ids, lines, idx),
        ));
    } else {
        lemma_wf_aligned(ids.drop_first(), lines2, lines, idx2, idx);
        lemma_check_msg_aligned(lines2, lines, idx2, idx, ids[0]);
        lemma_visible_concat(
            opt_warn(ids[0], lines2, idx2),
            warnings_from(ids.drop_first(), lines2, idx2),
        );
        lemma_visible_concat(
            opt_warn(ids[0], lines, idx),
            warnings_from(ids.drop_first(), lines, idx),
        );
        assert(visible(opt_warn(ids[0], lines2, idx2)) =~= visible(opt_warn(ids[0], lines, idx)));
    }
}

proof fn lemma_hist_insert(lines: Seq<LineEntry>, p: int, l: LineEntry, j: int)
    requires
        0 <= p <= lines.len(),
        blank_or_comment(l.raw_string@),
        0 <= j <= lines.len(),
    ensures
        j <= p ==> keyed_history(lines.insert(p, l), j) == keyed_history(lines, j),
        j >= p ==> keyed_history(lines.insert(p, l), j + 1) == keyed_history(lines, j),
    decreases j,
{
    let lines2 = lines.insert(p, l);
    lines.insert_ensures(p, l);
    if j == 0 {
        if p == 0 {
            assert(lines2[0] == l);
            assert(keyed_history(lines2, 1) == keyed_history(lines2, 0));
        }
    } else {
        lemma_hist_insert(lines, p, l, j - 1);
        if j <= p {
            assert(lines2[j - 1] == lines[j - 1]);
            assert(keyed_history(lines2, j) == keyed_history(lines, j));
        }
        if j > p {
            assert(lines2[(j - 1) + 1] == lines[j - 1]);
            assert(keyed_history(lines2, j + 1) == keyed_history(lines, j));
        }
        if j == p {
            assert(lines2[p] == l);
            assert(keyed_history(lines2, p + 1) == keyed_history(lines2, p));
        }
    }
}

proof fn lemma_model_insert_suffix(
    lines: Seq<LineEntry>,
    skips: Seq<&str>,
    p: int,
    l: LineEntry,
    j: int,
)
    requires
        0 <= p <= j <= lines.len(),
        blank_or_comment(l.raw_string@),
    ensures
        visible(run_model_from(lines.insert(p, l), skips, j + 1)) == visible(
            run_model_from(lines, skips, j),
        ),
    decreases lines.len() - j,
{
    let lines2 = lines.insert(p, l);
    lines.insert_ensures(p, l);
    if j >= lines.len() {
        assert(visible(run_model_from(lines2, skips, j + 1)) =~= visible(
            run_model_from(lines, skips, j),
        ));
    } else {
        lemma_model_insert_suffix(lines, skips, p, l, j + 1);
        lemma_hist_insert(lines, p, l, j);
        assert(lines2[j + 1] == lines[j]);
        if blank_or_comment(lines[j].raw_string@) {
        } else {
            lemma_wf_aligned(active_ids(skips), lines2, lines, j + 1, j);
            lemma_visible_concat(
                warnings_from(active_ids(skips), lines2, j + 1),
                run_model_from(lines2, skips, j + 2),
            );
            lemma_visible_concat(
                warnings_from(active_ids(skips), lines, j),
                run_model_from(lines, skips, j + 1),
            );
        }
    }
}

proof fn lemma_model_insert_prefix(
    lines: Seq<LineEntry>,
    skips: Seq<&str>,
    p: int,
    l: LineEntry,
    j: int,
)
    requires
        0 <= j <= p <= lines.len(),
        blank_or_comment(l.raw_string@),
    ensures
        visible(run_model_from(lines.insert(p, l), skips, j)) == visible(
            run_model_from(lines, skips, j),
        ),
    decreases p - j,
{
    let lines2 = lines.insert(p, l);
    lines.insert_ensures(p, l);
    if j == p {
        assert(lines2[p] == l);
        assert(run_model_from(lines2, skips, p) == run_model_from(lines2, skips, p + 1));
        lemma_model_insert_suffix(lines, skips, p, l, p);
    } else {
        lemma_model_insert_prefix(lines, skips, p, l, j + 1);
        lemma_hist_insert(lines, p, l, j);
        assert(lines2[j] == lines[j]);
        if blank_or_comment(lines[j].raw_string@) {
        } else {
            lemma_wf_aligned(active_ids(skips), lines2, lines, j, j);
            lemma_visible_concat(
                warnings_from(active_ids(skips), lines2, j),
                run_model_from(lines2, skips, j + 1),
            );
            lemma_visible_concat(
                warnings_from(active_ids(skips), lines, j),
                run_model_from(lines, skips, j + 1),
            );
        }
    }
}

/// A blank or comment line is inert: inserting one anywhere in the input
/// changes no warning — neither the warnings' content nor their order nor
/// the behaviour of the stateful checks on the other lines.
pub proof fn lemma_comment_line_inert(
    lines: Seq<LineEntry>,
    skips: Seq<&str>,
    p: int,
    l: LineEntry,
)
    requires
        0 <= p <= lines.len(),
        blank_or_comment(l.raw_string@),
    ensures
        visible(run_model(lines.insert(p, l), skips)) == visible(run_model(lines, skips)),
{
    lemma_model_insert_prefix(lines, skips, p, l, 0);
}

/// `b` is `a` with `n` blank or comment lines inserted, one after another, at
/// arbitrary positions.
pub open spec fn padded_with_blanks(a: Seq<LineEntry>, b: Seq<LineEntry>, n: nat) -> bool
    decreases n,
{
    if n == 0 {
        b == a
    } else {
        exists|mid: Seq<LineEntry>, p: int, l: LineEntry|
            #![trigger mid.insert(p, l)]
            padded_with_blanks(a, mid, (n - 1) as nat) && 0 <= p <= mid.len() && blank_or_comment(
                l.raw_string@,
            ) && b == mid.insert(p, l)
    }
}

/// Blank and comment lines are inert in any number: a scan of an input padded
/// with them anywhere yields exactly the warnings of the unpadded input.
pub proof fn lemma_comment_lines_inert(
    a: Seq<LineEntry>,
    b: Seq<LineEntry>,
    skips: Seq<&str>,
    n: nat,
)
    requires
        padded_with_blanks(a, b, n),
    ensures
        visible(run_model(b, skips)) == visible(run_model(a, skips)),
    decreases n,
{
    if n > 0 {
        let (mid, p, l) = choose|mid: Seq<LineEntry>, p: int, l: LineEntry|
            #![trigger mid.insert(p, l)]
            padded_with_blanks(a, mid, (n - 1) as nat) && 0 <= p <= mid.len() && blank_or_comment(
                l.raw_string@,
            ) && b == mid.insert(p, l);
        lemma_comment_lines_inert(a, mid, skips, (n - 1) as nat);
        lemma_comment_line_inert(mid, skips, p, l);
    }
}

} // verus!
