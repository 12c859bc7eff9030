//! What holds of the tracker whatever is reported to it.

use super::export::collected;
use super::identity::{lemma_position, lemma_position_unique, position};
use super::ledger::{flushed, started_view, InnerStep, LedgerRecord};
use super::view::{
    all_totals_positive, clamped, denominator, global_percentage, lemma_fraction_signs, numerator,
    shows, ProgressView, StepReading, FULL,
};
use super::{identities_of, replaced, DefaultProgress};
use crate::time::Timestamp;
use std::any::TypeId;
use vstd::arithmetic::div_mod::{lemma_div_is_ordered, lemma_div_pos_is_pos};
use vstd::arithmetic::mul::{lemma_mul_inequality, lemma_mul_nonnegative};
use vstd::prelude::*;
use vstd::seq_lib::seq_to_set_is_finite;
use vstd::set_lib::lemma_len_subset;

verus! {

/// Reporting a step whose identity stands at index `k` of the stack leaves a
/// stack of length `k + 1`: the entries below `k` as they were, and the new
/// entry in place of the one at `k`. Everything deeper is gone.
pub proof fn lemma_report_truncates(stack: Seq<InnerStep>, entry: InnerStep, k: int)
    requires
        identities_of(stack).no_duplicates(),
        0 <= k < stack.len(),
        stack[k].type_id == entry.type_id,
    ensures
        position(identities_of(stack), entry.type_id) == k,
        replaced(stack, entry).len() == k + 1,
        replaced(stack, entry) == stack.take(k).push(entry),
        forall|j: int| 0 <= j < k ==> replaced(stack, entry)[j] == stack[j],
        replaced(stack, entry)[k] == entry,
{
    let ids = identities_of(stack);
    assert(ids[k] == entry.type_id);
    assert forall|j: int| 0 <= j < k implies ids[j] != entry.type_id by {
        assert(ids[j] != ids[k]);
    }
    lemma_position_unique(ids, entry.type_id, k);
}

/// Reporting a step whose identity is not in the stack puts it one level
/// below the innermost step and leaves every other entry in place.
pub proof fn lemma_report_descends(stack: Seq<InnerStep>, entry: InnerStep)
    requires
        forall|j: int| 0 <= j < stack.len() ==> stack[j].type_id != entry.type_id,
    ensures
        replaced(stack, entry) == stack.push(entry),
{
    let ids = identities_of(stack);
    assert forall|j: int| 0 <= j < ids.len() implies ids[j] != entry.type_id by {
        assert(ids[j] == stack[j].type_id);
    }
    lemma_position_unique(ids, entry.type_id, ids.len() as int);
    assert(stack.take(stack.len() as int) =~= stack);
}

/// A report keeps the identities of the stack pairwise distinct, and the only
/// identity it can add is the one reported.
pub proof fn lemma_report_keeps_distinct(stack: Seq<InnerStep>, entry: InnerStep)
    requires
        identities_of(stack).no_duplicates(),
    ensures
        identities_of(replaced(stack, entry)).no_duplicates(),
        identities_of(replaced(stack, entry)).last() == entry.type_id,
        forall|id: TypeId| #[trigger]
            identities_of(replaced(stack, entry)).contains(id) ==> id == entry.type_id
                || identities_of(stack).contains(id),
{
    let ids = identities_of(stack);
    let after = replaced(stack, entry);
    let new_ids = identities_of(after);
    let k = position(ids, entry.type_id);
    lemma_position(ids, entry.type_id);
    assert forall|i: int| 0 <= i < k implies new_ids[i] == ids[i] by {
        assert(after[i] == stack[i]);
    }
    assert(new_ids[k] == entry.type_id);
    assert forall|i: int, j: int|
        0 <= i < new_ids.len() && 0 <= j < new_ids.len() && i != j implies new_ids[i]
        != new_ids[j] by {
        if i < k && j < k {
            assert(ids[i] != ids[j]);
        }
    }
    assert forall|id: TypeId| #[trigger] new_ids.contains(id) implies id == entry.type_id
        || ids.contains(id) by {
        let i = choose|i: int| 0 <= i < new_ids.len() && new_ids[i] == id;
        if i < k {
            assert(ids[i] == id);
        }
    }
}

/// Reporting the same identity again and again keeps the depth of the stack:
/// the second report replaces the entry that the first one pushed and touches
/// nothing else.
pub proof fn lemma_repeated_report_keeps_depth(
    stack: Seq<InnerStep>,
    first: InnerStep,
    second: InnerStep,
)
    requires
        identities_of(stack).no_duplicates(),
        first.type_id == second.type_id,
    ensures
        replaced(replaced(stack, first), second).len() == replaced(stack, first).len(),
        replaced(replaced(stack, first), second) == replaced(stack, first).drop_last().push(
            second,
        ),
{
    let once = replaced(stack, first);
    lemma_position(identities_of(stack), first.type_id);
    lemma_report_keeps_distinct(stack, first);
    lemma_report_truncates(once, second, once.len() - 1);
    assert(once.take(once.len() - 1) =~= once.drop_last());
}

/// The stack that a run of reports builds from `stack`, first report first.
pub open spec fn reported_all(stack: Seq<InnerStep>, entries: Seq<InnerStep>) -> Seq<InnerStep>
    decreases entries.len(),
{
    if entries.len() == 0 {
        stack
    } else {
        replaced(reported_all(stack, entries.drop_last()), entries.last())
    }
}

/// Whatever is reported to an empty tracker, the identities of its stack stay
/// pairwise distinct and all come from the reports made.
pub proof fn lemma_reports_keep_distinct(entries: Seq<InnerStep>)
    ensures
        identities_of(reported_all(Seq::empty(), entries)).no_duplicates(),
        identities_of(reported_all(Seq::empty(), entries)).to_set().subset_of(
            identities_of(entries).to_set(),
        ),
    decreases entries.len(),
{
    let stack = reported_all(Seq::empty(), entries);
    let ids = identities_of(stack);
    let reported_ids = identities_of(entries);
    if entries.len() == 0 {
        assert(ids =~= Seq::<TypeId>::empty());
    } else {
        let earlier = entries.drop_last();
        let before = reported_all(Seq::empty(), earlier);
        lemma_reports_keep_distinct(earlier);
        lemma_report_keeps_distinct(before, entries.last());
        assert forall|id: TypeId| ids.to_set().contains(id) implies reported_ids.to_set().contains(
            id,
        ) by {
            assert(ids.contains(id));
            if id == entries.last().type_id {
                assert(reported_ids[entries.len() - 1] == id);
            } else {
                assert(identities_of(before).contains(id));
                assert(identities_of(before).to_set().contains(id));
                assert(identities_of(earlier).to_set().contains(id));
                let i = choose|i: int|
                    0 <= i < identities_of(earlier).len() && identities_of(earlier)[i] == id;
                assert(reported_ids[i] == id);
            }
        }
    }
}

/// The depth of the stack never exceeds the number of distinct identities
/// reported since the tracker was empty.
pub proof fn lemma_depth_bounded_by_identities(entries: Seq<InnerStep>)
    ensures
        reported_all(Seq::empty(), entries).len() <= identities_of(entries).to_set().len(),
{
    let ids = identities_of(reported_all(Seq::empty(), entries));
    lemma_reports_keep_distinct(entries);
    ids.unique_seq_to_set();
    seq_to_set_is_finite(identities_of(entries));
    lemma_len_subset(ids.to_set(), identities_of(entries).to_set());
}

/// Whether no entry of a stack started before an entry above it.
pub open spec fn in_order(started: Seq<int>) -> bool {
    forall|i: int, j: int| 0 <= i <= j < started.len() ==> started[i] <= started[j]
}

/// As long as the clock does not go back, every step of the stack starts
/// within the lifetime of the step above it.
pub proof fn lemma_report_keeps_order(stack: Seq<InnerStep>, entry: InnerStep)
    requires
        in_order(started_view(stack)),
        forall|i: int| 0 <= i < stack.len() ==> stack[i].started_at@ <= entry.started_at@,
    ensures
        in_order(started_view(replaced(stack, entry))),
{
    let k = position(identities_of(stack), entry.type_id);
    lemma_position(identities_of(stack), entry.type_id);
    let after = started_view(replaced(stack, entry));
    let before = started_view(stack);
    assert forall|i: int, j: int| 0 <= i <= j < after.len() implies after[i] <= after[j] by {
        if j < k {
            assert(after[i] == before[i] && after[j] == before[j]);
        } else if i < k {
            assert(after[i] == before[i]);
        }
    }
}

/// When a stack whose entries started in order is retired no earlier than
/// its innermost step started, each line written has a total duration that
/// is not negative and an own duration between zero and the total.
pub proof fn lemma_retired_durations(
    names: Seq<Seq<char>>,
    started: Seq<int>,
    now: int,
    idx: int,
    j: int,
)
    requires
        in_order(started),
        0 <= idx <= started.len(),
        0 <= j < started.len() - idx,
        started.last() <= now,
    ensures
        flushed(names, started, now, idx).len() == started.len() - idx,
        0 <= flushed(names, started, now, idx)[j].own <= flushed(names, started, now, idx)[j].total,
{
}

/// Of the lines written when a stack is retired, the first is the innermost
/// step, all of whose time is its own; the time of every other step is its
/// own time plus the time of its child, which is the line written just
/// before.
pub proof fn lemma_total_is_own_plus_child(
    names: Seq<Seq<char>>,
    started: Seq<int>,
    now: int,
    idx: int,
    j: int,
)
    requires
        0 <= idx <= started.len(),
        0 <= j < started.len() - idx,
    ensures
        j == 0 ==> flushed(names, started, now, idx)[j].total == flushed(
            names,
            started,
            now,
            idx,
        )[j].own,
        j > 0 ==> flushed(names, started, now, idx)[j].total == flushed(
            names,
            started,
            now,
            idx,
        )[j].own + flushed(names, started, now, idx)[j - 1].total,
{
}

/// The ledger only grows: a report leaves every line written so far in
/// place.
pub proof fn lemma_report_keeps_ledger(
    before: DefaultProgress,
    after: DefaultProgress,
    entry: InnerStep,
)
    requires
        DefaultProgress::reported(&before, &after, entry),
    ensures
        before.ledger().is_prefix_of(after.ledger()),
{
    if before.finished_at().is_none() {
        let names = choose|names: Seq<Seq<char>>|
            names.len() == before.stack().len() && after.ledger() == before.ledger()
                + #[trigger] flushed(
                names,
                started_view(before.stack()),
                entry.started_at@,
                position(identities_of(before.stack()), entry.type_id),
            );
        assert(after.ledger().take(before.ledger().len() as int) =~= before.ledger());
    } else {
        assert(after.ledger().take(before.ledger().len() as int) =~= before.ledger());
    }
}

/// Two rows of readings that differ at most in the position of the innermost
/// step.
pub open spec fn same_but_leaf(low: Seq<StepReading>, high: Seq<StepReading>) -> bool {
    &&& low.len() == high.len()
    &&& low.len() > 0
    &&& forall|i: int| 0 <= i < low.len() ==> (#[trigger] low[i]).total == high[i].total
    &&& forall|i: int| 0 <= i < low.len() - 1 ==> (#[trigger] low[i]).current == high[i].current
}

proof fn lemma_numerator_monotone(low: Seq<StepReading>, high: Seq<StepReading>, i: int)
    requires
        same_but_leaf(low, high),
        low.last().current <= high.last().current,
        all_totals_positive(low),
        0 <= i <= low.len(),
    ensures
        denominator(low, i) == denominator(high, i),
        numerator(low, i) <= numerator(high, i),
    decreases low.len() - i,
{
    if i < low.len() {
        lemma_numerator_monotone(low, high, i + 1);
        lemma_fraction_signs(low, i + 1);
        let d = denominator(low, i + 1);
        let t = low[i].total as int;
        assert(high[i].total == low[i].total);
        let a = clamped(low[i].current as int, t);
        let b = clamped(high[i].current as int, t);
        assert(a <= b);
        lemma_mul_inequality(a, b, d);
    }
}

/// For a fixed shape of the stack, the global percentage does not go down
/// when the position of the innermost step goes up.
pub proof fn lemma_percentage_monotone(low: Seq<StepReading>, high: Seq<StepReading>)
    requires
        same_but_leaf(low, high),
        low.last().current <= high.last().current,
    ensures
        global_percentage(low).is_some() == global_percentage(high).is_some(),
        global_percentage(low).is_some() ==> global_percentage(low).unwrap() <= global_percentage(
            high,
        ).unwrap(),
{
    if all_totals_positive(low) {
        assert(all_totals_positive(high)) by {
            assert forall|i: int| 0 <= i < high.len() implies (#[trigger] high[i]).total > 0 by {
                assert(low[i].total > 0);
            }
        }
        lemma_numerator_monotone(low, high, 0);
        lemma_fraction_signs(low, 0);
        let full = FULL as int;
        lemma_mul_inequality(numerator(low, 0), numerator(high, 0), full);
        lemma_div_is_ordered(
            full * numerator(low, 0),
            full * numerator(high, 0),
            denominator(low, 0),
        );
    } else {
        let i = choose|i: int| 0 <= i < low.len() && !((#[trigger] low[i]).total > 0);
        assert(!(high[i].total > 0));
    }
}

proof fn lemma_fraction_at_most_one(readings: Seq<StepReading>, i: int)
    requires
        all_totals_positive(readings),
        forall|j: int|
            0 <= j < readings.len() - 1 ==> (#[trigger] readings[j]).current < readings[j].total,
        0 <= i <= readings.len(),
    ensures
        i < readings.len() ==> numerator(readings, i) <= denominator(readings, i),
        i == readings.len() ==> numerator(readings, i) == 0,
    decreases readings.len() - i,
{
    if i < readings.len() {
        lemma_fraction_at_most_one(readings, i + 1);
        lemma_fraction_signs(readings, i + 1);
        let d = denominator(readings, i + 1);
        let n = numerator(readings, i + 1);
        let t = readings[i].total as int;
        let c = clamped(readings[i].current as int, t);
        if i + 1 < readings.len() {
            assert(c <= t - 1);
            assert(c * d + n <= t * d) by (nonlinear_arith)
                requires
                    c <= t - 1,
                    n <= d,
                    0 < d,
            ;
        } else {
            assert(c * d + n <= t * d) by (nonlinear_arith)
                requires
                    c <= t,
                    n == 0,
                    0 < d,
            ;
        }
    }
}

/// The global percentage is never negative. It is at most 100 % as long as
/// every step but the innermost is short of its total, however far the
/// position of the innermost step exceeds its own.
pub proof fn lemma_percentage_range(readings: Seq<StepReading>)
    requires
        all_totals_positive(readings),
    ensures
        global_percentage(readings).is_some(),
        0 <= global_percentage(readings).unwrap(),
        (forall|j: int|
            0 <= j < readings.len() - 1 ==> (#[trigger] readings[j]).current < readings[j].total)
            ==> global_percentage(readings).unwrap() <= FULL,
{
    let full = FULL as int;
    let n = numerator(readings, 0);
    let d = denominator(readings, 0);
    lemma_fraction_signs(readings, 0);
    lemma_mul_nonnegative(full, n);
    lemma_div_pos_is_pos(full * n, d);
    if forall|j: int|
        0 <= j < readings.len() - 1 ==> (#[trigger] readings[j]).current < readings[j].total {
        lemma_fraction_at_most_one(readings, 0);
        assert(n <= d);
        lemma_mul_inequality(n, d, full);
        lemma_div_is_ordered(full * n, full * d, d);
        vstd::arithmetic::div_mod::lemma_div_multiples_vanish(full, d);
    }
}

/// The view of an empty stack has no step and a global percentage of zero.
pub proof fn lemma_empty_view(
    view: ProgressView,
    readings: Seq<StepReading>,
    started: Seq<int>,
    start_time: int,
    now: int,
)
    requires
        readings.len() == 0,
        shows(view, readings, started, start_time, now),
    ensures
        view.steps@.len() == 0,
        view.percentage == Some(0u128),
{
}

/// Finishing a tracker to which nothing was reported leaves the stack and the
/// ledger empty, and so is its duration export.
pub proof fn lemma_finish_untouched(
    before: DefaultProgress,
    after: DefaultProgress,
    now: Timestamp,
)
    requires
        before.stack().len() == 0,
        before.ledger().len() == 0,
        DefaultProgress::finished(&before, &after, now),
    ensures
        after.stack().len() == 0,
        after.ledger() == Seq::<LedgerRecord>::empty(),
        collected(after.ledger()) == Seq::<LedgerRecord>::empty(),
{
    if before.finished_at().is_none() {
        let names = choose|names: Seq<Seq<char>>|
            names.len() == before.stack().len() && after.ledger() == before.ledger()
                + #[trigger] flushed(names, started_view(before.stack()), now@, 0);
        assert(after.ledger() =~= Seq::<LedgerRecord>::empty());
    } else {
        assert(after.ledger() =~= Seq::<LedgerRecord>::empty());
    }
}

/// Finishing twice is finishing once: the second call changes nothing.
pub proof fn lemma_finish_idempotent(
    before: DefaultProgress,
    once: DefaultProgress,
    twice: DefaultProgress,
    first: Timestamp,
    second: Timestamp,
)
    requires
        DefaultProgress::finished(&before, &once, first),
        DefaultProgress::finished(&once, &twice, second),
    ensures
        twice == once,
{
}

} // verus!
