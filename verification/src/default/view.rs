//! The read-only projection of the stack: one view per active step and the
//! nested-fraction estimate of overall completion.
//!
//! Percentages are fixed-point: an integer count of millionths of a percent,
//! rounded down, so that `100_000_000` stands for 100 %. A percentage is
//! `None` where it would divide by a total of zero.

use super::ledger::{started_view, InnerStep};
use crate::time::Timestamp;
use std::borrow::Cow;
use vstd::arithmetic::div_mod::{
    lemma_div_denominator, lemma_div_is_ordered, lemma_div_pos_is_pos,
    lemma_hoist_over_denominator,
};
use vstd::arithmetic::mul::{
    lemma_mul_is_commutative, lemma_mul_nonnegative, lemma_mul_strictly_positive,
};
use vstd::prelude::*;

verus! {

/// The fixed-point value of 100 %.
pub const FULL: u64 = 100_000_000;

/// What one step answered when it was asked for its name and counters.
#[derive(Debug)]
pub struct StepReading {
    pub name: Cow<'static, str>,
    pub current: u64,
    pub total: u64,
}

/// The view of the individual steps.
#[derive(Debug)]
pub struct ProgressStepView {
    /// The display name of the step.
    pub current_step: Cow<'static, str>,
    /// The state the step has reached, exactly as the step reports it.
    pub finished: u64,
    /// The number of states the step goes through.
    pub total: u64,
    /// Completion of this step alone, in millionths of a percent.
    pub percentage: Option<u64>,
    /// Nanoseconds since the step became active.
    pub duration: i128,
}

/// The returned view of the progress.
#[derive(Debug)]
pub struct ProgressView {
    /// The active steps, root first.
    pub steps: Vec<ProgressStepView>,
    /// Completion of the whole task, in millionths of a percent.
    pub percentage: Option<u128>,
    /// Nanoseconds since the tracker was created.
    pub duration: i128,
}

impl ProgressStepView {
    /// Whether two step views show the same thing.
    pub open spec fn same_as(&self, other: &ProgressStepView) -> bool {
        &&& self.current_step@ == other.current_step@
        &&& self.finished == other.finished
        &&& self.total == other.total
        &&& self.percentage == other.percentage
        &&& self.duration == other.duration
    }
}

impl Clone for ProgressStepView {
    fn clone(&self) -> (copy: Self)
        ensures
            copy.same_as(self),
    {
        ProgressStepView {
            current_step: copied_name(&self.current_step),
            finished: self.finished,
            total: self.total,
            percentage: self.percentage,
            duration: self.duration,
        }
    }
}

impl Clone for ProgressView {
    fn clone(&self) -> (copy: Self)
        ensures
            copy.steps@.len() == self.steps@.len(),
            forall|i: int|
                0 <= i < self.steps@.len() ==> (#[trigger] copy.steps@[i]).same_as(
                    &self.steps@[i],
                ),
            copy.percentage == self.percentage,
            copy.duration == self.duration,
    {
        let mut steps: Vec<ProgressStepView> = Vec::new();
        let mut i: usize = 0;
        while i < self.steps.len()
            invariant
                i <= self.steps@.len(),
                steps@.len() == i,
                forall|j: int| 0 <= j < i ==> (#[trigger] steps@[j]).same_as(&self.steps@[j]),
            decreases self.steps@.len() - i,
        {
            steps.push(self.steps[i].clone());
            i = i + 1;
        }
        ProgressView { steps, percentage: self.percentage, duration: self.duration }
    }
}

/// `current`, held to at most `total`.
pub open spec fn clamped(current: int, total: int) -> int {
    if current <= total {
        current
    } else {
        total
    }
}

/// Completion of one step: `clamped(current, total) / total` of 100 %,
/// rounded down, or nothing when `total` is zero.
pub open spec fn step_percentage(current: int, total: int) -> Option<int> {
    if total > 0 {
        Some((FULL * clamped(current, total)) / total)
    } else {
        None
    }
}

/// The product of the totals of entries `i..`: into how many equal slices
/// those levels together cut one slice of level `i - 1`.
pub open spec fn denominator(readings: Seq<StepReading>, i: int) -> int
    decreases readings.len() - i,
{
    if i < 0 || i >= readings.len() {
        1
    } else {
        readings[i].total * denominator(readings, i + 1)
    }
}

/// How many of the `denominator(readings, i)` slices entries `i..` have
/// completed: each level adds its clamped position, counted in slices of the
/// levels below it.
pub open spec fn numerator(readings: Seq<StepReading>, i: int) -> int
    decreases readings.len() - i,
{
    if i < 0 || i >= readings.len() {
        0
    } else {
        clamped(readings[i].current as int, readings[i].total as int) * denominator(
            readings,
            i + 1,
        ) + numerator(readings, i + 1)
    }
}

/// No entry has a total of zero.
pub open spec fn all_totals_positive(readings: Seq<StepReading>) -> bool {
    forall|i: int| 0 <= i < readings.len() ==> (#[trigger] readings[i]).total > 0
}

/// Completion of the whole task, or nothing when some total is zero.
///
/// Each level contributes its clamped position divided by the product of the
/// totals from the root down to it. `numerator / denominator` is the sum of
/// these contributions over their common denominator; the percentage is that
/// fraction of 100 %, rounded down.
pub open spec fn global_percentage(readings: Seq<StepReading>) -> Option<int> {
    if all_totals_positive(readings) {
        Some((FULL * numerator(readings, 0)) / denominator(readings, 0))
    } else {
        None
    }
}

/// Whether `view` is what `reading` shows of a step started at `started`,
/// as of `now`.
pub open spec fn shows_step(view: ProgressStepView, reading: StepReading, started: int, now: int)
    -> bool {
    &&& view.current_step@ == reading.name@
    &&& view.finished == reading.current
    &&& view.total == reading.total
    &&& match view.percentage {
        Some(p) => step_percentage(reading.current as int, reading.total as int) == Some(p as int),
        None => step_percentage(reading.current as int, reading.total as int).is_none(),
    }
    &&& view.duration == now - started
}

/// Whether `view` is what `readings` show of a stack whose entries started at
/// `started`, in a tracker created at `start_time`, as of `now`.
pub open spec fn shows(
    view: ProgressView,
    readings: Seq<StepReading>,
    started: Seq<int>,
    start_time: int,
    now: int,
) -> bool {
    &&& view.steps@.len() == readings.len()
    &&& forall|i: int|
        0 <= i < readings.len() ==> shows_step(
            #[trigger] view.steps@[i],
            readings[i],
            started[i],
            now,
        )
    &&& match view.percentage {
        Some(p) => global_percentage(readings) == Some(p as int),
        None => global_percentage(readings).is_none(),
    }
    &&& view.duration == now - start_time
}

/// With positive totals from `i` on, the denominator is positive and the
/// numerator is not negative.
pub proof fn lemma_fraction_signs(readings: Seq<StepReading>, i: int)
    requires
        0 <= i,
        forall|j: int| i <= j < readings.len() ==> (#[trigger] readings[j]).total > 0,
    ensures
        denominator(readings, i) > 0,
        numerator(readings, i) >= 0,
    decreases readings.len() - i,
{
    if i < readings.len() {
        lemma_fraction_signs(readings, i + 1);
        let t = readings[i].total as int;
        let c = clamped(readings[i].current as int, t);
        let d = denominator(readings, i + 1);
        lemma_mul_strictly_positive(t, d);
        lemma_mul_nonnegative(c, d);
    }
}

/// Rounding down once at the end is the same as rounding down at every
/// level: the scaled fraction of entries `i..` is the scaled fraction of
/// entries `i + 1..`, already rounded, put behind the position of entry `i`
/// and divided by its total.
pub proof fn lemma_fraction_step(readings: Seq<StepReading>, i: int)
    requires
        0 <= i < readings.len(),
        forall|j: int| i <= j < readings.len() ==> (#[trigger] readings[j]).total > 0,
    ensures
        (FULL * numerator(readings, i)) / denominator(readings, i) == (FULL * clamped(
            readings[i].current as int,
            readings[i].total as int,
        ) + (FULL * numerator(readings, i + 1)) / denominator(readings, i + 1))
            / (readings[i].total as int),
{
    let t = readings[i].total as int;
    let c = clamped(readings[i].current as int, t);
    let d = denominator(readings, i + 1);
    let n = numerator(readings, i + 1);
    let full = FULL as int;
    lemma_fraction_signs(readings, i + 1);
    lemma_fraction_signs(readings, i);
    let x = full * numerator(readings, i);
    assert(x == (full * n) + (full * c) * d) by (nonlinear_arith)
        requires
            x == full * (c * d + n),
    ;
    lemma_mul_nonnegative(full, numerator(readings, i));
    // x / d == full * c + (full * n) / d
    lemma_hoist_over_denominator(full * n, full * c, d as nat);
    // (x / d) / t == x / (d * t)
    lemma_div_denominator(x, d, t);
    lemma_mul_is_commutative(d, t);
}

/// The scaled fraction of one more level is at most one whole above the
/// scaled fraction of the levels below it.
proof fn lemma_level_bound(c: int, t: int, inner: int)
    requires
        0 <= c <= t,
        0 < t,
        0 <= inner,
    ensures
        0 <= (FULL * c + inner) / t <= FULL + inner,
{
    let full = FULL as int;
    assert(full * c + inner <= t * (full + inner)) by (nonlinear_arith)
        requires
            0 <= c <= t,
            0 < t,
            0 <= inner,
            0 < full,
    ;
    assert(0 <= full * c + inner) by (nonlinear_arith)
        requires
            0 <= c,
            0 <= inner,
            0 < full,
    ;
    lemma_div_pos_is_pos(full * c + inner, t);
    lemma_div_is_ordered(full * c + inner, t * (full + inner), t);
    vstd::arithmetic::div_mod::lemma_div_multiples_vanish(full + inner, t);
}

/// Completion of one step, in millionths of a percent.
pub fn percentage_of(current: u64, total: u64) -> (p: Option<u64>)
    ensures
        match p {
            Some(v) => step_percentage(current as int, total as int) == Some(v as int),
            None => step_percentage(current as int, total as int).is_none(),
        },
        p.is_some() <==> total > 0,
        p matches Some(v) ==> v <= FULL,
{
    if total == 0 {
        return None;
    }
    let c: u64 = if current <= total {
        current
    } else {
        total
    };
    proof {
        lemma_level_bound(c as int, total as int, 0);
        assert(FULL * c <= FULL * u64::MAX) by (nonlinear_arith)
            requires
                c <= u64::MAX,
        ;
    }
    let scaled: u128 = (FULL as u128) * (c as u128);
    let p: u128 = scaled / (total as u128);
    Some(p as u64)
}

/// Completion of the whole task, in millionths of a percent.
pub fn global_percentage_of(readings: &Vec<StepReading>) -> (p: Option<u128>)
    ensures
        match p {
            Some(v) => global_percentage(readings@) == Some(v as int),
            None => global_percentage(readings@).is_none(),
        },
        p.is_some() <==> all_totals_positive(readings@),
{
    let len = readings.len();
    let mut inner: u128 = 0;
    let mut i: usize = len;
    while i > 0
        invariant
            len == readings@.len(),
            i <= len,
            forall|j: int| i <= j < len ==> (#[trigger] readings@[j]).total > 0,
            denominator(readings@, i as int) > 0,
            inner == (FULL * numerator(readings@, i as int)) / denominator(readings@, i as int),
            inner <= (len - i) * FULL,
        decreases i,
    {
        i = i - 1;
        let total: u64 = readings[i].total;
        if total == 0 {
            return None;
        }
        let current: u64 = readings[i].current;
        let c: u64 = if current <= total {
            current
        } else {
            total
        };
        proof {
            lemma_fraction_step(readings@, i as int);
            lemma_fraction_signs(readings@, i as int);
            lemma_level_bound(c as int, total as int, inner as int);
            assert(FULL * c <= FULL * u64::MAX) by (nonlinear_arith)
                requires
                    c <= u64::MAX,
            ;
            assert((len - (i + 1)) * FULL <= usize::MAX * FULL) by (nonlinear_arith)
                requires
                    0 <= len - (i + 1) <= usize::MAX,
            ;
            assert((len - (i + 1)) * FULL + FULL == (len - i) * FULL) by (nonlinear_arith);
        }
        inner = ((FULL as u128) * (c as u128) + inner) / (total as u128);
    }
    proof {
        assert(all_totals_positive(readings@));
    }
    Some(inner)
}

/// A copy of a display name.
fn copied_name(name: &Cow<'static, str>) -> (copy: Cow<'static, str>)
    ensures
        copy@ == name@,
{
    match name {
        Cow::Borrowed(borrowed) => Cow::Borrowed(*borrowed),
        Cow::Owned(owned) => Cow::Owned(owned.clone()),
    }
}

/// Builds the view that `readings` show of `steps` as of `now`.
pub fn project(
    readings: &Vec<StepReading>,
    steps: &[InnerStep],
    start_time: Timestamp,
    now: Timestamp,
) -> (view: ProgressView)
    requires
        readings@.len() == steps@.len(),
    ensures
        shows(view, readings@, started_view(steps@), start_time@, now@),
{
    let mut step_view: Vec<ProgressStepView> = Vec::new();
    let mut i: usize = 0;
    while i < readings.len()
        invariant
            readings@.len() == steps@.len(),
            i <= readings@.len(),
            step_view@.len() == i,
            forall|j: int|
                0 <= j < i ==> shows_step(
                    #[trigger] step_view@[j],
                    readings@[j],
                    started_view(steps@)[j],
                    now@,
                ),
        decreases readings@.len() - i,
    {
        let reading = &readings[i];
        step_view.push(
            ProgressStepView {
                current_step: copied_name(&reading.name),
                finished: reading.current,
                total: reading.total,
                percentage: percentage_of(reading.current, reading.total),
                duration: now.duration_since(&steps[i].started_at),
            },
        );
        i = i + 1;
    }
    ProgressView {
        steps: step_view,
        percentage: global_percentage_of(readings),
        duration: now.duration_since(&start_time),
    }
}

} // verus!
