use std::borrow::Cow;
use std::sync::{
    atomic::{AtomicU64, Ordering},
    Arc,
};

use steppe::default::export::export_durations;
use steppe::default::ledger::{owned_name, path_names, push_named_durations, step_names};
use steppe::default::view::{
    global_percentage_of, project, ProgressStepView, ProgressView, StepReading,
};
use steppe::default::{push_steps_durations, read_steps, DefaultProgress, InnerStep, StepDuration};
use steppe::time::Timestamp;
use steppe::{AtomicSubStep, EnumStep, NamedStep, NoProgress, Progress, Step, VariableNameStep};

const MAIN_STEPS: [&str; 4] = [
    "TheFirstStep",
    "TheSecondWeNeverSee",
    "TheThirdStep",
    "TheFinalStep",
];

#[derive(Debug, Clone, Copy, PartialEq, Eq)]
pub enum CustomMainSteps {
    TheFirstStep,
    TheSecondWeNeverSee,
    TheThirdStep,
    TheFinalStep,
}

impl CustomMainSteps {
    fn phase(&self) -> EnumStep<CustomMainSteps> {
        EnumStep::new(&MAIN_STEPS, *self as usize).unwrap()
    }
}

impl Step for CustomMainSteps {
    fn name(&self) -> Cow<'static, str> {
        self.phase().name()
    }

    fn current(&self) -> u64 {
        self.phase().current()
    }

    fn total(&self) -> u64 {
        self.phase().total()
    }
}

const SUB_STEPS: [&str; 3] = ["WeWontGoTooFarThisTime", "JustOneMore", "WeAreDone"];

#[derive(Debug, Clone, Copy, PartialEq, Eq)]
pub enum CustomSubSteps {
    WeWontGoTooFarThisTime,
    JustOneMore,
    WeAreDone,
}

impl CustomSubSteps {
    fn phase(&self) -> EnumStep<CustomSubSteps> {
        EnumStep::new(&SUB_STEPS, *self as usize).unwrap()
    }
}

impl Step for CustomSubSteps {
    fn name(&self) -> Cow<'static, str> {
        self.phase().name()
    }

    fn current(&self) -> u64 {
        self.phase().current()
    }

    fn total(&self) -> u64 {
        self.phase().total()
    }
}

#[derive(Default, Debug, Clone, Copy)]
pub struct CustomUnit {}

impl NamedStep for CustomUnit {
    fn name(&self) -> &'static str {
        "custom unit"
    }
}

pub type AtomicCustomUnit = AtomicSubStep<CustomUnit>;

fn at(nanosecond: i128) -> Timestamp {
    Timestamp::from_nanosecond(nanosecond).unwrap()
}

/// Whether a fixed-point percentage is the given number of percent, up to
/// the rounding of either.
fn close(percentage: u128, expected: f32) -> bool {
    ((percentage as f64) / 1_000_000.0 - expected as f64).abs() < 0.0001
}

fn assert_step(step: &ProgressStepView, name: &str, finished: u64, total: u64, percentage: f32) {
    assert_eq!(step.current_step, name);
    assert_eq!(step.finished, finished);
    assert_eq!(step.total, total);
    let shown = step.percentage.unwrap();
    assert!(close(shown as u128, percentage), "{} is not {}", shown, percentage);
}

fn assert_view(view: &ProgressView, steps: &[(&str, u64, u64, f32)], percentage: f32) {
    assert_eq!(view.steps.len(), steps.len());
    for (step, (name, finished, total, expected)) in view.steps.iter().zip(steps.iter()) {
        assert_step(step, name, *finished, *total, *expected);
    }
    let shown = view.percentage.unwrap();
    assert!(close(shown, percentage), "{} is not {}", shown, percentage);
}

#[test]
fn the_test_tm() {
    let mut progress = DefaultProgress::default();
    progress.update(CustomMainSteps::TheFirstStep);
    assert_view(
        &progress.as_progress_view(),
        &[("the first step", 0, 4, 0.0)],
        0.0,
    );
    progress.update(CustomSubSteps::WeWontGoTooFarThisTime);
    assert_view(
        &progress.as_progress_view(),
        &[
            ("the first step", 0, 4, 0.0),
            ("we wont go too far this time", 0, 3, 0.0),
        ],
        0.0,
    );
    progress.update(CustomSubSteps::JustOneMore);
    assert_view(
        &progress.as_progress_view(),
        &[
            ("the first step", 0, 4, 0.0),
            ("just one more", 1, 3, 33.333336),
        ],
        8.333334,
    );
    progress.update(CustomSubSteps::WeAreDone);
    let (atomic, unit) = AtomicCustomUnit::new(10);
    atomic.fetch_add(6, Ordering::Relaxed);
    progress.update(unit);
    assert_view(
        &progress.as_progress_view(),
        &[
            ("the first step", 0, 4, 0.0),
            ("we are done", 2, 3, 66.66667),
            ("custom unit", 6, 10, 60.000004),
        ],
        21.666666,
    );
    atomic.fetch_add(3, Ordering::Relaxed);
    assert_view(
        &progress.as_progress_view(),
        &[
            ("the first step", 0, 4, 0.0),
            ("we are done", 2, 3, 66.66667),
            ("custom unit", 9, 10, 90.0),
        ],
        24.166668,
    );
    // This should delete both the atomic step and the sub step + We're skipping the second step
    progress.update(CustomMainSteps::TheThirdStep);
    assert_view(
        &progress.as_progress_view(),
        &[("the third step", 2, 4, 50.0)],
        50.0,
    );
    let (atomic, unit) = AtomicCustomUnit::new(2);
    // There is no check on the max: the counter is shown as it is, but the
    // percentage caps itself at the total.
    atomic.fetch_add(1000, Ordering::Relaxed);
    progress.update(unit);
    assert_view(
        &progress.as_progress_view(),
        &[("the third step", 2, 4, 50.0), ("custom unit", 1000, 2, 100.0)],
        75.0,
    );
    // This should delete the atomic step only
    progress.update(CustomMainSteps::TheFinalStep);
    assert_view(
        &progress.as_progress_view(),
        &[("the final step", 3, 4, 75.0)],
        75.0,
    );

    progress.finish();
    assert_view(&progress.as_progress_view(), &[], 0.0);

    let mut durations = progress.accumulated_durations();
    // The values depend on the clock; the names and their order are stable.
    durations.iter_mut().for_each(|(_, v)| {
        *v = StepDuration {
            total_duration: 0,
            self_duration: 0,
        }
    });
    println!("{:?}", durations);
    let names: Vec<&str> = durations.keys().map(|name| name.as_str()).collect();
    assert_eq!(
        names,
        vec![
            "the first step > we wont go too far this time",
            "the first step > just one more",
            "the first step > we are done > custom unit",
            "the first step > we are done",
            "the first step",
            "the third step > custom unit",
            "the third step",
            "the final step",
        ]
    );
    for duration in durations.values() {
        assert_eq!(duration.total_duration, 0);
        assert_eq!(duration.self_duration, 0);
    }
}

#[test]
fn using_a_custom_provider() {
    struct CustomProgress {
        updated: Arc<AtomicU64>,
    }

    impl Progress for CustomProgress {
        fn update<P: Step>(&self, _sub_progress: P) {
            self.updated.fetch_add(1, Ordering::Relaxed);
        }
    }

    let progress = CustomProgress {
        updated: Arc::new(AtomicU64::new(0)),
    };
    progress.update(CustomMainSteps::TheFirstStep);
    assert_eq!(progress.updated.load(Ordering::Relaxed), 1);
    progress.update(CustomSubSteps::WeWontGoTooFarThisTime);
    assert_eq!(progress.updated.load(Ordering::Relaxed), 2);
    progress.update(CustomSubSteps::JustOneMore);
    assert_eq!(progress.updated.load(Ordering::Relaxed), 3);
    progress.update(CustomSubSteps::WeAreDone);
    assert_eq!(progress.updated.load(Ordering::Relaxed), 4);
    progress.update(CustomMainSteps::TheThirdStep);
    assert_eq!(progress.updated.load(Ordering::Relaxed), 5);
}

#[test]
fn no_progress_accepts_any_step() {
    let progress = NoProgress;
    progress.update(CustomMainSteps::TheFirstStep);
    progress.update(VariableNameStep::<CustomUnit>::new("anything", 1, 2));
}

#[test]
fn phase_names_are_lower_case_words() {
    assert_eq!(CustomMainSteps::TheFirstStep.name(), "the first step");
    assert_eq!(
        CustomMainSteps::TheSecondWeNeverSee.name(),
        "the second we never see"
    );
    assert_eq!(
        CustomSubSteps::WeWontGoTooFarThisTime.name(),
        "we wont go too far this time"
    );
}

#[test]
fn phase_counters_follow_the_list() {
    let step = EnumStep::<CustomMainSteps>::new(&MAIN_STEPS, 2).unwrap();
    assert_eq!(step.name(), "the third step");
    assert_eq!(step.current(), 2);
    assert_eq!(step.total(), 4);
    let copy = step.clone();
    assert_eq!(copy.name(), "the third step");
    assert_eq!(copy.current(), 2);
    assert_eq!(copy.total(), 4);
}

#[test]
fn phase_outside_the_list_is_refused() {
    assert!(EnumStep::<CustomMainSteps>::new(&MAIN_STEPS, 4).is_none());
    assert!(EnumStep::<CustomMainSteps>::new(&[], 0).is_none());
    assert!(EnumStep::<CustomMainSteps>::new(&MAIN_STEPS, 3).is_some());
}

#[test]
fn variable_name_step_keeps_what_it_was_given() {
    let step = VariableNameStep::<CustomUnit>::new("v1 to v2", 3, 10);
    assert_eq!(step.name(), "v1 to v2");
    assert_eq!(step.current(), 3);
    assert_eq!(step.total(), 10);
    let copy = step.clone();
    assert_eq!(copy.name(), "v1 to v2");
    assert_eq!(copy.current(), 3);
    assert_eq!(copy.total(), 10);
    let owned = VariableNameStep::<CustomUnit>::new(String::from("owned"), 0, 1);
    assert_eq!(owned.name(), "owned");
}

#[test]
fn atomic_sub_step_starts_at_zero() {
    let (atomic, unit) = AtomicCustomUnit::new(7);
    assert_eq!(atomic.load(Ordering::Relaxed), 0);
    assert_eq!(unit.name(), "custom unit");
    assert!(matches!(unit.name(), Cow::Borrowed("custom unit")));
    assert_eq!(unit.current(), 0);
    assert_eq!(unit.total(), 7);
}

#[test]
fn atomic_sub_step_shares_its_counter() {
    let (atomic, unit) = AtomicCustomUnit::new(7);
    atomic.fetch_add(5, Ordering::Relaxed);
    assert_eq!(unit.current(), 5);
    let copy = unit.clone();
    atomic.fetch_add(1, Ordering::Relaxed);
    assert_eq!(unit.current(), 6);
    assert_eq!(copy.current(), 6);
}

#[test]
fn atomic_counter_moves_the_view_without_a_report() {
    let mut progress = DefaultProgress::new_at(at(0));
    let (atomic, unit) = AtomicCustomUnit::new(10);
    atomic.fetch_add(6, Ordering::Relaxed);
    progress.update_at(unit, at(10));
    let before = progress.as_progress_view_at(at(20));
    assert_eq!(before.steps.len(), 1);
    assert_eq!(before.steps[0].finished, 6);
    assert_eq!(before.steps[0].percentage, Some(60_000_000));
    assert_eq!(before.percentage, Some(60_000_000));

    atomic.fetch_add(3, Ordering::Relaxed);
    let after = progress.as_progress_view_at(at(30));
    assert_eq!(after.steps.len(), 1);
    assert_eq!(after.steps[0].current_step, "custom unit");
    assert_eq!(after.steps[0].finished, 9);
    assert_eq!(after.steps[0].total, 10);
    assert_eq!(after.steps[0].percentage, Some(90_000_000));
    assert_eq!(after.percentage, Some(90_000_000));
    assert!(progress.accumulated_durations_at(at(30)).len() == 1);
}

#[test]
fn timestamps_stay_in_range() {
    assert!(Timestamp::from_nanosecond(0).is_some());
    assert_eq!(at(5_123_456_789).as_nanosecond(), 5_123_456_789);
    assert!(Timestamp::from_nanosecond(steppe::time::MIN_NANOSECOND).is_some());
    assert!(Timestamp::from_nanosecond(steppe::time::MIN_NANOSECOND - 1).is_none());
    assert!(Timestamp::from_nanosecond(steppe::time::MAX_NANOSECOND).is_some());
    assert!(Timestamp::from_nanosecond(steppe::time::MAX_NANOSECOND + 1).is_none());
    assert_eq!(
        steppe::time::MAX_SPAN,
        steppe::time::MAX_NANOSECOND - steppe::time::MIN_NANOSECOND
    );
}

#[test]
fn durations_between_timestamps_are_signed() {
    assert_eq!(at(1_500).duration_since(&at(1_000)), 500);
    assert_eq!(at(1_000).duration_since(&at(1_500)), -500);
    let min = at(steppe::time::MIN_NANOSECOND);
    let max = at(steppe::time::MAX_NANOSECOND);
    assert_eq!(max.duration_since(&min), steppe::time::MAX_SPAN);
    assert_eq!(min.duration_since(&max), -steppe::time::MAX_SPAN);
}

#[test]
fn nested_fraction_of_a_known_sequence() {
    let mut progress = DefaultProgress::new_at(at(0));
    progress.update_at(CustomMainSteps::TheFirstStep, at(1));
    progress.update_at(CustomSubSteps::JustOneMore, at(2));
    let view = progress.as_progress_view_at(at(3));
    // (0 / 4) + (1 / 3) / 4 = 0.08333...
    assert_eq!(view.percentage, Some(8_333_333));
    assert_eq!(view.steps[0].percentage, Some(0));
    assert_eq!(view.steps[1].percentage, Some(33_333_333));
    assert_eq!(view.steps[0].duration, 2);
    assert_eq!(view.steps[1].duration, 1);
    assert_eq!(view.duration, 3);
}

enum X {}
enum Y {}
enum Z {}

#[test]
fn returning_to_a_step_retires_the_deeper_ones() {
    let mut progress = DefaultProgress::new_at(at(0));
    progress.update_at(VariableNameStep::<X>::new("x", 0, 2), at(1_000));
    progress.update_at(VariableNameStep::<Y>::new("y", 0, 5), at(1_500));
    assert_eq!(progress.as_progress_view_at(at(2_000)).steps.len(), 2);
    progress.update_at(VariableNameStep::<X>::new("x again", 1, 2), at(4_000));

    let view = progress.as_progress_view_at(at(4_000));
    assert_eq!(view.steps.len(), 1);
    assert_eq!(view.steps[0].current_step, "x again");
    assert_eq!(view.steps[0].finished, 1);
    assert_eq!(view.steps[0].duration, 0);

    progress.finish_at(at(4_500));
    let durations = progress.accumulated_durations_at(at(9_000));
    let lines: Vec<(&str, i128, i128)> = durations
        .iter()
        .map(|(name, d)| (name.as_str(), d.total_duration, d.self_duration))
        .collect();
    assert_eq!(
        lines,
        vec![
            ("x > y", 2_500, 2_500),
            ("x", 3_000, 500),
            ("x again", 500, 500),
        ]
    );
}

#[test]
fn reporting_an_identity_at_index_k_leaves_k_plus_one_steps() {
    let mut progress = DefaultProgress::new_at(at(0));
    progress.update_at(VariableNameStep::<X>::new("x", 0, 2), at(1));
    progress.update_at(VariableNameStep::<Y>::new("y", 0, 2), at(2));
    progress.update_at(VariableNameStep::<Z>::new("z", 0, 2), at(3));
    assert_eq!(progress.as_progress_view_at(at(4)).steps.len(), 3);

    progress.update_at(VariableNameStep::<Y>::new("y bis", 1, 2), at(5));
    let view = progress.as_progress_view_at(at(6));
    let names: Vec<&str> = view.steps.iter().map(|s| s.current_step.as_ref()).collect();
    assert_eq!(names, vec!["x", "y bis"]);

    progress.update_at(VariableNameStep::<X>::new("x bis", 1, 2), at(7));
    let view = progress.as_progress_view_at(at(8));
    let names: Vec<&str> = view.steps.iter().map(|s| s.current_step.as_ref()).collect();
    assert_eq!(names, vec!["x bis"]);
}

#[test]
fn reporting_the_same_identity_keeps_the_depth() {
    let mut progress = DefaultProgress::new_at(at(0));
    progress.update_at(VariableNameStep::<X>::new("x", 0, 10), at(1));
    for i in 0..10u64 {
        progress.update_at(VariableNameStep::<Y>::new("y", i, 10), at(2 + i as i128));
        assert_eq!(progress.as_progress_view_at(at(20)).steps.len(), 2);
    }
    let durations = progress.accumulated_durations_at(at(20));
    // Nine retired "x > y", all under one name, then the two active steps.
    let names: Vec<&str> = durations.keys().map(|name| name.as_str()).collect();
    assert_eq!(names, vec!["x > y", "x"]);
    assert_eq!(
        durations["x > y"],
        StepDuration {
            total_duration: 9,
            self_duration: 9
        }
    );
    assert_eq!(
        durations["x"],
        StepDuration {
            total_duration: 19,
            self_duration: 10
        }
    );
}

#[test]
fn percentage_grows_with_the_leaf_and_stays_within_bounds() {
    let mut last = 0;
    for current in 0..=12u64 {
        let mut progress = DefaultProgress::new_at(at(0));
        progress.update_at(CustomMainSteps::TheThirdStep, at(1));
        progress.update_at(VariableNameStep::<Y>::new("leaf", current, 8), at(2));
        let percentage = progress.as_progress_view_at(at(3)).percentage.unwrap();
        assert!(percentage >= last);
        assert!(percentage <= 100_000_000);
        last = percentage;
    }
    // 2 / 4 + (8 / 8) / 4
    assert_eq!(last, 75_000_000);
}

#[test]
fn percentage_of_one_step() {
    assert_eq!(steppe::default::view::percentage_of(0, 4), Some(0));
    assert_eq!(steppe::default::view::percentage_of(1, 3), Some(33_333_333));
    assert_eq!(steppe::default::view::percentage_of(2, 3), Some(66_666_666));
    assert_eq!(steppe::default::view::percentage_of(3, 4), Some(75_000_000));
    assert_eq!(steppe::default::view::percentage_of(1000, 2), Some(100_000_000));
    assert_eq!(
        steppe::default::view::percentage_of(u64::MAX, u64::MAX),
        Some(100_000_000)
    );
    assert_eq!(steppe::default::view::percentage_of(0, 0), None);
    assert_eq!(steppe::default::view::percentage_of(5, 0), None);
}

#[test]
fn a_total_of_zero_has_no_percentage() {
    let mut progress = DefaultProgress::new_at(at(0));
    progress.update_at(CustomMainSteps::TheThirdStep, at(1));
    progress.update_at(VariableNameStep::<Y>::new("empty", 0, 0), at(2));
    let view = progress.as_progress_view_at(at(3));
    assert_eq!(view.steps[0].percentage, Some(50_000_000));
    assert_eq!(view.steps[1].percentage, None);
    assert_eq!(view.percentage, None);
}

#[test]
fn a_full_ancestor_lets_the_percentage_pass_the_whole() {
    let mut progress = DefaultProgress::new_at(at(0));
    progress.update_at(VariableNameStep::<X>::new("done", 4, 4), at(1));
    progress.update_at(VariableNameStep::<Y>::new("more", 1, 2), at(2));
    let view = progress.as_progress_view_at(at(3));
    // 4 / 4 + (1 / 2) / 4
    assert_eq!(view.percentage, Some(112_500_000));
}

#[test]
fn finish_after_no_report() {
    let mut progress = DefaultProgress::new_at(at(100));
    assert!(!progress.is_finished());
    assert_eq!(progress.created_at().as_nanosecond(), 100);
    assert!(progress.finish_time().is_none());
    progress.finish_at(at(200));
    assert!(progress.is_finished());
    assert_eq!(progress.created_at().as_nanosecond(), 100);
    assert_eq!(progress.finish_time().map(|t| t.as_nanosecond()), Some(200));
    let view = progress.as_progress_view_at(at(300));
    assert!(view.steps.is_empty());
    assert_eq!(view.percentage, Some(0));
    assert_eq!(view.duration, 200);
    assert!(progress.accumulated_durations_at(at(300)).is_empty());
}

#[test]
fn finishing_twice_is_finishing_once() {
    let mut progress = DefaultProgress::new_at(at(0));
    progress.update_at(VariableNameStep::<X>::new("x", 0, 2), at(10));
    progress.update_at(VariableNameStep::<Y>::new("y", 0, 2), at(30));
    progress.finish_at(at(100));
    let once = progress.accumulated_durations_at(at(500));
    progress.finish_at(at(1_000));
    assert!(progress.is_finished());
    assert_eq!(progress.finish_time().map(|t| t.as_nanosecond()), Some(100));
    let twice = progress.accumulated_durations_at(at(2_000));
    assert_eq!(once, twice);
    let lines: Vec<(&str, i128, i128)> = twice
        .iter()
        .map(|(name, d)| (name.as_str(), d.total_duration, d.self_duration))
        .collect();
    assert_eq!(lines, vec![("x > y", 70, 70), ("x", 90, 20)]);
}

#[test]
fn a_finished_tracker_ignores_reports() {
    let mut progress = DefaultProgress::new_at(at(0));
    progress.update_at(VariableNameStep::<X>::new("x", 0, 2), at(10));
    progress.finish_at(at(20));
    progress.update_at(VariableNameStep::<Y>::new("late", 0, 2), at(30));
    progress.update(VariableNameStep::<X>::new("later", 0, 2));
    assert!(progress.as_progress_view_at(at(40)).steps.is_empty());
    let durations = progress.accumulated_durations_at(at(40));
    assert_eq!(durations.len(), 1);
    assert_eq!(
        durations["x"],
        StepDuration {
            total_duration: 10,
            self_duration: 10
        }
    );
}

#[test]
fn reading_durations_does_not_retire_the_active_steps() {
    let mut progress = DefaultProgress::new_at(at(0));
    progress.update_at(VariableNameStep::<X>::new("x", 0, 2), at(10));
    progress.update_at(VariableNameStep::<Y>::new("y", 0, 2), at(15));
    let early = progress.accumulated_durations_at(at(20));
    let lines: Vec<(&str, i128, i128)> = early
        .iter()
        .map(|(name, d)| (name.as_str(), d.total_duration, d.self_duration))
        .collect();
    assert_eq!(lines, vec![("x > y", 5, 5), ("x", 10, 5)]);
    assert_eq!(progress.as_progress_view_at(at(20)).steps.len(), 2);
    assert!(!progress.is_finished());

    let late = progress.accumulated_durations_at(at(40));
    let lines: Vec<(&str, i128, i128)> = late
        .iter()
        .map(|(name, d)| (name.as_str(), d.total_duration, d.self_duration))
        .collect();
    assert_eq!(lines, vec![("x > y", 25, 25), ("x", 30, 5)]);
}

#[test]
fn a_clock_that_goes_back_gives_negative_durations() {
    let mut progress = DefaultProgress::new_at(at(0));
    progress.update_at(VariableNameStep::<X>::new("x", 0, 2), at(100));
    progress.finish_at(at(40));
    let durations = progress.accumulated_durations_at(at(50));
    assert_eq!(
        durations["x"],
        StepDuration {
            total_duration: -60,
            self_duration: -60
        }
    );
}

#[test]
fn a_fresh_tracker_is_empty() {
    let progress = DefaultProgress::default();
    assert!(!progress.is_finished());
    let view = progress.as_progress_view();
    assert!(view.steps.is_empty());
    assert_eq!(view.percentage, Some(0));
    assert!(progress.accumulated_durations().is_empty());
}

fn reading(name: &'static str, current: u64, total: u64) -> StepReading {
    StepReading {
        name: Cow::Borrowed(name),
        current,
        total,
    }
}

fn three_steps() -> Vec<InnerStep> {
    vec![
        InnerStep::new(VariableNameStep::<X>::new("x", 1, 4), at(100)),
        InnerStep::new(VariableNameStep::<Y>::new("y", 2, 3), at(250)),
        InnerStep::new(VariableNameStep::<Z>::new("z", 6, 10), at(400)),
    ]
}

fn lines(durations: &[(String, StepDuration)]) -> Vec<(&str, i128, i128)> {
    durations
        .iter()
        .map(|(name, d)| (name.as_str(), d.total_duration, d.self_duration))
        .collect()
}

#[test]
fn a_new_entry_starts_when_it_is_reported() {
    let entry = InnerStep::new(VariableNameStep::<X>::new("x", 1, 4), at(100));
    assert_eq!(entry.started_at.as_nanosecond(), 100);
    assert_eq!(entry.time_spent_in_children, 0);
    assert_eq!(entry.step.name(), "x");
    assert_eq!(entry.step.current(), 1);
    assert_eq!(entry.step.total(), 4);
    let same = InnerStep::new(VariableNameStep::<X>::new("other", 0, 1), at(0));
    let other = InnerStep::new(VariableNameStep::<Y>::new("x", 1, 4), at(100));
    assert_eq!(entry.type_id, same.type_id);
    assert_ne!(entry.type_id, other.type_id);
}

#[test]
fn reporting_an_entry_is_reporting_its_step() {
    let mut progress = DefaultProgress::new_at(at(0));
    progress.report(InnerStep::new(VariableNameStep::<X>::new("x", 1, 4), at(100)));
    progress.report(InnerStep::new(VariableNameStep::<Y>::new("y", 1, 4), at(150)));
    progress.report(InnerStep::new(VariableNameStep::<X>::new("x2", 2, 4), at(300)));
    let view = progress.as_progress_view_at(at(310));
    assert_eq!(view.steps.len(), 1);
    assert_eq!(view.steps[0].current_step, "x2");
    assert_eq!(view.steps[0].duration, 10);
    assert_eq!(view.percentage, Some(50_000_000));
}

#[test]
fn names_and_readings_are_taken_root_first() {
    let steps = three_steps();
    assert_eq!(step_names(&steps), vec!["x", "y", "z"]);
    let readings = read_steps(&steps);
    let seen: Vec<(&str, u64, u64)> = readings
        .iter()
        .map(|r| (r.name.as_ref(), r.current, r.total))
        .collect();
    assert_eq!(seen, vec![("x", 1, 4), ("y", 2, 3), ("z", 6, 10)]);
    assert!(step_names(&[]).is_empty());
    assert!(read_steps(&[]).is_empty());
}

#[test]
fn owned_names_keep_their_text() {
    assert_eq!(owned_name(Cow::Borrowed("borrowed")), "borrowed");
    assert_eq!(owned_name(Cow::Owned(String::from("owned"))), "owned");
    assert_eq!(owned_name(Cow::Borrowed("")), "");
}

#[test]
fn path_names_join_the_ancestors() {
    let names = vec![String::from("a"), String::from("b c"), String::from("d")];
    assert_eq!(path_names(&names), vec!["a", "a > b c", "a > b c > d"]);
    assert!(path_names(&Vec::new()).is_empty());
    assert_eq!(path_names(&vec![String::new(), String::new()]), vec!["", " > "]);
}

#[test]
fn retired_steps_are_written_innermost_first() {
    let steps = three_steps();
    let mut durations = vec![(
        String::from("earlier"),
        StepDuration {
            total_duration: 1,
            self_duration: 1,
        },
    )];
    push_steps_durations(&steps, &mut durations, at(1_000), 1);
    assert_eq!(
        lines(&durations),
        vec![
            ("earlier", 1, 1),
            ("x > y > z", 600, 600),
            ("x > y", 750, 150),
        ]
    );

    let mut all = Vec::new();
    push_steps_durations(&steps, &mut all, at(1_000), 0);
    assert_eq!(
        lines(&all),
        vec![
            ("x > y > z", 600, 600),
            ("x > y", 750, 150),
            ("x", 900, 150),
        ]
    );
}

#[test]
fn retiring_from_the_end_or_beyond_writes_nothing() {
    let steps = three_steps();
    let mut durations = Vec::new();
    push_steps_durations(&steps, &mut durations, at(1_000), 3);
    assert!(durations.is_empty());
    push_steps_durations(&steps, &mut durations, at(1_000), 7);
    assert!(durations.is_empty());
    push_steps_durations(&[], &mut durations, at(1_000), 0);
    assert!(durations.is_empty());
}

#[test]
fn retired_steps_take_the_names_they_are_given() {
    let steps = three_steps();
    let names = vec![String::from("a"), String::from("b"), String::from("c")];
    let mut durations = Vec::new();
    push_named_durations(&steps, &names, &mut durations, at(500), 2);
    assert_eq!(lines(&durations), vec![("a > b > c", 100, 100)]);
    push_named_durations(&steps, &names, &mut durations, at(300), 0);
    assert_eq!(
        lines(&durations),
        vec![
            ("a > b > c", 100, 100),
            ("a > b > c", -100, -100),
            ("a > b", 50, 150),
            ("a", 200, 150),
        ]
    );
}

#[test]
fn an_export_keeps_first_places_and_last_values() {
    let line = |name: &str, total: i128, own: i128| {
        (
            String::from(name),
            StepDuration {
                total_duration: total,
                self_duration: own,
            },
        )
    };
    let ledger = vec![line("a > b", 1, 1), line("a", 5, 4), line("a > b", 2, 2)];
    let pending = vec![line("c", 7, 7), line("a", 9, 8)];
    let export = export_durations(&ledger, &pending);
    let seen: Vec<(&str, i128, i128)> = export
        .iter()
        .map(|(name, d)| (name.as_str(), d.total_duration, d.self_duration))
        .collect();
    assert_eq!(seen, vec![("a > b", 2, 2), ("a", 9, 8), ("c", 7, 7)]);
    assert!(export_durations(&Vec::new(), &Vec::new()).is_empty());
}

#[test]
fn global_percentage_of_readings() {
    assert_eq!(global_percentage_of(&Vec::new()), Some(0));
    assert_eq!(global_percentage_of(&vec![reading("a", 3, 4)]), Some(75_000_000));
    assert_eq!(
        global_percentage_of(&vec![reading("a", 0, 4), reading("b", 1, 3)]),
        Some(8_333_333)
    );
    // 0 / 4 + (2 / 3) / 4 + (6 / 10) / 12
    assert_eq!(
        global_percentage_of(&vec![
            reading("a", 0, 4),
            reading("b", 2, 3),
            reading("c", 6, 10)
        ]),
        Some(21_666_666)
    );
    assert_eq!(
        global_percentage_of(&vec![
            reading("a", 0, 4),
            reading("b", 2, 3),
            reading("c", 9, 10)
        ]),
        Some(24_166_666)
    );
    assert_eq!(
        global_percentage_of(&vec![reading("a", 1, 1), reading("b", 1, 1), reading("c", 9, 1)]),
        Some(300_000_000)
    );
    assert_eq!(
        global_percentage_of(&vec![reading("a", u64::MAX, u64::MAX), reading("b", 1, u64::MAX)]),
        Some(100_000_000)
    );
    assert_eq!(
        global_percentage_of(&vec![reading("a", 1, 2), reading("b", 0, 0)]),
        None
    );
    assert_eq!(
        global_percentage_of(&vec![reading("a", 0, 0), reading("b", 1, 2)]),
        None
    );
}

#[test]
fn a_view_shows_the_readings_it_is_given() {
    let steps = three_steps();
    let readings = vec![reading("a", 0, 4), reading("b", 5, 3), reading("c", 6, 10)];
    let view = project(&readings, &steps, at(50), at(1_000));
    assert_eq!(view.duration, 950);
    assert_eq!(view.steps.len(), 3);
    let seen: Vec<(&str, u64, u64, Option<u64>, i128)> = view
        .steps
        .iter()
        .map(|s| {
            (
                s.current_step.as_ref(),
                s.finished,
                s.total,
                s.percentage,
                s.duration,
            )
        })
        .collect();
    assert_eq!(
        seen,
        vec![
            ("a", 0, 4, Some(0), 900),
            ("b", 5, 3, Some(100_000_000), 750),
            ("c", 6, 10, Some(60_000_000), 600),
        ]
    );
    // 0 / 4 + (3 / 3) / 4 + (6 / 10) / 12
    assert_eq!(view.percentage, Some(30_000_000));

    let copy = view.clone();
    assert_eq!(copy.duration, 950);
    assert_eq!(copy.percentage, Some(30_000_000));
    let copied: Vec<(&str, u64, u64, Option<u64>, i128)> = copy
        .steps
        .iter()
        .map(|s| {
            (
                s.current_step.as_ref(),
                s.finished,
                s.total,
                s.percentage,
                s.duration,
            )
        })
        .collect();
    assert_eq!(copied, seen);
}

#[test]
fn a_tracker_is_created_now() {
    let progress = DefaultProgress::default();
    let created = progress.created_at().as_nanosecond();
    assert!(created > 0);
    assert!(created <= steppe::time::MAX_NANOSECOND);
    let view = progress.as_progress_view();
    assert!(view.duration > -1_000_000_000 && view.duration < 60_000_000_000);
}
