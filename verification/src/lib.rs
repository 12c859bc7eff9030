//! Progress tracking for long-running tasks organised as nested, named steps.
//!
//! A producer reports the step it is currently at; the tracker keeps the path
//! of active steps, estimates overall completion as a nested fraction, and
//! records how long each step and sub-step took once it is left.

use std::borrow::Cow;
use vstd::prelude::*;

pub mod default;
mod helper;
pub mod time;

pub use helper::{lower_case_words, AtomicSubStep, EnumStep, NamedStep, VariableNameStep};

verus! {

/// One unit of work: a display name, a total number of states to go through,
/// and the state currently reached.
///
/// `current` should never exceed `total`; readers that compute a ratio clamp
/// it rather than trust it. Nothing is promised about what an implementation
/// returns, so every reading is treated as a fresh observation.
pub trait Step: 'static + Send + Sync {
    fn name(&self) -> Cow<'static, str>;

    fn current(&self) -> u64;

    fn total(&self) -> u64;
}

/// The capability of receiving step reports. Libraries take this trait as a
/// parameter so that their caller picks how progress is tracked.
pub trait Progress: 'static + Send + Sync {
    fn update<P: Step>(&self, sub_progress: P);
}

/// A progress sink that ignores every report.
pub struct NoProgress;

impl Progress for NoProgress {
    fn update<P: Step>(&self, _sub_progress: P) {
    }
}

} // verus!
