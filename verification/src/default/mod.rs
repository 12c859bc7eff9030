//! The default progress tracker: the stack of active steps, the ledger of
//! retired ones, and the read-only projections of both.

use crate::time::Timestamp;
use crate::Step;
use std::any::TypeId;
use vstd::prelude::*;

pub mod export;
pub mod identity;
pub mod laws;
pub mod ledger;
pub mod view;

pub use ledger::{push_steps_durations, InnerStep, StepDuration};
pub use view::{ProgressStepView, ProgressView};

use export::{collected, export_durations, export_entries};
use identity::{identity_of, lemma_position, lemma_position_unique, position, same_identity};
use indexmap::IndexMap;
use laws::{lemma_report_keeps_distinct, lemma_report_keeps_ledger};
use ledger::{flushed, ledger_view, started_view, LedgerRecord};
use view::{project, shows, StepReading};

verus! {

/// The state of one tracked task: the path of currently active steps and the
/// durations of the steps already left.
///
/// Reporting and finishing take the tracker by exclusive reference; a program
/// that shares one tracker between a producer and observers puts it behind a
/// lock of its own.
pub struct DefaultProgress {
    /// The hierarchy of steps, root first.
    steps: Vec<InnerStep>,
    /// The durations associated to each retired step, oldest first.
    durations: Vec<(String, StepDuration)>,
    /// The time at which the progress was finished.
    finished_at: Option<Timestamp>,
    /// The time at which the progress was created.
    start_time: Timestamp,
}

/// The identities of a stack, root first.
pub open spec fn identities_of(stack: Seq<InnerStep>) -> Seq<TypeId> {
    Seq::new(stack.len(), |i: int| stack[i].type_id)
}

/// The stack once `entry` is reported: everything from the first entry of
/// its identity outward is gone, and `entry` is the innermost step.
pub open spec fn replaced(stack: Seq<InnerStep>, entry: InnerStep) -> Seq<InnerStep> {
    stack.take(position(identities_of(stack), entry.type_id)).push(entry)
}

/// Finds the slot of `identity` in `steps`.
fn find_identity(steps: &[InnerStep], identity: &TypeId) -> (k: usize)
    ensures
        k == position(identities_of(steps@), *identity),
        k <= steps@.len(),
{
    let mut k: usize = 0;
    while k < steps.len()
        invariant
            k <= steps@.len(),
            forall|j: int| 0 <= j < k ==> identities_of(steps@)[j] != *identity,
        decreases steps@.len() - k,
    {
        if same_identity(&steps[k].type_id, identity) {
            proof {
                assert(identities_of(steps@)[k as int] == *identity);
                lemma_position_unique(identities_of(steps@), *identity, k as int);
            }
            return k;
        }
        k = k + 1;
    }
    proof {
        lemma_position_unique(identities_of(steps@), *identity, k as int);
    }
    k
}

/// Asks every step once, root first, for its name and counters.
pub fn read_steps(steps: &[InnerStep]) -> (readings: Vec<StepReading>)
    ensures
        readings@.len() == steps@.len(),
{
    let mut readings: Vec<StepReading> = Vec::new();
    let mut i: usize = 0;
    while i < steps.len()
        invariant
            i <= steps@.len(),
            readings@.len() == i,
        decreases steps@.len() - i,
    {
        let name = steps[i].step.name();
        let total = steps[i].step.total();
        let current = steps[i].step.current();
        readings.push(StepReading { name, current, total });
        i = i + 1;
    }
    readings
}

impl InnerStep {
    /// The entry that a report of `step` at `now` puts on the stack: its
    /// identity is the one of the type `P`.
    pub fn new<P: Step>(step: P, now: Timestamp) -> (entry: InnerStep)
        ensures
            entry.started_at == now,
            entry.time_spent_in_children == 0,
    {
        InnerStep {
            type_id: identity_of::<P>(),
            step: Box::new(step),
            started_at: now,
            time_spent_in_children: 0,
        }
    }
}

impl DefaultProgress {
    /// The active steps, root first.
    pub closed spec fn stack(&self) -> Seq<InnerStep> {
        self.steps@
    }

    /// The ledger of retired steps, oldest first.
    pub closed spec fn ledger(&self) -> Seq<LedgerRecord> {
        ledger_view(self.durations@)
    }

    /// When the task was finished, if it was.
    pub closed spec fn finished_at(&self) -> Option<int> {
        match self.finished_at {
            Some(t) => Some(t@),
            None => None,
        }
    }

    /// When the tracker was created.
    pub closed spec fn start_time(&self) -> int {
        self.start_time@
    }

    /// At most one entry of the stack has any given identity, and a finished
    /// tracker has an empty stack.
    pub open spec fn wf(&self) -> bool {
        &&& identities_of(self.stack()).no_duplicates()
        &&& self.finished_at().is_some() ==> self.stack().len() == 0
    }

    /// What reporting `entry` turns `before` into.
    ///
    /// On a finished tracker nothing changes. Otherwise the stack is cut at
    /// the slot of the entry's identity and the entry is pushed; the entries
    /// cut off are written to the ledger as of the moment the new entry
    /// starts, innermost first, under path names built from one display name
    /// per old entry.
    pub open spec fn reported(before: &DefaultProgress, after: &DefaultProgress, entry: InnerStep)
        -> bool {
        &&& after.finished_at() == before.finished_at()
        &&& after.start_time() == before.start_time()
        &&& before.finished_at().is_some() ==> after.stack() == before.stack() && after.ledger()
            == before.ledger()
        &&& before.finished_at().is_none() ==> {
            &&& after.stack() == replaced(before.stack(), entry)
            &&& exists|names: Seq<Seq<char>>|
                names.len() == before.stack().len() && after.ledger() == before.ledger()
                    + #[trigger] flushed(
                    names,
                    started_view(before.stack()),
                    entry.started_at@,
                    position(identities_of(before.stack()), entry.type_id),
                )
        }
    }

    /// What finishing at `now` turns `before` into.
    ///
    /// A finished tracker stays as it is. Otherwise the whole stack is
    /// written to the ledger, innermost first, and emptied.
    pub open spec fn finished(before: &DefaultProgress, after: &DefaultProgress, now: Timestamp)
        -> bool {
        &&& after.start_time() == before.start_time()
        &&& after.stack().len() == 0
        &&& before.finished_at().is_some() ==> *after == *before
        &&& before.finished_at().is_none() ==> {
            &&& after.finished_at() == Some(now@)
            &&& exists|names: Seq<Seq<char>>|
                names.len() == before.stack().len() && after.ledger() == before.ledger()
                    + #[trigger] flushed(names, started_view(before.stack()), now@, 0)
        }
    }

    /// An empty tracker created at `start_time`.
    pub fn new_at(start_time: Timestamp) -> (progress: DefaultProgress)
        ensures
            progress.wf(),
            progress.stack().len() == 0,
            progress.ledger().len() == 0,
            progress.finished_at().is_none(),
            progress.start_time() == start_time@,
    {
        DefaultProgress {
            steps: Vec::new(),
            durations: Vec::new(),
            finished_at: None,
            start_time,
        }
    }

    /// Reports `entry`: it takes the slot of its identity, and every deeper
    /// step is retired with the one it replaces.
    pub fn report(&mut self, entry: InnerStep)
        requires
            old(self).wf(),
        ensures
            final(self).wf(),
            Self::reported(old(self), final(self), entry),
            old(self).finished_at().is_none() ==> final(self).stack().len() == position(
                identities_of(old(self).stack()),
                entry.type_id,
            ) + 1,
    {
        if self.finished_at.is_some() {
            return ;
        }
        let ghost before = self.steps@;
        let ghost ids = identities_of(before);
        let idx = find_identity(self.steps.as_slice(), &entry.type_id);
        proof {
            lemma_position(ids, entry.type_id);
        }
        if idx < self.steps.len() {
            push_steps_durations(self.steps.as_slice(), &mut self.durations, entry.started_at, idx);
            self.steps.truncate(idx);
        } else {
            proof {
                assert(before.take(idx as int) =~= before);
                assert(ledger_view(self.durations@) =~= ledger_view(self.durations@) + flushed(
                    Seq::new(before.len(), |i: int| Seq::<char>::empty()),
                    started_view(before),
                    entry.started_at@,
                    idx as int,
                ));
            }
        }
        self.steps.push(entry);
        proof {
            assert(self.steps@ =~= replaced(before, entry));
            lemma_report_keeps_distinct(before, entry);
        }
    }

    /// Reports `sub_progress` at `now`: the step takes the slot of its type.
    pub fn update_at<P: Step>(&mut self, sub_progress: P, now: Timestamp)
        requires
            old(self).wf(),
        ensures
            final(self).wf(),
            exists|entry: InnerStep|
                entry.started_at == now && entry.time_spent_in_children == 0 && #[trigger]
                Self::reported(old(self), final(self), entry),
            old(self).finished_at().is_none() ==> {
                &&& 1 <= final(self).stack().len() <= old(self).stack().len() + 1
                &&& final(self).stack().last().started_at == now
                &&& old(self).ledger().is_prefix_of(final(self).ledger())
            },
    {
        let entry = InnerStep::new(sub_progress, now);
        self.report(entry);
        proof {
            lemma_position(identities_of(old(self).stack()), entry.type_id);
            lemma_report_keeps_ledger(*old(self), *self, entry);
        }
    }

    /// Update the progress of the current step.
    ///
    /// If no active step has the type of `sub_progress`, it is added below
    /// the innermost one. Otherwise it replaces the step of its type, and
    /// every deeper step is retired with it.
    pub fn update<P: Step>(&mut self, sub_progress: P)
        requires
            old(self).wf(),
        ensures
            final(self).wf(),
            exists|entry: InnerStep|
                entry.time_spent_in_children == 0 && #[trigger] Self::reported(
                    old(self),
                    final(self),
                    entry,
                ),
            old(self).finished_at().is_none() ==> {
                &&& 1 <= final(self).stack().len() <= old(self).stack().len() + 1
                &&& old(self).ledger().is_prefix_of(final(self).ledger())
            },
    {
        let now = Timestamp::now();
        self.update_at(sub_progress, now);
    }

    /// Finishes the task at `now`.
    pub fn finish_at(&mut self, now: Timestamp)
        requires
            old(self).wf(),
        ensures
            final(self).wf(),
            final(self).finished_at().is_some(),
            Self::finished(old(self), final(self), now),
    {
        if self.finished_at.is_some() {
            return ;
        }
        self.finished_at = Some(now);
        push_steps_durations(self.steps.as_slice(), &mut self.durations, now, 0);
        self.steps.clear();
        proof {
            assert(identities_of(self.steps@) =~= Seq::<TypeId>::empty());
        }
    }

    /// Drop all the steps and update the durations.
    ///
    /// This is not mandatory, but a task that is never finished has its last
    /// steps measured up to whenever the durations are read. Finishing twice
    /// is the same as finishing once.
    pub fn finish(&mut self)
        requires
            old(self).wf(),
        ensures
            final(self).wf(),
            final(self).finished_at().is_some(),
            exists|now: Timestamp| #[trigger] Self::finished(old(self), final(self), now),
    {
        let now = Timestamp::now();
        self.finish_at(now);
    }

    /// The view of the progress as of `now`.
    ///
    /// Each active step is asked once for its name and counters; the view is
    /// the one that these answers show.
    pub fn as_progress_view_at(&self, now: Timestamp) -> (view: ProgressView)
        ensures
            view.steps@.len() == self.stack().len(),
            exists|readings: Seq<StepReading>| #[trigger]
                shows(view, readings, started_view(self.stack()), self.start_time(), now@),
    {
        let readings = read_steps(self.steps.as_slice());
        let view = project(&readings, self.steps.as_slice(), self.start_time, now);
        proof {
            assert(shows(view, readings@, started_view(self.stack()), self.start_time(), now@));
        }
        view
    }

    /// Get the current progress view: the list of active steps with their
    /// state, and the percentage of completion of the whole task.
    ///
    /// This reads the tracker and does not change it.
    pub fn as_progress_view(&self) -> (view: ProgressView)
        ensures
            view.steps@.len() == self.stack().len(),
            exists|readings: Seq<StepReading>, now: Timestamp| #[trigger]
                shows(view, readings, started_view(self.stack()), self.start_time(), now@),
    {
        let now = Timestamp::now();
        self.as_progress_view_at(now)
    }

    /// The accumulated durations of each step as of `now`, keyed by path
    /// name.
    ///
    /// The export holds the ledger, followed by what the steps still active
    /// would add to it if the task were finished at `now`. The tracker itself
    /// is left as it is.
    pub fn accumulated_durations_at(&self, now: Timestamp) -> (map: IndexMap<String, StepDuration>)
        ensures
            exists|names: Seq<Seq<char>>|
                names.len() == self.stack().len() && export_entries(map) == collected(
                    self.ledger() + #[trigger] flushed(
                        names,
                        started_view(self.stack()),
                        now@,
                        0,
                    ),
                ),
    {
        let mut pending: Vec<(String, StepDuration)> = Vec::new();
        push_steps_durations(self.steps.as_slice(), &mut pending, now, 0);
        let map = export_durations(&self.durations, &pending);
        proof {
            let nothing = ledger_view(Seq::<(String, StepDuration)>::empty());
            assert(nothing =~= Seq::<LedgerRecord>::empty());
            let names = choose|names: Seq<Seq<char>>|
                names.len() == self.steps@.len() && ledger_view(pending@) == nothing
                    + #[trigger] flushed(names, started_view(self.steps@), now@, 0);
            assert(ledger_view(pending@) =~= flushed(names, started_view(self.steps@), now@, 0));
            assert(export_entries(map) == collected(
                self.ledger() + flushed(names, started_view(self.stack()), now@, 0),
            ));
        }
        map
    }

    /// Get the accumulated durations of each step, to see where the time of
    /// the task went.
    ///
    /// Returns an ordered map from the path name of a step to its durations.
    /// Steps that are still active are measured up to now; reading does not
    /// retire them.
    pub fn accumulated_durations(&self) -> (map: IndexMap<String, StepDuration>)
        ensures
            exists|names: Seq<Seq<char>>, now: Timestamp|
                names.len() == self.stack().len() && export_entries(map) == collected(
                    self.ledger() + #[trigger] flushed(
                        names,
                        started_view(self.stack()),
                        now@,
                        0,
                    ),
                ),
    {
        let now = Timestamp::now();
        self.accumulated_durations_at(now)
    }

    /// When the tracker was created.
    pub fn created_at(&self) -> (t: Timestamp)
        ensures
            t@ == self.start_time(),
    {
        self.start_time
    }

    /// When the task was finished, if it was.
    pub fn finish_time(&self) -> (t: Option<Timestamp>)
        ensures
            match t {
                Some(t) => self.finished_at() == Some(t@),
                None => self.finished_at().is_none(),
            },
    {
        self.finished_at
    }

    /// Whether the task was finished.
    pub fn is_finished(&self) -> (done: bool)
        ensures
            done == self.finished_at().is_some(),
    {
        self.finished_at.is_some()
    }
}

impl Default for DefaultProgress {
    /// An empty tracker created now.
    fn default() -> (progress: DefaultProgress)
        ensures
            progress.wf(),
            progress.stack().len() == 0,
            progress.ledger().len() == 0,
            progress.finished_at().is_none(),
    {
        DefaultProgress::new_at(Timestamp::now())
    }
}

} // verus!
