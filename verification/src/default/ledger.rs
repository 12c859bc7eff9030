//! The duration ledger: hierarchical path names and the time charged to each
//! retired step.

use crate::time::Timestamp;
use crate::Step;
use std::any::TypeId;
use std::borrow::Cow;
use vstd::prelude::*;
use vstd::string::StringExecFns;

verus! {

/// One active step of the stack.
pub struct InnerStep {
    /// The logical identity of the slot this step occupies.
    pub type_id: TypeId,
    /// The reported step itself.
    pub step: Box<dyn Step>,
    /// When the step became active.
    pub started_at: Timestamp,
    /// Nanoseconds already attributed to children of this step.
    pub time_spent_in_children: i128,
}

/// How long a retired step lasted, in nanoseconds.
#[derive(Clone, Copy, Debug, PartialEq, Eq, Structural)]
pub struct StepDuration {
    /// Wall-clock time from the moment the step started to its retirement.
    pub total_duration: i128,
    /// The part of `total_duration` not charged to the step's child.
    pub self_duration: i128,
}

/// The mathematical content of one ledger line.
pub ghost struct LedgerRecord {
    pub name: Seq<char>,
    pub total: int,
    pub own: int,
}

/// The ledger lines that a vector of named durations stands for.
pub open spec fn ledger_view(durations: Seq<(String, StepDuration)>) -> Seq<LedgerRecord> {
    Seq::new(
        durations.len(),
        |i: int|
            LedgerRecord {
                name: durations[i].0@,
                total: durations[i].1.total_duration as int,
                own: durations[i].1.self_duration as int,
            },
    )
}

/// The characters of each name.
pub open spec fn names_view(names: Seq<String>) -> Seq<Seq<char>> {
    Seq::new(names.len(), |i: int| names[i]@)
}

/// The start instants of a stack, root first.
pub open spec fn started_view(steps: Seq<InnerStep>) -> Seq<int> {
    Seq::new(steps.len(), |i: int| steps[i].started_at@)
}

/// The text put between two segments of a path name.
pub open spec fn separator() -> Seq<char> {
    seq![' ', '>', ' ']
}

/// The names of entries `0..=i`, root first, joined by the separator.
pub open spec fn path_name(names: Seq<Seq<char>>, i: int) -> Seq<char>
    decreases i,
{
    if i <= 0 {
        names[0]
    } else {
        path_name(names, i - 1) + separator() + names[i]
    }
}

/// Wall-clock nanoseconds from the start of entry `i` until `now`.
pub open spec fn total_duration(started: Seq<int>, now: int, i: int) -> int {
    now - started[i]
}

/// The ledger line written when entry `i` of a stack is retired at `now`
/// together with everything deeper: its total duration, and as its own
/// duration what is left once the total of its child is taken away.
pub open spec fn retired(names: Seq<Seq<char>>, started: Seq<int>, now: int, i: int)
    -> LedgerRecord {
    LedgerRecord {
        name: path_name(names, i),
        total: total_duration(started, now, i),
        own: if i + 1 < started.len() {
            total_duration(started, now, i) - total_duration(started, now, i + 1)
        } else {
            total_duration(started, now, i)
        },
    }
}

/// The ledger lines written when entries `idx..` are retired at `now`,
/// innermost first.
pub open spec fn flushed(names: Seq<Seq<char>>, started: Seq<int>, now: int, idx: int) -> Seq<
    LedgerRecord,
> {
    Seq::new(
        if idx <= started.len() {
            (started.len() - idx) as nat
        } else {
            0
        },
        |j: int| retired(names, started, now, started.len() - 1 - j),
    )
}

/// An owned copy of a display name.
pub fn owned_name(name: Cow<'static, str>) -> (s: String)
    ensures
        s@ == name@,
{
    match name {
        Cow::Borrowed(borrowed) => String::from_str(borrowed),
        Cow::Owned(owned) => owned,
    }
}

/// Reads the display name of every step once, root first.
pub fn step_names(steps: &[InnerStep]) -> (names: Vec<String>)
    ensures
        names@.len() == steps@.len(),
{
    let mut names: Vec<String> = Vec::new();
    let mut i: usize = 0;
    while i < steps.len()
        invariant
            i <= steps@.len(),
            names@.len() == i,
        decreases steps@.len() - i,
    {
        names.push(owned_name(steps[i].step.name()));
        i = i + 1;
    }
    names
}

/// The full path name of every entry: `paths[i]` joins `names[0..=i]`.
pub fn path_names(names: &Vec<String>) -> (paths: Vec<String>)
    ensures
        paths@.len() == names@.len(),
        forall|i: int|
            0 <= i < paths@.len() ==> (#[trigger] paths@[i])@ == path_name(names_view(names@), i),
{
    let mut paths: Vec<String> = Vec::new();
    let mut i: usize = 0;
    while i < names.len()
        invariant
            i <= names@.len(),
            paths@.len() == i,
            forall|j: int|
                0 <= j < i ==> (#[trigger] paths@[j])@ == path_name(names_view(names@), j),
        decreases names@.len() - i,
    {
        let mut path = String::new();
        if i > 0 {
            path.append(paths[i - 1].as_str());
            path.append(" > ");
            proof {
                reveal_strlit(" > ");
                assert(" > "@ =~= separator());
            }
        }
        path.append(names[i].as_str());
        proof {
            assert(names_view(names@)[i as int] == names@[i as int]@);
            if i > 0 {
                assert(path@ =~= path_name(names_view(names@), i - 1) + separator()
                    + names_view(names@)[i as int]);
            } else {
                assert(path@ =~= names@[0]@);
            }
        }
        paths.push(path);
        i = i + 1;
    }
    paths
}

/// Appends to `durations` the ledger lines for entries `idx..` of `steps`,
/// retired at `now` under the display names `names`, innermost first.
pub fn push_named_durations(
    steps: &[InnerStep],
    names: &Vec<String>,
    durations: &mut Vec<(String, StepDuration)>,
    now: Timestamp,
    idx: usize,
)
    requires
        names@.len() == steps@.len(),
    ensures
        ledger_view(final(durations)@) == ledger_view(old(durations)@) + flushed(
            names_view(names@),
            started_view(steps@),
            now@,
            idx as int,
        ),
{
    let ghost before = ledger_view(durations@);
    let ghost shown = names_view(names@);
    let ghost started = started_view(steps@);
    let paths = path_names(names);
    let len = steps.len();
    let mut father_duration: Option<i128> = None;
    let mut i: usize = len;
    while i > idx
        invariant
            len == steps@.len(),
            paths@.len() == len,
            i <= len,
            shown == names_view(names@),
            started == started_view(steps@),
            started.len() == len,
            forall|j: int| 0 <= j < len ==> (#[trigger] paths@[j])@ == path_name(shown, j),
            i == len ==> father_duration.is_none(),
            i < len ==> father_duration == Some(total_duration(started, now@, i as int) as i128),
            i < len ==> -crate::time::MAX_SPAN <= total_duration(started, now@, i as int)
                <= crate::time::MAX_SPAN,
            idx <= len ==> idx <= i,
            idx > len ==> i == len,
            ledger_view(durations@) == before + flushed(shown, started, now@, i as int),
        decreases i,
    {
        i = i - 1;
        let total: i128 = now.duration_since(&steps[i].started_at);
        let own: i128 = match father_duration {
            Some(father) => total - father,
            None => total,
        };
        let ghost prior = ledger_view(durations@);
        let path = paths[i].clone();
        durations.push((path, StepDuration { total_duration: total, self_duration: own }));
        father_duration = Some(total);
        proof {
            assert(started[i as int] == steps@[i as int].started_at@);
            let record = retired(shown, started, now@, i as int);
            assert(ledger_view(durations@) =~= prior.push(record));
            assert(flushed(shown, started, now@, i as int) =~= flushed(
                shown,
                started,
                now@,
                i + 1,
            ).push(record));
        }
    }
    proof {
        assert(flushed(shown, started, now@, i as int) =~= flushed(
            shown,
            started,
            now@,
            idx as int,
        ));
    }
}

/// Generates the path names of entries `idx..` of `steps` and appends their
/// durations, as of `now`, to `durations`, innermost first.
///
/// Each step is asked for its display name once. Nothing is known of what a
/// step answers, so the lines appended are those of [`flushed`] for some
/// choice of one name per step.
pub fn push_steps_durations(
    steps: &[InnerStep],
    durations: &mut Vec<(String, StepDuration)>,
    now: Timestamp,
    idx: usize,
)
    ensures
        exists|names: Seq<Seq<char>>|
            names.len() == steps@.len() && ledger_view(final(durations)@) == ledger_view(
                old(durations)@,
            ) + #[trigger] flushed(names, started_view(steps@), now@, idx as int),
{
    let names = step_names(steps);
    push_named_durations(steps, &names, durations, now, idx);
    proof {
        assert(names_view(names@).len() == steps@.len());
    }
}

} // verus!
