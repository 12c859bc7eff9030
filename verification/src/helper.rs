//! Ready-made steps: a lock-free counter, a step with a runtime name, and a
//! phase out of an ordered list of phases.

use crate::Step;
use convert_case::{Case, Casing};
use std::borrow::Cow;
use std::marker::PhantomData;
use std::sync::atomic::{AtomicU64, Ordering};
use std::sync::Arc;
use vstd::prelude::*;
use vstd::std_specs::convert::IntoSpec;

verus! {

/// The fixed display name of an [`AtomicSubStep`]. The name must never
/// change; requiring `Default` and a `&'static str` makes that hard to miss.
pub trait NamedStep: 'static + Send + Sync + Default {
    fn name(&self) -> &'static str;
}

/// A second handle on a shared counter.
///
/// Trusted: this is `Arc::clone`, which returns a pointer to the same value.
#[verifier::external_body]
fn share(counter: &Arc<AtomicU64>) -> (shared: Arc<AtomicU64>)
    ensures
        shared == *counter,
{
    Arc::clone(counter)
}

/// A step whose position is a shared atomic counter, for work that advances
/// too often to report each time. The producer keeps a handle on the counter
/// and increments it without going through the tracker.
#[derive(Debug, Clone)]
pub struct AtomicSubStep<Name: NamedStep> {
    unit_name: Name,
    current: Arc<AtomicU64>,
    total: u64,
}

impl<Name: NamedStep> AtomicSubStep<Name> {
    /// The total that the step was made with.
    pub closed spec fn spec_total(&self) -> u64 {
        self.total
    }

    /// The counter that the step reads its position from.
    pub closed spec fn counter(&self) -> Arc<AtomicU64> {
        self.current
    }

    /// A step of `total` states at position zero, with the handle through
    /// which its position is advanced.
    pub fn new(total: u64) -> (made: (Arc<AtomicU64>, Self))
        ensures
            made.1.spec_total() == total,
            made.0 == made.1.counter(),
    {
        let current = Arc::new(AtomicU64::new(0));
        (share(&current), Self { current, total, unit_name: Name::default() })
    }
}

impl<Name: NamedStep> Step for AtomicSubStep<Name> {
    /// The name that the step's unit answers, borrowed as it is.
    fn name(&self) -> (name: Cow<'static, str>)
        ensures
            name matches Cow::Borrowed(shown) && call_ensures(Name::name, (&self.unit(),), shown),
    {
        Cow::Borrowed(self.unit_name.name())
    }

    /// The value of the shared counter at the moment of the call, read with
    /// relaxed ordering. Whoever holds the other handle decides what it is.
    fn current(&self) -> u64 {
        self.current.load(Ordering::Relaxed)
    }

    fn total(&self) -> (total: u64)
        ensures
            total == self.spec_total(),
    {
        self.total
    }
}

impl<Name: NamedStep> AtomicSubStep<Name> {
    /// The unit that the step takes its display name from.
    pub closed spec fn unit(&self) -> Name {
        self.unit_name
    }
}

/// A step whose display name is chosen at run time while it stays the same
/// logical step. `U` tells apart the uses of this type: each use that should
/// have a slot of its own in the stack names a type of its own.
#[derive(Debug)]
pub struct VariableNameStep<U: Send + Sync + 'static> {
    name: String,
    current: u64,
    total: u64,
    phantom: PhantomData<U>,
}

impl<U: Send + Sync + 'static> VariableNameStep<U> {
    /// The name that the step was made with.
    pub closed spec fn spec_name(&self) -> Seq<char> {
        self.name@
    }

    /// The position that the step was made with.
    pub closed spec fn spec_current(&self) -> u64 {
        self.current
    }

    /// The total that the step was made with.
    pub closed spec fn spec_total(&self) -> u64 {
        self.total
    }

    /// A step called `name`, at `current` out of `total`.
    pub fn new<N: Into<String>>(name: N, current: u64, total: u64) -> (step: Self)
        ensures
            N::obeys_into_spec() ==> step.spec_name() == name.into_spec()@,
            step.spec_current() == current,
            step.spec_total() == total,
    {
        Self { name: name.into(), current, total, phantom: PhantomData }
    }
}

impl<U: Send + Sync + 'static> Clone for VariableNameStep<U> {
    fn clone(&self) -> (copy: Self)
        ensures
            copy.spec_name() == self.spec_name(),
            copy.spec_current() == self.spec_current(),
            copy.spec_total() == self.spec_total(),
    {
        Self {
            name: self.name.clone(),
            current: self.current,
            total: self.total,
            phantom: PhantomData,
        }
    }
}

impl<U: Send + Sync + 'static> Step for VariableNameStep<U> {
    fn name(&self) -> (name: Cow<'static, str>)
        ensures
            name@ == self.spec_name(),
    {
        Cow::Owned(self.name.clone())
    }

    fn current(&self) -> (current: u64)
        ensures
            current == self.spec_current(),
    {
        self.current
    }

    fn total(&self) -> (total: u64)
        ensures
            total == self.spec_total(),
    {
        self.total
    }
}

/// The display name that a phase identifier written in camel case stands
/// for: its words in lower case, separated by spaces.
pub uninterp spec fn lower_case_words(identifier: Seq<char>) -> Seq<char>;

/// Derives the display name of a phase from its identifier.
///
/// Trusted: this is `convert_case`'s conversion of a string from
/// `Case::Camel` to `Case::Lower`, set up with `Casing::from_case` and run by
/// `StateConverter::to_case`. Its result depends on the identifier alone and
/// is given the name [`lower_case_words`]; nothing else is claimed of it.
#[verifier::external_body]
fn words_of(identifier: &str) -> (name: String)
    ensures
        name@ == lower_case_words(identifier@),
{
    identifier.from_case(Case::Camel).to_case(Case::Lower)
}

/// One phase out of a closed, ordered list of phases: its position is its
/// ordinal in the list and its total the length of the list. `Phases` stands for
/// the list: all phases of one list share one slot in the stack.
#[derive(Debug)]
pub struct EnumStep<Phases: Send + Sync + 'static> {
    name: String,
    ordinal: u64,
    count: u64,
    phantom: PhantomData<Phases>,
}

impl<Phases: Send + Sync + 'static> EnumStep<Phases> {
    /// The display name of the phase.
    pub closed spec fn spec_name(&self) -> Seq<char> {
        self.name@
    }

    /// The zero-based ordinal of the phase.
    pub closed spec fn spec_current(&self) -> u64 {
        self.ordinal
    }

    /// The number of phases in the list.
    pub closed spec fn spec_total(&self) -> u64 {
        self.count
    }

    /// The phase at `ordinal` in the list of phases named by `identifiers`,
    /// or nothing when the list has no such phase.
    pub fn new(identifiers: &[&str], ordinal: usize) -> (step: Option<Self>)
        ensures
            step.is_some() <==> ordinal < identifiers@.len(),
            step matches Some(s) ==> {
                &&& s.spec_name() == lower_case_words(identifiers@[ordinal as int]@)
                &&& s.spec_current() == ordinal
                &&& s.spec_total() == identifiers@.len()
            },
    {
        if ordinal < identifiers.len() {
            Some(
                Self {
                    name: words_of(identifiers[ordinal]),
                    ordinal: ordinal as u64,
                    count: identifiers.len() as u64,
                    phantom: PhantomData,
                },
            )
        } else {
            None
        }
    }
}

impl<Phases: Send + Sync + 'static> Clone for EnumStep<Phases> {
    fn clone(&self) -> (copy: Self)
        ensures
            copy.spec_name() == self.spec_name(),
            copy.spec_current() == self.spec_current(),
            copy.spec_total() == self.spec_total(),
    {
        Self {
            name: self.name.clone(),
            ordinal: self.ordinal,
            count: self.count,
            phantom: PhantomData,
        }
    }
}

impl<Phases: Send + Sync + 'static> Step for EnumStep<Phases> {
    fn name(&self) -> (name: Cow<'static, str>)
        ensures
            name@ == self.spec_name(),
    {
        Cow::Owned(self.name.clone())
    }

    fn current(&self) -> (current: u64)
        ensures
            current == self.spec_current(),
    {
        self.ordinal
    }

    fn total(&self) -> (total: u64)
        ensures
            total == self.spec_total(),
    {
        self.count
    }
}

} // verus!
