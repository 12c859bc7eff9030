//! Instants and signed durations, both counted in nanoseconds.

use vstd::prelude::*;

verus! {

/// Nanoseconds from the Unix epoch to the earliest representable instant.
pub const MIN_NANOSECOND: i128 = -377_705_023_201_000_000_000i128;

/// Nanoseconds from the Unix epoch to the latest representable instant.
pub const MAX_NANOSECOND: i128 = 253_402_207_200_999_999_999i128;

/// Largest magnitude, in nanoseconds, of the distance between two instants.
pub const MAX_SPAN: i128 = 631_107_230_401_999_999_999i128;

/// An instant in time: a count of nanoseconds since the Unix epoch, kept
/// between [`MIN_NANOSECOND`] and [`MAX_NANOSECOND`].
#[derive(Clone, Copy, Debug)]
pub struct Timestamp {
    nanos: i128,
}

impl View for Timestamp {
    type V = int;

    closed spec fn view(&self) -> int {
        self.nanos as int
    }
}

impl Timestamp {
    #[verifier::type_invariant]
    spec fn in_range(self) -> bool {
        MIN_NANOSECOND <= self.nanos <= MAX_NANOSECOND
    }

    /// The instant `nanosecond` nanoseconds after the Unix epoch, if it is
    /// representable.
    pub fn from_nanosecond(nanosecond: i128) -> (r: Option<Timestamp>)
        ensures
            r.is_some() <==> MIN_NANOSECOND <= nanosecond <= MAX_NANOSECOND,
            r matches Some(t) ==> t@ == nanosecond,
    {
        if MIN_NANOSECOND <= nanosecond && nanosecond <= MAX_NANOSECOND {
            Some(Timestamp { nanos: nanosecond })
        } else {
            None
        }
    }

    /// Nanoseconds since the Unix epoch.
    pub fn as_nanosecond(&self) -> (n: i128)
        ensures
            n == self@,
            MIN_NANOSECOND <= n <= MAX_NANOSECOND,
    {
        proof {
            use_type_invariant(self);
        }
        self.nanos
    }

    /// Signed nanoseconds elapsed from `earlier` to `self`; negative when
    /// `earlier` is in fact the later of the two.
    pub fn duration_since(&self, earlier: &Timestamp) -> (d: i128)
        ensures
            d == self@ - earlier@,
            -MAX_SPAN <= d <= MAX_SPAN,
    {
        proof {
            use_type_invariant(self);
            use_type_invariant(earlier);
        }
        self.nanos - earlier.nanos
    }

    /// The current system time.
    ///
    /// Trusted: reads the clock through `jiff::Timestamp::now` and converts
    /// with `jiff::Timestamp::as_nanosecond`. Nothing is claimed about the
    /// value beyond the range that the type keeps, which is the range of
    /// `jiff::Timestamp` itself. Like the call it makes, this aborts when the
    /// system clock is set outside that range.
    #[verifier::external_body]
    pub(crate) fn now() -> (t: Timestamp)
        ensures
            MIN_NANOSECOND <= t@ <= MAX_NANOSECOND,
    {
        Timestamp { nanos: jiff::Timestamp::now().as_nanosecond() }
    }
}

} // verus!
