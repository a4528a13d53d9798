//! Arithmetic on `Duration` values and the signed difference between two of
//! them.

use std::time::Duration;
use vstd::prelude::*;

verus! {

/// The length of a duration in whole nanoseconds.
pub uninterp spec fn duration_nanos(d: Duration) -> nat;

/// The longest duration that a `Duration` can hold, in nanoseconds: all of
/// `u64` in seconds and one nanosecond short of another second.
pub open spec fn max_duration_nanos() -> nat {
    (u64::MAX as nat) * 1_000_000_000 + 999_999_999
}

/// `Duration` is `Copy`: its `clone` returns the same value.
pub assume_specification[ <Duration as Clone>::clone ](d: &Duration) -> (copy: Duration)
    ensures
        copy == *d,
;

/// `Duration::checked_add` returns the sum of the two durations, or `None`
/// if the sum is longer than a `Duration` can hold; it returns `None` in no
/// other case.
pub assume_specification[ Duration::checked_add ](d: Duration, rhs: Duration) -> (sum: Option<
    Duration,
>)
    ensures
        match sum {
            Some(s) => duration_nanos(s) == duration_nanos(d) + duration_nanos(rhs)
                && duration_nanos(s) <= max_duration_nanos(),
            None => duration_nanos(d) + duration_nanos(rhs) > max_duration_nanos(),
        },
;

/// `Duration::checked_sub` returns the first duration less the second, or
/// `None` if the second is the longer one; it returns `None` in no other
/// case.
pub assume_specification[ Duration::checked_sub ](d: Duration, rhs: Duration) -> (rest: Option<
    Duration,
>)
    ensures
        match rest {
            Some(s) => duration_nanos(s) == duration_nanos(d) - duration_nanos(rhs),
            None => duration_nanos(d) < duration_nanos(rhs),
        },
;

/// The difference between two durations, which may be negative.
#[derive(Debug, Clone, Copy)]
pub enum DeltaDuration {
    Positive(Duration),
    Negative(Duration),
}

impl DeltaDuration {
    /// The difference in nanoseconds, with its sign.
    pub open spec fn nanos(self) -> int {
        match self {
            DeltaDuration::Positive(d) => duration_nanos(d) as int,
            DeltaDuration::Negative(d) => -(duration_nanos(d) as int),
        }
    }

    /// Whether the difference can be added to `other`: the result is
    /// neither negative nor longer than a `Duration` can hold.
    pub open spec fn fits(self, other: Duration) -> bool {
        match self {
            DeltaDuration::Positive(d) => duration_nanos(other) + duration_nanos(d)
                <= max_duration_nanos(),
            DeltaDuration::Negative(d) => duration_nanos(other) >= duration_nanos(d),
        }
    }

    /// `first` less `second`.
    pub fn sub(first: Duration, second: Duration) -> (delta: DeltaDuration)
        ensures
            delta.nanos() == duration_nanos(first) - duration_nanos(second),
            delta is Negative <==> duration_nanos(second) > duration_nanos(first),
    {
        match first.checked_sub(second) {
            Some(difference) => DeltaDuration::Positive(difference),
            None => DeltaDuration::Negative(second.checked_sub(first).unwrap()),
        }
    }

    /// `other` moved by this difference, where the result is a duration.
    pub fn add_to(&self, other: Duration) -> (sum: Duration)
        requires
            self.fits(other),
        ensures
            duration_nanos(sum) == duration_nanos(other) + self.nanos(),
    {
        self.checked_add_to(other).unwrap()
    }

    /// `other` moved by this difference, or `None` where the result is no
    /// duration: it would be negative, or longer than a `Duration` can hold.
    pub fn checked_add_to(&self, other: Duration) -> (sum: Option<Duration>)
        ensures
            match sum {
                Some(s) => self.fits(other) && duration_nanos(s) == duration_nanos(other)
                    + self.nanos(),
                None => !self.fits(other),
            },
    {
        match self {
            DeltaDuration::Positive(duration) => other.checked_add(*duration),
            DeltaDuration::Negative(duration) => other.checked_sub(*duration),
        }
    }
}

} // verus!
