//! Commit times and their order.

use vstd::prelude::*;

verus! {

/// A time as a commit signature records it: seconds since the epoch and the
/// offset from UTC, in minutes, of the zone it was recorded in.
#[derive(Clone, Copy, Debug, PartialEq, Eq, Structural)]
pub struct Timestamp {
    pub seconds: i64,
    pub offset_minutes: i32,
}

impl Timestamp {
    /// `self` comes strictly before `other`: by seconds first, by offset
    /// where the seconds agree.
    pub open spec fn precedes(self, other: Timestamp) -> bool {
        self.seconds < other.seconds || (self.seconds == other.seconds && self.offset_minutes
            < other.offset_minutes)
    }

    /// `self` comes before `other` or equals it.
    pub open spec fn at_most(self, other: Timestamp) -> bool {
        self == other || self.precedes(other)
    }

    /// The later of two times.
    pub open spec fn later(self, other: Timestamp) -> Timestamp {
        if self.precedes(other) {
            other
        } else {
            self
        }
    }

    /// The time that no other time precedes.
    pub open spec fn lowest() -> Timestamp {
        Timestamp { seconds: i64::MIN, offset_minutes: i32::MIN }
    }

    pub fn new(seconds: i64, offset_minutes: i32) -> (t: Timestamp)
        ensures
            t.seconds == seconds,
            t.offset_minutes == offset_minutes,
    {
        Timestamp { seconds, offset_minutes }
    }

    /// The earliest time there is: every time is at or after it.
    pub fn minimum() -> (t: Timestamp)
        ensures
            t == Timestamp::lowest(),
            forall|other: Timestamp| t.at_most(other),
    {
        Timestamp { seconds: i64::MIN, offset_minutes: i32::MIN }
    }

    pub fn is_before(&self, other: &Timestamp) -> (r: bool)
        ensures
            r == self.precedes(*other),
    {
        self.seconds < other.seconds || (self.seconds == other.seconds && self.offset_minutes
            < other.offset_minutes)
    }

    pub fn is_after(&self, other: &Timestamp) -> (r: bool)
        ensures
            r == other.precedes(*self),
    {
        other.is_before(self)
    }

    pub fn is_at_least(&self, other: &Timestamp) -> (r: bool)
        ensures
            r == other.at_most(*self),
    {
        !self.is_before(other)
    }
}

/// Times are totally ordered: `at_most` is reflexive, antisymmetric and
/// transitive, any two times compare, and `precedes` is its strict part.
pub proof fn law_times_are_totally_ordered(a: Timestamp, b: Timestamp, c: Timestamp)
    ensures
        a.at_most(a),
        a.at_most(b) && b.at_most(a) ==> a == b,
        a.at_most(b) && b.at_most(c) ==> a.at_most(c),
        a.at_most(b) || b.at_most(a),
        a.precedes(b) <==> a.at_most(b) && a != b,
        Timestamp::lowest().at_most(a),
{
}

} // verus!
