//! Points in time, to the nanosecond, in UTC.

use crate::outside::{
    utc_format, utc_now, utc_rfc3339, utc_seconds_between, FIRST_SECOND, LAST_SECOND,
    TO_THE_MINUTE, TO_THE_SECOND,
};
use vstd::prelude::*;

verus! {

/// A point in time: whole seconds since the Unix epoch, and the nanoseconds behind them.
#[derive(Clone, Copy, Debug)]
pub struct Timestamp {
    secs: i64,
    nanos: u32,
}

impl Timestamp {
    /// The whole seconds since the Unix epoch.
    pub closed spec fn secs(self) -> i64 {
        self.secs
    }

    /// The nanoseconds behind the whole seconds.
    pub closed spec fn nanos(self) -> u32 {
        self.nanos
    }

    #[verifier::type_invariant]
    spec fn valid(self) -> bool {
        crate::outside::valid_instant(self.secs, self.nanos)
    }

    /// The timestamp of an instant that the calendar covers.
    pub fn new(secs: i64, nanos: u32) -> (res: Option<Timestamp>)
        ensures
            res is Some <==> crate::outside::valid_instant(secs, nanos),
            res matches Some(t) ==> t.secs() == secs && t.nanos() == nanos,
    {
        if secs < FIRST_SECOND || secs > LAST_SECOND {
            return None;
        }
        let since: u64 = (secs - FIRST_SECOND) as u64;
        if nanos < 1_000_000_000 || (nanos < 2_000_000_000 && since % 60 == 59) {
            Some(Timestamp { secs, nanos })
        } else {
            None
        }
    }

    /// The present, by the clock of the machine; which instant that is, the contract leaves open.
    pub fn now() -> (res: Timestamp)
        ensures
            res.secs() >= 0,
            res.nanos() < 1_000_000_000,
    {
        let (secs, nanos) = utc_now();
        Timestamp { secs, nanos }
    }

    /// The whole seconds since the Unix epoch, and the nanoseconds behind them.
    pub fn parts(&self) -> (res: (i64, u32))
        ensures
            res.0 == self.secs(),
            res.1 == self.nanos(),
    {
        (self.secs, self.nanos)
    }

    /// Whether this point is later than `other`.
    pub open spec fn later(self, other: Timestamp) -> bool {
        self.secs() > other.secs() || (self.secs() == other.secs() && self.nanos()
            > other.nanos())
    }

    /// Whether this point is later than `other`.
    pub fn is_later(&self, other: &Timestamp) -> (res: bool)
        ensures
            res == self.later(*other),
    {
        self.secs > other.secs || (self.secs == other.secs && self.nanos > other.nanos)
    }

    /// The whole seconds from this point to `end`, rounded toward zero.
    pub open spec fn seconds_to(self, end: Timestamp) -> int {
        crate::outside::toward_zero(
            crate::outside::nanos_between(
                self.secs() as int,
                self.nanos() as int,
                end.secs() as int,
                end.nanos() as int,
            ),
            1_000_000_000,
        )
    }

    /// The whole seconds from this point to `end`, rounded toward zero.
    pub fn seconds_until(&self, end: &Timestamp) -> (res: i64)
        ensures
            res == self.seconds_to(*end),
    {
        proof {
            use_type_invariant(self);
            use_type_invariant(end);
        }
        utc_seconds_between(self.secs, self.nanos, end.secs, end.nanos)
    }

    /// Date, time of day and zone.
    pub open spec fn clock_text(self) -> Seq<char> {
        crate::outside::utc_text(self.secs(), self.nanos(), TO_THE_SECOND@)
    }

    /// Date, hour, minute and zone.
    pub open spec fn minute_text(self) -> Seq<char> {
        crate::outside::utc_text(self.secs(), self.nanos(), TO_THE_MINUTE@)
    }

    /// The text of RFC 3339.
    pub open spec fn rfc_text(self) -> Seq<char> {
        crate::outside::rfc3339_text(self.secs(), self.nanos())
    }

    /// Date, time of day and zone.
    pub fn to_clock_text(&self) -> (res: String)
        ensures
            res@ == self.clock_text(),
    {
        proof {
            use_type_invariant(self);
        }
        utc_format(self.secs, self.nanos, TO_THE_SECOND)
    }

    /// Date, hour, minute and zone.
    pub fn to_minute_text(&self) -> (res: String)
        ensures
            res@ == self.minute_text(),
    {
        proof {
            use_type_invariant(self);
        }
        utc_format(self.secs, self.nanos, TO_THE_MINUTE)
    }

    /// The text of RFC 3339.
    pub fn to_rfc_text(&self) -> (res: String)
        ensures
            res@ == self.rfc_text(),
    {
        proof {
            use_type_invariant(self);
        }
        utc_rfc3339(self.secs, self.nanos)
    }
}

/// One point is later than another where more seconds have passed since the epoch, or as many
/// seconds and more nanoseconds; of two points that differ, exactly one is later.
pub proof fn law_later(a: Timestamp, b: Timestamp)
    ensures
        a.secs() > b.secs() ==> a.later(b),
        a.secs() == b.secs() ==> (a.later(b) <==> a.nanos() > b.nanos()),
        !(a.later(b) && b.later(a)),
        a.secs() != b.secs() || a.nanos() != b.nanos() ==> a.later(b) || b.later(a),
{
}

/// The seconds between two points outside of leap seconds are the difference of their seconds, less
/// one where the nanoseconds do not suffice; and the other way around they are the same with a minus
/// sign.
pub proof fn law_seconds_between(a: Timestamp, b: Timestamp)
    requires
        a.nanos() < 1_000_000_000,
        b.nanos() < 1_000_000_000,
    ensures
        !a.later(b) && b.nanos() >= a.nanos() ==> a.seconds_to(b) == b.secs() - a.secs(),
        b.later(a) && b.nanos() < a.nanos() ==> a.seconds_to(b) == b.secs() - a.secs() - 1,
        a.seconds_to(b) == -b.seconds_to(a),
{
    let d = b.secs() - a.secs();
    let n = b.nanos() - a.nanos();
    let t = d * 1_000_000_000 + n;
    assert(crate::outside::nanos_between(
        a.secs() as int,
        a.nanos() as int,
        b.secs() as int,
        b.nanos() as int,
    ) == t);
    assert(crate::outside::nanos_between(
        b.secs() as int,
        b.nanos() as int,
        a.secs() as int,
        a.nanos() as int,
    ) == -t);
}

/// A point in time is written to the second, to the minute, or as RFC 3339 demands.
pub proof fn law_patterns(t: Timestamp)
    ensures
        t.clock_text() == crate::outside::utc_text(
            t.secs(),
            t.nanos(),
            "%Y-%m-%d %H:%M:%S UTC"@,
        ),
        t.minute_text() == crate::outside::utc_text(t.secs(), t.nanos(), "%Y-%m-%d %H:%M UTC"@),
        t.rfc_text() == crate::outside::rfc3339_text(t.secs(), t.nanos()),
{
}

} // verus!
