//! Points in time.

use vstd::prelude::*;

use crate::outside::clock_nanos;

verus! {

/// A point in time, in nanoseconds since the Unix epoch; negative before it.
#[derive(Debug, Clone, Copy, PartialEq, Eq, Structural)]
pub struct Timestamp {
    pub nanos: i128,
}

impl Timestamp {
    /// Milliseconds since the Unix epoch: 0 for a time before it, and otherwise the
    /// whole milliseconds, cut to 64 bits.
    pub open spec fn millis(self) -> i64 {
        if self.nanos < 0 {
            0
        } else {
            (self.nanos as u128 / 1_000_000) as i64
        }
    }

    /// This time less `nanos` nanoseconds, or the Unix epoch where that cannot be
    /// written down.
    pub open spec fn earlier(self, nanos: int) -> Timestamp {
        if self.nanos - nanos >= i128::MIN {
            Timestamp { nanos: (self.nanos - nanos) as i128 }
        } else {
            Timestamp { nanos: 0 }
        }
    }

    /// Milliseconds since the Unix epoch.
    pub fn unix_millis(&self) -> (ms: i64)
        ensures
            ms == self.millis(),
    {
        if self.nanos < 0 {
            0
        } else {
            #[verifier::truncate]
            let ms: i64 = (self.nanos as u128 / 1_000_000) as i64;
            ms
        }
    }

    /// The time `nanos` nanoseconds before this one.
    pub fn minus(&self, nanos: u64) -> (t: Timestamp)
        ensures
            t == self.earlier(nanos as int),
    {
        match self.nanos.checked_sub(nanos as i128) {
            Some(n) => Timestamp { nanos: n },
            None => Timestamp { nanos: 0 },
        }
    }

    /// What the system clock shows. That is whatever was read from it, so nothing is
    /// claimed here; [`Timestamp::of_reading`] says which time each reading stands for.
    pub fn now() -> (t: Timestamp) {
        Timestamp::of_reading(clock_nanos())
    }

    /// The time that a reading of the clock stands for: the nanoseconds since the Unix
    /// epoch, or as an error those before it, up to the latest and the earliest time
    /// that can be written down.
    pub open spec fn at_reading(reading: Result<u128, u128>) -> Timestamp {
        match reading {
            Ok(n) => Timestamp {
                nanos: if n <= i128::MAX {
                    n as i128
                } else {
                    i128::MAX
                },
            },
            Err(n) => Timestamp {
                nanos: if n <= i128::MAX {
                    (-(n as int)) as i128
                } else {
                    i128::MIN
                },
            },
        }
    }

    /// The time that a reading of the clock stands for.
    pub fn of_reading(reading: Result<u128, u128>) -> (t: Timestamp)
        ensures
            t == Timestamp::at_reading(reading),
    {
        match reading {
            Ok(n) => {
                if n <= i128::MAX as u128 {
                    Timestamp { nanos: n as i128 }
                } else {
                    Timestamp { nanos: i128::MAX }
                }
            },
            Err(n) => {
                if n <= i128::MAX as u128 {
                    Timestamp { nanos: -(n as i128) }
                } else {
                    Timestamp { nanos: i128::MIN }
                }
            },
        }
    }
}

/// A time not before the Unix epoch lies within its millisecond, as far as that can be
/// written in 64 bits; one before it counts as the epoch.
pub proof fn law_millis(t: Timestamp)
    ensures
        t.nanos < 0 ==> t.millis() == 0,
        0 <= t.nanos && t.nanos / 1_000_000 <= i64::MAX ==> {
            &&& t.millis() >= 0
            &&& t.millis() * 1_000_000 <= t.nanos
            &&& t.nanos < (t.millis() + 1) * 1_000_000
        },
{
}

/// An earlier time is earlier by as many nanoseconds as were asked for, unless it cannot
/// be written down; then it is the Unix epoch.
pub proof fn law_earlier(t: Timestamp, nanos: int)
    requires
        nanos >= 0,
    ensures
        t.nanos - nanos >= i128::MIN ==> t.earlier(nanos).nanos + nanos == t.nanos,
        t.nanos - nanos < i128::MIN ==> t.earlier(nanos).nanos == 0,
{
}

/// A reading of the clock stands for the time it gives, after the Unix epoch or before
/// it, and one that cannot be written down for the latest or the earliest time.
pub proof fn law_reading(n: u128)
    ensures
        n <= i128::MAX ==> Timestamp::at_reading(Ok(n)).nanos == n,
        n <= i128::MAX ==> Timestamp::at_reading(Err(n)).nanos == -n,
        n > i128::MAX ==> Timestamp::at_reading(Ok(n)).nanos == i128::MAX,
        n > i128::MAX ==> Timestamp::at_reading(Err(n)).nanos == i128::MIN,
{
}

} // verus!
