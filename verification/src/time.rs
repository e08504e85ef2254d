//! Points in time, in microseconds since the epoch, and timeouts that may be
//! unset. The largest timestamp is reserved: it marks an unset timeout,
//! which orders after every set one.
use vstd::prelude::*;

verus! {

/// A point in time, in microseconds since the epoch.
#[derive(Clone, Copy, Debug, PartialEq, Eq, Structural, Hash, PartialOrd, Ord)]
pub struct Timestamp {
    usec: u64,
}

impl View for Timestamp {
    type V = u64;

    closed spec fn view(&self) -> u64 {
        self.usec
    }
}

impl Default for Timestamp {
    fn default() -> (r: Timestamp)
        ensures
            r@ == u64::MAX,
    {
        Timestamp::sentinel()
    }
}

impl Timestamp {
    /// The reserved timestamp that marks an unset timeout.
    pub fn sentinel() -> (r: Timestamp)
        ensures
            r@ == u64::MAX,
    {
        Timestamp { usec: u64::MAX }
    }

    pub fn from_secs_since_epoch(secs: u64) -> (r: Timestamp)
        requires
            secs * 1_000_000 <= u64::MAX,
        ensures
            r@ == secs * 1_000_000,
    {
        Timestamp { usec: secs * 1_000_000 }
    }

    pub fn from_usecs_since_epoch(usecs: u64) -> (r: Timestamp)
        ensures
            r@ == usecs,
    {
        Timestamp { usec: usecs }
    }

    pub fn as_usecs_since_epoch(&self) -> (r: u64)
        ensures
            r == self@,
    {
        self.usec
    }

    /// The timestamp a duration of `secs` seconds and `subsec_nanos`
    /// nanoseconds later, rounded up to whole microseconds.
    pub fn add_duration(self, secs: u64, subsec_nanos: u32) -> (r: Timestamp)
        requires
            subsec_nanos < 1_000_000_000,
            secs * 1_000_000 <= u64::MAX,
            self@ + secs * 1_000_000 + (subsec_nanos + 999) / 1_000 <= u64::MAX,
        ensures
            r@ == self@ + secs * 1_000_000 + (subsec_nanos + 999) / 1_000,
    {
        let whole = secs * 1_000_000;
        let part = (subsec_nanos as u64 + 999) / 1_000;
        Timestamp::from_usecs_since_epoch(self.usec + (whole + part))
    }
}

/// A timeout: a point in time, or unset.
#[derive(Clone, Copy, Debug, PartialEq, Eq, Structural, Hash, PartialOrd, Ord)]
pub struct Timeout {
    timeout: Timestamp,
}

impl View for Timeout {
    type V = Option<u64>;

    closed spec fn view(&self) -> Option<u64> {
        if self.timeout@ == u64::MAX {
            None
        } else {
            Some(self.timeout@)
        }
    }
}

impl Default for Timeout {
    fn default() -> (r: Timeout)
        ensures
            r@ is None,
    {
        Timeout::inactive()
    }
}

impl Timeout {
    /// The timeout set to `timestamp`; the reserved timestamp leaves it
    /// unset.
    pub fn active(timestamp: Timestamp) -> (r: Timeout)
        ensures
            r@ == (if timestamp@ == u64::MAX {
                None
            } else {
                Some(timestamp@)
            }),
    {
        Timeout { timeout: timestamp }
    }

    pub fn inactive() -> (r: Timeout)
        ensures
            r@ is None,
    {
        Timeout { timeout: Timestamp::sentinel() }
    }

    pub fn is_active(&self) -> (r: bool)
        ensures
            r == self@ is Some,
    {
        self.timeout.usec != u64::MAX
    }

    pub fn to_opt(self) -> (r: Option<Timestamp>)
        ensures
            r is None <==> self@ is None,
            r matches Some(t) ==> self@ == Some(t@),
    {
        if self.is_active() {
            Some(self.timeout)
        } else {
            None
        }
    }

    /// How long after `time` the timeout is, as seconds and nanoseconds;
    /// zero where it is not after `time`, none where it is unset. The
    /// microseconds between them are counted as nanoseconds.
    pub fn time_from(self, time: Timestamp) -> (r: Option<(u64, u32)>)
        ensures
            match self@ {
                None => r is None,
                Some(t) => r == Some(if t > time@ {
                    (((t - time@) / 1_000_000_000) as u64, ((t - time@) % 1_000_000_000) as u32)
                } else {
                    (0u64, 0u32)
                }),
            },
    {
        match self.to_opt() {
            None => None,
            Some(t) => if t.usec > time.usec {
                let us = t.usec - time.usec;
                Some((us / 1_000_000_000, (us % 1_000_000_000) as u32))
            } else {
                Some((0, 0))
            },
        }
    }
}

} // verus!
