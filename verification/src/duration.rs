//! A span of time in months, days and milliseconds.
use vstd::prelude::*;
use vstd::std_specs::convert::FromSpecImpl;
use crate::endian::le_u32;
use crate::endian::read_le_u32;

verus! {

/// A span of time, kept as three separate counts because months and days have
/// no fixed length.
#[derive(Clone, Copy, Debug, PartialEq, Eq, Structural)]
pub struct Duration {
    pub months: u32,
    pub days: u32,
    pub millis: u32,
}

/// The duration whose twelve bytes are `b`: three little-endian 32-bit words.
pub open spec fn duration_of_bytes(b: Seq<u8>) -> Duration {
    Duration {
        months: le_u32(b.subrange(0, 4)),
        days: le_u32(b.subrange(4, 8)),
        millis: le_u32(b.subrange(8, 12)),
    }
}

impl Duration {
    /// A duration of `months` months, `days` days and `millis` milliseconds.
    pub fn new(months: u32, days: u32, millis: u32) -> (d: Duration)
        ensures
            d == (Duration { months, days, millis }),
    {
        Duration { months, days, millis }
    }

    /// The duration written in the twelve bytes of `bytes`.
    pub fn from_le_bytes(bytes: &[u8]) -> (d: Duration)
        requires
            bytes.len() == 12,
        ensures
            d == duration_of_bytes(bytes@),
    {
        Duration {
            months: read_le_u32(bytes, 0),
            days: read_le_u32(bytes, 4),
            millis: read_le_u32(bytes, 8),
        }
    }

    /// The number of months.
    pub fn months(&self) -> (n: u32)
        ensures
            n == self.months,
    {
        self.months
    }

    /// The number of days.
    pub fn days(&self) -> (n: u32)
        ensures
            n == self.days,
    {
        self.days
    }

    /// The number of milliseconds.
    pub fn millis(&self) -> (n: u32)
        ensures
            n == self.millis,
    {
        self.millis
    }
}

impl From<[u8; 12]> for Duration {
    /// The duration written in `bytes`: months, days and milliseconds, each a
    /// word with its low end first.
    fn from(bytes: [u8; 12]) -> (d: Duration) {
        Duration::from_le_bytes(bytes.as_slice())
    }
}

impl FromSpecImpl<[u8; 12]> for Duration {
    open spec fn obeys_from_spec() -> bool {
        true
    }

    open spec fn from_spec(bytes: [u8; 12]) -> Duration {
        duration_of_bytes(bytes@)
    }
}

} // verus!
