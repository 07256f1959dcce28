use vstd::prelude::*;

use crate::level::{position_of_bits, Level};

verus! {

/// Position of `1000.0`.
pub const THOUSAND_POSITION: u64 = 0xC08F_4000_0000_0000;

/// Position of `1000000.0`.
pub const MILLION_POSITION: u64 = 0xC12E_8480_0000_0000;

/// Position of `1000000000.0`.
pub const BILLION_POSITION: u64 = 0xC1CD_CD65_0000_0000;

/// The unit a time is written in.
#[derive(Clone, Copy, PartialEq, Eq, Structural, Debug)]
pub enum TimeUnit {
    Nanoseconds,
    Microseconds,
    Milliseconds,
    Seconds,
}

/// The unit of a time of `ns` nanoseconds: nanoseconds below a thousand,
/// microseconds below a million, milliseconds below a billion, and seconds
/// otherwise (a time that is not a number included, as no comparison holds of it).
pub open spec fn unit_for(ns: Level) -> TimeUnit {
    if ns.spec_is_nan() {
        TimeUnit::Seconds
    } else if ns.position < THOUSAND_POSITION {
        TimeUnit::Nanoseconds
    } else if ns.position < MILLION_POSITION {
        TimeUnit::Microseconds
    } else if ns.position < BILLION_POSITION {
        TimeUnit::Milliseconds
    } else {
        TimeUnit::Seconds
    }
}

/// Chooses the unit a time of `ns` nanoseconds is written in.
pub fn time_unit(ns: Level) -> (u: TimeUnit)
    ensures
        u == unit_for(ns),
{
    if ns.is_nan() {
        TimeUnit::Seconds
    } else if ns.position < THOUSAND_POSITION {
        TimeUnit::Nanoseconds
    } else if ns.position < MILLION_POSITION {
        TimeUnit::Microseconds
    } else if ns.position < BILLION_POSITION {
        TimeUnit::Milliseconds
    } else {
        TimeUnit::Seconds
    }
}

impl TimeUnit {
    /// The symbol written after a time in this unit.
    pub open spec fn symbol_view(self) -> Seq<char> {
        match self {
            TimeUnit::Nanoseconds => "ns"@,
            TimeUnit::Microseconds => "µs"@,
            TimeUnit::Milliseconds => "ms"@,
            TimeUnit::Seconds => "s"@,
        }
    }

    /// The symbol written after a time in this unit.
    pub fn symbol(&self) -> (s: &str)
        ensures
            s@ == self.symbol_view(),
    {
        match self {
            TimeUnit::Nanoseconds => "ns",
            TimeUnit::Microseconds => "µs",
            TimeUnit::Milliseconds => "ms",
            TimeUnit::Seconds => "s",
        }
    }
}

/// A longer time never takes a smaller unit.
pub proof fn lemma_unit_monotone(a: Level, b: Level)
    requires
        !a.spec_is_nan(),
        !b.spec_is_nan(),
        a.position <= b.position,
    ensures
        unit_rank(unit_for(a)) <= unit_rank(unit_for(b)),
{
}

/// The rank of a unit, from nanoseconds up to seconds.
pub open spec fn unit_rank(u: TimeUnit) -> int {
    match u {
        TimeUnit::Nanoseconds => 0,
        TimeUnit::Microseconds => 1,
        TimeUnit::Milliseconds => 2,
        TimeUnit::Seconds => 3,
    }
}

/// The thresholds are the positions of one thousand, one million and one billion.
pub proof fn lemma_unit_thresholds()
    ensures
        crate::level::position_of_bits(0x408F_4000_0000_0000) == THOUSAND_POSITION,
        crate::level::position_of_bits(0x412E_8480_0000_0000) == MILLION_POSITION,
        crate::level::position_of_bits(0x41CD_CD65_0000_0000) == BILLION_POSITION,
{
}

/// A time below one thousand nanoseconds is written in nanoseconds, one from a
/// thousand to below a million in microseconds, one from a million to below a
/// billion in milliseconds, and one from a billion up in seconds; a time is written
/// in seconds only from a billion up or when it is not a number.
pub proof fn lemma_unit_ranges(ns: Level)
    ensures
        !ns.spec_is_nan() && ns.position < position_of_bits(0x408F_4000_0000_0000) ==> unit_for(ns)
            == TimeUnit::Nanoseconds,
        !ns.spec_is_nan() && position_of_bits(0x408F_4000_0000_0000) <= ns.position
            < position_of_bits(0x412E_8480_0000_0000) ==> unit_for(ns) == TimeUnit::Microseconds,
        !ns.spec_is_nan() && position_of_bits(0x412E_8480_0000_0000) <= ns.position
            < position_of_bits(0x41CD_CD65_0000_0000) ==> unit_for(ns) == TimeUnit::Milliseconds,
        !ns.spec_is_nan() && position_of_bits(0x41CD_CD65_0000_0000) <= ns.position ==> unit_for(ns)
            == TimeUnit::Seconds,
        ns.spec_is_nan() ==> unit_for(ns) == TimeUnit::Seconds,
        unit_for(ns) == TimeUnit::Seconds ==> ns.spec_is_nan() || ns.position >= position_of_bits(
            0x41CD_CD65_0000_0000,
        ),
{
    lemma_unit_thresholds();
}

} // verus!
