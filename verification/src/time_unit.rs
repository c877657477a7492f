//! Temporal resolution of timestamp-like columns, and conversion of raw
//! temporal values between resolutions.
use vstd::prelude::*;

verus! {

/// The interchange format's own temporal resolution, including seconds,
/// which the engine does not keep and casts away on ingestion.
#[derive(Copy, Clone, Debug, PartialEq, Eq, Hash, Structural)]
pub enum ArrowTimeUnit {
    Second,
    Millisecond,
    Microsecond,
    Nanosecond,
}

/// The engine's temporal resolution.
#[derive(Copy, Clone, Debug, PartialEq, PartialOrd, Eq, Hash, Structural)]
pub enum TimeUnit {
    Nanoseconds,
    Microseconds,
    Milliseconds,
}

pub open spec fn spec_to_arrow(tu: TimeUnit) -> ArrowTimeUnit {
    match tu {
        TimeUnit::Nanoseconds => ArrowTimeUnit::Nanosecond,
        TimeUnit::Microseconds => ArrowTimeUnit::Microsecond,
        TimeUnit::Milliseconds => ArrowTimeUnit::Millisecond,
    }
}

/// Seconds carry no engine resolution of their own and are mapped to
/// milliseconds; the values are cast downstream.
pub open spec fn spec_from_arrow(tu: ArrowTimeUnit) -> TimeUnit {
    match tu {
        ArrowTimeUnit::Nanosecond => TimeUnit::Nanoseconds,
        ArrowTimeUnit::Microsecond => TimeUnit::Microseconds,
        ArrowTimeUnit::Millisecond => TimeUnit::Milliseconds,
        ArrowTimeUnit::Second => TimeUnit::Milliseconds,
    }
}

impl TimeUnit {
    /// The plain-ASCII abbreviation of the unit.
    pub fn to_ascii(self) -> (r: &'static str)
        ensures
            r@ == self.spec_ascii(),
    {
        match self {
            TimeUnit::Nanoseconds => "ns",
            TimeUnit::Microseconds => "us",
            TimeUnit::Milliseconds => "ms",
        }
    }

    pub open spec fn spec_ascii(self) -> Seq<char> {
        match self {
            TimeUnit::Nanoseconds => "ns"@,
            TimeUnit::Microseconds => "us"@,
            TimeUnit::Milliseconds => "ms"@,
        }
    }

    /// The display form of the unit, with the proper micro sign.
    pub fn display_str(self) -> (r: &'static str)
        ensures
            r@ == self.spec_display(),
    {
        match self {
            TimeUnit::Nanoseconds => "ns",
            TimeUnit::Microseconds => "\u{3bc}s",
            TimeUnit::Milliseconds => "ms",
        }
    }

    pub open spec fn spec_display(self) -> Seq<char> {
        match self {
            TimeUnit::Nanoseconds => "ns"@,
            TimeUnit::Microseconds => "\u{3bc}s"@,
            TimeUnit::Milliseconds => "ms"@,
        }
    }

    /// The interchange format's unit for this engine unit.
    pub fn to_arrow(self) -> (r: ArrowTimeUnit)
        ensures
            r == spec_to_arrow(self),
    {
        match self {
            TimeUnit::Nanoseconds => ArrowTimeUnit::Nanosecond,
            TimeUnit::Microseconds => ArrowTimeUnit::Microsecond,
            TimeUnit::Milliseconds => ArrowTimeUnit::Millisecond,
        }
    }

    /// The engine unit for an interchange unit; seconds become
    /// milliseconds.
    pub fn from_arrow(tu: &ArrowTimeUnit) -> (r: TimeUnit)
        ensures
            r == spec_from_arrow(*tu),
    {
        match tu {
            ArrowTimeUnit::Nanosecond => TimeUnit::Nanoseconds,
            ArrowTimeUnit::Microsecond => TimeUnit::Microseconds,
            ArrowTimeUnit::Millisecond => TimeUnit::Milliseconds,
            ArrowTimeUnit::Second => TimeUnit::Milliseconds,
        }
    }
}

/// Integer division truncating toward zero, the semantics of the machine
/// division that scales temporal values down.
pub open spec fn div_trunc(v: int, d: int) -> int {
    if v >= 0 {
        v / d
    } else {
        -((-v) / d)
    }
}

/// What converting a raw temporal value between two resolutions yields:
/// scaling up multiplies, scaling down divides toward zero, anything else
/// is the value unchanged.
pub open spec fn spec_convert_time_units(v: int, tu_l: TimeUnit, tu_r: TimeUnit) -> int {
    match (tu_l, tu_r) {
        (TimeUnit::Nanoseconds, TimeUnit::Microseconds) => div_trunc(v, 1000),
        (TimeUnit::Nanoseconds, TimeUnit::Milliseconds) => div_trunc(v, 1000000),
        (TimeUnit::Microseconds, TimeUnit::Nanoseconds) => v * 1000,
        (TimeUnit::Microseconds, TimeUnit::Milliseconds) => div_trunc(v, 1000),
        (TimeUnit::Milliseconds, TimeUnit::Microseconds) => v * 1000,
        (TimeUnit::Milliseconds, TimeUnit::Nanoseconds) => v * 1000000,
        _ => v,
    }
}

/// Whether the conversion's scaled value fits the machine integer; only
/// the upscaling conversions can overflow.
pub open spec fn convert_fits(v: int, tu_l: TimeUnit, tu_r: TimeUnit) -> bool {
    i64::MIN <= spec_convert_time_units(v, tu_l, tu_r) <= i64::MAX
}

/// Convert a raw temporal value between two resolutions.
pub fn convert_time_units(v: i64, tu_l: TimeUnit, tu_r: TimeUnit) -> (r: i64)
    requires
        convert_fits(v as int, tu_l, tu_r),
    ensures
        r == spec_convert_time_units(v as int, tu_l, tu_r),
{
    match (tu_l, tu_r) {
        (TimeUnit::Nanoseconds, TimeUnit::Microseconds) => v / 1000,
        (TimeUnit::Nanoseconds, TimeUnit::Milliseconds) => v / 1000000,
        (TimeUnit::Microseconds, TimeUnit::Nanoseconds) => v * 1000,
        (TimeUnit::Microseconds, TimeUnit::Milliseconds) => v / 1000,
        (TimeUnit::Milliseconds, TimeUnit::Microseconds) => v * 1000,
        (TimeUnit::Milliseconds, TimeUnit::Nanoseconds) => v * 1000000,
        _ => v,
    }
}

} // verus!
