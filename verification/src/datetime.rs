//! Datetime value types stored as 64-bit integers.
//!
//! Two precisions are offered, matching the two date storage types of the
//! schema model: milliseconds since the Unix epoch (`DateTime`) and
//! nanoseconds since the Unix epoch (`DateTimeNano`). A value of `0`
//! represents the epoch itself, 1970-01-01 00:00:00 UTC.

use vstd::prelude::*;

verus! {

/// A UTC datetime stored as milliseconds since the Unix epoch.
#[derive(Debug, Clone, Copy, PartialEq, Eq, Structural, PartialOrd, Ord, Hash)]
pub struct DateTime(pub i64);

/// A UTC datetime stored as nanoseconds since the Unix epoch.
#[derive(Debug, Clone, Copy, PartialEq, Eq, Structural, PartialOrd, Ord, Hash)]
pub struct DateTimeNano(pub i64);

/// Truncating division by a positive divisor, as the `/` operator of the
/// host language computes it on signed integers.
pub open spec fn div_trunc(x: int, d: int) -> int
    recommends
        d > 0,
{
    if x >= 0 {
        x / d
    } else {
        -((-x) / d)
    }
}

/// Relies on `std::time::SystemTime::now` and `Duration::as_millis`:
/// the milliseconds elapsed since the Unix epoch as the platform clock
/// reports them. The value depends on the clock, so nothing is promised
/// of it.
#[verifier::external_body]
fn system_millis_since_epoch() -> i64 {
    std::time::SystemTime::now()
        .duration_since(std::time::UNIX_EPOCH)
        .unwrap_or_default()
        .as_millis() as i64
}

/// Relies on `std::time::SystemTime::now` and `Duration::as_nanos`:
/// the nanoseconds elapsed since the Unix epoch as the platform clock
/// reports them. The value depends on the clock, so nothing is promised
/// of it.
#[verifier::external_body]
fn system_nanos_since_epoch() -> i64 {
    std::time::SystemTime::now()
        .duration_since(std::time::UNIX_EPOCH)
        .unwrap_or_default()
        .as_nanos() as i64
}

impl DateTime {
    /// Create a `DateTime` from milliseconds since the Unix epoch.
    pub fn from_millis(ms: i64) -> (r: Self)
        ensures
            r.0 == ms,
    {
        DateTime(ms)
    }

    /// The milliseconds since the Unix epoch.
    pub fn to_millis(self) -> (r: i64)
        ensures
            r == self.0,
    {
        self.0
    }

    /// The current UTC time as the platform clock reports it.
    pub fn now() -> Self {
        DateTime(system_millis_since_epoch())
    }

    /// Create a `DateTime` from seconds since the Unix epoch.
    pub fn from_secs(secs: i64) -> (r: Self)
        requires
            i64::MIN <= secs * 1000 <= i64::MAX,
        ensures
            r.0 == secs * 1000,
    {
        DateTime(secs * 1000)
    }

    /// Seconds since the Unix epoch, truncating milliseconds.
    pub fn to_secs(self) -> (r: i64)
        ensures
            r == div_trunc(self.0 as int, 1000),
    {
        div_by_pos_i64(self.0, 1000)
    }

    /// True if this datetime is the zero/default value (the epoch).
    pub fn is_zero(self) -> (r: bool)
        ensures
            r == (self.0 == 0),
    {
        self.0 == 0
    }
}

impl DateTimeNano {
    /// Create a `DateTimeNano` from nanoseconds since the Unix epoch.
    pub fn from_nanos(ns: i64) -> (r: Self)
        ensures
            r.0 == ns,
    {
        DateTimeNano(ns)
    }

    /// The nanoseconds since the Unix epoch.
    pub fn to_nanos(self) -> (r: i64)
        ensures
            r == self.0,
    {
        self.0
    }

    /// The current UTC time as the platform clock reports it.
    pub fn now() -> Self {
        DateTimeNano(system_nanos_since_epoch())
    }

    /// Create a `DateTimeNano` from milliseconds since the Unix epoch.
    pub fn from_millis(ms: i64) -> (r: Self)
        requires
            i64::MIN <= ms * 1_000_000 <= i64::MAX,
        ensures
            r.0 == ms * 1_000_000,
    {
        DateTimeNano(ms * 1_000_000)
    }

    /// Milliseconds since the Unix epoch, truncating nanoseconds.
    pub fn to_millis(self) -> (r: i64)
        ensures
            r == div_trunc(self.0 as int, 1_000_000),
    {
        div_by_pos_i64(self.0, 1_000_000)
    }

    /// Create a `DateTimeNano` from microseconds since the Unix epoch.
    pub fn from_micros(us: i64) -> (r: Self)
        requires
            i64::MIN <= us * 1000 <= i64::MAX,
        ensures
            r.0 == us * 1000,
    {
        DateTimeNano(us * 1000)
    }

    /// Microseconds since the Unix epoch, truncating nanoseconds.
    pub fn to_micros(self) -> (r: i64)
        ensures
            r == div_trunc(self.0 as int, 1000),
    {
        div_by_pos_i64(self.0, 1000)
    }

    /// True if this datetime is the zero/default value (the epoch).
    pub fn is_zero(self) -> (r: bool)
        ensures
            r == (self.0 == 0),
    {
        self.0 == 0
    }

    /// Convert to a millisecond-precision `DateTime`, truncating nanoseconds.
    pub fn to_datetime(self) -> (r: DateTime)
        ensures
            r.0 == div_trunc(self.0 as int, 1_000_000),
    {
        DateTime(self.to_millis())
    }
}

/// Truncating division of an `i64` by a positive divisor.
fn div_by_pos_i64(x: i64, d: i64) -> (r: i64)
    requires
        d > 0,
    ensures
        r == div_trunc(x as int, d as int),
{
    proof {
        lemma_div_by_pos_in_range(x as int, d as int);
    }
    match x.checked_div(d) {
        Some(v) => v,
        None => 0,
    }
}

/// For a positive divisor, the truncated quotient of an `i64` value fits
/// in `i64` again.
proof fn lemma_div_by_pos_in_range(x: int, d: int)
    requires
        d > 0,
        i64::MIN <= x <= i64::MAX,
    ensures
        i64::MIN <= div_trunc(x, d) <= i64::MAX,
        x > 0 ==> 0 <= x / d <= x,
        x < 0 ==> 0 <= (-x) / d <= -x,
{
    if x > 0 {
        vstd::arithmetic::div_mod::lemma_div_is_ordered_by_denominator(x, 1, d);
        vstd::arithmetic::div_mod::lemma_div_basics(x);
        vstd::arithmetic::div_mod::lemma_div_pos_is_pos(x, d);
    } else if x < 0 {
        vstd::arithmetic::div_mod::lemma_div_is_ordered_by_denominator(-x, 1, d);
        vstd::arithmetic::div_mod::lemma_div_basics(-x);
        vstd::arithmetic::div_mod::lemma_div_pos_is_pos(-x, d);
    }
}

impl Default for DateTime {
    /// The zero value: the epoch itself.
    fn default() -> (r: Self)
        ensures
            r.0 == 0,
    {
        DateTime(0)
    }
}

impl Default for DateTimeNano {
    /// The zero value: the epoch itself.
    fn default() -> (r: Self)
        ensures
            r.0 == 0,
    {
        DateTimeNano(0)
    }
}

impl From<i64> for DateTime {
    fn from(ms: i64) -> (r: Self)
        ensures
            r.0 == ms,
    {
        DateTime(ms)
    }
}

impl vstd::std_specs::convert::FromSpecImpl<i64> for DateTime {
    open spec fn obeys_from_spec() -> bool {
        true
    }

    open spec fn from_spec(ms: i64) -> Self {
        DateTime(ms)
    }
}

impl From<DateTime> for i64 {
    fn from(dt: DateTime) -> (r: i64)
        ensures
            r == dt.0,
    {
        dt.0
    }
}

impl vstd::std_specs::convert::FromSpecImpl<DateTime> for i64 {
    open spec fn obeys_from_spec() -> bool {
        true
    }

    open spec fn from_spec(dt: DateTime) -> i64 {
        dt.0
    }
}

impl From<i64> for DateTimeNano {
    fn from(ns: i64) -> (r: Self)
        ensures
            r.0 == ns,
    {
        DateTimeNano(ns)
    }
}

impl vstd::std_specs::convert::FromSpecImpl<i64> for DateTimeNano {
    open spec fn obeys_from_spec() -> bool {
        true
    }

    open spec fn from_spec(ns: i64) -> Self {
        DateTimeNano(ns)
    }
}

impl From<DateTimeNano> for i64 {
    fn from(dt: DateTimeNano) -> (r: i64)
        ensures
            r == dt.0,
    {
        dt.0
    }
}

impl vstd::std_specs::convert::FromSpecImpl<DateTimeNano> for i64 {
    open spec fn obeys_from_spec() -> bool {
        true
    }

    open spec fn from_spec(dt: DateTimeNano) -> i64 {
        dt.0
    }
}

impl From<DateTime> for DateTimeNano {
    /// Millisecond to nanosecond precision. On the far-out values whose
    /// nanosecond count exceeds the 64-bit range the product wraps, as the
    /// widening multiplication of the host language does.
    fn from(dt: DateTime) -> (r: Self)
        ensures
            r.0 == dt.0.wrapping_mul(1_000_000),
    {
        DateTimeNano(dt.0.wrapping_mul(1_000_000))
    }
}

impl vstd::std_specs::convert::FromSpecImpl<DateTime> for DateTimeNano {
    open spec fn obeys_from_spec() -> bool {
        true
    }

    open spec fn from_spec(dt: DateTime) -> Self {
        DateTimeNano(dt.0.wrapping_mul(1_000_000))
    }
}

} // verus!
