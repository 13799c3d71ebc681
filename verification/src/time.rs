use std::time::Duration;
use vstd::prelude::*;

verus! {

/// Nanoseconds in one second.
pub const NANOS_PER_SEC: u128 = 1_000_000_000;

/// The whole seconds of a duration: what `Duration::as_secs` returns.
pub uninterp spec fn duration_secs(d: Duration) -> u64;

/// The nanoseconds of a duration beyond its whole seconds: what
/// `Duration::subsec_nanos` returns.
pub uninterp spec fn duration_subsec_nanos(d: Duration) -> u32;

/// `Duration::as_secs` is taken to return the number of whole seconds the
/// duration holds.
pub assume_specification[ Duration::as_secs ](d: &Duration) -> (secs: u64)
    ensures
        secs == duration_secs(*d),
;

/// `Duration::subsec_nanos` is taken to return the fractional part of the
/// duration in nanoseconds, which is always less than one second.
pub assume_specification[ Duration::subsec_nanos ](d: &Duration) -> (nanos: u32)
    ensures
        nanos == duration_subsec_nanos(*d),
        nanos < 1_000_000_000,
;

/// `Duration::new` is taken to build the duration of `secs` whole seconds and
/// `nanos` further nanoseconds. With `nanos` below one second nothing is
/// carried into the seconds, so the call cannot overflow.
pub assume_specification[ Duration::new ](secs: u64, nanos: u32) -> (d: Duration)
    requires
        nanos < 1_000_000_000,
    ensures
        duration_secs(d) == secs,
        duration_subsec_nanos(d) == nanos,
;

/// `Clone::clone` of a `Duration`, which is `Copy`, is taken to return the
/// duration itself.
pub assume_specification[ <Duration as Clone>::clone ](d: &Duration) -> (copy: Duration)
    ensures
        copy == *d,
;

/// The length of a duration in nanoseconds.
pub open spec fn nanos_of(d: Duration) -> nat {
    (duration_secs(d) * 1_000_000_000 + duration_subsec_nanos(d)) as nat
}

/// The longest span a `Duration` can hold, in nanoseconds.
pub open spec fn max_nanos() -> nat {
    (u64::MAX * 1_000_000_000 + 999_999_999) as nat
}

/// The length of `d` in nanoseconds.
pub fn to_nanos(d: Duration) -> (n: u128)
    ensures
        n == nanos_of(d),
        n <= max_nanos(),
{
    let secs: u128 = d.as_secs() as u128;
    let frac: u128 = d.subsec_nanos() as u128;
    secs * NANOS_PER_SEC + frac
}

/// The duration that is `n` nanoseconds long.
pub fn from_nanos(n: u128) -> (d: Duration)
    requires
        n <= max_nanos(),
    ensures
        nanos_of(d) == n,
{
    let secs: u64 = (n / NANOS_PER_SEC) as u64;
    let frac: u32 = (n % NANOS_PER_SEC) as u32;
    Duration::new(secs, frac)
}

/// The empty duration.
pub fn zero() -> (d: Duration)
    ensures
        nanos_of(d) == 0,
{
    Duration::new(0, 0)
}

/// `a + b`, or `None` when the sum is longer than any `Duration`.
pub fn checked_sum(a: Duration, b: Duration) -> (sum: Option<Duration>)
    ensures
        match sum {
            Some(d) => nanos_of(d) == nanos_of(a) + nanos_of(b) && nanos_of(d) <= max_nanos(),
            None => nanos_of(a) + nanos_of(b) > max_nanos(),
        },
{
    let total: u128 = to_nanos(a) + to_nanos(b);
    if total <= (u64::MAX as u128) * NANOS_PER_SEC + 999_999_999 {
        Some(from_nanos(total))
    } else {
        None
    }
}

/// Whether `a` is strictly shorter than `b`.
pub fn shorter(a: Duration, b: Duration) -> (r: bool)
    ensures
        r == (nanos_of(a) < nanos_of(b)),
{
    to_nanos(a) < to_nanos(b)
}

} // verus!
