//! Trusted facts about `std::time`: durations are read through their nanosecond count.
use std::time::{Duration, Instant};
use vstd::prelude::*;

verus! {

#[verifier::external_type_specification]
#[verifier::external_body]
pub struct ExInstant(Instant);

/// `Clone` of a `Duration`: a copy of the same length of time.
pub assume_specification[ <Duration as Clone>::clone ](d: &Duration) -> (r: Duration)
    ensures
        r == *d,
;

/// `Clone` of an `Instant`: a copy of the same instant.
pub assume_specification[ <Instant as Clone>::clone ](i: &Instant) -> (r: Instant)
    ensures
        r == *i,
;

/// What `Duration::as_nanos` returns for `d`.
pub uninterp spec fn duration_nanos(d: Duration) -> nat;

/// What `Instant::saturating_duration_since` returns for `at` and `earlier`.
pub uninterp spec fn elapsed_since(at: Instant, earlier: Instant) -> Duration;

/// What `Debug` writes for a duration of `nanos` nanoseconds (such as `1.5s` or `300ms`).
pub uninterp spec fn duration_debug(nanos: nat) -> Seq<char>;

/// `Debug` of a `Duration` (`format!("{:?}", d)`): the text is named by `duration_debug`,
/// which depends on the length of time alone.
#[verifier::external_body]
pub(crate) fn debug_of_duration(d: &Duration) -> (r: String)
    ensures
        r@ == duration_debug(duration_nanos(*d)),
{
    format!("{d:?}")
}

/// `Duration::as_nanos`: the total number of nanoseconds in `d`.
#[verifier::external_body]
pub(crate) fn nanos_of(d: &Duration) -> (r: u128)
    ensures
        r == duration_nanos(*d),
{
    d.as_nanos()
}

/// `Instant::saturating_duration_since`: the time from `earlier` to `at`, zero when `at` is
/// not later; an instant is no time after itself.
#[verifier::external_body]
pub(crate) fn saturating_since(at: Instant, earlier: Instant) -> (r: Duration)
    ensures
        r == elapsed_since(at, earlier),
        at == earlier ==> duration_nanos(r) == 0,
{
    at.saturating_duration_since(earlier)
}

/// `Duration::saturating_sub`: `a - b`, or zero when `b` is longer than `a`.
#[verifier::external_body]
pub(crate) fn duration_saturating_sub(a: Duration, b: Duration) -> (r: Duration)
    ensures
        duration_nanos(r) == if duration_nanos(a) >= duration_nanos(b) {
            (duration_nanos(a) - duration_nanos(b)) as nat
        } else {
            0nat
        },
{
    a.saturating_sub(b)
}

/// `Duration::new`: `secs` seconds plus `nanos` nanoseconds.
#[verifier::external_body]
pub(crate) fn duration_new(secs: u64, nanos: u32) -> (r: Duration)
    requires
        nanos < 1_000_000_000,
    ensures
        duration_nanos(r) == secs * 1_000_000_000 + nanos,
{
    Duration::new(secs, nanos)
}

} // verus!
