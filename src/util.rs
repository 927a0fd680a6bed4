use vstd::prelude::*;

use std::time::Duration;

verus! {

/// Relies on `Duration::as_secs`: the whole seconds of the duration.
#[verifier::external_body]
fn duration_secs(d: &Duration) -> (r: u64) {
    d.as_secs()
}

/// Relies on `Duration::subsec_nanos`: the nanoseconds past the whole
/// seconds, which the documentation says are always below one billion.
#[verifier::external_body]
fn duration_subsec_nanos(d: &Duration) -> (r: u32)
    ensures
        r < 1_000_000_000,
{
    d.subsec_nanos()
}

/// Whole milliseconds of `secs` seconds and `nanos` nanoseconds, saturated at
/// `u64::MAX`.
pub open spec fn millis_of(secs: u64, nanos: u32) -> u64 {
    let m = (secs * 1_000_000_000 + nanos) / 1_000_000;
    if m <= u64::MAX {
        m as u64
    } else {
        u64::MAX
    }
}

/// Whole milliseconds of a duration given as seconds and nanoseconds.
pub fn millis_from_parts(secs: u64, nanos: u32) -> (r: u64)
    requires
        nanos < 1_000_000_000,
    ensures
        r == millis_of(secs, nanos),
{
    let sub: u64 = nanos as u64 / 1_000_000;
    assert((secs * 1_000_000_000 + nanos) / 1_000_000 == secs * 1000 + sub) by (nonlinear_arith)
        requires
            sub == nanos / 1_000_000,
            0 <= nanos,
            0 <= secs,
    ;
    if secs > (u64::MAX - sub) / 1000 {
        assert(secs * 1000 + sub > u64::MAX) by (nonlinear_arith)
            requires
                secs > (u64::MAX - sub) / 1000,
                0 <= sub <= 1000,
        ;
        u64::MAX
    } else {
        assert(secs * 1000 + sub <= u64::MAX) by (nonlinear_arith)
            requires
                secs <= (u64::MAX - sub) / 1000,
                0 <= sub <= 1000,
        ;
        secs * 1000 + sub
    }
}

/// Whole milliseconds of a duration, saturated at `u64::MAX` (see
/// `millis_from_parts`).
pub fn get_duration_millis(duration: &Duration) -> (r: u64) {
    let secs = duration_secs(duration);
    let nanos = duration_subsec_nanos(duration);
    millis_from_parts(secs, nanos)
}

} // verus!
