use vstd::prelude::*;

verus! {

/// A point on the monotonic clock. Nothing is known of what it holds.
#[verifier::external_type_specification]
#[verifier::external_body]
pub struct ExInstant(std::time::Instant);

/// `Instant::now` reads the monotonic clock: nothing is claimed of the result.
pub assume_specification[ std::time::Instant::now ]() -> (now: std::time::Instant)
;

/// `Instant::elapsed` measures the time since the instant against the clock:
/// nothing is claimed of the result.
pub assume_specification[ std::time::Instant::elapsed ](since: &std::time::Instant) -> (elapsed:
    std::time::Duration)
;

/// `Duration::as_nanos` gives the whole duration in nanoseconds. Durations are
/// opaque here, so nothing is claimed of the number.
pub assume_specification[ std::time::Duration::as_nanos ](duration: &std::time::Duration) -> (nanos:
    u128)
;

/// `Duration::saturating_add` adds two durations and stops at the longest
/// duration there is. Durations are opaque here, so nothing is claimed of the
/// sum.
pub assume_specification[ std::time::Duration::saturating_add ](
    lhs: std::time::Duration,
    rhs: std::time::Duration,
) -> (sum: std::time::Duration)
;

/// A measured time lies in a span, both ends included.
pub open spec fn spans(span: std::ops::Range<u128>, measured: u128) -> bool {
    span.start <= measured && measured <= span.end
}

/// A key is in the asked state and has been for a measured time that lies in
/// a span, both ends included.
pub open spec fn in_state_for(in_state: bool, span: std::ops::Range<u128>, measured: u128) -> bool {
    in_state && spans(span, measured)
}

/// Whether a measured time lies in a span, both ends included.
pub fn in_span(span: &std::ops::Range<u128>, measured: u128) -> (r: bool)
    ensures
        r == spans(*span, measured),
        r == (span.start <= measured && measured <= span.end),
{
    span.start <= measured && measured <= span.end
}

/// The measured time if the key is in the asked state, else nothing.
pub fn time_if(in_state: bool, measured: u128) -> (r: Option<u128>)
    ensures
        r == if in_state { Some(measured) } else { None::<u128> },
{
    if in_state {
        Some(measured)
    } else {
        None
    }
}

} // verus!
