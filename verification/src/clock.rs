use vstd::prelude::*;

verus! {

#[verifier::external_type_specification]
#[verifier::external_body]
pub struct ExInstant(std::time::Instant);

/// Relies on std::time::Instant::now for a monotonic clock reading; nothing
/// is promised of the reading itself.
#[verifier::external_body]
pub(crate) fn instant_now() -> std::time::Instant {
    std::time::Instant::now()
}

/// Relies on std::time::Instant::elapsed for the wall-clock time since
/// `start`; `Duration::as_nanos` only converts the reading to plain
/// nanoseconds. The result depends on the clock, so nothing is promised of
/// it.
#[verifier::external_body]
pub(crate) fn elapsed_nanos(start: &std::time::Instant) -> u128 {
    start.elapsed().as_nanos()
}

/// Executes a function and returns its result together with the time the
/// call took, in nanoseconds.
pub fn exec_with_timing<T, F: FnOnce() -> T>(f: F) -> (r: (T, u128))
    requires
        call_requires(f, ()),
    ensures
        call_ensures(f, (), r.0),
{
    let start = instant_now();
    let result = f();
    (result, elapsed_nanos(&start))
}

} // verus!
