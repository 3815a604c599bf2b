//! Time: lengths of time, and the clocks of the machine.
//!
//! Points on the monotonic clock are numbers of nanoseconds since some start; the wall clock
//! counts seconds since the Unix epoch.
use std::time::{Duration, Instant, SystemTime, SystemTimeError};
use vstd::prelude::*;

verus! {

/// A point on the monotonic clock.
#[verifier::external_type_specification]
#[verifier::external_body]
pub struct ExInstant(std::time::Instant);

/// A point on the wall clock.
#[verifier::external_type_specification]
#[verifier::external_body]
pub struct ExSystemTime(std::time::SystemTime);

/// The error of `SystemTime::duration_since`.
#[verifier::external_type_specification]
#[verifier::external_body]
pub struct ExSystemTimeError(std::time::SystemTimeError);

/// `Instant::now`: the current point on the monotonic clock.
pub assume_specification[ std::time::Instant::now ]() -> (r: std::time::Instant)
;

/// `Instant::elapsed`: the time since a point on the monotonic clock.
pub assume_specification[ std::time::Instant::elapsed ](
    start: &std::time::Instant,
) -> (r: std::time::Duration)
;

/// `SystemTime::now`: the current point on the wall clock.
pub assume_specification[ std::time::SystemTime::now ]() -> (r: std::time::SystemTime)
;

/// `SystemTime::duration_since`: the time between two points on the wall clock.
pub assume_specification[ std::time::SystemTime::duration_since ](
    later: &std::time::SystemTime,
    earlier: std::time::SystemTime,
) -> (r: Result<std::time::Duration, std::time::SystemTimeError>)
;

/// `Duration::as_secs`: the whole seconds of a measured time.
pub assume_specification[ std::time::Duration::as_secs ](d: &std::time::Duration) -> (r: u64)
;

/// `Duration::subsec_nanos`: the nanoseconds of a measured time beyond its whole seconds, less
/// than a second.
pub assume_specification[ std::time::Duration::subsec_nanos ](d: &std::time::Duration) -> (r: u32)
    ensures
        r < 1_000_000_000,
;

/// The Unix epoch on the wall clock, `SystemTime::UNIX_EPOCH`.
#[verifier::external_body]
fn unix_epoch() -> (r: SystemTime) {
    SystemTime::UNIX_EPOCH
}

/// Nanoseconds in a second.
pub const NANOS_PER_SEC: u128 = 1_000_000_000;

/// A length of time.
#[derive(Debug, Clone, Copy, PartialEq, Eq, Structural)]
pub struct Span {
    pub nanos: u128,
}

impl Span {
    /// The whole seconds of the span, which stop at the largest `u64`.
    pub open spec fn spec_secs(self) -> nat {
        let secs = self.nanos as nat / 1_000_000_000;
        if secs <= u64::MAX {
            secs
        } else {
            u64::MAX as nat
        }
    }

    /// A span of whole seconds.
    pub fn from_secs(secs: u64) -> (r: Span)
        ensures
            r.nanos == secs * 1_000_000_000,
            r.spec_secs() == secs,
    {
        Span { nanos: secs as u128 * NANOS_PER_SEC }
    }

    /// The whole seconds of the span.
    pub fn as_secs(&self) -> (r: u64)
        ensures
            r as nat == self.spec_secs(),
    {
        let secs: u128 = self.nanos / NANOS_PER_SEC;
        if secs <= u64::MAX as u128 {
            secs as u64
        } else {
            u64::MAX
        }
    }
}

/// `a + b`, which stops at the end of the clock.
pub open spec fn later(at: u128, span: Span) -> u128 {
    if at + span.nanos <= u128::MAX {
        (at + span.nanos) as u128
    } else {
        u128::MAX
    }
}

/// The point `span` after `at`.
pub fn after(at: u128, span: Span) -> (r: u128)
    ensures
        r == later(at, span),
{
    match at.checked_add(span.nanos) {
        Some(t) => t,
        None => u128::MAX,
    }
}

/// The nanoseconds of a measured time of `secs` whole seconds and `nanos` nanoseconds beyond them.
pub fn measured_nanos(secs: u64, nanos: u32) -> (r: u128)
    ensures
        r == secs * 1_000_000_000 + nanos,
{
    secs as u128 * NANOS_PER_SEC + nanos as u128
}

/// `d` is a time that `Instant::elapsed` measured from `start` on.
pub open spec fn is_measured(start: Instant, d: Duration) -> bool {
    call_ensures(Instant::elapsed, (&start,), d)
}

/// `now` is a reading of the monotonic clock, in nanoseconds since `start`: the nanoseconds of a
/// time that was measured from there on.
pub open spec fn is_elapsed(start: Instant, now: u128) -> bool {
    exists|d: Duration, secs: u64, nanos: u32|
        {
            &&& #[trigger] is_measured(start, d)
            &&& #[trigger] call_ensures(Duration::as_secs, (&d,), secs)
            &&& #[trigger] call_ensures(Duration::subsec_nanos, (&d,), nanos)
            &&& now == secs * 1_000_000_000 + nanos
        }
}

/// `at` is a point that `Instant::now` read from the monotonic clock.
pub open spec fn is_instant(at: Instant) -> bool {
    call_ensures(Instant::now, (), at)
}

/// Reads the monotonic clock.
pub fn instant() -> (r: Instant)
    ensures
        is_instant(r),
{
    Instant::now()
}

/// Nanoseconds on the monotonic clock since `start`.
pub fn nanos_since(start: &Instant) -> (r: u128)
    ensures
        r <= 0xffff_ffff_ffff_ffff * 1_000_000_000 + 999_999_999,
        is_elapsed(*start, r),
{
    let elapsed = start.elapsed();
    let secs: u64 = elapsed.as_secs();
    let nanos: u32 = elapsed.subsec_nanos();
    assert(is_measured(*start, elapsed));
    measured_nanos(secs, nanos)
}

/// The wall clock's time, given the whole seconds since the Unix epoch; nothing where it shows a
/// time before it.
pub fn wall_secs(since_epoch: Option<u64>) -> (r: u64)
    ensures
        r == (match since_epoch {
            Some(secs) => secs,
            None => 0,
        }),
{
    match since_epoch {
        Some(secs) => secs,
        None => 0,
    }
}

/// `at` is the Unix epoch.
pub closed spec fn is_unix_epoch(at: SystemTime) -> bool {
    call_ensures(unix_epoch, (), at)
}

/// `d` is the time from the Unix epoch to a point that `SystemTime::now` read from the wall clock;
/// an error where that point is before it.
pub open spec fn is_since_epoch(d: Result<Duration, SystemTimeError>) -> bool {
    exists|at: SystemTime, epoch: SystemTime|
        {
            &&& #[trigger] call_ensures(SystemTime::now, (), at)
            &&& #[trigger] is_unix_epoch(epoch)
            &&& call_ensures(SystemTime::duration_since, (&at, epoch), d)
        }
}

/// `wall` is a reading of the wall clock, in seconds since the Unix epoch; 0 before it.
pub open spec fn is_wall(wall: u64) -> bool {
    exists|d: Result<Duration, SystemTimeError>| #[trigger]
        is_since_epoch(d) && match d {
            Ok(elapsed) => call_ensures(Duration::as_secs, (&elapsed,), wall),
            Err(_) => wall == 0,
        }
}

/// Seconds since the Unix epoch on the wall clock; 0 before it.
pub fn unix_now() -> (r: u64)
    ensures
        is_wall(r),
{
    let at = SystemTime::now();
    let epoch = unix_epoch();
    let d = at.duration_since(epoch);
    assert(is_unix_epoch(epoch));
    assert(is_since_epoch(d));
    let since_epoch: Option<u64> = match &d {
        Ok(elapsed) => Some(elapsed.as_secs()),
        Err(_) => None,
    };
    wall_secs(since_epoch)
}

/// A time since a start is what `Instant::elapsed` measured, in nanoseconds, and nothing else is.
pub proof fn law_elapsed_time_is_measured(start: Instant, now: u128)
    requires
        is_elapsed(start, now),
    ensures
        exists|d: Duration, secs: u64, nanos: u32|
            {
                &&& #[trigger] call_ensures(Instant::elapsed, (&start,), d)
                &&& #[trigger] call_ensures(Duration::as_secs, (&d,), secs)
                &&& #[trigger] call_ensures(Duration::subsec_nanos, (&d,), nanos)
                &&& now == 1_000_000_000 * secs + nanos
            },
{
    let (d, secs, nanos) = choose|d: Duration, secs: u64, nanos: u32|
        {
            &&& #[trigger] is_measured(start, d)
            &&& #[trigger] call_ensures(Duration::as_secs, (&d,), secs)
            &&& #[trigger] call_ensures(Duration::subsec_nanos, (&d,), nanos)
            &&& now == secs * 1_000_000_000 + nanos
        };
    assert(call_ensures(Instant::elapsed, (&start,), d));
}

/// A time on the wall clock is what `SystemTime::now` read, in whole seconds since the Unix epoch,
/// or 0 before it, and nothing else is; an instant is what `Instant::now` read.
pub proof fn law_the_wall_clock_is_read(wall: u64, at: Instant)
    ensures
        is_wall(wall) ==> exists|
            read: SystemTime,
            epoch: SystemTime,
            d: Result<Duration, SystemTimeError>,
        |
            {
                &&& #[trigger] call_ensures(SystemTime::now, (), read)
                &&& is_unix_epoch(epoch)
                &&& #[trigger] call_ensures(SystemTime::duration_since, (&read, epoch), d)
                &&& d matches Ok(elapsed) ==> call_ensures(Duration::as_secs, (&elapsed,), wall)
                &&& d is Err ==> wall == 0
            },
        is_instant(at) ==> call_ensures(Instant::now, (), at),
{
    if is_wall(wall) {
        let d = choose|d: Result<Duration, SystemTimeError>| #[trigger]
            is_since_epoch(d) && match d {
                Ok(elapsed) => call_ensures(Duration::as_secs, (&elapsed,), wall),
                Err(_) => wall == 0,
            };
        let (read, epoch) = choose|read: SystemTime, epoch: SystemTime|
            {
                &&& #[trigger] call_ensures(SystemTime::now, (), read)
                &&& #[trigger] is_unix_epoch(epoch)
                &&& call_ensures(SystemTime::duration_since, (&read, epoch), d)
            };
        assert(call_ensures(SystemTime::duration_since, (&read, epoch), d));
    }
}

/// The Unix epoch is the constant of that name.
proof fn law_the_epoch_is_the_constant(at: SystemTime)
    ensures
        is_unix_epoch(at) ==> call_ensures(unix_epoch, (), at),
{
}

} // verus!
