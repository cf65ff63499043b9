//! Trusted wrappers around the machine queries the tracer needs: the
//! monotonic clock, the current CPU, the host name, the CPU count and the
//! date formatter. Each wrapper hands back plain values; what the outside
//! call decides is stated over every possible outcome.

use vstd::prelude::*;

verus! {

pub const NANOS_PER_SEC: u64 = 1_000_000_000;

/// Relies on nix::time::clock_gettime with the monotonic clock: returns the
/// raw (seconds, nanoseconds) reading, where the nanosecond field of a
/// timespec is always below one billion.
#[verifier::external_body]
pub(crate) fn clock_monotonic() -> (r: Option<(i64, i64)>)
    ensures
        r matches Some(sn) ==> 0 <= sn.1 < 1_000_000_000,
{
    match nix::time::clock_gettime(nix::time::ClockId::CLOCK_MONOTONIC) {
        Ok(ts) => Some((ts.tv_sec(), ts.tv_nsec())),
        Err(_) => None,
    }
}

/// Relies on nix::sched::sched_getcpu: the logical CPU the thread runs on,
/// or nothing when the operating system cannot report it.
#[verifier::external_body]
pub(crate) fn current_cpu() -> (r: Option<usize>) {
    nix::sched::sched_getcpu().ok()
}

/// Relies on nix::unistd::gethostname: the host's name, when it can be
/// reported and is valid text.
#[verifier::external_body]
pub(crate) fn hostname() -> (r: Option<String>) {
    match nix::unistd::gethostname() {
        Ok(name) => match name.into_string() {
            Ok(s) => Some(s),
            Err(_) => None,
        },
        Err(_) => None,
    }
}

/// Relies on nix::unistd::sysconf: the number of configured processors,
/// as the raw value the C library reports.
#[verifier::external_body]
pub(crate) fn cpu_count() -> (r: Option<i64>) {
    match nix::unistd::sysconf(nix::unistd::SysconfVar::_NPROCESSORS_CONF) {
        Ok(Some(v)) => Some(v),
        _ => None,
    }
}

/// Relies on chrono: formats the wall-clock seconds as a `DD/MM/YYYY at
/// HH:MM` date in the machine's local time zone. Per chrono's source, a
/// timestamp maps to a unique local time exactly when it is representable,
/// which is a function of the seconds alone; non-negative seconds up to
/// eight billion (far past any realistic wall clock) are representable, so
/// those always format. The text itself depends on the machine's time zone,
/// so nothing is stated of it.
#[verifier::external_body]
pub(crate) fn format_trace_date(secs: i64) -> (r: Option<String>)
    ensures
        0 <= secs <= 8_000_000_000 ==> r is Some,
{
    match chrono::TimeZone::timestamp_opt(&chrono::Local, secs, 0) {
        chrono::LocalResult::Single(dt) => {
            Some(dt.format("%d/%m/%Y at %H:%M").to_string())
        },
        _ => None,
    }
}

/// The nanoseconds of monotonic clock time since an unspecified origin, or
/// zero when the clock cannot be read; saturates rather than overflowing on
/// readings beyond what sixty-four bits hold.
pub fn monotonic_nanos() -> (r: u64) {
    match clock_monotonic() {
        Some((sec, nsec)) => {
            if sec < 0 {
                0
            } else if sec as u64 > 18_000_000_000 {
                u64::MAX
            } else {
                (sec as u64) * NANOS_PER_SEC + (nsec as u64)
            }
        },
        None => 0,
    }
}

/// The logical CPU of the calling thread as a sixteen-bit id; zero when the
/// operating system cannot report one or reports one too large for the
/// record format.
pub fn current_core_id() -> (r: u16) {
    match current_cpu() {
        Some(c) => {
            if c <= u16::MAX as usize {
                c as u16
            } else {
                0
            }
        },
        None => 0,
    }
}

} // verus!
