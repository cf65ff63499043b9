//! The event record: a fixed-size observation `(time_ns, core_id, event_id,
//! value)` taken at one instant on one thread. Records are built once and
//! never mutated afterwards.

use vstd::prelude::*;

use crate::sys;

verus! {

/// When and where an observation was taken: nanoseconds since the trace
/// origin and the logical CPU that recorded it.
#[derive(Clone, Copy, PartialEq, Eq, Structural, Debug)]
pub struct EventHeader {
    pub time: u64,
    pub core: u16,
}

/// What was observed: the event kind and its event-specific payload.
#[derive(Clone, Copy, PartialEq, Eq, Structural, Debug)]
pub struct EventInfo {
    pub id: u16,
    pub value: u32,
}

/// One record: header plus payload, the unit the per-thread files store.
#[derive(Clone, Copy, PartialEq, Eq, Structural, Debug)]
pub struct EventEntry {
    pub hdr: EventHeader,
    pub info: EventInfo,
}

impl EventHeader {
    /// A header stamped at the current instant: the monotonic clock reading
    /// rebased to the given trace origin (zero when the clock reads before
    /// it), and the current logical CPU, zero when it cannot be reported.
    pub fn now(origin_ns: u64) -> (h: EventHeader) {
        let raw = sys::monotonic_nanos();
        let time: u64 = if raw >= origin_ns {
            raw - origin_ns
        } else {
            0
        };
        EventHeader { time, core: sys::current_core_id() }
    }
}

impl core::convert::From<(u16, u32)> for EventInfo {
    fn from(tuple: (u16, u32)) -> (r: EventInfo) {
        EventInfo { id: tuple.0, value: tuple.1 }
    }
}

impl vstd::std_specs::convert::FromSpecImpl<(u16, u32)> for EventInfo {
    open spec fn obeys_from_spec() -> bool {
        true
    }

    open spec fn from_spec(tuple: (u16, u32)) -> EventInfo {
        EventInfo { id: tuple.0, value: tuple.1 }
    }
}

impl EventEntry {
    /// A record of the given kind and payload, stamped at the current
    /// instant with the clock's raw origin.
    pub fn new(id: u16, value: u32) -> (e: EventEntry)
        ensures
            e.info == (EventInfo { id, value }),
    {
        EventEntry::new_at(id, value, 0)
    }

    /// A record of the given kind and payload, stamped at the current
    /// instant relative to the given trace origin.
    pub fn new_at(id: u16, value: u32, origin_ns: u64) -> (e: EventEntry)
        ensures
            e.info == (EventInfo { id, value }),
    {
        EventEntry { hdr: EventHeader::now(origin_ns), info: EventInfo { id, value } }
    }
}

impl PartialOrd for EventEntry {
    /// Records order by their timestamp alone.
    fn partial_cmp(&self, other: &Self) -> (r: Option<core::cmp::Ordering>) {
        if self.hdr.time < other.hdr.time {
            Some(core::cmp::Ordering::Less)
        } else if self.hdr.time == other.hdr.time {
            Some(core::cmp::Ordering::Equal)
        } else {
            Some(core::cmp::Ordering::Greater)
        }
    }
}

impl vstd::std_specs::cmp::PartialOrdSpecImpl for EventEntry {
    open spec fn obeys_partial_cmp_spec() -> bool {
        true
    }

    open spec fn partial_cmp_spec(&self, other: &Self) -> Option<core::cmp::Ordering> {
        if self.hdr.time < other.hdr.time {
            Some(core::cmp::Ordering::Less)
        } else if self.hdr.time == other.hdr.time {
            Some(core::cmp::Ordering::Equal)
        } else {
            Some(core::cmp::Ordering::Greater)
        }
    }
}

} // verus!
