//! One thread's buffer: the in-memory record queue plus the bookkeeping for
//! its backing file. The library never touches the file itself; it reports
//! through `flush_blocks` what the embedding application must write, and an
//! empty buffer reports nothing, so a thread that never emitted never
//! creates a file.

use vstd::prelude::*;

use crate::bufferinfo::{spec_entries_bytes, spec_header_bytes, BufferInfo, MAX_ENTRIES};
use crate::event::{EventEntry, EventInfo};

verus! {

/// A per-thread buffer bound to (but not owning) its backing file.
#[derive(Debug)]
pub struct Buffer {
    pub name: String,
    pub path: String,
    pub origin_ns: u64,
    pub file_started: bool,
    pub info: BufferInfo,
}

impl Buffer {
    pub open spec fn wf(&self) -> bool {
        self.info.wf()
    }

    /// A fresh buffer for one thread. No file exists for it yet.
    pub fn new(id: u32, tid: u64, name: &str, path: String, start_gtime: u64, origin_ns: u64) -> (r:
        Buffer)
        ensures
            r.wf(),
            r.name@ == name@,
            r.path == path,
            r.origin_ns == origin_ns,
            r.file_started == false,
            r.info.header.id == id,
            r.info.header.tid == tid,
            r.info.header.start_gtime == start_gtime,
            r.info.header.total_flushed == 0,
            r.info.entries@ == Seq::<EventEntry>::empty(),
    {
        Buffer {
            name: name.to_owned(),
            path,
            origin_ns,
            file_started: false,
            info: BufferInfo::new(id, tid, start_gtime),
        }
    }

    /// The buffer ordinal: the thread's identity in the merged trace.
    pub fn id(&self) -> (r: u32)
        ensures
            r == self.info.header.id,
    {
        self.info.header.id
    }

    /// The opaque key of the thread this buffer belongs to.
    pub fn tid(&self) -> (r: u64)
        ensures
            r == self.info.header.tid,
    {
        self.info.header.tid
    }

    /// The thread's name.
    pub fn name(&self) -> (r: &str)
        ensures
            r@ == self.name@,
    {
        self.name.as_str()
    }

    pub fn len(&self) -> (r: usize)
        ensures
            r == self.info.entries@.len(),
    {
        self.info.len()
    }

    /// Whether the next append needs a flush first.
    pub fn is_full(&self) -> (r: bool)
        requires
            self.wf(),
        ensures
            r == (self.info.entries@.len() == MAX_ENTRIES),
    {
        self.info.is_full()
    }

    /// Append one record of the given kind and payload, stamped at the
    /// current instant relative to this buffer's trace origin.
    pub fn emplace_event(&mut self, id: u16, value: u32)
        requires
            old(self).wf(),
            old(self).info.entries@.len() < MAX_ENTRIES,
            old(self).info.header.total_flushed + old(self).info.entries@.len() + 1
                <= u32::MAX,
        ensures
            final(self).wf(),
            final(self).name == old(self).name,
            final(self).path == old(self).path,
            final(self).origin_ns == old(self).origin_ns,
            final(self).file_started == old(self).file_started,
            final(self).info.header == old(self).info.header,
            final(self).info.entries@.len() == old(self).info.entries@.len() + 1,
            final(self).info.entries@.drop_last() == old(self).info.entries@,
            final(self).info.entries@.last().info == (EventInfo { id, value }),
    {
        let e = EventEntry::new_at(id, value, self.origin_ns);
        self.info.push_entry(e);
        proof {
            assert(final(self).info.entries@.drop_last() =~= old(self).info.entries@);
        }
    }

    /// Append several observations sharing one instant.
    pub fn emplace_events(&mut self, events: &Vec<(u16, u32)>)
        requires
            old(self).wf(),
            old(self).info.entries@.len() + events@.len() <= MAX_ENTRIES,
            old(self).info.header.total_flushed + old(self).info.entries@.len()
                + events@.len() <= u32::MAX,
        ensures
            final(self).wf(),
            final(self).name == old(self).name,
            final(self).path == old(self).path,
            final(self).origin_ns == old(self).origin_ns,
            final(self).file_started == old(self).file_started,
            final(self).info.header == old(self).info.header,
            final(self).info.entries@.len() == old(self).info.entries@.len() + events@.len(),
            final(self).info.entries@.take(old(self).info.entries@.len() as int) == old(
                self,
            ).info.entries@,
            forall|j: int|
                0 <= j < events@.len() ==> (#[trigger] final(self).info.entries@[old(
                    self,
                ).info.entries@.len() + j]).info == (EventInfo {
                    id: events@[j].0,
                    value: events@[j].1,
                }),
            forall|j: int, j2: int|
                0 <= j < events@.len() && 0 <= j2 < events@.len()
                    ==> (#[trigger] final(self).info.entries@[old(self).info.entries@.len()
                    + j]).hdr == (#[trigger] final(self).info.entries@[old(
                    self,
                ).info.entries@.len() + j2]).hdr,
    {
        self.info.emplace_events(events);
    }

    /// Flush the pending records. An empty buffer stays untouched and asks
    /// for nothing, so no file ever exists for a thread that never emitted.
    /// Otherwise the buffer notes that its file now exists and returns the
    /// rewritten header block and the packed records to append to it.
    pub fn flush_blocks(&mut self) -> (r: Option<(Vec<u8>, Vec<u8>)>)
        requires
            old(self).wf(),
        ensures
            final(self).wf(),
            final(self).name == old(self).name,
            final(self).path == old(self).path,
            final(self).origin_ns == old(self).origin_ns,
            old(self).info.entries@.len() == 0 ==> r is None && *final(self) == *old(self),
            old(self).info.entries@.len() > 0 ==> match r {
                Some(blocks) => {
                    &&& final(self).file_started == true
                    &&& final(self).info.header.id == old(self).info.header.id
                    &&& final(self).info.header.tid == old(self).info.header.tid
                    &&& final(self).info.header.start_gtime == old(self).info.header.start_gtime
                    &&& final(self).info.header.total_flushed == old(
                        self,
                    ).info.header.total_flushed + old(self).info.entries@.len()
                    &&& final(self).info.entries@ == Seq::<EventEntry>::empty()
                    &&& blocks.0@ == spec_header_bytes(final(self).info.header)
                    &&& blocks.1@ == spec_entries_bytes(old(self).info.entries@)
                },
                None => false,
            },
    {
        if self.info.is_empty() {
            return None;
        }
        let r = self.info.flush_blocks();
        self.file_started = true;
        r
    }
}

} // verus!
