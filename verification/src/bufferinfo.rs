//! The per-thread trace file format and the in-memory buffer behind it: a
//! 24-byte header (buffer id, thread key, wall-clock start, records flushed
//! so far) followed by packed 16-byte records, all little-endian. The buffer
//! accumulates records in memory and, on flush, hands back the byte blocks
//! the backing file takes: a rewritten header for offset zero and a payload
//! block to append at the end.

use vstd::prelude::*;
use vstd::bytes::{
    lemma_auto_spec_u16_to_from_le_bytes, lemma_auto_spec_u32_to_from_le_bytes,
    lemma_auto_spec_u64_to_from_le_bytes, spec_u16_from_le_bytes, spec_u16_to_le_bytes,
    spec_u32_from_le_bytes, spec_u32_to_le_bytes, spec_u64_from_le_bytes, spec_u64_to_le_bytes,
    u16_from_le_bytes, u16_to_le_bytes, u32_from_le_bytes, u32_to_le_bytes, u64_from_le_bytes,
    u64_to_le_bytes,
};
use vstd::slice::slice_subrange;

use crate::event::{EventEntry, EventHeader, EventInfo};

verus! {

/// Size of the file header in bytes.
pub const HEADER_BYTES: usize = 24;

/// Size of one record on disk in bytes.
pub const ENTRY_BYTES: usize = 16;

/// The in-memory bound: how many records fit in one mebibyte.
pub const MAX_ENTRIES: usize = 1024 * 1024 / 16;

/// The header of a per-thread trace file: the buffer ordinal, the opaque
/// thread key, the wall-clock seconds at which the trace began, and how many
/// records follow the header in the file.
#[derive(Clone, Copy, PartialEq, Eq, Structural, Debug)]
pub struct TraceHeader {
    pub id: u32,
    pub tid: u64,
    pub start_gtime: u64,
    pub total_flushed: u32,
}

/// The byte image of a file header.
pub open spec fn spec_header_bytes(h: TraceHeader) -> Seq<u8> {
    spec_u32_to_le_bytes(h.id) + spec_u64_to_le_bytes(h.tid) + spec_u64_to_le_bytes(h.start_gtime)
        + spec_u32_to_le_bytes(h.total_flushed)
}

/// The header a 24-byte block decodes to.
pub open spec fn spec_header_of(s: Seq<u8>) -> TraceHeader {
    TraceHeader {
        id: spec_u32_from_le_bytes(s.subrange(0, 4)),
        tid: spec_u64_from_le_bytes(s.subrange(4, 12)),
        start_gtime: spec_u64_from_le_bytes(s.subrange(12, 20)),
        total_flushed: spec_u32_from_le_bytes(s.subrange(20, 24)),
    }
}

/// The byte image of one record.
pub open spec fn spec_entry_bytes(e: EventEntry) -> Seq<u8> {
    spec_u64_to_le_bytes(e.hdr.time) + spec_u16_to_le_bytes(e.hdr.core) + spec_u16_to_le_bytes(
        e.info.id,
    ) + spec_u32_to_le_bytes(e.info.value)
}

/// The record a 16-byte block decodes to.
pub open spec fn spec_entry_of(s: Seq<u8>) -> EventEntry {
    EventEntry {
        hdr: EventHeader {
            time: spec_u64_from_le_bytes(s.subrange(0, 8)),
            core: spec_u16_from_le_bytes(s.subrange(8, 10)),
        },
        info: EventInfo {
            id: spec_u16_from_le_bytes(s.subrange(10, 12)),
            value: spec_u32_from_le_bytes(s.subrange(12, 16)),
        },
    }
}

/// The byte image of a sequence of records, packed with no framing.
pub open spec fn spec_entries_bytes(es: Seq<EventEntry>) -> Seq<u8>
    decreases es.len(),
{
    if es.len() == 0 {
        Seq::empty()
    } else {
        spec_entry_bytes(es[0]) + spec_entries_bytes(es.drop_first())
    }
}

/// The byte image of a whole per-thread file: header, then records.
pub open spec fn spec_file_image(h: TraceHeader, es: Seq<EventEntry>) -> Seq<u8> {
    spec_header_bytes(h) + spec_entries_bytes(es)
}

/// Round trip of the header encoding: decoding the image gives the header
/// back, and every 24-byte block is the image of the header it decodes to.
pub proof fn lemma_header_codec(h: TraceHeader)
    ensures
        spec_header_bytes(h).len() == HEADER_BYTES,
        spec_header_of(spec_header_bytes(h)) == h,
{
    lemma_auto_spec_u32_to_from_le_bytes();
    lemma_auto_spec_u64_to_from_le_bytes();
    let s = spec_header_bytes(h);
    assert(s.subrange(0, 4) =~= spec_u32_to_le_bytes(h.id));
    assert(s.subrange(4, 12) =~= spec_u64_to_le_bytes(h.tid));
    assert(s.subrange(12, 20) =~= spec_u64_to_le_bytes(h.start_gtime));
    assert(s.subrange(20, 24) =~= spec_u32_to_le_bytes(h.total_flushed));
}

/// Round trip of the record encoding.
pub proof fn lemma_entry_codec(e: EventEntry)
    ensures
        spec_entry_bytes(e).len() == ENTRY_BYTES,
        spec_entry_of(spec_entry_bytes(e)) == e,
{
    lemma_auto_spec_u16_to_from_le_bytes();
    lemma_auto_spec_u32_to_from_le_bytes();
    lemma_auto_spec_u64_to_from_le_bytes();
    let s = spec_entry_bytes(e);
    assert(s.subrange(0, 8) =~= spec_u64_to_le_bytes(e.hdr.time));
    assert(s.subrange(8, 10) =~= spec_u16_to_le_bytes(e.hdr.core));
    assert(s.subrange(10, 12) =~= spec_u16_to_le_bytes(e.info.id));
    assert(s.subrange(12, 16) =~= spec_u32_to_le_bytes(e.info.value));
}

/// The packed image of `n` records is `16 * n` bytes.
pub proof fn lemma_entries_bytes_len(es: Seq<EventEntry>)
    ensures
        spec_entries_bytes(es).len() == ENTRY_BYTES * es.len(),
    decreases es.len(),
{
    if es.len() == 0 {
    } else {
        lemma_entry_codec(es[0]);
        lemma_entries_bytes_len(es.drop_first());
    }
}

/// Packing distributes over appending one record at the end.
pub proof fn lemma_entries_bytes_push(es: Seq<EventEntry>, e: EventEntry)
    ensures
        spec_entries_bytes(es.push(e)) == spec_entries_bytes(es) + spec_entry_bytes(e),
    decreases es.len(),
{
    if es.len() == 0 {
        assert(es.push(e).drop_first() =~= es);
        assert(spec_entries_bytes(es.push(e)) =~= spec_entry_bytes(e));
        assert(spec_entries_bytes(es) + spec_entry_bytes(e) =~= spec_entry_bytes(e));
    } else {
        assert(es.push(e).drop_first() =~= es.drop_first().push(e));
        lemma_entries_bytes_push(es.drop_first(), e);
        assert(spec_entries_bytes(es.push(e)) =~= spec_entries_bytes(es) + spec_entry_bytes(e));
    }
}

/// Packing distributes over concatenation of record sequences.
pub proof fn lemma_entries_bytes_concat(a: Seq<EventEntry>, b: Seq<EventEntry>)
    ensures
        spec_entries_bytes(a + b) == spec_entries_bytes(a) + spec_entries_bytes(b),
    decreases b.len(),
{
    if b.len() == 0 {
        assert(a + b =~= a);
        assert(spec_entries_bytes(a) + spec_entries_bytes(b) =~= spec_entries_bytes(a));
    } else {
        let b0 = b.drop_last();
        lemma_entries_bytes_concat(a, b0);
        assert(a + b =~= (a + b0).push(b.last()));
        assert(b =~= b0.push(b.last()));
        lemma_entries_bytes_push(a + b0, b.last());
        lemma_entries_bytes_push(b0, b.last());
        assert(spec_entries_bytes(a + b) =~= spec_entries_bytes(a) + spec_entries_bytes(b));
    }
}

/// Two file images are equal only when header and records are equal: the
/// encoding loses nothing, so reading a file back yields exactly what was
/// written.
pub proof fn lemma_file_image_injective(
    h1: TraceHeader,
    es1: Seq<EventEntry>,
    h2: TraceHeader,
    es2: Seq<EventEntry>,
)
    requires
        spec_file_image(h1, es1) == spec_file_image(h2, es2),
        es1.len() == es2.len(),
    ensures
        h1 == h2,
        es1 == es2,
    decreases es1.len(),
{
    lemma_header_codec(h1);
    lemma_header_codec(h2);
    let i1 = spec_file_image(h1, es1);
    let i2 = spec_file_image(h2, es2);
    assert(i1.subrange(0, 24) =~= spec_header_bytes(h1));
    assert(i2.subrange(0, 24) =~= spec_header_bytes(h2));
    assert(h1 == h2);
    if es1.len() == 0 {
        assert(es1 =~= es2);
    } else {
        lemma_entry_codec(es1[0]);
        lemma_entry_codec(es2[0]);
        lemma_entries_bytes_len(es1);
        lemma_entries_bytes_len(es2);
        assert(i1.subrange(24, 40) =~= spec_entry_bytes(es1[0]));
        assert(i2.subrange(24, 40) =~= spec_entry_bytes(es2[0]));
        assert(es1[0] == es2[0]);
        let t1 = es1.drop_first();
        let t2 = es2.drop_first();
        assert(spec_file_image(h1, t1) =~= spec_header_bytes(h1) + spec_entries_bytes(t1));
        assert(i1.skip(40) =~= spec_entries_bytes(t1)) by {
            assert(i1 =~= spec_header_bytes(h1) + spec_entry_bytes(es1[0]) + spec_entries_bytes(
                t1,
            ));
        }
        assert(i2.skip(40) =~= spec_entries_bytes(t2)) by {
            assert(i2 =~= spec_header_bytes(h2) + spec_entry_bytes(es2[0]) + spec_entries_bytes(
                t2,
            ));
        }
        assert(spec_file_image(h1, t1) =~= spec_file_image(h2, t2));
        lemma_file_image_injective(h1, t1, h2, t2);
        assert forall|i: int| 0 <= i < es1.len() implies es1[i] == es2[i] by {
            if i > 0 {
                assert(t1[i - 1] == es1[i]);
                assert(t2[i - 1] == es2[i]);
            }
        }
        assert(es1 =~= es2);
    }
}

/// Round trip of a whole file: a file image determines its header and its
/// records, so parsing a file written from any sequence of emissions yields
/// exactly that sequence, with the flushed count equal to its length.
pub proof fn lemma_file_round_trip(
    h1: TraceHeader,
    es1: Seq<EventEntry>,
    h2: TraceHeader,
    es2: Seq<EventEntry>,
)
    requires
        h1.total_flushed == es1.len(),
        h2.total_flushed == es2.len(),
        spec_file_image(h1, es1) == spec_file_image(h2, es2),
    ensures
        h1 == h2,
        es1 == es2,
{
    lemma_header_codec(h1);
    lemma_header_codec(h2);
    let i1 = spec_file_image(h1, es1);
    let i2 = spec_file_image(h2, es2);
    assert(i1.subrange(0, 24) =~= spec_header_bytes(h1));
    assert(i2.subrange(0, 24) =~= spec_header_bytes(h2));
    assert(h1 == h2);
    lemma_file_image_injective(h1, es1, h2, es2);
}

impl TraceHeader {
    /// A fresh header: nothing flushed yet.
    pub fn new(id: u32, tid: u64, start_gtime: u64) -> (h: TraceHeader)
        ensures
            h == (TraceHeader { id, tid, start_gtime, total_flushed: 0u32 }),
    {
        TraceHeader { id, tid, start_gtime, total_flushed: 0 }
    }

    /// The 24-byte image of this header.
    pub fn as_bytes(&self) -> (r: Vec<u8>)
        ensures
            r@ == spec_header_bytes(*self),
            r@.len() == HEADER_BYTES,
    {
        proof {
            lemma_header_codec(*self);
        }
        let mut r = u32_to_le_bytes(self.id);
        let mut b1 = u64_to_le_bytes(self.tid);
        let mut b2 = u64_to_le_bytes(self.start_gtime);
        let mut b3 = u32_to_le_bytes(self.total_flushed);
        r.append(&mut b1);
        r.append(&mut b2);
        r.append(&mut b3);
        proof {
            assert(r@ =~= spec_header_bytes(*self));
        }
        r
    }

    /// The header a 24-byte block decodes to.
    pub fn from_bytes(s: &[u8]) -> (h: TraceHeader)
        requires
            s@.len() == HEADER_BYTES,
        ensures
            h == spec_header_of(s@),
    {
        let id = u32_from_le_bytes(slice_subrange(s, 0, 4));
        let tid = u64_from_le_bytes(slice_subrange(s, 4, 12));
        let start_gtime = u64_from_le_bytes(slice_subrange(s, 12, 20));
        let total_flushed = u32_from_le_bytes(slice_subrange(s, 20, 24));
        TraceHeader { id, tid, start_gtime, total_flushed }
    }
}

impl EventEntry {
    /// The 16-byte image of this record.
    pub fn as_bytes(&self) -> (r: Vec<u8>)
        ensures
            r@ == spec_entry_bytes(*self),
            r@.len() == ENTRY_BYTES,
    {
        proof {
            lemma_entry_codec(*self);
        }
        let mut r = u64_to_le_bytes(self.hdr.time);
        let mut b1 = u16_to_le_bytes(self.hdr.core);
        let mut b2 = u16_to_le_bytes(self.info.id);
        let mut b3 = u32_to_le_bytes(self.info.value);
        r.append(&mut b1);
        r.append(&mut b2);
        r.append(&mut b3);
        proof {
            assert(r@ =~= spec_entry_bytes(*self));
        }
        r
    }

    /// The record a 16-byte block decodes to.
    pub fn from_bytes(s: &[u8]) -> (e: EventEntry)
        requires
            s@.len() == ENTRY_BYTES,
        ensures
            e == spec_entry_of(s@),
    {
        let time = u64_from_le_bytes(slice_subrange(s, 0, 8));
        let core = u16_from_le_bytes(slice_subrange(s, 8, 10));
        let id = u16_from_le_bytes(slice_subrange(s, 10, 12));
        let value = u32_from_le_bytes(slice_subrange(s, 12, 16));
        EventEntry { hdr: EventHeader { time, core }, info: EventInfo { id, value } }
    }
}

/// Why a byte block is not a per-thread trace file.
#[derive(Clone, Copy, PartialEq, Eq, Structural, Debug)]
pub enum ParseError {
    /// Shorter than a file header.
    TooShort,
    /// The length does not match the record count the header declares.
    CountMismatch,
}

/// The in-memory side of one thread's trace: the running header and the
/// records accumulated since the last flush.
#[derive(Debug, PartialEq)]
pub struct BufferInfo {
    pub header: TraceHeader,
    pub entries: Vec<EventEntry>,
}

impl BufferInfo {
    /// The buffer never holds more records than the bound, and the total
    /// ever flushed plus what is pending still fits the header's counter.
    pub open spec fn wf(&self) -> bool {
        &&& self.entries@.len() <= MAX_ENTRIES
        &&& self.header.total_flushed + self.entries@.len() <= u32::MAX
    }

    /// A fresh, empty buffer.
    pub fn new(id: u32, tid: u64, start_gtime: u64) -> (r: BufferInfo)
        ensures
            r.header == (TraceHeader { id, tid, start_gtime, total_flushed: 0u32 }),
            r.entries@ == Seq::<EventEntry>::empty(),
            r.wf(),
    {
        let entries: Vec<EventEntry> = Vec::new();
        proof {
            assert(entries@ =~= Seq::<EventEntry>::empty());
        }
        BufferInfo { header: TraceHeader::new(id, tid, start_gtime), entries }
    }

    pub fn len(&self) -> (r: usize)
        ensures
            r == self.entries@.len(),
    {
        self.entries.len()
    }

    pub fn is_empty(&self) -> (r: bool)
        ensures
            r == (self.entries@.len() == 0),
    {
        self.entries.len() == 0
    }

    /// Whether the buffer reached its bound; one more append would go past
    /// it, so a flush is due first.
    pub fn is_full(&self) -> (r: bool)
        requires
            self.wf(),
        ensures
            r == (self.entries@.len() == MAX_ENTRIES),
    {
        self.entries.len() == MAX_ENTRIES
    }

    /// The record at one position.
    pub fn get(&self, i: usize) -> (r: EventEntry)
        requires
            i < self.entries@.len(),
        ensures
            r == self.entries@[i as int],
    {
        self.entries[i]
    }

    /// Append one already-built record.
    pub fn push_entry(&mut self, e: EventEntry)
        requires
            old(self).wf(),
            old(self).entries@.len() < MAX_ENTRIES,
            old(self).header.total_flushed + old(self).entries@.len() + 1 <= u32::MAX,
        ensures
            final(self).header == old(self).header,
            final(self).entries@ == old(self).entries@.push(e),
            final(self).wf(),
    {
        self.entries.push(e);
    }

    /// Append a record of the given kind and payload, stamped now.
    pub fn emplace_event(&mut self, id: u16, value: u32)
        requires
            old(self).wf(),
            old(self).entries@.len() < MAX_ENTRIES,
            old(self).header.total_flushed + old(self).entries@.len() + 1 <= u32::MAX,
        ensures
            final(self).header == old(self).header,
            final(self).entries@.len() == old(self).entries@.len() + 1,
            final(self).entries@.drop_last() == old(self).entries@,
            final(self).entries@.last().info == (EventInfo { id, value }),
            final(self).wf(),
    {
        let e = EventEntry::new(id, value);
        self.push_entry(e);
        proof {
            assert(final(self).entries@.drop_last() =~= old(self).entries@);
        }
    }

    /// Append several observations that share one header, so that a single
    /// time-point carries the whole set.
    pub fn emplace_events(&mut self, events: &Vec<(u16, u32)>)
        requires
            old(self).wf(),
            old(self).entries@.len() + events@.len() <= MAX_ENTRIES,
            old(self).header.total_flushed + old(self).entries@.len() + events@.len()
                <= u32::MAX,
        ensures
            final(self).header == old(self).header,
            final(self).entries@.len() == old(self).entries@.len() + events@.len(),
            final(self).entries@.take(old(self).entries@.len() as int) == old(self).entries@,
            forall|j: int|
                0 <= j < events@.len() ==> (#[trigger] final(self).entries@[old(
                    self,
                ).entries@.len() + j]).info == (EventInfo {
                    id: events@[j].0,
                    value: events@[j].1,
                }),
            forall|j: int, j2: int|
                0 <= j < events@.len() && 0 <= j2 < events@.len()
                    ==> (#[trigger] final(self).entries@[old(self).entries@.len() + j]).hdr
                    == (#[trigger] final(self).entries@[old(self).entries@.len() + j2]).hdr,
            final(self).wf(),
    {
        let hdr = EventHeader::now(0);
        let base: usize = self.entries.len();
        let n: usize = events.len();
        for k in 0..n
            invariant
                n == events@.len(),
                base == old(self).entries@.len(),
                self.entries@.len() == base + k,
                self.header == old(self).header,
                self.entries@.take(base as int) == old(self).entries@,
                forall|j: int|
                    0 <= j < k ==> (#[trigger] self.entries@[base + j]).info == (EventInfo {
                        id: events@[j].0,
                        value: events@[j].1,
                    }),
                forall|j: int| 0 <= j < k ==> (#[trigger] self.entries@[base + j]).hdr == hdr,
                base + n <= MAX_ENTRIES,
                self.header.total_flushed + base + n <= u32::MAX,
        {
            let (id, value) = events[k];
            self.entries.push(EventEntry { hdr, info: EventInfo { id, value } });
            proof {
                assert(self.entries@.take(base as int) =~= old(self).entries@);
            }
        }
    }

    /// Flush: nothing happens on an empty buffer (in particular no backing
    /// file need exist); otherwise the header's flushed count absorbs the
    /// pending records and the two byte blocks for the backing file come
    /// back: the rewritten header for offset zero and the packed records to
    /// append at the end of the file.
    pub fn flush_blocks(&mut self) -> (r: Option<(Vec<u8>, Vec<u8>)>)
        requires
            old(self).wf(),
        ensures
            old(self).entries@.len() == 0 ==> r is None && *final(self) == *old(self),
            old(self).entries@.len() > 0 ==> match r {
                Some(blocks) => {
                    &&& final(self).header.id == old(self).header.id
                    &&& final(self).header.tid == old(self).header.tid
                    &&& final(self).header.start_gtime == old(self).header.start_gtime
                    &&& final(self).header.total_flushed == old(self).header.total_flushed + old(
                        self,
                    ).entries@.len()
                    &&& final(self).entries@ == Seq::<EventEntry>::empty()
                    &&& blocks.0@ == spec_header_bytes(final(self).header)
                    &&& blocks.1@ == spec_entries_bytes(old(self).entries@)
                },
                None => false,
            },
            final(self).wf(),
    {
        if self.entries.len() == 0 {
            return None;
        }
        let n: usize = self.entries.len();
        self.header.total_flushed = self.header.total_flushed + (n as u32);
        let header_block = self.header.as_bytes();
        let mut payload: Vec<u8> = Vec::new();
        for k in 0..n
            invariant
                n == self.entries@.len(),
                payload@ == spec_entries_bytes(self.entries@.take(k as int)),
        {
            let mut eb = self.entries[k].as_bytes();
            proof {
                lemma_entries_bytes_push(self.entries@.take(k as int), self.entries@[k as int]);
                assert(self.entries@.take(k as int).push(self.entries@[k as int])
                    =~= self.entries@.take(k + 1));
            }
            payload.append(&mut eb);
        }
        proof {
            assert(self.entries@.take(n as int) =~= self.entries@);
        }
        self.entries.clear();
        proof {
            assert(self.entries@ =~= Seq::<EventEntry>::empty());
        }
        Some((header_block, payload))
    }

    /// Parse a whole per-thread file back. Succeeds exactly on the images
    /// this library writes: a header followed by exactly the number of
    /// records the header declares.
    pub fn parse_file(bytes: &[u8]) -> (r: Result<BufferInfo, ParseError>)
        ensures
            match r {
                Ok(info) => {
                    &&& bytes@ == spec_file_image(info.header, info.entries@)
                    &&& info.entries@.len() == info.header.total_flushed
                },
                Err(ParseError::TooShort) => bytes@.len() < HEADER_BYTES,
                Err(ParseError::CountMismatch) => {
                    &&& bytes@.len() >= HEADER_BYTES
                    &&& bytes@.len() != HEADER_BYTES + ENTRY_BYTES * spec_header_of(
                        bytes@.subrange(0, HEADER_BYTES as int),
                    ).total_flushed
                },
            },
    {
        if bytes.len() < HEADER_BYTES {
            return Err(ParseError::TooShort);
        }
        let header = TraceHeader::from_bytes(slice_subrange(bytes, 0, HEADER_BYTES));
        let n = header.total_flushed as usize;
        let expect: u64 = (HEADER_BYTES as u64) + (ENTRY_BYTES as u64) * (n as u64);
        if (bytes.len() as u64) != expect {
            return Err(ParseError::CountMismatch);
        }
        let mut entries: Vec<EventEntry> = Vec::new();
        proof {
            assert(spec_entries_bytes(entries@) =~= Seq::<u8>::empty());
        }
        for k in 0..n
            invariant
                n == spec_header_of(bytes@.subrange(0, HEADER_BYTES as int)).total_flushed,
                bytes@.len() == HEADER_BYTES + ENTRY_BYTES * n,
                bytes@.len() <= usize::MAX,
                entries@.len() == k,
                spec_entries_bytes(entries@) == bytes@.subrange(
                    HEADER_BYTES as int,
                    HEADER_BYTES as int + ENTRY_BYTES * k,
                ),
        {
            let off: usize = HEADER_BYTES + ENTRY_BYTES * k;
            let e = EventEntry::from_bytes(slice_subrange(bytes, off, off + ENTRY_BYTES));
            proof {
                lemma_entries_bytes_push(entries@, e);
                lemma_entry_codec(e);
                assert(spec_entry_bytes(e) =~= bytes@.subrange(
                    off as int,
                    off as int + ENTRY_BYTES,
                )) by {
                    let block = bytes@.subrange(off as int, off as int + ENTRY_BYTES);
                    lemma_auto_spec_u16_to_from_le_bytes();
                    lemma_auto_spec_u32_to_from_le_bytes();
                    lemma_auto_spec_u64_to_from_le_bytes();
                    assert(e == spec_entry_of(block));
                    assert(spec_entry_bytes(spec_entry_of(block)) =~= block) by {
                        assert(block.subrange(0, 8).len() == 8);
                        assert(block.subrange(8, 10).len() == 2);
                        assert(block.subrange(10, 12).len() == 2);
                        assert(block.subrange(12, 16).len() == 4);
                        assert(spec_u64_to_le_bytes(spec_u64_from_le_bytes(block.subrange(0, 8)))
                            == block.subrange(0, 8));
                        assert(spec_u16_to_le_bytes(spec_u16_from_le_bytes(block.subrange(8, 10)))
                            == block.subrange(8, 10));
                        assert(spec_u16_to_le_bytes(spec_u16_from_le_bytes(block.subrange(10, 12)))
                            == block.subrange(10, 12));
                        assert(spec_u32_to_le_bytes(spec_u32_from_le_bytes(block.subrange(12, 16)))
                            == block.subrange(12, 16));
                        assert(spec_entry_bytes(spec_entry_of(block)) =~= block.subrange(0, 8)
                            + block.subrange(8, 10) + block.subrange(10, 12) + block.subrange(
                            12,
                            16,
                        ));
                        assert(block.subrange(0, 8) + block.subrange(8, 10) + block.subrange(
                            10,
                            12,
                        ) + block.subrange(12, 16) =~= block);
                    }
                }
                assert(bytes@.subrange(HEADER_BYTES as int, HEADER_BYTES as int + ENTRY_BYTES * k)
                    + bytes@.subrange(off as int, off as int + ENTRY_BYTES) =~= bytes@.subrange(
                    HEADER_BYTES as int,
                    HEADER_BYTES as int + ENTRY_BYTES * (k + 1),
                ));
            }
            entries.push(e);
        }
        proof {
            let hb = bytes@.subrange(0, HEADER_BYTES as int);
            lemma_header_codec(spec_header_of(hb));
            lemma_auto_spec_u32_to_from_le_bytes();
            lemma_auto_spec_u64_to_from_le_bytes();
            assert(spec_header_bytes(spec_header_of(hb)) =~= hb) by {
                assert(hb.subrange(0, 4).len() == 4);
                assert(hb.subrange(4, 12).len() == 8);
                assert(hb.subrange(12, 20).len() == 8);
                assert(hb.subrange(20, 24).len() == 4);
                assert(spec_u32_to_le_bytes(spec_u32_from_le_bytes(hb.subrange(0, 4)))
                    == hb.subrange(0, 4));
                assert(spec_u64_to_le_bytes(spec_u64_from_le_bytes(hb.subrange(4, 12)))
                    == hb.subrange(4, 12));
                assert(spec_u64_to_le_bytes(spec_u64_from_le_bytes(hb.subrange(12, 20)))
                    == hb.subrange(12, 20));
                assert(spec_u32_to_le_bytes(spec_u32_from_le_bytes(hb.subrange(20, 24)))
                    == hb.subrange(20, 24));
                assert(spec_header_bytes(spec_header_of(hb)) =~= hb.subrange(0, 4) + hb.subrange(
                    4,
                    12,
                ) + hb.subrange(12, 20) + hb.subrange(20, 24));
                assert(hb.subrange(0, 4) + hb.subrange(4, 12) + hb.subrange(12, 20) + hb.subrange(
                    20,
                    24,
                ) =~= hb);
            }
            assert(bytes@ =~= hb + bytes@.subrange(HEADER_BYTES as int, bytes@.len() as int));
        }
        Ok(BufferInfo { header, entries })
    }
}

/// Apply one flush to a file image held as bytes: the 24-byte header block
/// replaces the start of the file (the whole file when it did not exist
/// yet), and the payload goes at the end. This is exactly what the embedding
/// application does to the real file with a positional write and an append.
pub fn apply_flush(file: &mut Vec<u8>, header_block: &Vec<u8>, payload: &Vec<u8>)
    requires
        header_block@.len() == HEADER_BYTES,
        old(file)@.len() == 0 || old(file)@.len() >= HEADER_BYTES,
    ensures
        old(file)@.len() == 0 ==> final(file)@ == header_block@ + payload@,
        old(file)@.len() >= HEADER_BYTES ==> final(file)@ == header_block@ + old(file)@.subrange(
            HEADER_BYTES as int,
            old(file)@.len() as int,
        ) + payload@,
{
    if file.len() == 0 {
        let mut i: usize = 0;
        while i < HEADER_BYTES
            invariant
                i <= HEADER_BYTES,
                header_block@.len() == HEADER_BYTES,
                file@ == header_block@.take(i as int),
            decreases HEADER_BYTES - i,
        {
            file.push(header_block[i]);
            proof {
                assert(file@ =~= header_block@.take(i + 1));
            }
            i = i + 1;
        }
        proof {
            assert(header_block@.take(HEADER_BYTES as int) =~= header_block@);
        }
    } else {
        let mut i: usize = 0;
        while i < HEADER_BYTES
            invariant
                i <= HEADER_BYTES,
                header_block@.len() == HEADER_BYTES,
                file@.len() == old(file)@.len() >= HEADER_BYTES,
                file@ == header_block@.take(i as int) + old(file)@.subrange(
                    i as int,
                    old(file)@.len() as int,
                ),
            decreases HEADER_BYTES - i,
        {
            file.set(i, header_block[i]);
            proof {
                assert(file@ =~= header_block@.take(i + 1) + old(file)@.subrange(
                    i + 1,
                    old(file)@.len() as int,
                ));
            }
            i = i + 1;
        }
    }
    let mut j: usize = 0;
    let ghost mid = file@;
    while j < payload.len()
        invariant
            j <= payload@.len(),
            file@ == mid + payload@.take(j as int),
        decreases payload@.len() - j,
    {
        file.push(payload[j]);
        proof {
            assert(file@ =~= mid + payload@.take(j + 1));
        }
        j = j + 1;
    }
    proof {
        assert(mid + payload@.take(payload@.len() as int) =~= mid + payload@);
        if old(file)@.len() == 0 {
            assert(file@ =~= header_block@ + payload@);
        } else {
            assert(file@ =~= header_block@ + old(file)@.subrange(
                HEADER_BYTES as int,
                old(file)@.len() as int,
            ) + payload@);
        }
    }
}

/// Accumulation across flushes: rewriting the header of a valid file image
/// and appending freshly packed records yields the valid image of the same
/// stream extended by those records. Repeated emit/flush cycles therefore
/// leave a file that parses back to the concatenation of all emissions in
/// order, with the flushed count equal to their total.
pub proof fn lemma_flush_accumulates(
    h: TraceHeader,
    es: Seq<EventEntry>,
    h2: TraceHeader,
    fresh: Seq<EventEntry>,
)
    requires
        h2.id == h.id,
        h2.tid == h.tid,
        h2.start_gtime == h.start_gtime,
        h2.total_flushed == h.total_flushed + fresh.len(),
    ensures
        spec_header_bytes(h2) + spec_file_image(h, es).subrange(
            HEADER_BYTES as int,
            spec_file_image(h, es).len() as int,
        ) + spec_entries_bytes(fresh) == spec_file_image(h2, es + fresh),
{
    lemma_header_codec(h);
    lemma_header_codec(h2);
    lemma_entries_bytes_concat(es, fresh);
    assert(spec_file_image(h, es).subrange(HEADER_BYTES as int, spec_file_image(h, es).len() as int)
        =~= spec_entries_bytes(es));
    assert(spec_header_bytes(h2) + spec_entries_bytes(es) + spec_entries_bytes(fresh)
        =~= spec_file_image(h2, es + fresh));
}

} // verus!
