//! The k-way merge that turns the per-thread traces into one sorted stream
//! of extended events, and the Paraver text it externalizes to. Records
//! from one file that follow each other with a byte-identical header (same
//! time and same core) collapse into one extended event; records from
//! different files never share a line. The merged stream is sorted by time,
//! loses nothing, and keeps each file's records in their own order.

use vstd::prelude::*;
use vstd::string::StringExecFns;

use crate::bufferinfo::BufferInfo;
use crate::event::{EventEntry, EventHeader, EventInfo};
use crate::numfmt::{dec_digits, u16_to_dec, u32_to_dec, u64_to_dec};
use crate::sys;

verus! {

/// One line of the merged trace: every observation one thread made at one
/// instant on one core.
#[derive(Debug)]
pub struct ExtendedEvent {
    pub time: u64,
    pub tid: u32,
    pub core: u16,
    pub events: Vec<EventInfo>,
}

impl ExtendedEvent {
    /// An extended event opened from one record of the thread with the
    /// given ordinal.
    pub fn new(id: u32, event: &EventEntry) -> (r: ExtendedEvent)
        ensures
            r.time == event.hdr.time,
            r.tid == id,
            r.core == event.hdr.core,
            r.events@ == seq![event.info],
    {
        let events: Vec<EventInfo> = vec![event.info];
        proof {
            assert(events@ =~= seq![event.info]);
        }
        ExtendedEvent { time: event.hdr.time, tid: id, core: event.hdr.core, events }
    }
}

/// Why a merge was refused.
#[derive(Clone, Copy, PartialEq, Eq, Structural, Debug)]
pub enum MergeError {
    /// No records at all: nothing to merge, no trace to write.
    NoEvents,
    /// The per-thread files disagree about when the trace began.
    StartMismatch,
}

/// Records ordered by non-decreasing timestamp (each thread emits in
/// program order, so its file is already in this shape).
pub open spec fn spec_sorted_by_time(es: Seq<EventEntry>) -> bool {
    forall|a: int, b: int| 0 <= a < b < es.len() ==> es[a].hdr.time <= es[b].hdr.time
}

/// No two files claim the same thread ordinal.
pub open spec fn spec_distinct_ids(files: Seq<BufferInfo>) -> bool {
    forall|i: int, j: int|
        0 <= i < j < files.len() ==> files[i].header.id != files[j].header.id
}

/// The position of the file that carries an ordinal (meaningful when the
/// ordinals are distinct).
pub open spec fn spec_file_index_of(files: Seq<BufferInfo>, tid: u32) -> int {
    choose|i: int| 0 <= i < files.len() && (#[trigger] files[i]).header.id == tid
}

proof fn lemma_file_index_unique(files: Seq<BufferInfo>, i: int)
    requires
        spec_distinct_ids(files),
        0 <= i < files.len(),
    ensures
        spec_file_index_of(files, files[i].header.id) == i,
{
    let tid = files[i].header.id;
    assert(0 <= i < files.len() && files[i].header.id == tid);
    let w = spec_file_index_of(files, tid);
    assert(0 <= w < files.len() && files[w].header.id == tid);
    if w != i {
        if w < i {
            assert(files[w].header.id != files[i].header.id);
        } else {
            assert(files[i].header.id != files[w].header.id);
        }
    }
}

/// The records an extended event stands for.
pub open spec fn spec_expand(ev: ExtendedEvent) -> Seq<EventEntry> {
    Seq::new(
        ev.events@.len(),
        |j: int|
            EventEntry {
                hdr: EventHeader { time: ev.time, core: ev.core },
                info: ev.events@[j],
            },
    )
}

/// The records of one thread ordinal, read back out of the merged stream
/// in stream order.
pub open spec fn spec_project(evs: Seq<ExtendedEvent>, tid: u32) -> Seq<EventEntry>
    decreases evs.len(),
{
    if evs.len() == 0 {
        Seq::empty()
    } else if evs[0].tid == tid {
        spec_expand(evs[0]) + spec_project(evs.drop_first(), tid)
    } else {
        spec_project(evs.drop_first(), tid)
    }
}

/// How many records the merged stream carries in all.
pub open spec fn spec_total_events(evs: Seq<ExtendedEvent>) -> int
    decreases evs.len(),
{
    if evs.len() == 0 {
        0
    } else {
        evs[0].events@.len() + spec_total_events(evs.drop_first())
    }
}

/// How many records the input files carry in all.
pub open spec fn spec_total_records(files: Seq<BufferInfo>) -> int
    decreases files.len(),
{
    if files.len() == 0 {
        0
    } else {
        files[0].entries@.len() + spec_total_records(files.drop_first())
    }
}

/// How many records the merge has consumed so far.
pub open spec fn spec_sum_pos(pos: Seq<usize>) -> int
    decreases pos.len(),
{
    if pos.len() == 0 {
        0
    } else {
        pos[0] + spec_sum_pos(pos.drop_first())
    }
}

/// Strictly increasing, hence duplicate-free.
pub open spec fn spec_sorted_unique_u32(s: Seq<u32>) -> bool {
    forall|a: int, b: int| 0 <= a < b < s.len() ==> s[a] < s[b]
}

/// Strictly increasing, hence duplicate-free.
pub open spec fn spec_sorted_unique_u16(s: Seq<u16>) -> bool {
    forall|a: int, b: int| 0 <= a < b < s.len() ==> s[a] < s[b]
}

proof fn lemma_project_push(evs: Seq<ExtendedEvent>, ev: ExtendedEvent, tid: u32)
    ensures
        spec_project(evs.push(ev), tid) == spec_project(evs, tid) + (if ev.tid == tid {
            spec_expand(ev)
        } else {
            Seq::<EventEntry>::empty()
        }),
    decreases evs.len(),
{
    let tail = (if ev.tid == tid {
        spec_expand(ev)
    } else {
        Seq::<EventEntry>::empty()
    });
    if evs.len() == 0 {
        assert(evs.push(ev).drop_first() =~= evs);
        assert(spec_project(evs.push(ev), tid) =~= spec_project(evs, tid) + tail);
    } else {
        assert(evs.push(ev).drop_first() =~= evs.drop_first().push(ev));
        lemma_project_push(evs.drop_first(), ev, tid);
        assert(spec_project(evs.push(ev), tid) =~= spec_project(evs, tid) + tail);
    }
}

proof fn lemma_total_events_push(evs: Seq<ExtendedEvent>, ev: ExtendedEvent)
    ensures
        spec_total_events(evs.push(ev)) == spec_total_events(evs) + ev.events@.len(),
    decreases evs.len(),
{
    if evs.len() == 0 {
        assert(evs.push(ev).drop_first() =~= evs);
    } else {
        assert(evs.push(ev).drop_first() =~= evs.drop_first().push(ev));
        lemma_total_events_push(evs.drop_first(), ev);
    }
}

proof fn lemma_sum_pos_update(pos: Seq<usize>, i: int, v: usize)
    requires
        0 <= i < pos.len(),
    ensures
        spec_sum_pos(pos.update(i, v)) == spec_sum_pos(pos) - pos[i] + v,
    decreases pos.len(),
{
    if i == 0 {
        assert(pos.update(0, v).drop_first() =~= pos.drop_first());
    } else {
        assert(pos.update(i, v).drop_first() =~= pos.drop_first().update(i - 1, v));
        lemma_sum_pos_update(pos.drop_first(), i - 1, v);
    }
}

proof fn lemma_sum_pos_bounds(files: Seq<BufferInfo>, pos: Seq<usize>)
    requires
        pos.len() == files.len(),
        forall|i: int| 0 <= i < pos.len() ==> pos[i] <= (#[trigger] files[i]).entries@.len(),
    ensures
        0 <= spec_sum_pos(pos) <= spec_total_records(files),
        (forall|i: int| 0 <= i < pos.len() ==> pos[i] == (#[trigger] files[i]).entries@.len())
            ==> spec_sum_pos(pos) == spec_total_records(files),
    decreases files.len(),
{
    if files.len() == 0 {
    } else {
        assert(forall|i: int|
            0 <= i < pos.drop_first().len() ==> pos.drop_first()[i] == pos[i + 1]);
        lemma_sum_pos_bounds(files.drop_first(), pos.drop_first());
    }
}

proof fn lemma_total_records_zero(files: Seq<BufferInfo>)
    ensures
        spec_total_records(files) >= 0,
        (spec_total_records(files) == 0) <==> (forall|i: int|
            0 <= i < files.len() ==> (#[trigger] files[i]).entries@.len() == 0),
    decreases files.len(),
{
    if files.len() == 0 {
    } else {
        lemma_total_records_zero(files.drop_first());
        if spec_total_records(files) == 0 {
            assert forall|i: int|
                0 <= i < files.len() implies (#[trigger] files[i]).entries@.len() == 0 by {
                if i > 0 {
                    assert(files.drop_first()[i - 1] == files[i]);
                }
            }
        } else {
            if files[0].entries@.len() == 0 {
                let tail = files.drop_first();
                let w = choose|i: int|
                    0 <= i < tail.len() && (#[trigger] tail[i]).entries@.len() != 0;
                assert(files[w + 1].entries@.len() != 0);
            }
        }
    }
}

/// Insert a core id into a strictly sorted list, keeping it a set.
fn insert_sorted_u16(s: &mut Vec<u16>, x: u16)
    requires
        spec_sorted_unique_u16(old(s)@),
    ensures
        spec_sorted_unique_u16(final(s)@),
        forall|c: u16| final(s)@.contains(c) <==> (old(s)@.contains(c) || c == x),
        final(s)@.len() > 0,
{
    let ghost sv = s@;
    let n: usize = s.len();
    let mut i: usize = 0;
    while i < n && s[i] < x
        invariant
            n == sv.len(),
            s@ == sv,
            i <= n,
            forall|j: int| 0 <= j < i ==> sv[j] < x,
        decreases n - i,
    {
        i = i + 1;
    }
    if i < n && s[i] == x {
        proof {
            assert(s@.contains(x));
            assert forall|c: u16| s@.contains(c) <==> (sv.contains(c) || c == x) by {}
        }
        return ;
    }
    proof {
        assert(forall|j: int| i <= j < n ==> sv[j] > x || sv[j] == x);
        assert forall|j: int| i <= j < n implies sv[j] > x by {
            if j == i {
                assert(!(sv[j] < x) && sv[j] != x);
            } else {
                assert(sv[i as int] <= sv[j] || sv[i as int] < sv[j]);
                assert(!(sv[i as int] < x) && sv[i as int] != x);
            }
        }
    }
    s.insert(i, x);
    proof {
        let t = s@;
        assert(t == sv.insert(i as int, x));
        assert(forall|j: int| 0 <= j < i ==> t[j] == sv[j]);
        assert(t[i as int] == x);
        assert(forall|j: int| i < j < t.len() ==> t[j] == sv[j - 1]);
        assert forall|a: int, b: int| 0 <= a < b < t.len() implies t[a] < t[b] by {
            if a < i && b > i {
                assert(t[a] == sv[a] && t[b] == sv[b - 1]);
            } else if a == i && b > i {
                assert(t[b] == sv[b - 1]);
            } else if a < i && b == i {
                assert(t[a] == sv[a]);
            } else if a > i {
                assert(t[a] == sv[a - 1] && t[b] == sv[b - 1]);
            } else {
                assert(t[a] == sv[a] && t[b] == sv[b]);
            }
        }
        assert forall|c: u16| t.contains(c) <==> (sv.contains(c) || c == x) by {
            if t.contains(c) {
                let w = choose|w: int| 0 <= w < t.len() && t[w] == c;
                if w != i {
                    let w0 = if w < i { w } else { w - 1 };
                    assert(sv[w0] == c);
                    assert(sv.contains(c));
                }
            }
            if sv.contains(c) {
                let w = choose|w: int| 0 <= w < sv.len() && sv[w] == c;
                let w2 = if w < i { w } else { w + 1 };
                assert(t[w2] == c);
                assert(t.contains(c));
            }
            if c == x {
                assert(t[i as int] == c);
                assert(t.contains(c));
            }
        }
    }
}

/// Insert a thread ordinal into a strictly sorted list, keeping it a set.
fn insert_sorted_u32(s: &mut Vec<u32>, x: u32)
    requires
        spec_sorted_unique_u32(old(s)@),
    ensures
        spec_sorted_unique_u32(final(s)@),
        forall|c: u32| final(s)@.contains(c) <==> (old(s)@.contains(c) || c == x),
        final(s)@.len() > 0,
{
    let ghost sv = s@;
    let n: usize = s.len();
    let mut i: usize = 0;
    while i < n && s[i] < x
        invariant
            n == sv.len(),
            s@ == sv,
            i <= n,
            forall|j: int| 0 <= j < i ==> sv[j] < x,
        decreases n - i,
    {
        i = i + 1;
    }
    if i < n && s[i] == x {
        proof {
            assert(s@.contains(x));
        }
        return ;
    }
    proof {
        assert forall|j: int| i <= j < n implies sv[j] > x by {
            if j == i {
                assert(!(sv[j] < x) && sv[j] != x);
            } else {
                assert(!(sv[i as int] < x) && sv[i as int] != x);
            }
        }
    }
    s.insert(i, x);
    proof {
        let t = s@;
        assert(t == sv.insert(i as int, x));
        assert(forall|j: int| 0 <= j < i ==> t[j] == sv[j]);
        assert(t[i as int] == x);
        assert(forall|j: int| i < j < t.len() ==> t[j] == sv[j - 1]);
        assert forall|a: int, b: int| 0 <= a < b < t.len() implies t[a] < t[b] by {
            if a < i && b > i {
                assert(t[a] == sv[a] && t[b] == sv[b - 1]);
            } else if a == i && b > i {
                assert(t[b] == sv[b - 1]);
            } else if a < i && b == i {
                assert(t[a] == sv[a]);
            } else if a > i {
                assert(t[a] == sv[a - 1] && t[b] == sv[b - 1]);
            } else {
                assert(t[a] == sv[a] && t[b] == sv[b]);
            }
        }
        assert forall|c: u32| t.contains(c) <==> (sv.contains(c) || c == x) by {
            if t.contains(c) {
                let w = choose|w: int| 0 <= w < t.len() && t[w] == c;
                if w != i {
                    let w0 = if w < i { w } else { w - 1 };
                    assert(sv[w0] == c);
                    assert(sv.contains(c));
                }
            }
            if sv.contains(c) {
                let w = choose|w: int| 0 <= w < sv.len() && sv[w] == c;
                let w2 = if w < i { w } else { w + 1 };
                assert(t[w2] == c);
                assert(t.contains(c));
            }
            if c == x {
                assert(t[i as int] == c);
                assert(t.contains(c));
            }
        }
    }
}

/// Everything a successful merge guarantees: the stream is sorted by
/// time, carries exactly the input records, draws every line from a single
/// file, tracks the thread and core sets exactly, and — when the files
/// carry distinct ordinals — yields each file's records back in file order
/// when filtered to that file's ordinal, breaks equal-time ties by file
/// position, and never leaves two neighbouring lines that share thread,
/// time and core (identically-headed runs of one file collapse).
pub open spec fn spec_merge_ok(
    files: Seq<BufferInfo>,
    evs: Seq<ExtendedEvent>,
    threads: Seq<u32>,
    cores: Seq<u16>,
    start: u64,
) -> bool {
    &&& spec_total_records(files) > 0
    &&& forall|i: int|
        0 <= i < files.len() ==> (#[trigger] files[i]).header.start_gtime == start
    &&& files.len() > 0 && start == files[0].header.start_gtime
    &&& evs.len() > 0
    &&& forall|a: int, b: int| 0 <= a < b < evs.len() ==> evs[a].time <= evs[b].time
    &&& spec_total_events(evs) == spec_total_records(files)
    &&& forall|e: int| 0 <= e < evs.len() ==> (#[trigger] evs[e]).events.len() >= 1
    &&& forall|e: int| 0 <= e < evs.len() ==> threads.contains((#[trigger] evs[e]).tid)
    &&& spec_distinct_ids(files) ==> forall|i: int|
        0 <= i < files.len() ==> spec_project(evs, (#[trigger] files[i]).header.id)
            == files[i].entries@
    &&& spec_distinct_ids(files) ==> forall|a: int, b: int|
        0 <= a < b < evs.len() && (#[trigger] evs[a]).time == (#[trigger] evs[b]).time
            ==> spec_file_index_of(files, evs[a].tid) <= spec_file_index_of(
            files,
            evs[b].tid,
        )
    &&& spec_distinct_ids(files) ==> forall|a: int|
        0 < a < evs.len() ==> !((#[trigger] evs[a]).tid == evs[a - 1].tid && evs[a].time
            == evs[a - 1].time && evs[a].core == evs[a - 1].core)
    &&& spec_sorted_unique_u32(threads)
    &&& forall|c: u32|
        threads.contains(c) <==> exists|i: int|
            0 <= i < files.len() && (#[trigger] files[i]).header.id == c
    &&& spec_sorted_unique_u16(cores)
    &&& cores.len() > 0
    &&& forall|c: u16|
        cores.contains(c) <==> exists|e: int|
            0 <= e < evs.len() && (#[trigger] evs[e]).core == c
}

/// The merged trace, ready to externalize.
#[derive(Debug)]
pub struct Merger {
    pub events: Vec<ExtendedEvent>,
    pub threads: Vec<u32>,
    pub cores: Vec<u16>,
    pub start_global_time: u64,
}

impl Merger {
    /// What a successful merge guarantees of itself.
    pub open spec fn wf(&self) -> bool {
        &&& self.events@.len() > 0
        &&& forall|a: int, b: int|
            0 <= a < b < self.events@.len() ==> self.events@[a].time <= self.events@[b].time
        &&& forall|e: int|
            0 <= e < self.events@.len() ==> (#[trigger] self.events@[e]).events@.len() >= 1
        &&& spec_sorted_unique_u16(self.cores@)
        &&& self.cores@.len() > 0
        &&& spec_sorted_unique_u32(self.threads@)
        &&& forall|e: int|
            0 <= e < self.events@.len() ==> self.cores@.contains(
                (#[trigger] self.events@[e]).core,
            )
    }

    /// Merge already-parsed per-thread files. Fails with `NoEvents` exactly
    /// when the files carry no record at all, and with `StartMismatch`
    /// exactly when two files disagree about the trace start. Otherwise the
    /// merged stream is sorted by time, carries exactly the input records,
    /// draws every line from a single file, and — when the files carry
    /// distinct ordinals — yields each file's records back in file order
    /// when filtered to that file's ordinal.
    #[verifier::rlimit(100)]
    #[verifier::spinoff_prover]
    pub fn merge_files(files: &Vec<BufferInfo>) -> (r: Result<
        (Vec<ExtendedEvent>, Vec<u32>, Vec<u16>, u64),
        MergeError,
    >)
        requires
            forall|i: int|
                0 <= i < files@.len() ==> spec_sorted_by_time(
                    (#[trigger] files@[i]).entries@,
                ),
        ensures
            match r {
                Err(MergeError::NoEvents) => spec_total_records(files@) == 0,
                Err(MergeError::StartMismatch) => {
                    &&& spec_total_records(files@) > 0
                    &&& exists|i: int, j: int|
                        0 <= i < j < files@.len() && (#[trigger] files@[i]).header.start_gtime
                            != (#[trigger] files@[j]).header.start_gtime
                },
                Ok(out) => spec_merge_ok(files@, out.0@, out.1@, out.2@, out.3),
            },
    {
        let k: usize = files.len();
        // refuse an empty trace
        let mut any: bool = false;
        for i in 0..k
            invariant
                k == files@.len(),
                any <==> exists|j: int|
                    0 <= j < i && (#[trigger] files@[j]).entries@.len() > 0,
        {
            if files[i].len() > 0 {
                any = true;
            }
        }
        if !any {
            proof {
                lemma_total_records_zero(files@);
            }
            return Err(MergeError::NoEvents);
        }
        proof {
            lemma_total_records_zero(files@);
            let w = choose|j: int| 0 <= j < k && (#[trigger] files@[j]).entries@.len() > 0;
            assert(files@[w].entries@.len() != 0);
            assert(spec_total_records(files@) != 0);
            assert(spec_total_records(files@) > 0);
        }
        // refuse files that disagree about the trace start
        let start_time: u64 = files[0].header.start_gtime;
        for i in 1..k
            invariant
                k == files@.len(),
                k > 0,
                spec_total_records(files@) > 0,
                start_time == files@[0].header.start_gtime,
                forall|j: int|
                    0 <= j < i ==> (#[trigger] files@[j]).header.start_gtime == start_time,
        {
            if files[i].header.start_gtime != start_time {
                proof {
                    lemma_total_records_zero(files@);
                    assert(0 < i as int && (i as int) < files@.len()
                        && files@[0].header.start_gtime != files@[
                        i as int].header.start_gtime);
                }
                return Err(MergeError::StartMismatch);
            }
        }
        // every file's ordinal, as the thread set
        let mut threads: Vec<u32> = Vec::new();
        for i in 0..k
            invariant
                k == files@.len(),
                spec_total_records(files@) > 0,
                spec_sorted_unique_u32(threads@),
                forall|c: u32|
                    threads@.contains(c) <==> exists|j: int|
                        0 <= j < i && (#[trigger] files@[j]).header.id == c,
        {
            insert_sorted_u32(&mut threads, files[i].header.id);
        }
        // the merge itself: repeatedly take the earliest head among the
        // files and drain its run of identically-headed records
        let mut pos: Vec<usize> = Vec::new();
        for i in 0..k
            invariant
                k == files@.len(),
                spec_total_records(files@) > 0,
                pos@.len() == i,
                forall|j: int| 0 <= j < i ==> pos@[j] == 0,
        {
            pos.push(0);
        }
        let mut events: Vec<ExtendedEvent> = Vec::new();
        let mut cores: Vec<u16> = Vec::new();
        proof {
            lemma_sum_pos_zero(pos@);
            assert(events@ =~= Seq::<ExtendedEvent>::empty());
            assert(cores@ =~= Seq::<u16>::empty());
            assert forall|i: int|
                0 <= i < k implies spec_project(events@, (#[trigger] files@[i]).header.id)
                == files@[i].entries@.take(pos@[i] as int) by {
                assert(files@[i].entries@.take(0) =~= Seq::<EventEntry>::empty());
            }
        }
        loop
            invariant
                k == files@.len(),
                spec_total_records(files@) > 0,
                pos@.len() == k,
                forall|i: int|
                    0 <= i < k ==> pos@[i] <= (#[trigger] files@[i]).entries@.len(),
                forall|i: int|
                    0 <= i < files@.len() ==> spec_sorted_by_time(
                        (#[trigger] files@[i]).entries@,
                    ),
                spec_total_events(events@) == spec_sum_pos(pos@),
                forall|a: int, b: int|
                    0 <= a < b < events@.len() ==> events@[a].time <= events@[b].time,
                forall|e: int|
                    0 <= e < events@.len() ==> (#[trigger] events@[e]).events@.len() >= 1,
                forall|c: u32|
                    threads@.contains(c) <==> exists|i: int|
                        0 <= i < k && (#[trigger] files@[i]).header.id == c,
                forall|e: int|
                    0 <= e < events@.len() ==> threads@.contains(
                        (#[trigger] events@[e]).tid,
                    ),
                forall|i: int|
                    0 <= i < k && pos@[i] < (#[trigger] files@[i]).entries@.len()
                        && events@.len() > 0 ==> events@.last().time
                        <= files@[i].entries@[pos@[i] as int].hdr.time,
                spec_distinct_ids(files@) ==> forall|i: int|
                    0 <= i < k ==> spec_project(events@, (#[trigger] files@[i]).header.id)
                        == files@[i].entries@.take(pos@[i] as int),
                spec_distinct_ids(files@) ==> forall|a: int, b: int|
                    0 <= a < b < events@.len() && (#[trigger] events@[a]).time == (
                    #[trigger] events@[b]).time ==> spec_file_index_of(files@, events@[a].tid)
                        <= spec_file_index_of(files@, events@[b].tid),
                spec_distinct_ids(files@) ==> forall|a: int|
                    0 < a < events@.len() ==> !((#[trigger] events@[a]).tid == events@[
                        a - 1].tid && events@[a].time == events@[a - 1].time
                        && events@[a].core == events@[a - 1].core),
                spec_distinct_ids(files@) && events@.len() > 0 ==> {
                    let jl = spec_file_index_of(files@, events@.last().tid);
                    &&& 0 <= jl < k
                    &&& files@[jl].header.id == events@.last().tid
                    &&& forall|i: int|
                        0 <= i < jl && pos@[i] < (#[trigger] files@[i]).entries@.len()
                            ==> files@[i].entries@[pos@[i] as int].hdr.time
                            > events@.last().time
                    &&& (pos@[jl] == files@[jl].entries@.len() || files@[jl].entries@[
                        pos@[jl] as int].hdr != (EventHeader {
                        time: events@.last().time,
                        core: events@.last().core,
                    }))
                },
                spec_sorted_unique_u32(threads@),
                spec_sorted_unique_u16(cores@),
                forall|c: u16|
                    cores@.contains(c) <==> exists|e: int|
                        0 <= e < events@.len() && (#[trigger] events@[e]).core == c,
            ensures
                spec_total_records(files@) > 0,
                pos@.len() == k,
                forall|i: int|
                    0 <= i < k ==> pos@[i] == (#[trigger] files@[i]).entries@.len(),
                spec_total_events(events@) == spec_sum_pos(pos@),
                forall|a: int, b: int|
                    0 <= a < b < events@.len() ==> events@[a].time <= events@[b].time,
                forall|e: int|
                    0 <= e < events@.len() ==> (#[trigger] events@[e]).events@.len() >= 1,
                forall|e: int|
                    0 <= e < events@.len() ==> threads@.contains(
                        (#[trigger] events@[e]).tid,
                    ),
                spec_distinct_ids(files@) ==> forall|i: int|
                    0 <= i < k ==> spec_project(events@, (#[trigger] files@[i]).header.id)
                        == files@[i].entries@.take(pos@[i] as int),
                spec_distinct_ids(files@) ==> forall|a: int, b: int|
                    0 <= a < b < events@.len() && (#[trigger] events@[a]).time == (
                    #[trigger] events@[b]).time ==> spec_file_index_of(files@, events@[a].tid)
                        <= spec_file_index_of(files@, events@[b].tid),
                spec_distinct_ids(files@) ==> forall|a: int|
                    0 < a < events@.len() ==> !((#[trigger] events@[a]).tid == events@[
                        a - 1].tid && events@[a].time == events@[a - 1].time
                        && events@[a].core == events@[a - 1].core),
                spec_sorted_unique_u32(threads@),
                forall|c: u32|
                    threads@.contains(c) <==> exists|i: int|
                        0 <= i < k && (#[trigger] files@[i]).header.id == c,
                spec_sorted_unique_u16(cores@),
                forall|c: u16|
                    cores@.contains(c) <==> exists|e: int|
                        0 <= e < events@.len() && (#[trigger] events@[e]).core == c,
            decreases spec_total_records(files@) - spec_sum_pos(pos@),
        {
            proof {
                lemma_sum_pos_bounds(files@, pos@);
            }
            // pick the file whose head is earliest
            let mut best: usize = k;
            let mut best_time: u64 = 0;
            for i in 0..k
                invariant
                    k == files@.len(),
                    pos@.len() == k,
                    forall|j: int|
                        0 <= j < k ==> pos@[j] <= (#[trigger] files@[j]).entries@.len(),
                    best <= k,
                    best == k || best < i,
                    best < k ==> pos@[best as int] < files@[best as int].entries@.len()
                        && best_time == files@[best as int].entries@[
                        pos@[best as int] as int].hdr.time,
                    best == k ==> forall|j: int|
                        0 <= j < i ==> pos@[j] == (#[trigger] files@[j]).entries@.len(),
                    forall|j: int|
                        0 <= j < i && pos@[j] < (#[trigger] files@[j]).entries@.len() ==> best
                            < k && best_time <= files@[j].entries@[pos@[j] as int].hdr.time,
                    forall|j: int|
                        0 <= j < i && pos@[j] < (#[trigger] files@[j]).entries@.len() && j < best
                            ==> best_time < files@[j].entries@[pos@[j] as int].hdr.time,
            {
                if pos[i] < files[i].len() {
                    let t = files[i].get(pos[i]).hdr.time;
                    if best == k || t < best_time {
                        proof {
                            if best < k {
                                assert forall|j: int|
                                    0 <= j < i && pos@[j] < (
                                    #[trigger] files@[j]).entries@.len() implies t < files@[
                                    j].entries@[pos@[j] as int].hdr.time by {
                                    assert(best_time <= files@[j].entries@[
                                        pos@[j] as int].hdr.time);
                                }
                            }
                        }
                        best = i;
                        best_time = t;
                    }
                }
            }
            if best == k {
                // every file is drained
                proof {
                    lemma_sum_pos_bounds(files@, pos@);
                }
                break ;
            }
            // drain the run of identically-headed records from that file
            let p: usize = pos[best];
            let flen: usize = files[best].len();
            let head: EventEntry = files[best].get(p);
            let mut ext = ExtendedEvent::new(files[best].header.id, &head);
            let mut e: usize = p + 1;
            while e < flen && files[best].get(e).hdr == head.hdr
                invariant
                    k == files@.len(),
                    best < k,
                    flen == files@[best as int].entries@.len(),
                    p < e <= flen,
                    head == files@[best as int].entries@[p as int],
                    ext.time == head.hdr.time,
                    ext.core == head.hdr.core,
                    ext.tid == files@[best as int].header.id,
                    ext.events@.len() == e - p,
                    forall|j: int|
                        0 <= j < e - p ==> ext.events@[j] == files@[best as int].entries@[
                            p + j].info,
                    forall|j: int|
                        p <= j < e ==> (#[trigger] files@[best as int].entries@[j]).hdr
                            == head.hdr,
                decreases flen - e,
            {
                ext.events.push(files[best].get(e).info);
                e = e + 1;
            }
            proof {
                // the run expands back to exactly the records it came from
                assert(spec_expand(ext) =~= files@[best as int].entries@.subrange(
                    p as int,
                    e as int,
                ));
                assert(files@[best as int].entries@.take(p as int) + files@[
                    best as int].entries@.subrange(p as int, e as int) =~= files@[
                    best as int].entries@.take(e as int));
                lemma_project_push(events@, ext, files@[best as int].header.id);
                lemma_total_events_push(events@, ext);
                lemma_sum_pos_update(pos@, best as int, e);
                if spec_distinct_ids(files@) {
                    assert forall|i: int|
                        0 <= i < k && i != best implies spec_project(
                        events@.push(ext),
                        (#[trigger] files@[i]).header.id,
                    ) == files@[i].entries@.take(pos@[i] as int) by {
                        assert(files@[i].header.id != ext.tid);
                        lemma_project_push(events@, ext, files@[i].header.id);
                        assert(spec_project(events@.push(ext), files@[i].header.id)
                            =~= spec_project(events@, files@[i].header.id));
                    }
                }
                // every earlier event sits at or before the new one in time
                assert forall|a: int| 0 <= a < events@.len() implies events@[a].time
                    <= ext.time by {
                    if a < events@.len() - 1 {
                        assert(events@[a].time <= events@[events@.len() - 1].time);
                    }
                }
            }
            let ghost evs_before = events@;
            let ghost pos_before = pos@;
            let ghost cores_before = cores@;
            events.push(ext);
            pos.set(best, e);
            insert_sorted_u16(&mut cores, head.hdr.core);
            proof {
                assert(events@ == evs_before.push(ext));
                assert(pos@ == pos_before.update(best as int, e));
                // the merged stream stays sorted and its heads stay ahead
                assert forall|i: int|
                    0 <= i < k && pos@[i] < (#[trigger] files@[i]).entries@.len()
                        && events@.len() > 0 implies events@.last().time <= files@[i].entries@[
                    pos@[i] as int].hdr.time by {
                    if i == best {
                        assert(files@[i].entries@[p as int].hdr.time <= files@[i].entries@[
                            pos@[i] as int].hdr.time);
                    } else {
                        assert(pos@[i] == pos_before[i]);
                    }
                }
                // the core set tracks exactly the cores of the stream
                assert forall|c: u16|
                    cores@.contains(c) <==> exists|ei: int|
                        0 <= ei < events@.len() && (#[trigger] events@[ei]).core == c by {
                    if cores@.contains(c) {
                        if c == ext.core {
                            assert(events@[events@.len() - 1].core == c);
                        } else {
                            assert(cores_before.contains(c));
                            let w = choose|ei: int|
                                0 <= ei < evs_before.len() && (#[trigger] evs_before[ei]).core
                                    == c;
                            assert(events@[w].core == c);
                        }
                    }
                    if exists|ei: int|
                        0 <= ei < events@.len() && (#[trigger] events@[ei]).core == c {
                        let w = choose|ei: int|
                            0 <= ei < events@.len() && (#[trigger] events@[ei]).core == c;
                        if w == events@.len() - 1 {
                            assert(c == ext.core);
                        } else {
                            assert(evs_before[w].core == c);
                            assert(cores_before.contains(c));
                        }
                    }
                }
                // the new line's ordinal is a known thread
                assert(threads@.contains(ext.tid)) by {
                    assert(files@[best as int].header.id == ext.tid);
                }
                if spec_distinct_ids(files@) {
                    lemma_file_index_unique(files@, best as int);
                    assert(spec_file_index_of(files@, ext.tid) == best);
                    assert(pos_before[best as int] == p);
                    assert(head.hdr == (EventHeader { time: ext.time, core: ext.core }));
                    // equal-time lines keep non-decreasing file position
                    assert forall|a: int, b: int|
                        0 <= a < b < events@.len() && (#[trigger] events@[a]).time == (
                        #[trigger] events@[b]).time implies spec_file_index_of(
                        files@,
                        events@[a].tid,
                    ) <= spec_file_index_of(files@, events@[b].tid) by {
                        if b < events@.len() - 1 {
                            assert(events@[a] == evs_before[a] && events@[b] == evs_before[b]);
                        } else {
                            assert(events@[b] == ext);
                            assert(events@[a] == evs_before[a]);
                            let lastb = evs_before.last();
                            assert(evs_before[a].time <= lastb.time);
                            assert(lastb.time <= ext.time);
                            assert(lastb.time == ext.time);
                            let jl = spec_file_index_of(files@, lastb.tid);
                            assert(0 <= jl < k && files@[jl].header.id == lastb.tid);
                            assert(jl <= best) by {
                                if best < jl {
                                    assert(pos_before[best as int] < files@[
                                        best as int].entries@.len());
                                    assert(files@[best as int].entries@[pos_before[
                                        best as int] as int].hdr.time > lastb.time);
                                    assert(files@[best as int].entries@[p as int].hdr.time
                                        == ext.time);
                                }
                            }
                            if a == evs_before.len() - 1 {
                                assert(spec_file_index_of(files@, events@[a].tid) == jl);
                            } else {
                                assert(evs_before[a].time == lastb.time);
                                assert(spec_file_index_of(files@, evs_before[a].tid) <= jl);
                            }
                        }
                    }
                    // neighbouring lines never repeat thread, time and core
                    assert forall|a: int|
                        0 < a < events@.len() implies !((#[trigger] events@[a]).tid
                        == events@[a - 1].tid && events@[a].time == events@[a - 1].time
                        && events@[a].core == events@[a - 1].core) by {
                        if a < events@.len() - 1 {
                            assert(events@[a] == evs_before[a]
                                && events@[a - 1] == evs_before[a - 1]);
                        } else {
                            let lastb = evs_before.last();
                            assert(events@[a] == ext && events@[a - 1] == lastb);
                            if ext.tid == lastb.tid {
                                let jl = spec_file_index_of(files@, lastb.tid);
                                assert(0 <= jl < k && files@[jl].header.id == lastb.tid);
                                assert(jl == best) by {
                                    if jl != best {
                                        if jl < best {
                                            assert(files@[jl].header.id != files@[
                                                best as int].header.id);
                                        } else {
                                            assert(files@[best as int].header.id != files@[
                                                jl].header.id);
                                        }
                                    }
                                }
                                assert(pos_before[best as int]
                                    < files@[best as int].entries@.len());
                                assert(files@[best as int].entries@[p as int].hdr
                                    != (EventHeader { time: lastb.time, core: lastb.core }));
                            }
                        }
                    }
                    // the last line's file: its next record differs, and every
                    // earlier file's head is strictly later
                    assert(events@.last() == ext);
                    assert(pos@[best as int] == e);
                    assert(e == files@[best as int].entries@.len() || files@[
                        best as int].entries@[e as int].hdr != head.hdr);
                    assert forall|i: int|
                        0 <= i < best && pos@[i] < (#[trigger] files@[i]).entries@.len()
                        implies files@[i].entries@[pos@[i] as int].hdr.time > ext.time by {
                        assert(pos@[i] == pos_before[i]);
                        assert(best_time < files@[i].entries@[pos_before[i] as int].hdr.time);
                    }
                }
                lemma_sum_pos_bounds(files@, pos@);
            }
        }
        proof {
            lemma_sum_pos_bounds(files@, pos@);
            assert forall|i: int|
                0 <= i < k implies pos@[i] == (#[trigger] files@[i]).entries@.len() by {}
            assert(spec_total_events(events@) == spec_total_records(files@));
            if spec_distinct_ids(files@) {
                assert forall|i: int|
                    0 <= i < files@.len() implies spec_project(
                    events@,
                    (#[trigger] files@[i]).header.id,
                ) == files@[i].entries@ by {
                    assert(files@[i].entries@.take(pos@[i] as int) =~= files@[i].entries@);
                }
            }
            assert(events@.len() > 0) by {
                if events@.len() == 0 {
                    assert(spec_total_events(events@) == 0);
                    assert(spec_total_records(files@) > 0);
                }
            }
            assert(cores@.len() > 0) by {
                assert(cores@.contains(events@[0].core));
            }
        }
        proof {
            assert(spec_merge_ok(files@, events@, threads@, cores@, start_time));
        }
        Ok((events, threads, cores, start_time))
    }

    /// Merge already-parsed per-thread files into a ready merger.
    pub fn new(files: &Vec<BufferInfo>) -> (r: Result<Merger, MergeError>)
        requires
            forall|i: int|
                0 <= i < files@.len() ==> spec_sorted_by_time(
                    (#[trigger] files@[i]).entries@,
                ),
        ensures
            match r {
                Err(MergeError::NoEvents) => spec_total_records(files@) == 0,
                Err(MergeError::StartMismatch) => {
                    &&& spec_total_records(files@) > 0
                    &&& exists|i: int, j: int|
                        0 <= i < j < files@.len() && (#[trigger] files@[i]).header.start_gtime
                            != (#[trigger] files@[j]).header.start_gtime
                },
                Ok(m) => {
                    &&& m.wf()
                    &&& spec_total_records(files@) > 0
                    &&& files@.len() > 0 && m.start_global_time == files@[0].header.start_gtime
                    &&& spec_total_events(m.events@) == spec_total_records(files@)
                    &&& spec_distinct_ids(files@) ==> forall|i: int|
                        0 <= i < files@.len() ==> spec_project(
                            m.events@,
                            (#[trigger] files@[i]).header.id,
                        ) == files@[i].entries@
                    &&& forall|c: u32|
                        m.threads@.contains(c) <==> exists|i: int|
                            0 <= i < files@.len() && (#[trigger] files@[i]).header.id == c
                },
            },
    {
        match Merger::merge_files(files) {
            Ok((events, threads, cores, start_global_time)) => Ok(
                Merger { events, threads, cores, start_global_time },
            ),
            Err(e) => Err(e),
        }
    }
}

/// The `:<event_id>:<value>` pairs of one trace line, in order.
pub open spec fn spec_prv_infos(infos: Seq<EventInfo>) -> Seq<char>
    decreases infos.len(),
{
    if infos.len() == 0 {
        Seq::empty()
    } else {
        ":"@ + dec_digits(infos[0].id as nat) + ":"@ + dec_digits(infos[0].value as nat)
            + spec_prv_infos(infos.drop_first())
    }
}

/// One line of the trace body:
/// `2:<core>:1:1:<thread_ordinal>:<time_ns>` followed by the event pairs.
pub open spec fn spec_prv_line(ev: ExtendedEvent) -> Seq<char> {
    "2:"@ + dec_digits(ev.core as nat) + ":1:1:"@ + dec_digits(ev.tid as nat) + ":"@
        + dec_digits(ev.time as nat) + spec_prv_infos(ev.events@) + "\n"@
}

/// The whole trace body, one line per extended event, in stream order.
pub open spec fn spec_prv_lines(evs: Seq<ExtendedEvent>) -> Seq<char>
    decreases evs.len(),
{
    if evs.len() == 0 {
        Seq::empty()
    } else {
        spec_prv_line(evs[0]) + spec_prv_lines(evs.drop_first())
    }
}

/// The trace header:
/// `#Paraver (<date>):<duration>_ns:1(<max_core>):1:1(<n_threads>:1)`.
pub open spec fn spec_prv_header(
    date: Seq<char>,
    duration: u64,
    max_core: u16,
    nthreads: nat,
) -> Seq<char> {
    "#Paraver ("@ + date + "):"@ + dec_digits(duration as nat) + "_ns:1("@ + dec_digits(
        max_core as nat,
    ) + "):1:1("@ + dec_digits(nthreads) + ":1)\n"@
}

proof fn lemma_prv_infos_push(infos: Seq<EventInfo>, x: EventInfo)
    ensures
        spec_prv_infos(infos.push(x)) == spec_prv_infos(infos) + ":"@ + dec_digits(x.id as nat)
            + ":"@ + dec_digits(x.value as nat),
    decreases infos.len(),
{
    let one = ":"@ + dec_digits(x.id as nat) + ":"@ + dec_digits(x.value as nat);
    if infos.len() == 0 {
        assert(infos.push(x).drop_first() =~= infos);
        assert(spec_prv_infos(infos.push(x)) =~= spec_prv_infos(infos) + one);
    } else {
        assert(infos.push(x).drop_first() =~= infos.drop_first().push(x));
        lemma_prv_infos_push(infos.drop_first(), x);
        assert(spec_prv_infos(infos.push(x)) =~= spec_prv_infos(infos) + one);
    }
}

proof fn lemma_prv_lines_push(evs: Seq<ExtendedEvent>, ev: ExtendedEvent)
    ensures
        spec_prv_lines(evs.push(ev)) == spec_prv_lines(evs) + spec_prv_line(ev),
    decreases evs.len(),
{
    if evs.len() == 0 {
        assert(evs.push(ev).drop_first() =~= evs);
        assert(spec_prv_lines(evs.push(ev)) =~= spec_prv_lines(evs) + spec_prv_line(ev));
    } else {
        assert(evs.push(ev).drop_first() =~= evs.drop_first().push(ev));
        lemma_prv_lines_push(evs.drop_first(), ev);
        assert(spec_prv_lines(evs.push(ev)) =~= spec_prv_lines(evs) + spec_prv_line(ev));
    }
}

/// One line of the trace body as text.
#[verifier::spinoff_prover]
#[verifier::rlimit(60)]
fn prv_line_text(ev: &ExtendedEvent) -> (r: String)
    ensures
        r@ == spec_prv_line(*ev),
{
    let mut out = String::new();
    out.append("2:");
    let c = u16_to_dec(ev.core);
    out.append(c.as_str());
    out.append(":1:1:");
    let t = u32_to_dec(ev.tid);
    out.append(t.as_str());
    out.append(":");
    let tm = u64_to_dec(ev.time);
    out.append(tm.as_str());
    let ghost linehead = out@;
    let m: usize = ev.events.len();
    proof {
        assert(spec_prv_infos(ev.events@.take(0)) =~= Seq::<char>::empty());
    }
    for j in 0..m
        invariant
            m == ev.events@.len(),
            out@ == linehead + spec_prv_infos(ev.events@.take(j as int)),
    {
        out.append(":");
        let eid = u16_to_dec(ev.events[j].id);
        out.append(eid.as_str());
        out.append(":");
        let ev2 = u32_to_dec(ev.events[j].value);
        out.append(ev2.as_str());
        proof {
            lemma_prv_infos_push(ev.events@.take(j as int), ev.events@[j as int]);
            assert(ev.events@.take(j as int).push(ev.events@[j as int])
                =~= ev.events@.take(j + 1));
            assert(out@ =~= linehead + spec_prv_infos(ev.events@.take(j + 1)));
        }
    }
    out.append("\n");
    proof {
        assert(ev.events@.take(m as int) =~= ev.events@);
        assert(out@ =~= spec_prv_line(*ev));
    }
    out
}

impl Merger {
    /// The Paraver trace text: the header with the human date, the trace
    /// duration, the largest observed core and the thread count, then one
    /// line per extended event. Success is owed for every wall-clock start
    /// a real trace can carry; only a start past the representable dates
    /// yields nothing.
    pub fn create_prv(&self) -> (r: Option<String>)
        requires
            self.wf(),
        ensures
            self.start_global_time <= 8_000_000_000 ==> r is Some,
            self.start_global_time > i64::MAX as u64 ==> r is None,
            match r {
                Some(text) => exists|date: Seq<char>|
                    text@ == #[trigger] spec_prv_header(
                        date,
                        (self.events@.last().time - self.events@[0].time) as u64,
                        self.cores@.last(),
                        self.threads@.len(),
                    ) + spec_prv_lines(self.events@),
                None => true,
            },
    {
        if self.start_global_time > i64::MAX as u64 {
            return None;
        }
        let date = match sys::format_trace_date(self.start_global_time as i64) {
            Some(d) => d,
            None => {
                return None;
            },
        };
        let n: usize = self.events.len();
        let first_time: u64 = self.events[0].time;
        let last_time: u64 = self.events[n - 1].time;
        proof {
            if n > 1 {
                assert(self.events@[0].time <= self.events@[n - 1].time);
            }
        }
        let duration: u64 = last_time - first_time;
        let mut out = String::new();
        out.append("#Paraver (");
        out.append(date.as_str());
        out.append("):");
        let d1 = u64_to_dec(duration);
        out.append(d1.as_str());
        out.append("_ns:1(");
        let d2 = u16_to_dec(self.cores[self.cores.len() - 1]);
        out.append(d2.as_str());
        out.append("):1:1(");
        let d3 = u64_to_dec(self.threads.len() as u64);
        out.append(d3.as_str());
        out.append(":1)\n");
        let ghost head = out@;
        proof {
            assert(head =~= spec_prv_header(
                date@,
                duration,
                self.cores@.last(),
                self.threads@.len(),
            ));
            assert(spec_prv_lines(self.events@.take(0)) =~= Seq::<char>::empty());
        }
        for i in 0..n
            invariant
                n == self.events@.len(),
                out@ == head + spec_prv_lines(self.events@.take(i as int)),
        {
            let line = prv_line_text(&self.events[i]);
            out.append(line.as_str());
            proof {
                lemma_prv_lines_push(self.events@.take(i as int), self.events@[i as int]);
                assert(self.events@.take(i as int).push(self.events@[i as int])
                    =~= self.events@.take(i + 1));
                assert(out@ =~= head + spec_prv_lines(self.events@.take(i + 1)));
            }
        }
        proof {
            assert(self.events@.take(n as int) =~= self.events@);
            assert(duration == (self.events@.last().time - self.events@[0].time) as u64);
            assert(out@ == spec_prv_header(
                date@,
                (self.events@.last().time - self.events@[0].time) as u64,
                self.cores@.last(),
                self.threads@.len(),
            ) + spec_prv_lines(self.events@));
        }
        Some(out)
    }
}

proof fn lemma_sum_pos_zero(pos: Seq<usize>)
    requires
        forall|j: int| 0 <= j < pos.len() ==> pos[j] == 0,
    ensures
        spec_sum_pos(pos) == 0,
    decreases pos.len(),
{
    if pos.len() > 0 {
        lemma_sum_pos_zero(pos.drop_first());
    }
}

} // verus!
