//! The process-wide coordinator: it owns the name dictionary and the buffer
//! registry, knows the well-known "ThreadRunning" event and the enabled
//! hardware counters, and decides when finalization runs. The embedding
//! application holds one instance for the whole process (behind its own
//! once-initialized cell), performs the file output this module's decisions
//! call for, and hands every thread's retirement through
//! `finalize_buffer`: finalization fires exactly once, when the main
//! thread retires and no thread is left running.

use vstd::prelude::*;
use vstd::string::StringExecFns;

use crate::assoc::{spec_has_key, spec_lookup, str_eq};
use crate::buffer::Buffer;
use crate::bufferset::BufferSet;
use crate::nameset::{
    spec_exists_free, spec_opt_line, spec_opt_str, spec_real_name, NameInfo, NameSet,
    RegisterError, MAX_EVENT, MAX_USER_EVENT,
};

verus! {

/// How many hardware-counter names the tracer knows.
pub const NUM_COUNTERS: usize = 15;

/// The name of the counter at one position of the fixed list.
pub open spec fn spec_counter_name(i: int) -> Seq<char> {
    if i == 0 {
        "cycles"@
    } else if i == 1 {
        "instructions"@
    } else if i == 2 {
        "cache-references"@
    } else if i == 3 {
        "cache-misses"@
    } else if i == 4 {
        "branch-instructions"@
    } else if i == 5 {
        "branch-misses"@
    } else if i == 6 {
        "bus-cycles"@
    } else if i == 7 {
        "stalled-cycles-frontend"@
    } else if i == 8 {
        "stalled-cycles-backend"@
    } else if i == 9 {
        "ref-cpu-cycles"@
    } else if i == 10 {
        "page-faults"@
    } else if i == 11 {
        "context-switches"@
    } else if i == 12 {
        "cpu-migrations"@
    } else if i == 13 {
        "page-faults-min"@
    } else {
        "page-faults-maj"@
    }
}

/// The name of the counter at one position of the fixed list.
pub fn counter_name(i: usize) -> (r: &'static str)
    requires
        i < NUM_COUNTERS,
    ensures
        r@ == spec_counter_name(i as int),
        r@.len() > 0,
{
    proof {
        reveal_strlit("cycles");
        reveal_strlit("instructions");
        reveal_strlit("cache-references");
        reveal_strlit("cache-misses");
        reveal_strlit("branch-instructions");
        reveal_strlit("branch-misses");
        reveal_strlit("bus-cycles");
        reveal_strlit("stalled-cycles-frontend");
        reveal_strlit("stalled-cycles-backend");
        reveal_strlit("ref-cpu-cycles");
        reveal_strlit("page-faults");
        reveal_strlit("context-switches");
        reveal_strlit("cpu-migrations");
        reveal_strlit("page-faults-min");
        reveal_strlit("page-faults-maj");
    }
    match i {
        0 => "cycles",
        1 => "instructions",
        2 => "cache-references",
        3 => "cache-misses",
        4 => "branch-instructions",
        5 => "branch-misses",
        6 => "bus-cycles",
        7 => "stalled-cycles-frontend",
        8 => "stalled-cycles-backend",
        9 => "ref-cpu-cycles",
        10 => "page-faults",
        11 => "context-switches",
        12 => "cpu-migrations",
        13 => "page-faults-min",
        _ => "page-faults-maj",
    }
}

/// Whether a configured counter name is one the tracer knows; unknown names
/// are dropped, not fatal.
pub open spec fn spec_is_valid_counter(n: Seq<char>) -> bool {
    exists|i: int| 0 <= i < NUM_COUNTERS && n == #[trigger] spec_counter_name(i)
}

/// Whether a configured counter name is one the tracer knows.
pub fn is_valid_counter(name: &str) -> (r: bool)
    ensures
        r == spec_is_valid_counter(name@),
{
    let mut i: usize = 0;
    let mut found = false;
    while i < NUM_COUNTERS
        invariant
            i <= NUM_COUNTERS,
            found <==> exists|j: int| 0 <= j < i && name@ == #[trigger] spec_counter_name(j),
        decreases NUM_COUNTERS - i,
    {
        if str_eq(name, counter_name(i)) {
            found = true;
        }
        i = i + 1;
    }
    found
}

/// The configured counter names the tracer keeps: the valid ones, in
/// configuration order.
pub open spec fn spec_valid_counters(counters: Seq<String>) -> Seq<String>
    decreases counters.len(),
{
    if counters.len() == 0 {
        Seq::empty()
    } else {
        (if spec_is_valid_counter(counters[0]@) {
            seq![counters[0]]
        } else {
            Seq::<String>::empty()
        }) + spec_valid_counters(counters.drop_first())
    }
}

proof fn lemma_valid_counters_push(counters: Seq<String>, c: String)
    ensures
        spec_valid_counters(counters.push(c)) == spec_valid_counters(counters) + (
        if spec_is_valid_counter(c@) {
            seq![c]
        } else {
            Seq::<String>::empty()
        }),
    decreases counters.len(),
{
    let tail = (if spec_is_valid_counter(c@) {
        seq![c]
    } else {
        Seq::<String>::empty()
    });
    if counters.len() == 0 {
        assert(counters.push(c).drop_first() =~= counters);
        assert(spec_valid_counters(counters.push(c)) =~= spec_valid_counters(counters) + tail);
    } else {
        assert(counters.push(c).drop_first() =~= counters.drop_first().push(c));
        lemma_valid_counters_push(counters.drop_first(), c);
        assert(spec_valid_counters(counters.push(c)) =~= spec_valid_counters(counters) + tail);
    }
}

/// A kept counter pair: its name is the fixed-list counter at some
/// position, and its id is the internal id registered for that position
/// (the position's successor after the well-known thread event).
pub open spec fn spec_counter_pair(p: (String, u16)) -> bool {
    exists|w: int|
        {
            &&& 0 <= w < NUM_COUNTERS
            &&& p.0@ == #[trigger] spec_counter_name(w)
            &&& p.1 == MAX_USER_EVENT + 2 + w
        }
}

/// Whether a retiring thread triggers finalization: it must be the main
/// thread, and finalization must not have run yet.
pub open spec fn spec_finalize_decision(g: GlobalInfo, thread_name: Seq<char>) -> bool {
    thread_name == "main"@ && !g.finalized
}

/// Finalization fires at most once: after a call that fired (its post-state
/// has `finalized` set), no retirement can fire it again, whatever thread
/// retires.
pub proof fn lemma_finalize_at_most_once(after: GlobalInfo, thread_name: Seq<char>)
    requires
        after.finalized,
    ensures
        !spec_finalize_decision(after, thread_name),
{
}

/// The coordinator.
#[derive(Debug)]
pub struct GlobalInfo {
    pub buffer_set: BufferSet,
    pub name_set: NameSet,
    pub automerge: bool,
    pub thread_event_id: u16,
    pub events_info: Vec<(String, u16)>,
    pub finalized: bool,
}

impl GlobalInfo {
    pub open spec fn wf(&self) -> bool {
        &&& self.name_set.wf()
        &&& self.buffer_set.wf()
    }

    /// Bootstrap the coordinator from plain configuration values: the trace
    /// directory path, the wall-clock start, the monotonic origin, the
    /// configured counter names and the automerge flag. Registers the
    /// well-known "ThreadRunning" event (the first internal id) and every
    /// counter the tracer knows, and keeps of the configured counters only
    /// the valid ones.
    pub fn new(
        trace_dir: String,
        start_gtime: u64,
        origin_ns: u64,
        counters: &Vec<String>,
        automerge: bool,
    ) -> (r: GlobalInfo)
        ensures
            r.wf(),
            !r.finalized,
            r.automerge == automerge,
            r.thread_event_id == MAX_USER_EVENT + 1,
            spec_lookup(r.name_set.entries@, r.thread_event_id) matches Some(en)
                && en.info.name@ == "ThreadRunning"@,
            r.name_set.counter == MAX_USER_EVENT + 1 + NUM_COUNTERS,
            forall|k: u16|
                k > r.name_set.counter ==> !spec_has_key(r.name_set.entries@, k),
            r.buffer_set.threads_counter == 0,
            r.buffer_set.threads_running == 0,
            r.buffer_set.threadid_map@ == Seq::<(u64, u32)>::empty(),
            r.buffer_set.start_gtime == start_gtime,
            r.buffer_set.origin_ns == origin_ns,
            r.buffer_set.trace_directory_path == trace_dir,
            r.events_info@.len() == spec_valid_counters(counters@).len(),
            forall|j: int|
                0 <= j < r.events_info@.len() ==> (#[trigger] r.events_info@[j]).0
                    == spec_valid_counters(counters@)[j],
            forall|j: int|
                0 <= j < r.events_info@.len() ==> spec_counter_pair(
                    #[trigger] r.events_info@[j],
                ),
            forall|j: int|
                0 <= j < r.events_info@.len() ==> (spec_lookup(
                    r.name_set.entries@,
                    (#[trigger] r.events_info@[j]).1,
                ) matches Some(en) && en.info.name@ == r.events_info@[j].0@),
    {
        let mut name_set = NameSet::new();
        proof {
            assert(!spec_has_key(name_set.entries@, (MAX_USER_EVENT + 1) as u16));
            assert(spec_exists_free(name_set.entries@, (MAX_USER_EVENT + 1) as u16));
        }
        proof {
            reveal_strlit("ThreadRunning");
        }
        let thread_event_id = name_set.register_event_name_internal("ThreadRunning");
        proof {
            assert(thread_event_id == MAX_USER_EVENT + 1) by {
                if thread_event_id > MAX_USER_EVENT + 1 {
                    assert(spec_has_key(
                        Seq::<(u16, crate::nameset::NameEntry)>::empty(),
                        (MAX_USER_EVENT + 1) as u16,
                    ));
                }
            }
            assert forall|k: u16|
                k > name_set.counter implies !spec_has_key(name_set.entries@, k) by {
                if spec_has_key(name_set.entries@, k) {
                    assert(k == thread_event_id);
                }
            }
        }
        // register every counter the tracer knows, so their ids stay stable
        let mut all_counters: Vec<(String, u16)> = Vec::new();
        let mut i: usize = 0;
        while i < NUM_COUNTERS
            invariant
                i <= NUM_COUNTERS,
                name_set.wf(),
                name_set.counter == MAX_USER_EVENT + 1 + i,
                forall|k: u16| k > name_set.counter ==> !spec_has_key(name_set.entries@, k),
                all_counters@.len() == i,
                forall|j: int|
                    0 <= j < i ==> (#[trigger] all_counters@[j]).0@ == spec_counter_name(j),
                forall|j: int|
                    0 <= j < i ==> (#[trigger] all_counters@[j]).1 == MAX_USER_EVENT + 2 + j,
                forall|j: int|
                    0 <= j < i ==> (spec_lookup(
                        name_set.entries@,
                        (#[trigger] all_counters@[j]).1,
                    ) matches Some(en) && en.info.name@ == spec_counter_name(j)),
                spec_lookup(name_set.entries@, thread_event_id) matches Some(en)
                    && en.info.name@ == "ThreadRunning"@,
            decreases NUM_COUNTERS - i,
        {
            let name = counter_name(i);
            proof {
                assert(!spec_has_key(name_set.entries@, (name_set.counter + 1) as u16));
                assert(spec_exists_free(name_set.entries@, (name_set.counter + 1) as u16));
            }
            let ghost pre = name_set;
            let id = name_set.register_event_name_internal(name);
            proof {
                assert(id == pre.counter + 1) by {
                    if id > pre.counter + 1 {
                        assert(spec_has_key(pre.entries@, (pre.counter + 1) as u16));
                    }
                }
                assert forall|k: u16|
                    k > name_set.counter implies !spec_has_key(name_set.entries@, k) by {
                    if spec_has_key(name_set.entries@, k) {
                        assert(spec_has_key(pre.entries@, k) || k == id);
                    }
                }
                assert(thread_event_id != id);
                assert forall|j: int|
                    0 <= j < i implies spec_lookup(
                    name_set.entries@,
                    (#[trigger] all_counters@[j]).1,
                ) == spec_lookup(pre.entries@, all_counters@[j].1) by {
                    assert(all_counters@[j].1 != id);
                }
                assert(spec_lookup(name_set.entries@, id) matches Some(en)
                    && en.info.name@ == spec_counter_name(i as int)) by {
                    assert(name@ == spec_counter_name(i as int) && name@.len() > 0);
                }
            }
            all_counters.push((String::from_str(name), id));
            i = i + 1;
        }
        // keep only the configured counters that the tracer knows, each
        // with the id just registered for its fixed-list position
        let mut events_info: Vec<(String, u16)> = Vec::new();
        let n_cfg: usize = counters.len();
        proof {
            assert(events_info@ =~= Seq::<(String, u16)>::empty());
            assert(spec_valid_counters(counters@.take(0)) =~= Seq::<String>::empty());
        }
        let mut ci: usize = 0;
        while ci < n_cfg
            invariant
                n_cfg == counters@.len(),
                ci <= n_cfg,
                all_counters@.len() == NUM_COUNTERS,
                forall|j: int|
                    0 <= j < NUM_COUNTERS ==> (#[trigger] all_counters@[j]).0@
                        == spec_counter_name(j),
                forall|j: int|
                    0 <= j < NUM_COUNTERS ==> (#[trigger] all_counters@[j]).1
                        == MAX_USER_EVENT + 2 + j,
                forall|j: int|
                    0 <= j < NUM_COUNTERS ==> (spec_lookup(
                        name_set.entries@,
                        (#[trigger] all_counters@[j]).1,
                    ) matches Some(en) && en.info.name@ == spec_counter_name(j)),
                events_info@.len() == spec_valid_counters(counters@.take(ci as int)).len(),
                forall|j: int|
                    0 <= j < events_info@.len() ==> (#[trigger] events_info@[j]).0
                        == spec_valid_counters(counters@.take(ci as int))[j],
                forall|j: int|
                    0 <= j < events_info@.len() ==> spec_counter_pair(
                        #[trigger] events_info@[j],
                    ),
            decreases n_cfg - ci,
        {
            let cname = &counters[ci];
            let ghost taken = counters@.take(ci as int);
            proof {
                lemma_valid_counters_push(taken, counters@[ci as int]);
                assert(taken.push(counters@[ci as int]) =~= counters@.take(ci + 1));
            }
            if is_valid_counter(cname.as_str()) {
                // find the fixed-list position this name matches
                let mut kk: usize = 0;
                let mut found: Option<u16> = None;
                while kk < NUM_COUNTERS && found.is_none()
                    invariant
                        kk <= NUM_COUNTERS,
                        all_counters@.len() == NUM_COUNTERS,
                        forall|j: int|
                            0 <= j < NUM_COUNTERS ==> (#[trigger] all_counters@[j]).0@
                                == spec_counter_name(j),
                        forall|j: int|
                            0 <= j < NUM_COUNTERS ==> (#[trigger] all_counters@[j]).1
                                == MAX_USER_EVENT + 2 + j,
                        match found {
                            Some(id) => exists|w: int|
                                {
                                    &&& 0 <= w < NUM_COUNTERS
                                    &&& cname@ == #[trigger] spec_counter_name(w)
                                    &&& id == MAX_USER_EVENT + 2 + w
                                },
                            None => forall|j: int|
                                0 <= j < kk ==> cname@ != #[trigger] spec_counter_name(j),
                        },
                    decreases NUM_COUNTERS - kk,
                {
                    if str_eq(cname.as_str(), all_counters[kk].0.as_str()) {
                        found = Some(all_counters[kk].1);
                    }
                    kk = kk + 1;
                }
                proof {
                    if found is None {
                        let w = choose|w: int|
                            0 <= w < NUM_COUNTERS && cname@ == #[trigger] spec_counter_name(w);
                        assert(cname@ != spec_counter_name(w));
                    }
                }
                let id = match found {
                    Some(id) => id,
                    None => 0,
                };
                let ghost evs_pre = events_info@;
                events_info.push((cname.clone(), id));
                proof {
                    assert(found == Some(id));
                    let w = choose|w: int|
                        {
                            &&& 0 <= w < NUM_COUNTERS
                            &&& cname@ == #[trigger] spec_counter_name(w)
                            &&& id == MAX_USER_EVENT + 2 + w
                        };
                    assert(spec_counter_pair(events_info@.last())) by {
                        assert(0 <= w < NUM_COUNTERS && events_info@.last().0@
                            == spec_counter_name(w) && events_info@.last().1
                            == MAX_USER_EVENT + 2 + w);
                    }
                    assert forall|j: int|
                        0 <= j < events_info@.len() implies spec_counter_pair(
                        #[trigger] events_info@[j],
                    ) by {
                        if j < events_info@.len() - 1 {
                            assert(events_info@[j] == evs_pre[j]);
                            assert(spec_counter_pair(evs_pre[j]));
                        } else {
                            assert(events_info@[j] == events_info@.last());
                        }
                    }
                    assert(events_info@.last().0 == counters@[ci as int]);
                    assert(spec_valid_counters(counters@.take(ci + 1)) =~= spec_valid_counters(
                        taken,
                    ).push(counters@[ci as int]));
                    assert forall|j: int|
                        0 <= j < events_info@.len() implies (#[trigger] events_info@[j]).0
                        == spec_valid_counters(counters@.take(ci + 1))[j] by {
                        if j < events_info@.len() - 1 {
                            assert(events_info@[j].0 == spec_valid_counters(taken)[j]);
                        }
                    }
                }
            } else {
                proof {
                    assert(spec_valid_counters(counters@.take(ci + 1)) =~= spec_valid_counters(
                        taken,
                    ));
                }
            }
            ci = ci + 1;
        }
        proof {
            assert(counters@.take(n_cfg as int) =~= counters@);
            // each kept counter's id maps in the dictionary to exactly the
            // kept name
            assert forall|j: int|
                0 <= j < events_info@.len() implies (spec_lookup(
                name_set.entries@,
                (#[trigger] events_info@[j]).1,
            ) matches Some(en) && en.info.name@ == events_info@[j].0@) by {
                assert(spec_counter_pair(events_info@[j]));
                let w = choose|w: int|
                    {
                        &&& 0 <= w < NUM_COUNTERS
                        &&& events_info@[j].0@ == #[trigger] spec_counter_name(w)
                        &&& events_info@[j].1 == MAX_USER_EVENT + 2 + w
                    };
                assert(all_counters@[w].1 == MAX_USER_EVENT + 2 + w);
                assert(spec_lookup(name_set.entries@, all_counters@[w].1) matches Some(en)
                    && en.info.name@ == spec_counter_name(w));
            }
        }
        GlobalInfo {
            buffer_set: BufferSet::new(start_gtime, origin_ns, trace_dir),
            name_set,
            automerge,
            thread_event_id,
            events_info,
            finalized: false,
        }
    }

    /// Acquire a buffer for a thread that is starting to emit.
    pub fn init_buffer(&mut self, tid: u64, name: &str) -> (r: Buffer)
        requires
            old(self).wf(),
            old(self).buffer_set.threads_counter < u32::MAX,
            old(self).buffer_set.threads_running < u32::MAX,
        ensures
            final(self).wf(),
            final(self).name_set == old(self).name_set,
            final(self).finalized == old(self).finalized,
            final(self).automerge == old(self).automerge,
            final(self).thread_event_id == old(self).thread_event_id,
            final(self).buffer_set.threads_running == old(self).buffer_set.threads_running
                + 1,
            final(self).buffer_set.threadid_map == old(self).buffer_set.threadid_map,
            match spec_lookup(old(self).buffer_set.threadid_map@, tid) {
                Some(ordinal) => r.info.header.id == ordinal
                    && final(self).buffer_set.threads_counter == old(
                    self,
                ).buffer_set.threads_counter,
                None => r.info.header.id == old(self).buffer_set.threads_counter + 1
                    && final(self).buffer_set.threads_counter == old(
                    self,
                ).buffer_set.threads_counter + 1,
            },
            r.wf(),
            r.name@ == name@,
            r.info.header.tid == tid,
            r.info.header.start_gtime == old(self).buffer_set.start_gtime,
            r.info.header.total_flushed == 0,
            r.info.entries@.len() == 0,
            r.origin_ns == old(self).buffer_set.origin_ns,
            r.file_started == false,
    {
        self.buffer_set.get_buffer(tid, name)
    }

    /// Retire a thread's buffer and decide whether this retirement
    /// finalizes the trace: it does exactly when the main thread retires
    /// and finalization has not run yet, and then no thread is left
    /// running. The caller performs the output the decision calls for.
    pub fn finalize_buffer(&mut self, buffer: &Buffer) -> (run_finalize: bool)
        requires
            old(self).wf(),
            old(self).buffer_set.threads_running >= 1,
            buffer.name@ == "main"@ ==> old(self).buffer_set.threads_running == 1,
            match spec_lookup(old(self).buffer_set.threadid_map@, buffer.info.header.tid) {
                Some(ordinal) => ordinal == buffer.info.header.id,
                None => true,
            },
        ensures
            final(self).wf(),
            final(self).name_set == old(self).name_set,
            final(self).automerge == old(self).automerge,
            final(self).thread_event_id == old(self).thread_event_id,
            final(self).buffer_set.threads_running == old(self).buffer_set.threads_running
                - 1,
            spec_lookup(final(self).buffer_set.threadid_map@, buffer.info.header.tid) == Some(
                buffer.info.header.id,
            ),
            run_finalize == spec_finalize_decision(*old(self), buffer.name@),
            run_finalize ==> final(self).finalized
                && final(self).buffer_set.threads_running == 0,
            !run_finalize ==> final(self).finalized == old(self).finalized,
    {
        let _remaining = self.buffer_set.save_buffer_id(buffer);
        let is_main = str_eq(buffer.name(), "main");
        if is_main && !self.finalized {
            self.finalized = true;
            true
        } else {
            false
        }
    }

    /// Register an event name in the process-wide dictionary.
    pub fn register_event_name(
        &mut self,
        event_name: &str,
        file_name: Option<&str>,
        line: Option<u32>,
        event: Option<u16>,
    ) -> (r: u16)
        requires
            old(self).wf(),
            match event {
                Some(e) => 1 <= e <= MAX_USER_EVENT,
                None => old(self).name_set.counter < MAX_EVENT,
            },
            spec_exists_free(
                old(self).name_set.entries@,
                crate::nameset::spec_candidate(old(self).name_set.counter, event),
            ),
        ensures
            final(self).wf(),
            final(self).buffer_set == old(self).buffer_set,
            final(self).finalized == old(self).finalized,
            final(self).thread_event_id == old(self).thread_event_id,
            crate::nameset::spec_candidate(old(self).name_set.counter, event) <= r,
            !spec_has_key(old(self).name_set.entries@, r),
            forall|k: u16|
                crate::nameset::spec_candidate(old(self).name_set.counter, event) <= k < r
                    ==> spec_has_key(old(self).name_set.entries@, k),
            final(self).name_set.counter == old(self).name_set.counter + (if event is None {
                1int
            } else {
                0int
            }),
            spec_lookup(final(self).name_set.entries@, r) matches Some(en) && {
                &&& en.info.name@ == spec_real_name(
                    event_name@,
                    spec_opt_str(file_name),
                    spec_opt_line(line),
                )
                &&& en.info.path@ == spec_opt_str(file_name)
                &&& en.info.line == spec_opt_line(line)
                &&& en.values@ == Seq::<(u32, NameInfo)>::empty()
            },
            forall|k: u16|
                k != r ==> spec_lookup(final(self).name_set.entries@, k) == spec_lookup(
                    old(self).name_set.entries@,
                    k,
                ),
            forall|k: u16|
                spec_has_key(final(self).name_set.entries@, k) <==> (spec_has_key(
                    old(self).name_set.entries@,
                    k,
                ) || k == r),
    {
        self.name_set.register_event_name(event_name, file_name, line, event)
    }

    /// Register a value name under an existing event.
    pub fn register_event_value_name(
        &mut self,
        event_name: &str,
        file_name: Option<&str>,
        line: Option<u32>,
        event: u16,
        value: Option<u32>,
    ) -> (r: Result<u32, RegisterError>)
        requires
            old(self).wf(),
        ensures
            final(self).wf(),
            final(self).buffer_set == old(self).buffer_set,
            final(self).finalized == old(self).finalized,
            final(self).thread_event_id == old(self).thread_event_id,
            crate::nameset::spec_register_value_outcome(
                old(self).name_set,
                final(self).name_set,
                event_name@,
                spec_opt_str(file_name),
                spec_opt_line(line),
                event,
                value,
                r,
            ),
    {
        self.name_set.register_event_value_name(event_name, file_name, line, event, value)
    }

    /// Look an event or one of its values up in the dictionary.
    pub fn get_event_value_info(&self, event: u16, value: Option<u32>) -> (r: Option<NameInfo>)
        requires
            self.wf(),
        ensures
            match spec_lookup(self.name_set.entries@, event) {
                None => r is None,
                Some(en) => match value {
                    None => r matches Some(info) && info == en.info,
                    Some(v) => match spec_lookup(en.values@, v) {
                        None => r is None,
                        Some(vi) => r matches Some(info) && info == vi,
                    },
                },
            },
    {
        self.name_set.get_event_value_info(event, value)
    }
}

} // verus!
