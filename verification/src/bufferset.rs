//! The process-wide buffer registry: the thread-key-to-ordinal table that
//! keeps ordinals stable when a host recycles thread identities, the
//! counters of threads ever seen and still running, and the `.row`
//! topology text written at finalization.

use vstd::prelude::*;
use vstd::string::StringExecFns;

use crate::assoc::{
    lemma_insert_lookup, lemma_lookup_at, lemma_lookup_none, spec_has_key, spec_lookup,
    spec_unique_keys,
};
use crate::buffer::Buffer;
use crate::numfmt::{dec_digits, u32_to_dec, u64_to_dec};
use crate::sys;

verus! {

/// The `i.<hostname>` lines of the CPU level, one per core, in order.
pub open spec fn spec_row_cpu_lines(hostname: Seq<char>, ncores: u64) -> Seq<char>
    decreases ncores,
{
    if ncores == 0 {
        Seq::empty()
    } else {
        spec_row_cpu_lines(hostname, (ncores - 1) as u64) + dec_digits(ncores as nat) + "."@
            + hostname + "\n"@
    }
}

/// The `THREAD 1.1.i` lines, one per thread ever seen, in order.
pub open spec fn spec_row_thread_lines(nthreads: u32) -> Seq<char>
    decreases nthreads,
{
    if nthreads == 0 {
        Seq::empty()
    } else {
        spec_row_thread_lines((nthreads - 1) as u32) + "THREAD 1.1."@ + dec_digits(
            nthreads as nat,
        ) + "\n"@
    }
}

/// The whole `.row` topology text for one host.
pub open spec fn spec_row(hostname: Seq<char>, ncores: u64, nthreads: u32) -> Seq<char> {
    "LEVEL CPU SIZE "@ + dec_digits(ncores as nat) + "\n"@ + spec_row_cpu_lines(hostname, ncores)
        + "\nLEVEL NODE SIZE 1\n"@ + hostname + "\n"@ + "\nLEVEL THREAD SIZE "@ + dec_digits(
        nthreads as nat,
    ) + "\n"@ + spec_row_thread_lines(nthreads)
}

/// The `.row` text for the given host name, core count and thread count.
pub fn row_content(hostname: &str, ncores: u64, nthreads: u32) -> (r: String)
    ensures
        r@ == spec_row(hostname@, ncores, nthreads),
{
    let mut out = String::new();
    out.append("LEVEL CPU SIZE ");
    let nc = u64_to_dec(ncores);
    out.append(nc.as_str());
    out.append("\n");
    let ghost head = out@;
    let mut i: u64 = 0;
    while i < ncores
        invariant
            i <= ncores,
            out@ == head + spec_row_cpu_lines(hostname@, i),
        decreases ncores - i,
    {
        i = i + 1;
        let d = u64_to_dec(i);
        out.append(d.as_str());
        out.append(".");
        out.append(hostname);
        out.append("\n");
        proof {
            assert(out@ =~= head + spec_row_cpu_lines(hostname@, i));
        }
    }
    out.append("\nLEVEL NODE SIZE 1\n");
    out.append(hostname);
    out.append("\n");
    out.append("\nLEVEL THREAD SIZE ");
    let nt = u32_to_dec(nthreads);
    out.append(nt.as_str());
    out.append("\n");
    let ghost mid = out@;
    let mut t: u32 = 0;
    while t < nthreads
        invariant
            t <= nthreads,
            out@ == mid + spec_row_thread_lines(t),
        decreases nthreads - t,
    {
        t = t + 1;
        out.append("THREAD 1.1.");
        let d = u32_to_dec(t);
        out.append(d.as_str());
        out.append("\n");
        proof {
            assert(out@ =~= mid + spec_row_thread_lines(t));
        }
    }
    proof {
        assert(out@ =~= spec_row(hostname@, ncores, nthreads));
    }
    out
}

/// The registry itself.
#[derive(Debug)]
pub struct BufferSet {
    pub threadid_map: Vec<(u64, u32)>,
    pub threads_counter: u32,
    pub threads_running: u32,
    pub start_gtime: u64,
    pub origin_ns: u64,
    pub trace_directory_path: String,
}

impl BufferSet {
    /// Thread keys are recorded at most once.
    pub open spec fn wf(&self) -> bool {
        spec_unique_keys(self.threadid_map@)
    }

    /// A fresh registry for a trace that starts now, rooted at the given
    /// directory.
    pub fn new(start_gtime: u64, origin_ns: u64, trace_directory_path: String) -> (r: BufferSet)
        ensures
            r.wf(),
            r.threadid_map@ == Seq::<(u64, u32)>::empty(),
            r.threads_counter == 0,
            r.threads_running == 0,
            r.start_gtime == start_gtime,
            r.origin_ns == origin_ns,
            r.trace_directory_path == trace_directory_path,
    {
        let threadid_map: Vec<(u64, u32)> = Vec::new();
        proof {
            assert(threadid_map@ =~= Seq::<(u64, u32)>::empty());
        }
        BufferSet {
            threadid_map,
            threads_counter: 0,
            threads_running: 0,
            start_gtime,
            origin_ns,
            trace_directory_path,
        }
    }

    /// Acquire a buffer for a thread: a key seen before gets its recorded
    /// ordinal back; a new key gets the next ordinal (which counts the
    /// thread as ever seen). Either way the running count goes up by one
    /// and a fresh buffer bound to `Trace_<ordinal>.bin` under the trace
    /// directory comes back; the file itself is not touched.
    pub fn get_buffer(&mut self, tid: u64, name: &str) -> (r: Buffer)
        requires
            old(self).wf(),
            old(self).threads_counter < u32::MAX,
            old(self).threads_running < u32::MAX,
        ensures
            final(self).wf(),
            final(self).threadid_map == old(self).threadid_map,
            final(self).threads_running == old(self).threads_running + 1,
            final(self).start_gtime == old(self).start_gtime,
            final(self).origin_ns == old(self).origin_ns,
            final(self).trace_directory_path == old(self).trace_directory_path,
            match spec_lookup(old(self).threadid_map@, tid) {
                Some(ordinal) => r.info.header.id == ordinal && final(self).threads_counter
                    == old(self).threads_counter,
                None => r.info.header.id == old(self).threads_counter + 1
                    && final(self).threads_counter == old(self).threads_counter + 1,
            },
            r.wf(),
            r.name@ == name@,
            r.info.header.tid == tid,
            r.info.header.start_gtime == old(self).start_gtime,
            r.info.header.total_flushed == 0,
            r.info.entries@.len() == 0,
            r.origin_ns == old(self).origin_ns,
            r.file_started == false,
            r.path@ == old(self).trace_directory_path@ + "/Trace_"@ + dec_digits(
                r.info.header.id as nat,
            ) + ".bin"@,
    {
        let ghost s = self.threadid_map@;
        let n: usize = self.threadid_map.len();
        let mut i: usize = 0;
        while i < n && self.threadid_map[i].0 != tid
            invariant
                n == s.len(),
                self.threadid_map@ == s,
                i <= n,
                forall|j: int| 0 <= j < i ==> s[j].0 != tid,
            decreases n - i,
        {
            i = i + 1;
        }
        let id: u32 = if i < n {
            proof {
                lemma_lookup_at(s, i as int);
            }
            self.threadid_map[i].1
        } else {
            proof {
                lemma_lookup_none(s, tid);
            }
            self.threads_counter = self.threads_counter + 1;
            self.threads_counter
        };
        self.threads_running = self.threads_running + 1;
        let mut path = self.trace_directory_path.clone();
        path.append("/Trace_");
        let d = u32_to_dec(id);
        path.append(d.as_str());
        path.append(".bin");
        Buffer::new(id, tid, name, path, self.start_gtime, self.origin_ns)
    }

    /// Retire a thread's buffer: record its key-to-ordinal binding if it is
    /// new (a key seen before must carry the same ordinal), count the
    /// thread as no longer running, and report how many still are.
    pub fn save_buffer_id(&mut self, buffer: &Buffer) -> (r: u32)
        requires
            old(self).wf(),
            old(self).threads_running >= 1,
            match spec_lookup(old(self).threadid_map@, buffer.info.header.tid) {
                Some(ordinal) => ordinal == buffer.info.header.id,
                None => true,
            },
        ensures
            final(self).wf(),
            final(self).threads_running == old(self).threads_running - 1,
            r == final(self).threads_running,
            final(self).threads_counter == old(self).threads_counter,
            final(self).start_gtime == old(self).start_gtime,
            final(self).origin_ns == old(self).origin_ns,
            final(self).trace_directory_path == old(self).trace_directory_path,
            spec_lookup(final(self).threadid_map@, buffer.info.header.tid) == Some(
                buffer.info.header.id,
            ),
            forall|k: u64|
                k != buffer.info.header.tid ==> spec_lookup(final(self).threadid_map@, k)
                    == spec_lookup(old(self).threadid_map@, k),
            forall|k: u64|
                spec_has_key(final(self).threadid_map@, k) <==> (spec_has_key(
                    old(self).threadid_map@,
                    k,
                ) || k == buffer.info.header.tid),
    {
        let ghost s = self.threadid_map@;
        let tid = buffer.tid();
        let n: usize = self.threadid_map.len();
        let mut i: usize = 0;
        while i < n && self.threadid_map[i].0 != tid
            invariant
                n == s.len(),
                self.threadid_map@ == s,
                i <= n,
                forall|j: int| 0 <= j < i ==> s[j].0 != tid,
            decreases n - i,
        {
            i = i + 1;
        }
        if i == n {
            proof {
                lemma_lookup_none(s, tid);
                lemma_insert_lookup(s, n as int, tid, buffer.info.header.id);
                assert(s.insert(n as int, (tid, buffer.info.header.id)) =~= s.push(
                    (tid, buffer.info.header.id),
                ));
            }
            self.threadid_map.push((tid, buffer.id()));
        } else {
            proof {
                lemma_lookup_at(s, i as int);
            }
        }
        self.threads_running = self.threads_running - 1;
        self.threads_running
    }

    /// The `.row` topology text for this registry, from the host's core
    /// count and name; nothing when the host cannot report them. Only
    /// meaningful once every thread has retired, when the table holds
    /// exactly the threads ever seen.
    pub fn create_row(&self) -> (r: Option<String>)
        requires
            self.wf(),
            self.threads_running == 0,
            self.threadid_map@.len() == self.threads_counter,
        ensures
            match r {
                Some(text) => exists|hostname: Seq<char>, ncores: u64|
                    text@ == spec_row(hostname, ncores, self.threads_counter),
                None => true,
            },
    {
        let hostname = match sys::hostname() {
            Some(h) => h,
            None => {
                return None;
            },
        };
        let ncores_raw = match sys::cpu_count() {
            Some(c) => c,
            None => {
                return None;
            },
        };
        if ncores_raw < 0 {
            return None;
        }
        let ncores = ncores_raw as u64;
        let text = row_content(hostname.as_str(), ncores, self.threads_counter);
        proof {
            assert(text@ == spec_row(hostname@, ncores, self.threads_counter));
        }
        Some(text)
    }
}

} // verus!
