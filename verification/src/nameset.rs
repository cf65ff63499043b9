//! The process-wide dictionary of event and value names. Event ids live in
//! `[1, 65535]`: callers may request an id in the user range `[1, 32767]`;
//! anonymous registrations draw from an internal counter above it. A
//! requested id that is taken probes upward to the first free id. Value
//! names hang off their event: a requested value that is taken is refused
//! outright, and an unrequested one takes the successor of the current
//! maximum. Both tables are write-once: no binding is ever overwritten.

use vstd::prelude::*;
use vstd::string::StringExecFns;

use crate::assoc::{
    lemma_insert_lookup, lemma_lookup_at, lemma_lookup_none, lemma_update_lookup, spec_has_key,
    spec_lookup, spec_unique_keys,
};
use crate::numfmt::{dec_digits, u16_to_dec, u32_to_dec};

verus! {

/// Largest id a caller may request; the internal counter starts above it.
pub const MAX_USER_EVENT: u16 = 32767;

/// Largest event id the trace format carries.
pub const MAX_EVENT: u16 = 65535;

/// Why a registration was refused.
#[derive(Clone, Copy, PartialEq, Eq, Structural, Debug)]
pub enum RegisterError {
    /// A value name was registered under an event id that does not exist.
    UnknownEvent,
    /// The requested value is already occupied for this event.
    ValueTaken,
    /// No value is left: the event's values already reach the largest one.
    ValueExhausted,
}

/// A registered name with the source position it came from.
#[derive(Debug)]
pub struct NameInfo {
    pub name: String,
    pub path: String,
    pub line: u32,
}

impl Clone for NameInfo {
    fn clone(&self) -> (r: Self)
        ensures
            r == *self,
    {
        NameInfo { name: self.name.clone(), path: self.path.clone(), line: self.line }
    }
}

impl NameInfo {
    /// A name entry; a missing path or line becomes empty and zero.
    pub fn new(name: &str, path: Option<&str>, line: Option<u32>) -> (r: NameInfo)
        ensures
            r.name@ == name@,
            r.path@ == spec_opt_str(path),
            r.line == spec_opt_line(line),
    {
        let p = match path {
            Some(p) => String::from_str(p),
            None => String::new(),
        };
        let l = match line {
            Some(l) => l,
            None => 0,
        };
        NameInfo { name: String::from_str(name), path: p, line: l }
    }
}

/// One event's naming: its own name plus the names of its values.
#[derive(Debug)]
pub struct NameEntry {
    pub info: NameInfo,
    pub values: Vec<(u32, NameInfo)>,
}

impl NameEntry {
    /// A fresh entry with no value names yet.
    pub fn new(name: &str, path: Option<&str>, line: Option<u32>) -> (r: NameEntry)
        ensures
            r.info.name@ == name@,
            r.info.path@ == spec_opt_str(path),
            r.info.line == spec_opt_line(line),
            r.values@ == Seq::<(u32, NameInfo)>::empty(),
    {
        let values: Vec<(u32, NameInfo)> = Vec::new();
        proof {
            assert(values@ =~= Seq::<(u32, NameInfo)>::empty());
        }
        NameEntry { info: NameInfo::new(name, path, line), values }
    }
}

/// The view of an optional string argument: its text, or empty.
pub open spec fn spec_opt_str(o: Option<&str>) -> Seq<char> {
    match o {
        Some(s) => s@,
        None => Seq::empty(),
    }
}

/// The view of an optional line argument: its value, or zero.
pub open spec fn spec_opt_line(o: Option<u32>) -> u32 {
    match o {
        Some(l) => l,
        None => 0,
    }
}

/// The name actually stored: the given one, or `<file>:<line>` synthesized
/// from the source position when the given one is empty.
pub open spec fn spec_real_name(name: Seq<char>, file: Seq<char>, line: u32) -> Seq<char> {
    if name.len() > 0 {
        name
    } else {
        file + ":"@ + dec_digits(line as nat)
    }
}

/// Event entries are strictly ordered by id.
pub open spec fn spec_sorted_events(s: Seq<(u16, NameEntry)>) -> bool {
    forall|i: int, j: int| 0 <= i < j < s.len() ==> s[i].0 < s[j].0
}

/// Value entries are strictly ordered by value.
pub open spec fn spec_sorted_values(s: Seq<(u32, NameInfo)>) -> bool {
    forall|i: int, j: int| 0 <= i < j < s.len() ==> s[i].0 < s[j].0
}

/// Some id in `[cand, MAX_EVENT]` is still free, so probing from `cand`
/// can land.
pub open spec fn spec_exists_free(s: Seq<(u16, NameEntry)>, cand: u16) -> bool {
    exists|k: u16| cand <= k <= MAX_EVENT && !spec_has_key(s, k)
}

/// The id probing starts from: the requested one, or the next internal id.
pub open spec fn spec_candidate(counter: u16, event_id: Option<u16>) -> u16 {
    match event_id {
        Some(e) => e,
        None => (counter + 1) as u16,
    }
}

/// The value a value-name registration takes: the requested one, or the
/// successor of the current maximum, or one when there is none yet.
pub open spec fn spec_chosen_value(values: Seq<(u32, NameInfo)>, value: Option<u32>) -> u32 {
    match value {
        Some(v) => v,
        None => if values.len() == 0 {
            1u32
        } else {
            (values.last().0 + 1) as u32
        },
    }
}

/// What registering a value name does, as a relation between the
/// dictionary before and after the call, its arguments, and its outcome:
/// an unknown event, a taken requested value, and an exhausted value space
/// are refused and change nothing; otherwise the chosen value is fresh,
/// gets the (possibly synthesized) name, and every other binding at either
/// level is untouched.
pub open spec fn spec_register_value_outcome(
    before: NameSet,
    after: NameSet,
    value_name: Seq<char>,
    file: Seq<char>,
    line: u32,
    event: u16,
    value: Option<u32>,
    r: Result<u32, RegisterError>,
) -> bool {
    match spec_lookup(before.entries@, event) {
        None => r == Err::<u32, RegisterError>(RegisterError::UnknownEvent) && after == before,
        Some(en) => {
            let chosen = spec_chosen_value(en.values@, value);
            if value matches Some(v) && spec_has_key(en.values@, v) {
                r == Err::<u32, RegisterError>(RegisterError::ValueTaken) && after == before
            } else if value is None && en.values@.len() > 0 && en.values@.last().0 == u32::MAX {
                r == Err::<u32, RegisterError>(RegisterError::ValueExhausted) && after == before
            } else {
                &&& r == Ok::<u32, RegisterError>(chosen)
                &&& !spec_has_key(en.values@, chosen)
                &&& spec_lookup(after.entries@, event) matches Some(en2) && {
                    &&& en2.info == en.info
                    &&& spec_lookup(en2.values@, chosen) matches Some(vi) && {
                        &&& vi.name@ == spec_real_name(value_name, file, line)
                        &&& vi.path@ == file
                        &&& vi.line == line
                    }
                    &&& forall|v2: u32|
                        v2 != chosen ==> spec_lookup(en2.values@, v2) == spec_lookup(
                            en.values@,
                            v2,
                        )
                    &&& forall|v2: u32|
                        spec_has_key(en2.values@, v2) <==> (spec_has_key(en.values@, v2)
                            || v2 == chosen)
                }
                &&& forall|k: u16|
                    k != event ==> spec_lookup(after.entries@, k) == spec_lookup(
                        before.entries@,
                        k,
                    )
                &&& forall|k: u16|
                    spec_has_key(after.entries@, k) <==> spec_has_key(before.entries@, k)
            }
        },
    }
}

/// The dictionary itself: the ordered id-to-entry table and the counter for
/// anonymous ids.
#[derive(Debug)]
pub struct NameSet {
    pub counter: u16,
    pub entries: Vec<(u16, NameEntry)>,
}

impl NameSet {
    /// Entries strictly sorted by id, every value table strictly sorted by
    /// value, and the internal counter never below the user range's top.
    pub open spec fn wf(&self) -> bool {
        &&& spec_sorted_events(self.entries@)
        &&& MAX_USER_EVENT <= self.counter
        &&& forall|i: int|
            0 <= i < self.entries@.len() ==> spec_sorted_values(
                (#[trigger] self.entries@[i]).1.values@,
            )
    }

    /// An empty dictionary.
    pub fn new() -> (r: NameSet)
        ensures
            r.wf(),
            r.counter == MAX_USER_EVENT,
            r.entries@ == Seq::<(u16, NameEntry)>::empty(),
    {
        let entries: Vec<(u16, NameEntry)> = Vec::new();
        proof {
            assert(entries@ =~= Seq::<(u16, NameEntry)>::empty());
        }
        NameSet { counter: MAX_USER_EVENT, entries }
    }

    /// Register an event name. A requested id must sit in the user range;
    /// an anonymous registration takes the next internal id. Either way the
    /// returned id is the first free id at or above the starting point, the
    /// new entry sits under it, and every other binding is untouched.
    pub fn register_event_name(
        &mut self,
        event_name: &str,
        file_name: Option<&str>,
        line: Option<u32>,
        event_id: Option<u16>,
    ) -> (r: u16)
        requires
            old(self).wf(),
            match event_id {
                Some(e) => 1 <= e <= MAX_USER_EVENT,
                None => old(self).counter < MAX_EVENT,
            },
            spec_exists_free(
                old(self).entries@,
                spec_candidate(old(self).counter, event_id),
            ),
        ensures
            final(self).wf(),
            spec_candidate(old(self).counter, event_id) <= r,
            !spec_has_key(old(self).entries@, r),
            forall|k: u16|
                spec_candidate(old(self).counter, event_id) <= k < r ==> spec_has_key(
                    old(self).entries@,
                    k,
                ),
            final(self).counter == old(self).counter + (if event_id is None {
                1int
            } else {
                0int
            }),
            spec_lookup(final(self).entries@, r) matches Some(en) && {
                &&& en.info.name@ == spec_real_name(
                    event_name@,
                    spec_opt_str(file_name),
                    spec_opt_line(line),
                )
                &&& en.info.path@ == spec_opt_str(file_name)
                &&& en.info.line == spec_opt_line(line)
                &&& en.values@ == Seq::<(u32, NameInfo)>::empty()
            },
            forall|k: u16|
                k != r ==> spec_lookup(final(self).entries@, k) == spec_lookup(
                    old(self).entries@,
                    k,
                ),
            forall|k: u16|
                spec_has_key(final(self).entries@, k) <==> (spec_has_key(old(self).entries@, k)
                    || k == r),
    {
        let ghost s = self.entries@;
        proof {
            assert(spec_unique_keys(s)) by {
                assert forall|a: int, b: int| 0 <= a < b < s.len() implies s[a].0 != s[b].0 by {
                    assert(s[a].0 < s[b].0);
                }
            }
        }
        let cand: u16 = match event_id {
            Some(e) => e,
            None => self.counter + 1,
        };
        let stored = real_name(event_name, file_name, line);
        let entry = NameEntry::new(stored.as_str(), file_name, line);

        let n: usize = self.entries.len();
        let mut i: usize = 0;
        while i < n && self.entries[i].0 < cand
            invariant
                n == s.len(),
                self.entries@ == s,
                i <= n,
                forall|j: int| 0 <= j < i ==> s[j].0 < cand,
            decreases n - i,
        {
            i = i + 1;
        }
        let mut id: u16 = cand;
        while i < n && self.entries[i].0 == id
            invariant
                old(self).wf(),
                n == s.len(),
                self.entries@ == s,
                spec_exists_free(s, cand),
                i <= n,
                cand <= id,
                forall|j: int| 0 <= j < i ==> s[j].0 < id,
                i < n ==> s[i as int].0 >= id,
                forall|k: u16| cand <= k < id ==> spec_has_key(s, k),
            decreases n - i,
        {
            proof {
                assert(spec_has_key(s, id));
                let f = choose|k: u16| cand <= k <= MAX_EVENT && !spec_has_key(s, k);
                assert(f >= id) by {
                    if f < id {
                        assert(spec_has_key(s, f));
                    }
                }
                assert(f != id);
                assert(id < MAX_EVENT);
            }
            id = id + 1;
            i = i + 1;
        }
        proof {
            assert forall|j: int| 0 <= j < n implies s[j].0 != id by {
                if j >= i {
                    assert(i < n);
                    if j > i {
                        assert(s[i as int].0 < s[j].0);
                    }
                }
            }
            assert(!spec_has_key(s, id)) by {
                if spec_has_key(s, id) {
                    let w = choose|w: int| 0 <= w < s.len() && s[w].0 == id;
                    assert(s[w].0 != id);
                }
            }
            lemma_insert_lookup(s, i as int, id, entry);
        }
        let ghost t = s.insert(i as int, (id, entry));
        self.entries.insert(i, (id, entry));
        proof {
            assert(self.entries@ == t);
            assert(spec_sorted_events(t)) by {
                assert forall|a: int, b: int| 0 <= a < b < t.len() implies t[a].0 < t[b].0 by {
                    if a < i && b > i {
                        assert(t[a] == s[a] && t[b] == s[b - 1]);
                        assert(s[a].0 < id);
                        assert(s[b - 1].0 >= s[i as int].0);
                        assert(s[i as int].0 > id);
                    } else if a < i && b == i {
                        assert(t[a] == s[a]);
                    } else if a == i {
                        assert(t[b] == s[b - 1]);
                        assert(s[b - 1].0 >= s[i as int].0 > id);
                    } else if a > i {
                        assert(t[a] == s[a - 1] && t[b] == s[b - 1]);
                    } else {
                        assert(t[a] == s[a] && t[b] == s[b]);
                    }
                }
            }
            assert forall|ix: int|
                0 <= ix < t.len() implies spec_sorted_values((#[trigger] t[ix]).1.values@) by {
                if ix < i {
                    assert(t[ix] == s[ix]);
                } else if ix > i {
                    assert(t[ix] == s[ix - 1]);
                } else {
                    assert(t[ix].1.values@.len() == 0);
                }
            }
        }
        if event_id.is_none() {
            self.counter = self.counter + 1;
        }
        id
    }

    /// Register an internal (anonymous) event name in the internal range.
    pub fn register_event_name_internal(&mut self, event_name: &str) -> (r: u16)
        requires
            old(self).wf(),
            old(self).counter < MAX_EVENT,
            spec_exists_free(old(self).entries@, (old(self).counter + 1) as u16),
        ensures
            final(self).wf(),
            old(self).counter + 1 <= r,
            !spec_has_key(old(self).entries@, r),
            forall|k: u16|
                old(self).counter + 1 <= k < r ==> spec_has_key(old(self).entries@, k),
            final(self).counter == old(self).counter + 1,
            spec_lookup(final(self).entries@, r) matches Some(en) && {
                &&& en.info.name@ == spec_real_name(event_name@, "profiler"@, 0)
                &&& en.info.path@ == "profiler"@
                &&& en.info.line == 0
                &&& en.values@ == Seq::<(u32, NameInfo)>::empty()
            },
            forall|k: u16|
                k != r ==> spec_lookup(final(self).entries@, k) == spec_lookup(
                    old(self).entries@,
                    k,
                ),
            forall|k: u16|
                spec_has_key(final(self).entries@, k) <==> (spec_has_key(old(self).entries@, k)
                    || k == r),
    {
        self.register_event_name(event_name, Some("profiler"), None, None)
    }

    /// Register a value name under an existing event. Fails when the event
    /// does not exist, when the requested value is taken (no probing for
    /// values), or when no value is left to assign; on failure nothing
    /// changes.
    pub fn register_event_value_name(
        &mut self,
        value_name: &str,
        file_name: Option<&str>,
        line: Option<u32>,
        event: u16,
        value: Option<u32>,
    ) -> (r: Result<u32, RegisterError>)
        requires
            old(self).wf(),
        ensures
            final(self).wf(),
            final(self).counter == old(self).counter,
            spec_register_value_outcome(
                *old(self),
                *final(self),
                value_name@,
                spec_opt_str(file_name),
                spec_opt_line(line),
                event,
                value,
                r,
            ),
    {
        let ghost s = self.entries@;
        proof {
            assert(spec_unique_keys(s)) by {
                assert forall|a: int, b: int| 0 <= a < b < s.len() implies s[a].0 != s[b].0 by {
                    assert(s[a].0 < s[b].0);
                }
            }
        }
        let n: usize = self.entries.len();
        let mut i: usize = 0;
        while i < n && self.entries[i].0 != event
            invariant
                n == s.len(),
                self.entries@ == s,
                i <= n,
                forall|j: int| 0 <= j < i ==> s[j].0 != event,
            decreases n - i,
        {
            i = i + 1;
        }
        if i == n {
            proof {
                lemma_lookup_none(s, event);
            }
            return Err(RegisterError::UnknownEvent);
        }
        proof {
            lemma_lookup_at(s, i as int);
        }
        let ghost en = s[i as int].1;
        let m: usize = self.entries[i].1.values.len();
        let chosen: u32 = match value {
            Some(v) => v,
            None => {
                if m == 0 {
                    1
                } else {
                    let last = self.entries[i].1.values[m - 1].0;
                    if last == u32::MAX {
                        return Err(RegisterError::ValueExhausted);
                    }
                    last + 1
                }
            },
        };
        let ghost vs = en.values@;
        // find the insertion position among this event's values
        let mut j: usize = 0;
        while j < m && self.entries[i].1.values[j].0 < chosen
            invariant
                n == s.len(),
                self.entries@ == s,
                i < n,
                en == s[i as int].1,
                vs == en.values@,
                m == vs.len(),
                j <= m,
                forall|jj: int| 0 <= jj < j ==> vs[jj].0 < chosen,
            decreases m - j,
        {
            j = j + 1;
        }
        if j < m {
            let k = self.entries[i].1.values[j].0;
            if k == chosen {
                proof {
                    assert(spec_has_key(vs, chosen));
                    // an unrequested value is the successor of the maximum,
                    // which cannot already be present
                    if value is None {
                        assert(vs.len() > 0);
                        assert(vs[j as int].0 <= vs[vs.len() - 1].0) by {
                            if j + 1 < vs.len() as int {
                                assert(vs[j as int].0 < vs[vs.len() - 1].0);
                            }
                        }
                        assert(false);
                    }
                }
                return Err(RegisterError::ValueTaken);
            }
        }
        proof {
            // chosen is not present: below j all smaller, from j on all larger
            assert forall|jj: int| 0 <= jj < m implies vs[jj].0 != chosen by {
                if jj >= j {
                    assert(j < m);
                    if jj > j {
                        assert(vs[j as int].0 < vs[jj].0);
                    }
                }
            }
            assert(!spec_has_key(vs, chosen)) by {
                if spec_has_key(vs, chosen) {
                    let w = choose|w: int| 0 <= w < vs.len() && vs[w].0 == chosen;
                    assert(vs[w].0 != chosen);
                }
            }
            assert(spec_unique_keys(vs)) by {
                assert(spec_sorted_values(vs));
                assert forall|a: int, b: int| 0 <= a < b < vs.len() implies vs[a].0 != vs[b].0 by {
                    assert(vs[a].0 < vs[b].0);
                }
            }
        }
        let info = NameInfo::new(
            real_name(value_name, file_name, line).as_str(),
            file_name,
            line,
        );
        proof {
            lemma_insert_lookup(vs, j as int, chosen, info);
        }
        let ghost vs2 = vs.insert(j as int, (chosen, info));
        let mut pair = self.entries.remove(i);
        pair.1.values.insert(j, (chosen, info));
        proof {
            assert(pair.1.values@ == vs2);
        }
        let ghost en2 = pair.1;
        proof {
            lemma_update_lookup(s, i as int, en2);
            assert(s.remove(i as int).insert(i as int, (event, en2)) =~= s.update(
                i as int,
                (event, en2),
            ));
        }
        self.entries.insert(i, pair);
        proof {
            let t = s.update(i as int, (s[i as int].0, en2));
            assert(self.entries@ == t);
            assert(spec_sorted_events(t)) by {
                assert(forall|jj: int| 0 <= jj < t.len() ==> t[jj].0 == s[jj].0);
            }
            assert(spec_sorted_values(vs2)) by {
                assert forall|a: int, b: int| 0 <= a < b < vs2.len() implies vs2[a].0
                    < vs2[b].0 by {
                    if a < j && b > j {
                        assert(vs2[a] == vs[a] && vs2[b] == vs[b - 1]);
                        assert(vs[a].0 < chosen);
                        assert(vs[b - 1].0 >= vs[j as int].0);
                        assert(vs[j as int].0 > chosen);
                    } else if a < j && b == j {
                        assert(vs2[a] == vs[a]);
                    } else if a == j {
                        assert(vs2[b] == vs[b - 1]);
                        assert(vs[b - 1].0 >= vs[j as int].0 > chosen);
                    } else if a > j {
                        assert(vs2[a] == vs[a - 1] && vs2[b] == vs[b - 1]);
                    } else {
                        assert(vs2[a] == vs[a] && vs2[b] == vs[b]);
                    }
                }
            }
            assert forall|ix: int|
                0 <= ix < t.len() implies spec_sorted_values((#[trigger] t[ix]).1.values@) by {
                if ix != i {
                    assert(t[ix] == s[ix]);
                }
            }
        }
        Ok(chosen)
    }

    /// Look an event up, or one of its values. With no value argument the
    /// event's own name entry comes back; with one, that value's entry.
    pub fn get_event_value_info(&self, event: u16, value: Option<u32>) -> (r: Option<NameInfo>)
        requires
            self.wf(),
        ensures
            match spec_lookup(self.entries@, event) {
                None => r is None,
                Some(en) => match value {
                    None => r matches Some(info) && info == en.info,
                    Some(v) => match spec_lookup(en.values@, v) {
                        None => r is None,
                        Some(vi) => r matches Some(info) && info == vi,
                    },
                },
            },
    {
        let ghost s = self.entries@;
        proof {
            assert(spec_unique_keys(s)) by {
                assert forall|a: int, b: int| 0 <= a < b < s.len() implies s[a].0 != s[b].0 by {
                    assert(s[a].0 < s[b].0);
                }
            }
        }
        let n: usize = self.entries.len();
        let mut i: usize = 0;
        while i < n && self.entries[i].0 != event
            invariant
                n == s.len(),
                self.entries@ == s,
                i <= n,
                forall|j: int| 0 <= j < i ==> s[j].0 != event,
            decreases n - i,
        {
            i = i + 1;
        }
        if i == n {
            proof {
                lemma_lookup_none(s, event);
            }
            return None;
        }
        proof {
            lemma_lookup_at(s, i as int);
        }
        match value {
            None => Some(self.entries[i].1.info.clone()),
            Some(v) => {
                let ghost vs = s[i as int].1.values@;
                proof {
                    assert(spec_unique_keys(vs)) by {
                        assert(spec_sorted_values(vs));
                        assert forall|a: int, b: int| 0 <= a < b < vs.len() implies vs[a].0
                            != vs[b].0 by {
                            assert(vs[a].0 < vs[b].0);
                        }
                    }
                }
                let m: usize = self.entries[i].1.values.len();
                let mut j: usize = 0;
                while j < m && self.entries[i].1.values[j].0 != v
                    invariant
                        n == s.len(),
                        self.entries@ == s,
                        i < n,
                        vs == s[i as int].1.values@,
                        m == vs.len(),
                        j <= m,
                        forall|jj: int| 0 <= jj < j ==> vs[jj].0 != v,
                    decreases m - j,
                {
                    j = j + 1;
                }
                if j == m {
                    proof {
                        lemma_lookup_none(vs, v);
                    }
                    None
                } else {
                    proof {
                        lemma_lookup_at(vs, j as int);
                    }
                    Some(self.entries[i].1.values[j].1.clone())
                }
            },
        }
    }
}

/// One `<value> <event_name>:<value_name>` line per value, in value order.
pub open spec fn spec_pcf_value_lines(
    event_name: Seq<char>,
    values: Seq<(u32, NameInfo)>,
) -> Seq<char>
    decreases values.len(),
{
    if values.len() == 0 {
        Seq::empty()
    } else {
        dec_digits(values[0].0 as nat) + " "@ + event_name + ":"@ + values[0].1.name@ + "\n"@
            + spec_pcf_value_lines(event_name, values.drop_first())
    }
}

/// The `.pcf` block of one event: source position comment, `EVENT_TYPE`,
/// the `0 <id> <name>` line, the `VALUES` block when values exist, and a
/// blank line.
pub open spec fn spec_pcf_entry(key: u16, en: NameEntry) -> Seq<char> {
    "# "@ + en.info.path@ + ":"@ + dec_digits(en.info.line as nat) + "\n"@ + "EVENT_TYPE\n"@
        + "0 "@ + dec_digits(key as nat) + " "@ + en.info.name@ + "\n"@ + (if en.values@.len()
        == 0 {
        Seq::<char>::empty()
    } else {
        "VALUES\n"@ + spec_pcf_value_lines(en.info.name@, en.values@)
    }) + "\n"@
}

/// The whole `.pcf` text: one block per event, in ascending id order.
pub open spec fn spec_pcf(entries: Seq<(u16, NameEntry)>) -> Seq<char>
    decreases entries.len(),
{
    if entries.len() == 0 {
        Seq::empty()
    } else {
        spec_pcf_entry(entries[0].0, entries[0].1) + spec_pcf(entries.drop_first())
    }
}

#[verifier::spinoff_prover]
#[verifier::rlimit(30)]
proof fn lemma_pcf_value_lines_push(
    event_name: Seq<char>,
    values: Seq<(u32, NameInfo)>,
    v: (u32, NameInfo),
)
    ensures
        spec_pcf_value_lines(event_name, values.push(v)) == spec_pcf_value_lines(
            event_name,
            values,
        ) + dec_digits(v.0 as nat) + " "@ + event_name + ":"@ + v.1.name@ + "\n"@,
    decreases values.len(),
{
    let one = dec_digits(v.0 as nat) + " "@ + event_name + ":"@ + v.1.name@ + "\n"@;
    if values.len() == 0 {
        assert(values.push(v).drop_first() =~= values);
        assert(spec_pcf_value_lines(event_name, values.push(v)) =~= spec_pcf_value_lines(
            event_name,
            values,
        ) + one);
    } else {
        assert(values.push(v).drop_first() =~= values.drop_first().push(v));
        lemma_pcf_value_lines_push(event_name, values.drop_first(), v);
        assert(spec_pcf_value_lines(event_name, values.push(v)) =~= spec_pcf_value_lines(
            event_name,
            values,
        ) + one);
    }
}

proof fn lemma_pcf_push(entries: Seq<(u16, NameEntry)>, x: (u16, NameEntry))
    ensures
        spec_pcf(entries.push(x)) == spec_pcf(entries) + spec_pcf_entry(x.0, x.1),
    decreases entries.len(),
{
    if entries.len() == 0 {
        assert(entries.push(x).drop_first() =~= entries);
        assert(spec_pcf(entries.push(x)) =~= spec_pcf(entries) + spec_pcf_entry(x.0, x.1));
    } else {
        assert(entries.push(x).drop_first() =~= entries.drop_first().push(x));
        lemma_pcf_push(entries.drop_first(), x);
        assert(spec_pcf(entries.push(x)) =~= spec_pcf(entries) + spec_pcf_entry(x.0, x.1));
    }
}

/// The `.pcf` block of one event as text.
#[verifier::spinoff_prover]
#[verifier::rlimit(60)]
fn pcf_entry_text(key: u16, en: &NameEntry) -> (r: String)
    ensures
        r@ == spec_pcf_entry(key, *en),
{
    let mut out = String::new();
    out.append("# ");
    out.append(en.info.path.as_str());
    out.append(":");
    let lineno = u32_to_dec(en.info.line);
    out.append(lineno.as_str());
    out.append("\n");
    out.append("EVENT_TYPE\n");
    out.append("0 ");
    let keyd = u16_to_dec(key);
    out.append(keyd.as_str());
    out.append(" ");
    out.append(en.info.name.as_str());
    out.append("\n");
    let m: usize = en.values.len();
    if m > 0 {
        out.append("VALUES\n");
        let ghost hdrpart = out@;
        proof {
            assert(spec_pcf_value_lines(en.info.name@, en.values@.take(0))
                =~= Seq::<char>::empty());
        }
        for j in 0..m
            invariant
                m == en.values@.len(),
                out@ == hdrpart + spec_pcf_value_lines(
                    en.info.name@,
                    en.values@.take(j as int),
                ),
        {
            let vd = u32_to_dec(en.values[j].0);
            out.append(vd.as_str());
            out.append(" ");
            out.append(en.info.name.as_str());
            out.append(":");
            out.append(en.values[j].1.name.as_str());
            out.append("\n");
            proof {
                lemma_pcf_value_lines_push(
                    en.info.name@,
                    en.values@.take(j as int),
                    en.values@[j as int],
                );
                assert(en.values@.take(j as int).push(en.values@[j as int])
                    =~= en.values@.take(j + 1));
                assert(out@ =~= hdrpart + spec_pcf_value_lines(
                    en.info.name@,
                    en.values@.take(j + 1),
                ));
            }
        }
        proof {
            assert(en.values@.take(m as int) =~= en.values@);
        }
    }
    out.append("\n");
    proof {
        assert(out@ =~= spec_pcf_entry(key, *en));
    }
    out
}

impl NameSet {
    /// The text of the `.pcf` naming dictionary: the registered events in
    /// ascending id order, each with its values.
    pub fn create_pcf(&self) -> (r: String)
        requires
            self.wf(),
        ensures
            r@ == spec_pcf(self.entries@),
    {
        let mut out = String::new();
        let n: usize = self.entries.len();
        proof {
            assert(spec_pcf(self.entries@.take(0)) =~= Seq::<char>::empty());
        }
        for i in 0..n
            invariant
                n == self.entries@.len(),
                out@ == spec_pcf(self.entries@.take(i as int)),
        {
            let block = pcf_entry_text(self.entries[i].0, &self.entries[i].1);
            out.append(block.as_str());
            proof {
                lemma_pcf_push(self.entries@.take(i as int), self.entries@[i as int]);
                assert(self.entries@.take(i as int).push(self.entries@[i as int])
                    =~= self.entries@.take(i + 1));
                assert(out@ =~= spec_pcf(self.entries@.take(i + 1)));
            }
        }
        proof {
            assert(self.entries@.take(n as int) =~= self.entries@);
        }
        out
    }
}

/// The stored form of a possibly empty name: the name itself, or
/// `<file>:<line>` synthesized from the source position.
fn real_name(name: &str, file_name: Option<&str>, line: Option<u32>) -> (r: String)
    ensures
        r@ == spec_real_name(name@, spec_opt_str(file_name), spec_opt_line(line)),
{
    if !name.is_empty() {
        name.to_owned()
    } else {
        let mut s = match file_name {
            Some(f) => f.to_owned(),
            None => String::new(),
        };
        s.append(":");
        let l: u32 = match line {
            Some(l) => l,
            None => 0,
        };
        let d = u32_to_dec(l);
        s.append(d.as_str());
        proof {
            assert(s@ =~= spec_real_name(name@, spec_opt_str(file_name), spec_opt_line(line)));
        }
        s
    }
}

} // verus!
