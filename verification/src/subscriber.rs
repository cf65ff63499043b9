//! The bridge between a structured-tracing subscriber and the tracer: the
//! read-mostly name-to-id tables (spans and event values) and the decisions
//! the subscriber callbacks take. The embedding application implements the
//! tracing framework's subscriber trait around this state: it extracts the
//! span or event metadata as plain values, asks here for the id or value,
//! and emits through the current thread's buffer.

use vstd::prelude::*;
use vstd::string::StringExecFns;

use crate::assoc::str_eq;
use crate::global_info::GlobalInfo;
use crate::nameset::{
    spec_candidate, spec_exists_free, spec_opt_line, spec_opt_str, spec_real_name,
    spec_register_value_outcome, RegisterError, MAX_EVENT, MAX_USER_EVENT,
};

verus! {

/// Whether some pair carries a key with this text.
pub open spec fn spec_skey_has<V>(s: Seq<(String, V)>, key: Seq<char>) -> bool {
    exists|i: int| 0 <= i < s.len() && s[i].0@ == key
}

/// The position of the key (meaningful only when present and keys unique).
pub open spec fn spec_skey_index<V>(s: Seq<(String, V)>, key: Seq<char>) -> int {
    choose|i: int| 0 <= i < s.len() && s[i].0@ == key
}

/// The value stored under a key with this text, if any.
pub open spec fn spec_skey_lookup<V>(s: Seq<(String, V)>, key: Seq<char>) -> Option<V> {
    if spec_skey_has(s, key) {
        Some(s[spec_skey_index(s, key)].1)
    } else {
        None
    }
}

/// No two keys share their text.
pub open spec fn spec_skey_unique<V>(s: Seq<(String, V)>) -> bool {
    forall|i: int, j: int| 0 <= i < j < s.len() ==> s[i].0@ != s[j].0@
}

proof fn lemma_skey_at<V>(s: Seq<(String, V)>, i: int)
    requires
        spec_skey_unique(s),
        0 <= i < s.len(),
    ensures
        spec_skey_lookup(s, s[i].0@) == Some(s[i].1),
{
    assert(spec_skey_has(s, s[i].0@));
    let w = spec_skey_index(s, s[i].0@);
    assert(0 <= w < s.len() && s[w].0@ == s[i].0@);
    if w != i {
        if w < i {
            assert(s[w].0@ != s[i].0@);
        } else {
            assert(s[i].0@ != s[w].0@);
        }
    }
}

proof fn lemma_skey_push<V>(s: Seq<(String, V)>, key: String, v: V)
    requires
        spec_skey_unique(s),
        !spec_skey_has(s, key@),
    ensures
        spec_skey_unique(s.push((key, v))),
        spec_skey_lookup(s.push((key, v)), key@) == Some(v),
        forall|k: Seq<char>|
            k != key@ ==> spec_skey_lookup(s.push((key, v)), k) == spec_skey_lookup(s, k),
        forall|k: Seq<char>|
            spec_skey_has(s.push((key, v)), k) <==> (spec_skey_has(s, k) || k == key@),
{
    let t = s.push((key, v));
    assert(forall|j: int| 0 <= j < s.len() ==> t[j] == s[j]);
    assert(t[s.len() as int] == (key, v));
    assert forall|j: int| 0 <= j < s.len() implies s[j].0@ != key@ by {
        if s[j].0@ == key@ {
            assert(spec_skey_has(s, key@));
        }
    }
    assert(spec_skey_has(t, key@));
    let w = spec_skey_index(t, key@);
    assert(0 <= w < t.len() && t[w].0@ == key@);
    assert(w == s.len()) by {
        if w < s.len() {
            assert(t[w] == s[w]);
        }
    }
    assert forall|k: Seq<char>|
        k != key@ implies spec_skey_lookup(t, k) == spec_skey_lookup(s, k) by {
        if spec_skey_has(s, k) {
            let a = spec_skey_index(s, k);
            assert(t[a] == s[a]);
            assert(spec_skey_has(t, k));
            let b = spec_skey_index(t, k);
            assert(0 <= b < t.len() && t[b].0@ == k);
            assert(b != s.len());
            assert(t[b] == s[b]);
            assert(b == a) by {
                if b != a {
                    if b < a {
                        assert(s[b].0@ != s[a].0@);
                    } else {
                        assert(s[a].0@ != s[b].0@);
                    }
                }
            }
        } else {
            if spec_skey_has(t, k) {
                let b = spec_skey_index(t, k);
                assert(b != s.len());
                assert(t[b] == s[b]);
                assert(spec_skey_has(s, k));
            }
        }
    }
    assert forall|k: Seq<char>|
        spec_skey_has(t, k) <==> (spec_skey_has(s, k) || k == key@) by {
        if spec_skey_has(s, k) {
            let a = spec_skey_index(s, k);
            assert(t[a] == s[a]);
            assert(spec_skey_has(t, k));
        }
        if k == key@ {
            assert(spec_skey_has(t, k));
        }
        if spec_skey_has(t, k) && k != key@ {
            let b = spec_skey_index(t, k);
            assert(b != s.len());
            assert(t[b] == s[b]);
            assert(spec_skey_has(s, k));
        }
    }
}

/// A read-mostly table from names to plain values: entries are only ever
/// added, never overwritten (in the embedding application a reader-writer
/// lock guards it, and only a missing key takes the write lock).
#[derive(Debug)]
pub struct SubscriberContainer<V> {
    pub entries: Vec<(String, V)>,
}

impl<V: Copy> SubscriberContainer<V> {
    pub open spec fn wf(&self) -> bool {
        spec_skey_unique(self.entries@)
    }

    /// An empty table.
    pub fn new() -> (r: SubscriberContainer<V>)
        ensures
            r.wf(),
            r.entries@ == Seq::<(String, V)>::empty(),
    {
        let entries: Vec<(String, V)> = Vec::new();
        proof {
            assert(entries@ =~= Seq::<(String, V)>::empty());
        }
        SubscriberContainer { entries }
    }

    /// The value under a key, if any.
    pub fn get(&self, key: &str) -> (r: Option<V>)
        requires
            self.wf(),
        ensures
            r == spec_skey_lookup(self.entries@, key@),
    {
        let ghost s = self.entries@;
        let n: usize = self.entries.len();
        let mut i: usize = 0;
        while i < n && !str_eq(self.entries[i].0.as_str(), key)
            invariant
                n == s.len(),
                self.entries@ == s,
                i <= n,
                forall|j: int| 0 <= j < i ==> s[j].0@ != key@,
            decreases n - i,
        {
            i = i + 1;
        }
        if i == n {
            proof {
                if spec_skey_has(s, key@) {
                    let w = spec_skey_index(s, key@);
                    assert(s[w].0@ != key@);
                }
            }
            None
        } else {
            proof {
                lemma_skey_at(s, i as int);
            }
            Some(self.entries[i].1)
        }
    }

    /// Record the value of a key seen for the first time.
    pub fn insert_new(&mut self, key: String, v: V)
        requires
            old(self).wf(),
            !spec_skey_has(old(self).entries@, key@),
        ensures
            final(self).wf(),
            spec_skey_lookup(final(self).entries@, key@) == Some(v),
            forall|k: Seq<char>|
                k != key@ ==> spec_skey_lookup(final(self).entries@, k) == spec_skey_lookup(
                    old(self).entries@,
                    k,
                ),
            forall|k: Seq<char>|
                spec_skey_has(final(self).entries@, k) <==> (spec_skey_has(
                    old(self).entries@,
                    k,
                ) || k == key@),
    {
        proof {
            lemma_skey_push(self.entries@, key, v);
        }
        self.entries.push((key, v));
    }

    /// The value under a key, or the default's result, recorded, when the
    /// key is new.
    pub fn get_or_insert_with<F: FnOnce() -> V>(&mut self, key: &str, default: F) -> (r: V)
        requires
            old(self).wf(),
            !spec_skey_has(old(self).entries@, key@) ==> call_requires(default, ()),
        ensures
            final(self).wf(),
            match spec_skey_lookup(old(self).entries@, key@) {
                Some(v) => r == v && *final(self) == *old(self),
                None => {
                    &&& call_ensures(default, (), r)
                    &&& spec_skey_lookup(final(self).entries@, key@) == Some(r)
                    &&& forall|k: Seq<char>|
                        k != key@ ==> spec_skey_lookup(final(self).entries@, k)
                            == spec_skey_lookup(old(self).entries@, k)
                },
            },
    {
        match self.get(key) {
            Some(v) => v,
            None => {
                let v = default();
                self.insert_new(key.to_owned(), v);
                v
            },
        }
    }
}

/// The subscriber's state: the well-known event id for framework events,
/// the span-name table and the event-value table.
#[derive(Debug)]
pub struct ExtraeSubscriber {
    pub tokio_event_id: u16,
    pub spans: SubscriberContainer<u16>,
    pub events: SubscriberContainer<u32>,
}

impl ExtraeSubscriber {
    pub open spec fn wf(&self) -> bool {
        &&& self.spans.wf()
        &&& self.events.wf()
    }

    /// A fresh subscriber: registers the well-known framework event in the
    /// coordinator's dictionary and starts with empty tables.
    pub fn new(info: &mut GlobalInfo) -> (r: ExtraeSubscriber)
        requires
            old(info).wf(),
            old(info).name_set.counter < MAX_EVENT,
            spec_exists_free(
                old(info).name_set.entries@,
                (old(info).name_set.counter + 1) as u16,
            ),
        ensures
            final(info).wf(),
            final(info).finalized == old(info).finalized,
            final(info).buffer_set == old(info).buffer_set,
            r.wf(),
            r.spans.entries@.len() == 0,
            r.events.entries@.len() == 0,
            crate::assoc::spec_lookup(final(info).name_set.entries@, r.tokio_event_id)
                matches Some(en) && en.info.name@ == "tokio_event"@,
    {
        proof {
            reveal_strlit("tokio_event");
        }
        let tokio_event_id = info.register_event_name("tokio_event", None, None, None);
        proof {
            assert(crate::assoc::spec_lookup(info.name_set.entries@, tokio_event_id)
                matches Some(en) && en.info.name@ == "tokio_event"@);
        }
        ExtraeSubscriber {
            tokio_event_id,
            spans: SubscriberContainer::new(),
            events: SubscriberContainer::new(),
        }
    }

    /// The event id of a span name: the memoized one, or a fresh anonymous
    /// registration recorded for the next lookup.
    pub fn span_id(
        &mut self,
        info: &mut GlobalInfo,
        name: &str,
        file: Option<&str>,
        line: Option<u32>,
    ) -> (r: u16)
        requires
            old(self).wf(),
            old(info).wf(),
            !spec_skey_has(old(self).spans.entries@, name@) ==> {
                &&& old(info).name_set.counter < MAX_EVENT
                &&& spec_exists_free(
                    old(info).name_set.entries@,
                    (old(info).name_set.counter + 1) as u16,
                )
            },
        ensures
            final(self).wf(),
            final(info).wf(),
            final(info).finalized == old(info).finalized,
            final(info).buffer_set == old(info).buffer_set,
            final(self).events == old(self).events,
            final(self).tokio_event_id == old(self).tokio_event_id,
            match spec_skey_lookup(old(self).spans.entries@, name@) {
                Some(id) => r == id && *final(self) == *old(self) && *final(info) == *old(
                    info,
                ),
                None => {
                    &&& spec_skey_lookup(final(self).spans.entries@, name@) == Some(r)
                    &&& crate::assoc::spec_lookup(final(info).name_set.entries@, r)
                        matches Some(en) && en.info.name@ == spec_real_name(
                        name@,
                        spec_opt_str(file),
                        spec_opt_line(line),
                    )
                },
            },
    {
        match self.spans.get(name) {
            Some(id) => id,
            None => {
                let id = info.register_event_name(name, file, line, None);
                proof {
                    assert(crate::assoc::spec_lookup(info.name_set.entries@, id) is Some);
                }
                self.spans.insert_new(name.to_owned(), id);
                id
            },
        }
    }

    /// The value a framework event carries under the well-known event id:
    /// the memoized one, or the outcome of registering the given (or next
    /// free) value, recorded on success.
    pub fn event_value(
        &mut self,
        info: &mut GlobalInfo,
        key: &str,
        evt_name: &str,
        file: Option<&str>,
        line: Option<u32>,
        value: Option<u32>,
    ) -> (r: Result<u32, RegisterError>)
        requires
            old(self).wf(),
            old(info).wf(),
        ensures
            final(self).wf(),
            final(info).wf(),
            final(info).finalized == old(info).finalized,
            final(info).buffer_set == old(info).buffer_set,
            final(self).spans == old(self).spans,
            final(self).tokio_event_id == old(self).tokio_event_id,
            match spec_skey_lookup(old(self).events.entries@, key@) {
                Some(v) => r == Ok::<u32, RegisterError>(v) && *final(self) == *old(self)
                    && *final(info) == *old(info),
                None => {
                    &&& spec_register_value_outcome(
                        old(info).name_set,
                        final(info).name_set,
                        evt_name@,
                        spec_opt_str(file),
                        spec_opt_line(line),
                        old(self).tokio_event_id,
                        value,
                        r,
                    )
                    &&& (r matches Ok(v) ==> spec_skey_lookup(
                        final(self).events.entries@,
                        key@,
                    ) == Some(v))
                    &&& (r is Err ==> *final(self) == *old(self))
                },
            },
    {
        match self.events.get(key) {
            Some(v) => Ok(v),
            None => {
                match info.register_event_value_name(
                    evt_name,
                    file,
                    line,
                    self.tokio_event_id,
                    value,
                ) {
                    Ok(v) => {
                        self.events.insert_new(key.to_owned(), v);
                        Ok(v)
                    },
                    Err(e) => Err(e),
                }
            },
        }
    }
}

} // verus!
