//! In-memory model of the durable log store: an append-only, per-key,
//! ordered log with store-assigned monotonic entry ids.
//!
//! The model supports exactly the capability interface of the store
//! collaborator: append an entry, inspect a log's length (an absent key
//! behaves as length zero), read the first entries of a log, and delete
//! entries by id.  Entry ids are assigned from a single monotonic counter,
//! so within one log the ids are strictly increasing in append order.

use vstd::prelude::*;
use vstd::string::*;

use crate::event::{Field, FieldV, fields_view};
use crate::text::str_eq;

verus! {

broadcast use vstd::seq_lib::group_filter_ensures;

/// One stored entry: a store-assigned id and the entry's named fields.
pub struct LogEntry {
    pub id: u64,
    pub fields: Vec<Field>,
}

/// Mathematical form of a `LogEntry`.
pub struct LogEntryV {
    pub id: u64,
    pub fields: Seq<FieldV>,
}

impl View for LogEntry {
    type V = LogEntryV;

    open spec fn view(&self) -> LogEntryV {
        LogEntryV { id: self.id, fields: fields_view(self.fields@) }
    }
}

/// The views of a sequence of stored entries.
pub open spec fn entries_view(s: Seq<LogEntry>) -> Seq<LogEntryV> {
    s.map_values(|e: LogEntry| e@)
}

/// Entry ids strictly increase along the sequence (append order).
pub open spec fn ids_increasing(s: Seq<LogEntryV>) -> bool {
    forall|i: int, j: int| 0 <= i < j < s.len() ==> s[i].id < s[j].id
}

/// One key's log inside the store.
pub struct IdentityLog {
    pub key: String,
    pub entries: Vec<LogEntry>,
}

/// The whole store: the logs of all keys that were ever appended to, and
/// the next id the store will assign.
pub struct LogStore {
    pub next_id: u64,
    pub logs: Vec<IdentityLog>,
}

/// The log stored under `k`: the entries of the first matching key, or the
/// empty log when `k` is absent.
pub open spec fn spec_log_in(logs: Seq<IdentityLog>, k: Seq<char>) -> Seq<LogEntryV>
    decreases logs.len(),
{
    if logs.len() == 0 {
        Seq::<LogEntryV>::empty()
    } else if logs[0].key@ == k {
        entries_view(logs[0].entries@)
    } else {
        spec_log_in(logs.drop_first(), k)
    }
}

/// The first `max` entries of a log, or the whole log when it is shorter:
/// what one bounded read returns.
pub open spec fn spec_poll(log: Seq<LogEntryV>, max: int) -> Seq<LogEntryV> {
    if log.len() <= max {
        log
    } else {
        log.take(max)
    }
}

/// Keep an entry exactly when its id was not acknowledged.
pub open spec fn spec_keep(ids: Seq<u64>) -> spec_fn(LogEntryV) -> bool {
    |e: LogEntryV| !ids.contains(e.id)
}

/// The log after the entries with the given ids are deleted.
pub open spec fn spec_prune(log: Seq<LogEntryV>, ids: Seq<u64>) -> Seq<LogEntryV> {
    log.filter(spec_keep(ids))
}

impl LogStore {
    /// Keys are unique; within each log, ids strictly increase; every
    /// stored id is below the store's counter.
    pub open spec fn wf(self) -> bool {
        &&& forall|i: int, j: int|
            0 <= i < j < self.logs@.len() ==> self.logs@[i].key@ != self.logs@[j].key@
        &&& forall|i: int|
            0 <= i < self.logs@.len() ==> ids_increasing(
                #[trigger] entries_view(self.logs@[i].entries@),
            )
        &&& forall|i: int, a: int|
            0 <= i < self.logs@.len() && 0 <= a < self.logs@[i].entries@.len()
                ==> (#[trigger] entries_view(self.logs@[i].entries@)[a]).id < self.next_id
    }

    /// The log stored under `k`.
    pub open spec fn log_of(self, k: Seq<char>) -> Seq<LogEntryV> {
        spec_log_in(self.logs@, k)
    }

    /// An empty store.
    pub fn new() -> (s: LogStore)
        ensures
            s.wf(),
            s.next_id == 0,
            forall|k: Seq<char>| s.log_of(k) == Seq::<LogEntryV>::empty(),
    {
        let s = LogStore { next_id: 0, logs: Vec::new() };
        proof {
            assert forall|k: Seq<char>| s.log_of(k) == Seq::<LogEntryV>::empty() by {
                assert(s.logs@.len() == 0);
            }
        }
        s
    }

    /// The index of the log stored under `key`, if one exists.
    fn find_log(&self, key: &str) -> (r: Option<usize>)
        ensures
            match r {
                Some(i) => i < self.logs@.len() && self.logs@[i as int].key@ == key@
                    && forall|j: int| 0 <= j < i ==> self.logs@[j].key@ != key@,
                None => forall|j: int| 0 <= j < self.logs@.len() ==> self.logs@[j].key@ != key@,
            },
    {
        let n = self.logs.len();
        let mut i: usize = 0;
        while i < n
            invariant
                n == self.logs@.len(),
                i <= n,
                forall|j: int| 0 <= j < i ==> self.logs@[j].key@ != key@,
            decreases n - i,
        {
            if str_eq(self.logs[i].key.as_str(), key) {
                return Some(i);
            }
            i = i + 1;
        }
        None
    }
}

/// A first match fixes the looked-up log.
proof fn lemma_log_in_found(logs: Seq<IdentityLog>, i: int, k: Seq<char>)
    requires
        0 <= i < logs.len(),
        logs[i].key@ == k,
        forall|j: int| 0 <= j < i ==> logs[j].key@ != k,
    ensures
        spec_log_in(logs, k) == entries_view(logs[i].entries@),
    decreases i,
{
    if i > 0 {
        assert(logs.drop_first()[i - 1] == logs[i]);
        lemma_log_in_found(logs.drop_first(), i - 1, k);
    }
}

/// A key that matches no log is stored as the empty log.
proof fn lemma_log_in_absent(logs: Seq<IdentityLog>, k: Seq<char>)
    requires
        forall|j: int| 0 <= j < logs.len() ==> logs[j].key@ != k,
    ensures
        spec_log_in(logs, k) == Seq::<LogEntryV>::empty(),
    decreases logs.len(),
{
    if logs.len() > 0 {
        lemma_log_in_absent(logs.drop_first(), k);
    }
}

/// Replacing the first log of a key changes that key's log and no other.
proof fn lemma_log_in_update(logs: Seq<IdentityLog>, i: int, nl: IdentityLog, k: Seq<char>)
    requires
        0 <= i < logs.len(),
        forall|j: int| 0 <= j < i ==> logs[j].key@ != logs[i].key@,
        nl.key@ == logs[i].key@,
    ensures
        spec_log_in(logs.update(i, nl), k) == if k == logs[i].key@ {
            entries_view(nl.entries@)
        } else {
            spec_log_in(logs, k)
        },
    decreases i,
{
    let post = logs.update(i, nl);
    if i == 0 {
        assert(post[0] == nl);
        assert(post.drop_first() =~= logs.drop_first());
    } else {
        assert(post[0] == logs[0]);
        assert(post.drop_first() =~= logs.drop_first().update(i - 1, nl));
        if logs[0].key@ != k {
            lemma_log_in_update(logs.drop_first(), i - 1, nl, k);
            assert(logs.drop_first()[i - 1] == logs[i]);
        }
    }
}

/// Appending a log under a fresh key changes that key's log and no other.
proof fn lemma_log_in_push(logs: Seq<IdentityLog>, nl: IdentityLog, k: Seq<char>)
    requires
        forall|j: int| 0 <= j < logs.len() ==> logs[j].key@ != nl.key@,
    ensures
        spec_log_in(logs.push(nl), k) == if k == nl.key@ {
            entries_view(nl.entries@)
        } else {
            spec_log_in(logs, k)
        },
    decreases logs.len(),
{
    let post = logs.push(nl);
    if logs.len() == 0 {
        assert(post[0] == nl);
        assert(post.drop_first() =~= Seq::<IdentityLog>::empty());
        assert(spec_log_in(Seq::<IdentityLog>::empty(), k) == Seq::<LogEntryV>::empty());
    } else {
        assert(post[0] == logs[0]);
        assert(post.drop_first() =~= logs.drop_first().push(nl));
        lemma_log_in_push(logs.drop_first(), nl, k);
    }
}

impl LogStore {
    /// Append one entry under `key`; the store assigns and returns the
    /// entry's id.  The key's log grows by exactly that entry; every other
    /// log is untouched.
    pub fn append(&mut self, key: &str, fields: Vec<Field>) -> (id: u64)
        requires
            old(self).wf(),
            old(self).next_id < u64::MAX,
        ensures
            final(self).wf(),
            id == old(self).next_id,
            final(self).next_id == old(self).next_id + 1,
            final(self).log_of(key@) == old(self).log_of(key@).push(
                LogEntryV { id, fields: fields_view(fields@) },
            ),
            forall|k: Seq<char>| k != key@ ==> final(self).log_of(k) == old(self).log_of(k),
    {
        let ghost pre = *self;
        let id = self.next_id;
        let entry = LogEntry { id, fields };
        let ghost ev = entry@;
        let found = self.find_log(key);
        match found {
            Some(i) => {
                let mut log = self.logs.remove(i);
                let ghost old_entries = log.entries@;
                log.entries.push(entry);
                proof {
                    assert(entries_view(log.entries@) =~= entries_view(old_entries).push(ev));
                }
                self.logs.insert(i, log);
                proof {
                    let ghost nl = self.logs@[i as int];
                    assert(self.logs@ =~= pre.logs@.update(i as int, nl));
                    lemma_log_in_found(pre.logs@, i as int, key@);
                    assert forall|k: Seq<char>|
                        spec_log_in(pre.logs@.update(i as int, nl), k) == if k == key@ {
                            entries_view(nl.entries@)
                        } else {
                            spec_log_in(pre.logs@, k)
                        } by {
                        lemma_log_in_update(pre.logs@, i as int, nl, k);
                    }
                }
            },
            None => {
                let log = IdentityLog { key: String::from_str(key), entries: vec![entry] };
                proof {
                    assert(entries_view(log.entries@) =~= Seq::<LogEntryV>::empty().push(ev));
                    lemma_log_in_absent(pre.logs@, key@);
                }
                self.logs.push(log);
                proof {
                    let ghost nl = self.logs@[self.logs@.len() - 1];
                    assert forall|k: Seq<char>|
                        spec_log_in(self.logs@, k) == if k == key@ {
                            entries_view(nl.entries@)
                        } else {
                            spec_log_in(pre.logs@, k)
                        } by {
                        lemma_log_in_push(pre.logs@, nl, k);
                    }
                }
            },
        }
        self.next_id = self.next_id + 1;
        id
    }

    /// The number of entries stored under `key`; an absent key has length
    /// zero and is not an error.
    pub fn inspect_len(&self, key: &str) -> (n: usize)
        ensures
            n == self.log_of(key@).len(),
    {
        let found = self.find_log(key);
        match found {
            Some(i) => {
                proof {
                    lemma_log_in_found(self.logs@, i as int, key@);
                }
                self.logs[i].entries.len()
            },
            None => {
                proof {
                    lemma_log_in_absent(self.logs@, key@);
                }
                0
            },
        }
    }

    /// Read the first `max` entries stored under `key`, in store order.
    pub fn read_first(&self, key: &str, max: usize) -> (batch: Vec<LogEntry>)
        ensures
            entries_view(batch@) == spec_poll(self.log_of(key@), max as int),
    {
        let mut batch: Vec<LogEntry> = Vec::new();
        let found = self.find_log(key);
        match found {
            Some(i) => {
                proof {
                    lemma_log_in_found(self.logs@, i as int, key@);
                }
                let entries = &self.logs[i].entries;
                let len = entries.len();
                let n = if max < len {
                    max
                } else {
                    len
                };
                let mut j: usize = 0;
                while j < n
                    invariant
                        n <= len,
                        len == entries@.len(),
                        j <= n,
                        batch@.len() == j,
                        forall|a: int| 0 <= a < j ==> batch@[a]@ == entries@[a]@,
                    decreases n - j,
                {
                    batch.push(clone_entry(&entries[j]));
                    j = j + 1;
                }
                proof {
                    assert(entries_view(batch@) =~= spec_poll(
                        entries_view(entries@),
                        max as int,
                    ));
                }
            },
            None => {
                proof {
                    lemma_log_in_absent(self.logs@, key@);
                    assert(entries_view(batch@) =~= Seq::<LogEntryV>::empty());
                }
            },
        }
        batch
    }

    /// Delete the entries with the given ids from the log under `key`;
    /// every other log is untouched.
    pub fn delete(&mut self, key: &str, ids: &Vec<u64>)
        requires
            old(self).wf(),
        ensures
            final(self).wf(),
            final(self).next_id == old(self).next_id,
            final(self).log_of(key@) == spec_prune(old(self).log_of(key@), ids@),
            forall|k: Seq<char>| k != key@ ==> final(self).log_of(k) == old(self).log_of(k),
    {
        let ghost pre = *self;
        let found = self.find_log(key);
        match found {
            Some(i) => {
                proof {
                    lemma_log_in_found(pre.logs@, i as int, key@);
                }
                let mut log = self.logs.remove(i);
                let ghost src = entries_view(log.entries@);
                let mut kept: Vec<LogEntry> = Vec::new();
                let len = log.entries.len();
                let mut j: usize = 0;
                while j < len
                    invariant
                        len == log.entries@.len(),
                        j <= len,
                        src == entries_view(log.entries@),
                        ids_increasing(src),
                        entries_view(kept@) == src.take(j as int).filter(spec_keep(ids@)),
                        forall|a: int|
                            0 <= a < kept@.len() ==> src.contains(
                                #[trigger] entries_view(kept@)[a],
                            ),
                        ids_increasing(entries_view(kept@)),
                        forall|a: int, b: int|
                            0 <= a < kept@.len() && j <= b < len ==> (
                            #[trigger] entries_view(kept@)[a]).id < (#[trigger] src[b]).id,
                    decreases len - j,
                {
                    let ghost prev = entries_view(kept@);
                    let e = &log.entries[j];
                    if !contains_id(ids, e.id) {
                        kept.push(clone_entry(e));
                        proof {
                            assert(entries_view(kept@) =~= prev.push(src[j as int]));
                        }
                    }
                    proof {
                        reveal_with_fuel(Seq::<_>::filter, 2);
                        let single = seq![src[j as int]];
                        assert(single.drop_last() =~= Seq::<LogEntryV>::empty());
                        assert(src.take(j + 1) =~= src.take(j as int) + single);
                        Seq::<LogEntryV>::filter_distributes_over_add(
                            src.take(j as int),
                            single,
                            spec_keep(ids@),
                        );
                        if !ids@.contains(src[j as int].id) {
                            assert(single.filter(spec_keep(ids@)) =~= single);
                        } else {
                            assert(single.filter(spec_keep(ids@)) =~= Seq::<LogEntryV>::empty());
                        }
                    }
                    j = j + 1;
                }
                proof {
                    assert(src.take(len as int) =~= src);
                }
                log.entries = kept;
                self.logs.insert(i, log);
                proof {
                    let ghost nl = self.logs@[i as int];
                    assert(self.logs@ =~= pre.logs@.update(i as int, nl));
                    assert forall|k: Seq<char>|
                        spec_log_in(pre.logs@.update(i as int, nl), k) == if k == key@ {
                            entries_view(nl.entries@)
                        } else {
                            spec_log_in(pre.logs@, k)
                        } by {
                        lemma_log_in_update(pre.logs@, i as int, nl, k);
                    }
                }
            },
            None => {
                proof {
                    lemma_log_in_absent(pre.logs@, key@);
                    assert(Seq::<LogEntryV>::empty().filter(spec_keep(ids@))
                        =~= Seq::<LogEntryV>::empty());
                }
            },
        }
    }
}

/// Whether `ids` holds `x`.
pub fn contains_id(ids: &Vec<u64>, x: u64) -> (r: bool)
    ensures
        r == ids@.contains(x),
{
    let n = ids.len();
    let mut i: usize = 0;
    while i < n
        invariant
            n == ids@.len(),
            i <= n,
            forall|j: int| 0 <= j < i ==> ids@[j] != x,
        decreases n - i,
    {
        if ids[i] == x {
            return true;
        }
        i = i + 1;
    }
    false
}

/// A field-by-field copy of a stored entry.
pub fn clone_entry(e: &LogEntry) -> (r: LogEntry)
    ensures
        r@ == e@,
{
    let mut fields: Vec<Field> = Vec::new();
    let n = e.fields.len();
    let mut i: usize = 0;
    while i < n
        invariant
            n == e.fields@.len(),
            i <= n,
            fields@.len() == i,
            forall|j: int| 0 <= j < i ==> fields@[j]@ == e.fields@[j]@,
        decreases n - i,
    {
        fields.push(Field { name: e.fields[i].name.clone(), value: e.fields[i].value.clone() });
        i = i + 1;
    }
    let r = LogEntry { id: e.id, fields };
    proof {
        assert(fields_view(r.fields@) =~= fields_view(e.fields@));
    }
    r
}

} // verus!
