//! The delivery worker: one per online identity.  It polls the identity's
//! durable log, forwards the pending entries in store order to the bound
//! session, and prunes an entry only after the forward was acknowledged.
//! A failed forward stops the worker and leaves the log untouched, so the
//! next worker bound to the identity redelivers the same entries: delivery
//! is at least once, never silently dropped.

use vstd::prelude::*;
use vstd::string::*;

use crate::event::{Event, EventV, spec_decode, event_from_fields};
use crate::keys::{spec_stream_key, stream_key};
use crate::seqs::{lemma_filter_all_false, lemma_filter_all_true};
use crate::store::{
    LogEntry, LogEntryV, LogStore, entries_view, ids_increasing, spec_keep, spec_poll, spec_prune,
};

verus! {

/// The batch size of one bounded read against the durable log.
pub const READ_BATCH: usize = 10;

/// The events decoded from a batch of stored entries, in batch order.
pub open spec fn spec_decode_batch(log: Seq<LogEntryV>) -> Seq<EventV> {
    log.map_values(|e: LogEntryV| spec_decode(e.fields))
}

/// The ids of a batch of stored entries, in batch order.
pub open spec fn spec_ids(log: Seq<LogEntryV>) -> Seq<u64> {
    log.map_values(|e: LogEntryV| e.id)
}

/// The worker's state: the session it delivers to, the identity it is
/// bound to, the derived log key, and whether the polling loop still runs.
pub struct DeliveryWorker {
    pub session: u64,
    pub identity: String,
    pub stream: String,
    pub running: bool,
}

impl DeliveryWorker {
    /// The log key is the one derived from the bound identity.
    pub open spec fn wf(self) -> bool {
        self.stream@ == spec_stream_key(self.identity@)
    }

    /// A fresh worker, bound to a session and an identity, polling the
    /// identity's log from the start.
    pub fn new(session: u64, identity: String) -> (w: DeliveryWorker)
        ensures
            w.wf(),
            w.session == session,
            w.identity@ == identity@,
            w.running,
    {
        let stream = stream_key(identity.as_str());
        DeliveryWorker { session, identity, stream, running: true }
    }

    /// A stop signal halts the polling loop at once.
    pub fn stop(&mut self)
        ensures
            *final(self) == (DeliveryWorker { running: false, ..*old(self) }),
    {
        self.running = false;
    }

    /// One poll: the first `max` pending entries of the bound log, in
    /// store order; nothing once the worker is stopped.  An empty log is
    /// skipped without a read.
    pub fn poll(&self, store: &LogStore, max: usize) -> (batch: Vec<LogEntry>)
        ensures
            self.running ==> entries_view(batch@) == spec_poll(
                store.log_of(self.stream@),
                max as int,
            ),
            !self.running ==> batch@.len() == 0,
    {
        if !self.running {
            return Vec::new();
        }
        let pending = store.inspect_len(self.stream.as_str());
        if pending == 0 {
            let batch: Vec<LogEntry> = Vec::new();
            proof {
                assert(entries_view(batch@) =~= spec_poll(
                    store.log_of(self.stream@),
                    max as int,
                ));
            }
            return batch;
        }
        store.read_first(self.stream.as_str(), max)
    }

    /// The outcome of one forward.  An acknowledged forward prunes exactly
    /// the forwarded entries from the bound log; a failed forward leaves
    /// the store untouched and stops the worker, so the entries stay for
    /// the next worker bound to this identity.
    pub fn ack(&mut self, store: &mut LogStore, ids: &Vec<u64>, forwarded: bool)
        requires
            old(store).wf(),
        ensures
            final(store).wf(),
            final(store).next_id == old(store).next_id,
            forwarded ==> *final(self) == *old(self)
                && final(store).log_of(old(self).stream@) == spec_prune(
                old(store).log_of(old(self).stream@),
                ids@,
            )
                && forall|k: Seq<char>| k != old(self).stream@
                    ==> final(store).log_of(k) == old(store).log_of(k),
            !forwarded ==> *final(store) == *old(store) && *final(self) == (DeliveryWorker {
                running: false,
                ..*old(self)
            }),
    {
        if forwarded {
            store.delete(self.stream.as_str(), ids);
        } else {
            self.running = false;
        }
    }
}

impl DeliveryWorker {
    /// One complete delivery tick against the store: poll, decode,
    /// forward (the caller reports the outcome in `forwarded`), and
    /// prune.  An empty poll changes nothing and attempts no forward; a
    /// failed forward leaves the store untouched and stops the worker.
    /// The forwarded events are returned in append order.
    pub fn tick(&mut self, store: &mut LogStore, max: usize, forwarded: bool) -> (events: Vec<
        Event,
    >)
        requires
            old(store).wf(),
        ensures
            final(store).wf(),
            final(store).next_id == old(store).next_id,
            !old(self).running ==> events@.len() == 0 && *final(store) == *old(store)
                && *final(self) == *old(self),
            old(self).running ==> events@.map_values(|e: Event| e@) == spec_decode_batch(
                spec_poll(old(store).log_of(old(self).stream@), max as int),
            ),
            old(self).running && spec_poll(old(store).log_of(old(self).stream@), max as int).len()
                == 0 ==> *final(store) == *old(store) && *final(self) == *old(self),
            old(self).running && spec_poll(old(store).log_of(old(self).stream@), max as int).len()
                > 0 && forwarded ==> *final(self) == *old(self) && final(store).log_of(
                old(self).stream@,
            ) == spec_prune(
                old(store).log_of(old(self).stream@),
                spec_ids(spec_poll(old(store).log_of(old(self).stream@), max as int)),
            ) && (forall|k: Seq<char>|
                k != old(self).stream@ ==> final(store).log_of(k) == old(store).log_of(k)),
            old(self).running && spec_poll(old(store).log_of(old(self).stream@), max as int).len()
                > 0 && !forwarded ==> *final(store) == *old(store) && *final(self)
                == (DeliveryWorker { running: false, ..*old(self) }),
    {
        let batch = self.poll(store, max);
        if batch.len() == 0 {
            let events: Vec<Event> = Vec::new();
            proof {
                if old(self).running {
                    assert(events@.map_values(|e: Event| e@) =~= spec_decode_batch(
                        spec_poll(old(store).log_of(old(self).stream@), max as int),
                    ));
                }
            }
            return events;
        }
        let events = decode_batch(&batch);
        let ids = batch_ids(&batch);
        self.ack(store, &ids, forwarded);
        events
    }
}

/// Decode a polled batch into events, in batch order; an entry whose
/// fields are missing decodes with empty-string defaults rather than
/// aborting the batch.
pub fn decode_batch(batch: &Vec<LogEntry>) -> (events: Vec<Event>)
    ensures
        events@.map_values(|e: Event| e@) == spec_decode_batch(entries_view(batch@)),
{
    let mut events: Vec<Event> = Vec::new();
    let n = batch.len();
    let mut i: usize = 0;
    while i < n
        invariant
            n == batch@.len(),
            i <= n,
            events@.len() == i,
            forall|a: int| 0 <= a < i ==> events@[a]@ == spec_decode(batch@[a]@.fields),
        decreases n - i,
    {
        events.push(event_from_fields(&batch[i].fields));
        i = i + 1;
    }
    proof {
        assert(events@.map_values(|e: Event| e@) =~= spec_decode_batch(entries_view(batch@)));
    }
    events
}

/// The ids of a polled batch, in batch order: what an acknowledged
/// forward deletes.
pub fn batch_ids(batch: &Vec<LogEntry>) -> (ids: Vec<u64>)
    ensures
        ids@ == spec_ids(entries_view(batch@)),
{
    let mut ids: Vec<u64> = Vec::new();
    let n = batch.len();
    let mut i: usize = 0;
    while i < n
        invariant
            n == batch@.len(),
            i <= n,
            ids@.len() == i,
            forall|a: int| 0 <= a < i ==> ids@[a] == batch@[a]@.id,
        decreases n - i,
    {
        ids.push(batch[i].id);
        i = i + 1;
    }
    proof {
        assert(ids@ =~= spec_ids(entries_view(batch@)));
    }
    ids
}

/// The at-least-once law.  A poll forwards a prefix of the log, in store
/// order; acknowledging that batch prunes exactly the forwarded entries
/// and keeps the rest, in order.  When the forward fails, the store is
/// untouched (`ack` above), and a later poll of the unchanged log returns
/// the very same batch: redelivery, never silent loss.
pub proof fn lemma_at_least_once(log: Seq<LogEntryV>, max: int)
    requires
        ids_increasing(log),
        0 <= max,
    ensures
        spec_poll(log, max) == log.take(spec_poll(log, max).len() as int),
        spec_prune(log, spec_ids(spec_poll(log, max))) == log.skip(
            spec_poll(log, max).len() as int,
        ),
{
    let n = spec_poll(log, max).len() as int;
    let batch = spec_poll(log, max);
    let ids = spec_ids(batch);
    assert(batch =~= log.take(n));
    assert(log =~= log.take(n) + log.skip(n));
    Seq::<LogEntryV>::filter_distributes_over_add(log.take(n), log.skip(n), spec_keep(ids));
    assert forall|a: int| 0 <= a < n implies !spec_keep(ids)(#[trigger] log.take(n)[a]) by {
        assert(ids[a] == batch[a].id);
        assert(ids.contains(log.take(n)[a].id));
    }
    lemma_filter_all_false(log.take(n), spec_keep(ids));
    assert forall|b: int| 0 <= b < log.skip(n).len() implies spec_keep(ids)(
        #[trigger] log.skip(n)[b],
    ) by {
        if ids.contains(log.skip(n)[b].id) {
            let a = choose|a: int| 0 <= a < ids.len() && ids[a] == log.skip(n)[b].id;
            assert(log[a].id < log[n + b].id);
        }
    }
    lemma_filter_all_true(log.skip(n), spec_keep(ids));
    assert(Seq::<LogEntryV>::empty() + log.skip(n) =~= log.skip(n));
}

} // verus!
