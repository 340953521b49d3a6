//! Injection: the store-and-forward path.  A message addressed to a set
//! of identities is appended to each recipient's durable log — whether or
//! not the recipient is online — and the store-assigned entry ids are
//! returned in recipient order.  A delivery worker later drains each log
//! in append order.

use vstd::prelude::*;
use vstd::string::*;

use crate::event::{Event, EventV, event_fields, lemma_encode_decode, spec_fields_of};
use crate::keys::{spec_stream_key, stream_key};
use crate::store::{LogEntryV, LogStore, ids_increasing, spec_poll, spec_prune};
use crate::worker::{lemma_at_least_once, spec_decode_batch, spec_ids};

verus! {

/// The log stored under `k` after `ev` was appended for each receiver in
/// `rs`, in order, with ids assigned from `base` on.
pub open spec fn spec_logs_after_inject(
    pre: spec_fn(Seq<char>) -> Seq<LogEntryV>,
    ev: EventV,
    base: u64,
    rs: Seq<Seq<char>>,
    k: Seq<char>,
) -> Seq<LogEntryV>
    decreases rs.len(),
{
    if rs.len() == 0 {
        pre(k)
    } else {
        let prev = spec_logs_after_inject(pre, ev, base, rs.drop_last(), k);
        if spec_stream_key(rs.last()) == k {
            prev.push(
                LogEntryV {
                    id: (base + rs.len() - 1) as u64,
                    fields: spec_fields_of(ev),
                },
            )
        } else {
            prev
        }
    }
}

/// The entries that injection appends under the key `k`: one per
/// receiver whose log key is `k`, in receiver order, with the ids the
/// store assigns.
pub open spec fn spec_injected_tail(
    ev: EventV,
    base: u64,
    rs: Seq<Seq<char>>,
    k: Seq<char>,
) -> Seq<LogEntryV>
    decreases rs.len(),
{
    if rs.len() == 0 {
        Seq::<LogEntryV>::empty()
    } else {
        let prev = spec_injected_tail(ev, base, rs.drop_last(), k);
        if spec_stream_key(rs.last()) == k {
            prev.push(
                LogEntryV {
                    id: (base + rs.len() - 1) as u64,
                    fields: spec_fields_of(ev),
                },
            )
        } else {
            prev
        }
    }
}

/// Injection only ever appends: every key's log afterwards is its old
/// log followed by exactly the entries injected for it, in receiver
/// order — whether or not the key's identity is online, and with
/// duplicate receivers included.
pub proof fn lemma_inject_appends(
    pre: spec_fn(Seq<char>) -> Seq<LogEntryV>,
    ev: EventV,
    base: u64,
    rs: Seq<Seq<char>>,
    k: Seq<char>,
)
    ensures
        spec_logs_after_inject(pre, ev, base, rs, k) == pre(k) + spec_injected_tail(
            ev,
            base,
            rs,
            k,
        ),
    decreases rs.len(),
{
    if rs.len() == 0 {
        assert(pre(k) + Seq::<LogEntryV>::empty() =~= pre(k));
    } else {
        lemma_inject_appends(pre, ev, base, rs.drop_last(), k);
        if spec_stream_key(rs.last()) == k {
            assert((pre(k) + spec_injected_tail(ev, base, rs.drop_last(), k)).push(
                LogEntryV { id: (base + rs.len() - 1) as u64, fields: spec_fields_of(ev) },
            ) =~= pre(k) + spec_injected_tail(ev, base, rs, k));
        }
    }
}

/// A key that belongs to no receiver is untouched by injection.
pub proof fn lemma_inject_untouched(
    pre: spec_fn(Seq<char>) -> Seq<LogEntryV>,
    ev: EventV,
    base: u64,
    rs: Seq<Seq<char>>,
    k: Seq<char>,
)
    requires
        forall|j: int| 0 <= j < rs.len() ==> spec_stream_key(#[trigger] rs[j]) != k,
    ensures
        spec_logs_after_inject(pre, ev, base, rs, k) == pre(k),
        spec_injected_tail(ev, base, rs, k) == Seq::<LogEntryV>::empty(),
    decreases rs.len(),
{
    if rs.len() > 0 {
        lemma_inject_untouched(pre, ev, base, rs.drop_last(), k);
    }
}

/// A receiver that occurs once in the list, at position `i`, has exactly
/// one entry appended at the tail of its log: the event's fields, under
/// the id assigned for position `i`.
pub proof fn lemma_inject_once(
    pre: spec_fn(Seq<char>) -> Seq<LogEntryV>,
    ev: EventV,
    base: u64,
    rs: Seq<Seq<char>>,
    i: int,
)
    requires
        0 <= i < rs.len(),
        forall|j: int|
            0 <= j < rs.len() && j != i ==> spec_stream_key(#[trigger] rs[j]) != spec_stream_key(
                rs[i],
            ),
    ensures
        spec_logs_after_inject(pre, ev, base, rs, spec_stream_key(rs[i])) == pre(
            spec_stream_key(rs[i]),
        ).push((LogEntryV { id: (base + i) as u64, fields: spec_fields_of(ev) })),
    decreases rs.len(),
{
    let k = spec_stream_key(rs[i]);
    if i == rs.len() - 1 {
        lemma_inject_untouched(pre, ev, base, rs.drop_last(), k);
    } else {
        assert(rs.drop_last()[i] == rs[i]);
        lemma_inject_once(pre, ev, base, rs.drop_last(), i);
    }
}

/// `Inject`: append one entry per recipient identity to that identity's
/// log — the store-and-forward step — and return the assigned ids in
/// recipient order.
pub fn inject(store: &mut LogStore, event: &Event, receivers: &Vec<String>) -> (ids: Vec<u64>)
    requires
        old(store).wf(),
        old(store).next_id + receivers@.len() <= u64::MAX,
    ensures
        final(store).wf(),
        final(store).next_id == old(store).next_id + receivers@.len(),
        ids@.len() == receivers@.len(),
        forall|a: int| 0 <= a < ids@.len() ==> ids@[a] == old(store).next_id + a,
        forall|k: Seq<char>|
            final(store).log_of(k) == spec_logs_after_inject(
                |k2: Seq<char>| old(store).log_of(k2),
                event@,
                old(store).next_id,
                receivers@.map_values(|r: String| r@),
                k,
            ),
        forall|k: Seq<char>|
            final(store).log_of(k) == old(store).log_of(k) + spec_injected_tail(
                event@,
                old(store).next_id,
                receivers@.map_values(|r: String| r@),
                k,
            ),
{
    let ghost pre = |k2: Seq<char>| old(store).log_of(k2);
    let ghost base = old(store).next_id;
    let ghost rs = receivers@.map_values(|r: String| r@);
    let mut ids: Vec<u64> = Vec::new();
    let n = receivers.len();
    let mut i: usize = 0;
    proof {
        assert forall|k: Seq<char>| store.log_of(k) == spec_logs_after_inject(
            pre,
            event@,
            base,
            rs.take(0),
            k,
        ) by {
            assert(rs.take(0).len() == 0);
        }
    }
    while i < n
        invariant
            n == receivers@.len(),
            i <= n,
            rs == receivers@.map_values(|r: String| r@),
            store.wf(),
            store.next_id == base + i,
            base + n <= u64::MAX,
            ids@.len() == i,
            forall|a: int| 0 <= a < i ==> ids@[a] == base + a,
            forall|k: Seq<char>|
                store.log_of(k) == spec_logs_after_inject(pre, event@, base, rs.take(i as int), k),
        decreases n - i,
    {
        let ghost snap = *store;
        let key = stream_key(receivers[i].as_str());
        let fields = event_fields(event);
        let id = store.append(key.as_str(), fields);
        ids.push(id);
        proof {
            let t = rs.take(i + 1);
            assert(t.drop_last() =~= rs.take(i as int));
            assert(t.last() == rs[i as int]);
            assert forall|k: Seq<char>| store.log_of(k) == spec_logs_after_inject(
                pre,
                event@,
                base,
                t,
                k,
            ) by {
                if spec_stream_key(rs[i as int]) == k {
                    assert(store.log_of(k) == snap.log_of(k).push(
                        LogEntryV { id, fields: spec_fields_of(event@) },
                    ));
                } else {
                    assert(store.log_of(k) == snap.log_of(k));
                }
            }
        }
        i = i + 1;
    }
    proof {
        assert(rs.take(n as int) =~= rs);
        assert forall|k: Seq<char>| store.log_of(k) == old(store).log_of(k)
            + spec_injected_tail(event@, base, rs, k) by {
            lemma_inject_appends(pre, event@, base, rs, k);
        }
    }
    ids
}

/// The store-and-forward law.  Entries staged for an identity — online or
/// not — stay in its log in append order (`inject` and `append` only ever
/// extend a log).  Once a worker polls the log with capacity for all of
/// them, it forwards exactly those entries in append order, decoding
/// yields the staged events unchanged, and the acknowledged forward
/// leaves the log empty.
pub proof fn lemma_store_and_forward(log: Seq<LogEntryV>, staged: Seq<EventV>, max: int)
    requires
        log.len() == staged.len(),
        forall|a: int| 0 <= a < log.len() ==> (#[trigger] log[a]).fields == spec_fields_of(
            staged[a],
        ),
        ids_increasing(log),
        max >= log.len(),
    ensures
        spec_poll(log, max) == log,
        spec_decode_batch(log) == staged,
        spec_prune(log, spec_ids(log)) == Seq::<LogEntryV>::empty(),
{
    lemma_at_least_once(log, max);
    assert(log.skip(log.len() as int) =~= Seq::<LogEntryV>::empty());
    assert forall|a: int| 0 <= a < log.len() implies spec_decode_batch(log)[a] == staged[a] by {
        lemma_encode_decode(staged[a]);
    }
    assert(spec_decode_batch(log) =~= staged);
}

} // verus!
