//! The presence directory: the single-writer component that owns the live
//! session set and the presence map (identity -> session, platform).
//!
//! All mutations go through one owner, so each operation is specified as a
//! transition function on the directory's mathematical view.  The directory
//! enforces the one-worker-per-identity rule: registering an identity
//! replaces any prior binding of that identity (and any prior binding of
//! the same session) before recording the new one.

use vstd::prelude::*;
use vstd::string::*;

use crate::seqs::{lemma_filter_all_true, lemma_filter_distinct, lemma_filter_elems};
use crate::text::str_eq;

verus! {

broadcast use vstd::seq_lib::group_filter_ensures;

/// One online identity: which session serves it, from which platform.
pub struct PresenceEntry {
    pub identity: String,
    pub session: u64,
    pub platform: String,
}

/// Mathematical form of a `PresenceEntry`.
pub struct PresenceV {
    pub identity: Seq<char>,
    pub session: u64,
    pub platform: Seq<char>,
}

impl View for PresenceEntry {
    type V = PresenceV;

    open spec fn view(&self) -> PresenceV {
        PresenceV { identity: self.identity@, session: self.session, platform: self.platform@ }
    }
}

/// The views of a sequence of presence entries.
pub open spec fn presence_view(s: Seq<PresenceEntry>) -> Seq<PresenceV> {
    s.map_values(|p: PresenceEntry| p@)
}

/// The directory: connected session ids, the id counter, and the presence
/// map.  A presence entry exists exactly while its identity's delivery
/// worker is alive, so the presence map is also the worker registry.
pub struct Directory {
    pub next_session: u64,
    pub sessions: Vec<u64>,
    pub presence: Vec<PresenceEntry>,
}

/// Mathematical form of a `Directory`.
pub struct DirectoryV {
    pub next_session: u64,
    pub sessions: Seq<u64>,
    pub presence: Seq<PresenceV>,
}

impl View for Directory {
    type V = DirectoryV;

    open spec fn view(&self) -> DirectoryV {
        DirectoryV {
            next_session: self.next_session,
            sessions: self.sessions@,
            presence: presence_view(self.presence@),
        }
    }
}

impl DirectoryV {
    /// Session ids are unique and below the counter; at most one presence
    /// entry per identity and per session; every online identity is served
    /// by a connected session.
    pub open spec fn wf(self) -> bool {
        &&& forall|i: int, j: int|
            0 <= i < j < self.sessions.len() ==> self.sessions[i] != self.sessions[j]
        &&& forall|i: int| 0 <= i < self.sessions.len() ==> self.sessions[i] < self.next_session
        &&& forall|i: int, j: int|
            0 <= i < j < self.presence.len() ==> self.presence[i].identity
                != self.presence[j].identity
        &&& forall|i: int, j: int|
            0 <= i < j < self.presence.len() ==> self.presence[i].session
                != self.presence[j].session
        &&& forall|i: int|
            0 <= i < self.presence.len() ==> self.sessions.contains(
                (#[trigger] self.presence[i]).session,
            )
    }
}

/// Keep a session id exactly when it is not the disconnected one.
pub open spec fn spec_keep_session(id: u64) -> spec_fn(u64) -> bool {
    |s: u64| s != id
}

/// Keep a presence entry exactly when it is not served by the session.
pub open spec fn spec_keep_presence(id: u64) -> spec_fn(PresenceV) -> bool {
    |p: PresenceV| p.session != id
}

/// Keep a presence entry exactly when it collides with neither the new
/// identity nor the registering session.
pub open spec fn spec_keep_other(identity: Seq<char>, id: u64) -> spec_fn(PresenceV) -> bool {
    |p: PresenceV| p.identity != identity && p.session != id
}

/// `Connect`: allocate a fresh session id and record it.
pub open spec fn spec_connect(d: DirectoryV) -> (DirectoryV, u64) {
    (
        DirectoryV {
            next_session: (d.next_session + 1) as u64,
            sessions: d.sessions.push(d.next_session),
            presence: d.presence,
        },
        d.next_session,
    )
}

/// `Disconnect`: drop the session and whatever identity it served.
/// Presence removal and worker teardown are one step.
pub open spec fn spec_disconnect(d: DirectoryV, id: u64) -> DirectoryV {
    DirectoryV {
        next_session: d.next_session,
        sessions: d.sessions.filter(spec_keep_session(id)),
        presence: d.presence.filter(spec_keep_presence(id)),
    }
}

/// `Online`: record the identity on the session, replacing any prior
/// binding of the same identity and any prior binding of the same session.
/// An unknown session is a no-op.
pub open spec fn spec_online(
    d: DirectoryV,
    id: u64,
    identity: Seq<char>,
    platform: Seq<char>,
) -> DirectoryV {
    if !d.sessions.contains(id) {
        d
    } else {
        DirectoryV {
            next_session: d.next_session,
            sessions: d.sessions,
            presence: d.presence.filter(spec_keep_other(identity, id)).push(
                PresenceV { identity, session: id, platform },
            ),
        }
    }
}

/// `ListNames`: the snapshot of online identities.
pub open spec fn spec_list(d: DirectoryV) -> Seq<Seq<char>> {
    d.presence.map_values(|p: PresenceV| p.identity)
}

/// Connecting preserves the directory invariant.
pub proof fn lemma_connect_wf(d: DirectoryV)
    requires
        d.wf(),
        d.next_session < u64::MAX,
    ensures
        spec_connect(d).0.wf(),
{
    let d2 = spec_connect(d).0;
    assert forall|i: int, j: int| 0 <= i < j < d2.sessions.len() implies d2.sessions[i]
        != d2.sessions[j] by {
        if j == d2.sessions.len() - 1 {
            assert(d.sessions[i] < d.next_session);
        }
    }
    assert forall|i: int| 0 <= i < d2.presence.len() implies d2.sessions.contains(
        (#[trigger] d2.presence[i]).session,
    ) by {
        let k = choose|k: int| 0 <= k < d.sessions.len() && d.sessions[k] == d.presence[i].session;
        assert(d2.sessions[k] == d.presence[i].session);
    }
}

/// Disconnecting preserves the directory invariant.
pub proof fn lemma_disconnect_wf(d: DirectoryV, id: u64)
    requires
        d.wf(),
    ensures
        spec_disconnect(d, id).wf(),
{
    let d2 = spec_disconnect(d, id);
    lemma_filter_distinct(d.sessions, spec_keep_session(id), |s: u64| s);
    lemma_filter_elems(d.sessions, spec_keep_session(id));
    lemma_filter_distinct(d.presence, spec_keep_presence(id), |p: PresenceV| p.identity);
    lemma_filter_distinct(d.presence, spec_keep_presence(id), |p: PresenceV| p.session);
    lemma_filter_elems(d.presence, spec_keep_presence(id));
    assert forall|i: int| 0 <= i < d2.sessions.len() implies d2.sessions[i]
        < d2.next_session by {
        assert(d.sessions.contains(d2.sessions[i]));
        let k = choose|k: int| 0 <= k < d.sessions.len() && d.sessions[k] == d2.sessions[i];
    }
    assert forall|i: int| 0 <= i < d2.presence.len() implies d2.sessions.contains(
        (#[trigger] d2.presence[i]).session,
    ) by {
        let p = d2.presence[i];
        assert(d.presence.contains(p));
        let k = choose|k: int| 0 <= k < d.presence.len() && d.presence[k] == p;
        assert(d.sessions.contains(p.session));
        let m = choose|m: int| 0 <= m < d.sessions.len() && d.sessions[m] == p.session;
        assert(spec_keep_presence(id)(p));
        assert(spec_keep_session(id)(d.sessions[m]));
        d.sessions.lemma_filter_contains(spec_keep_session(id), m);
    }
}

/// Registering an identity preserves the directory invariant; in
/// particular it never creates a second entry for one identity.
pub proof fn lemma_online_wf(d: DirectoryV, id: u64, identity: Seq<char>, platform: Seq<char>)
    requires
        d.wf(),
    ensures
        spec_online(d, id, identity, platform).wf(),
{
    if d.sessions.contains(id) {
        let d2 = spec_online(d, id, identity, platform);
        let keep = spec_keep_other(identity, id);
        let kept = d.presence.filter(keep);
        lemma_filter_distinct(d.presence, keep, |p: PresenceV| p.identity);
        lemma_filter_distinct(d.presence, keep, |p: PresenceV| p.session);
        lemma_filter_elems(d.presence, keep);
        assert forall|i: int, j: int| 0 <= i < j < d2.presence.len() implies d2.presence[i].identity
            != d2.presence[j].identity by {
            if j == d2.presence.len() - 1 {
                assert(keep(kept[i]));
            }
        }
        assert forall|i: int, j: int| 0 <= i < j < d2.presence.len() implies d2.presence[i].session
            != d2.presence[j].session by {
            if j == d2.presence.len() - 1 {
                assert(keep(kept[i]));
            }
        }
        assert forall|i: int| 0 <= i < d2.presence.len() implies d2.sessions.contains(
            (#[trigger] d2.presence[i]).session,
        ) by {
            if i < d2.presence.len() - 1 {
                assert(d.presence.contains(kept[i]));
                let k = choose|k: int| 0 <= k < d.presence.len() && d.presence[k] == kept[i];
            }
        }
    }
}

/// At any instant a well-formed directory binds each identity to at most
/// one session, hence runs at most one delivery worker per identity.  Each
/// operation keeps the directory well formed, so this holds along every
/// sequence of `Online` and `Disconnect` calls.
pub proof fn lemma_one_worker_per_identity(d: DirectoryV)
    requires
        d.wf(),
    ensures
        forall|i: int, j: int|
            0 <= i < d.presence.len() && 0 <= j < d.presence.len() && i != j
                ==> (#[trigger] d.presence[i]).identity != (#[trigger] d.presence[j]).identity,
{
    assert forall|i: int, j: int|
        0 <= i < d.presence.len() && 0 <= j < d.presence.len() && i != j implies (
    #[trigger] d.presence[i]).identity != (#[trigger] d.presence[j]).identity by {
        if j < i {
            assert(d.presence[j].identity != d.presence[i].identity);
        }
    }
}

/// Disconnecting a session twice has the effect of disconnecting it once:
/// the second call is a no-op.
pub proof fn lemma_disconnect_idempotent(d: DirectoryV, id: u64)
    ensures
        spec_disconnect(spec_disconnect(d, id), id) == spec_disconnect(d, id),
{
    let d1 = spec_disconnect(d, id);
    assert forall|i: int| 0 <= i < d1.sessions.len() implies spec_keep_session(id)(
        #[trigger] d1.sessions[i],
    ) by {}
    assert forall|i: int| 0 <= i < d1.presence.len() implies spec_keep_presence(id)(
        #[trigger] d1.presence[i],
    ) by {}
    lemma_filter_all_true(d1.sessions, spec_keep_session(id));
    lemma_filter_all_true(d1.presence, spec_keep_presence(id));
}

/// After a disconnect no presence entry is served by the session: the
/// session's identity, if it had one, is offline and its worker is gone.
pub proof fn lemma_disconnect_clears_session(d: DirectoryV, id: u64)
    ensures
        forall|i: int|
            0 <= i < spec_disconnect(d, id).presence.len()
                ==> (#[trigger] spec_disconnect(d, id).presence[i]).session != id,
{
}

/// A field-by-field copy of a presence entry.
fn clone_presence(p: &PresenceEntry) -> (r: PresenceEntry)
    ensures
        r@ == p@,
{
    PresenceEntry {
        identity: p.identity.clone(),
        session: p.session,
        platform: p.platform.clone(),
    }
}

impl Directory {
    /// An empty directory: no session, no presence.
    pub fn new() -> (d: Directory)
        ensures
            d@.wf(),
            d@.next_session == 0,
            d@.sessions == Seq::<u64>::empty(),
            d@.presence == Seq::<PresenceV>::empty(),
    {
        let d = Directory { next_session: 0, sessions: Vec::new(), presence: Vec::new() };
        proof {
            assert(presence_view(d.presence@) =~= Seq::<PresenceV>::empty());
        }
        d
    }

    /// `Connect`: allocate and return a fresh unique session id.
    pub fn connect(&mut self) -> (id: u64)
        requires
            old(self)@.wf(),
            old(self).next_session < u64::MAX,
        ensures
            final(self)@ == spec_connect(old(self)@).0,
            id == spec_connect(old(self)@).1,
            final(self)@.wf(),
    {
        proof {
            lemma_connect_wf(old(self)@);
        }
        let id = self.next_session;
        self.sessions.push(id);
        self.next_session = self.next_session + 1;
        id
    }

    /// `Disconnect`: remove the session; if it served an identity, clear
    /// that presence entry (and with it the identity's worker) in the same
    /// step.  Disconnecting an unknown id is a no-op.
    pub fn disconnect(&mut self, id: u64)
        requires
            old(self)@.wf(),
        ensures
            final(self)@ == spec_disconnect(old(self)@, id),
            final(self)@.wf(),
    {
        proof {
            lemma_disconnect_wf(old(self)@, id);
        }
        let ghost src_s = self.sessions@;
        let mut kept_sessions: Vec<u64> = Vec::new();
        let n = self.sessions.len();
        let mut i: usize = 0;
        while i < n
            invariant
                n == self.sessions@.len(),
                src_s == self.sessions@,
                i <= n,
                kept_sessions@ == src_s.take(i as int).filter(spec_keep_session(id)),
            decreases n - i,
        {
            let s = self.sessions[i];
            if s != id {
                kept_sessions.push(s);
            }
            proof {
                lemma_filter_step(src_s, spec_keep_session(id), i as int);
            }
            i = i + 1;
        }
        proof {
            assert(src_s.take(n as int) =~= src_s);
        }
        self.sessions = kept_sessions;

        let ghost src_p = presence_view(self.presence@);
        let mut kept: Vec<PresenceEntry> = Vec::new();
        let m = self.presence.len();
        let mut j: usize = 0;
        while j < m
            invariant
                m == self.presence@.len(),
                src_p == presence_view(self.presence@),
                j <= m,
                presence_view(kept@) == src_p.take(j as int).filter(spec_keep_presence(id)),
            decreases m - j,
        {
            let ghost prev = presence_view(kept@);
            let p = &self.presence[j];
            if p.session != id {
                kept.push(clone_presence(p));
                proof {
                    assert(presence_view(kept@) =~= prev.push(src_p[j as int]));
                }
            }
            proof {
                lemma_filter_step(src_p, spec_keep_presence(id), j as int);
            }
            j = j + 1;
        }
        proof {
            assert(src_p.take(m as int) =~= src_p);
        }
        self.presence = kept;
    }

    /// `Online`: bind `identity` to the session `id`, replacing any prior
    /// binding of the same identity or session.  Unknown sessions are a
    /// no-op.  The caller starts the identity's delivery worker exactly
    /// when the directory reports a change.
    pub fn online(&mut self, id: u64, identity: &str, platform: &str) -> (changed: bool)
        requires
            old(self)@.wf(),
        ensures
            final(self)@ == spec_online(old(self)@, id, identity@, platform@),
            final(self)@.wf(),
            changed == old(self)@.sessions.contains(id),
    {
        proof {
            lemma_online_wf(old(self)@, id, identity@, platform@);
        }
        if !crate::store::contains_id(&self.sessions, id) {
            return false;
        }
        let ghost src_p = presence_view(self.presence@);
        let ghost keep = spec_keep_other(identity@, id);
        let mut kept: Vec<PresenceEntry> = Vec::new();
        let m = self.presence.len();
        let mut j: usize = 0;
        while j < m
            invariant
                m == self.presence@.len(),
                src_p == presence_view(self.presence@),
                keep == spec_keep_other(identity@, id),
                j <= m,
                presence_view(kept@) == src_p.take(j as int).filter(keep),
            decreases m - j,
        {
            let ghost prev = presence_view(kept@);
            let p = &self.presence[j];
            let collides = str_eq(p.identity.as_str(), identity) || p.session == id;
            if !collides {
                kept.push(clone_presence(p));
                proof {
                    assert(presence_view(kept@) =~= prev.push(src_p[j as int]));
                }
            }
            proof {
                lemma_filter_step(src_p, keep, j as int);
            }
            j = j + 1;
        }
        proof {
            assert(src_p.take(m as int) =~= src_p);
        }
        kept.push(
            PresenceEntry {
                identity: String::from_str(identity),
                session: id,
                platform: String::from_str(platform),
            },
        );
        self.presence = kept;
        proof {
            assert(presence_view(self.presence@) =~= src_p.filter(keep).push(
                PresenceV { identity: identity@, session: id, platform: platform@ },
            ));
        }
        true
    }

    /// `ListNames`: a snapshot of the currently online identities.
    pub fn list_names(&self) -> (names: Vec<String>)
        ensures
            names@.map_values(|s: String| s@) == spec_list(self@),
    {
        let mut names: Vec<String> = Vec::new();
        let m = self.presence.len();
        let mut j: usize = 0;
        while j < m
            invariant
                m == self.presence@.len(),
                j <= m,
                names@.len() == j,
                forall|a: int| 0 <= a < j ==> names@[a]@ == presence_view(self.presence@)[a].identity,
            decreases m - j,
        {
            names.push(self.presence[j].identity.clone());
            j = j + 1;
        }
        proof {
            assert(names@.map_values(|s: String| s@) =~= spec_list(self@));
        }
        names
    }
}

/// One step of the filtering loops: extending the prefix by one element
/// extends its filtered image by that element exactly when it is kept.
proof fn lemma_filter_step<A>(src: Seq<A>, p: spec_fn(A) -> bool, i: int)
    requires
        0 <= i < src.len(),
    ensures
        src.take(i + 1).filter(p) == if p(src[i]) {
            src.take(i).filter(p).push(src[i])
        } else {
            src.take(i).filter(p)
        },
{
    reveal_with_fuel(Seq::<_>::filter, 2);
    let single = seq![src[i]];
    assert(single.drop_last() =~= Seq::<A>::empty());
    assert(src.take(i + 1) =~= src.take(i) + single);
    Seq::<A>::filter_distributes_over_add(src.take(i), single, p);
    if p(src[i]) {
        assert(single.filter(p) =~= single);
        assert(src.take(i).filter(p) + single =~= src.take(i).filter(p).push(src[i]));
    } else {
        assert(single.filter(p) =~= Seq::<A>::empty());
        assert(src.take(i).filter(p) + single.filter(p) =~= src.take(i).filter(p));
    }
}

} // verus!
