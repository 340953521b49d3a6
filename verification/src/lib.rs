//! A presence-aware message relay, verified.
//!
//! Clients hold a session; a session may register an identity ("online").
//! Messages addressed to an identity are staged in a per-identity ordered
//! log even while the identity is offline, and drained, in append order, to
//! a live session as soon as one exists.  The library holds the verified
//! core: the presence directory, the delivery worker's poll/forward/prune
//! protocol, the session endpoint's command protocol and heartbeat rule,
//! and an in-memory model of the durable log store.  Transport and store
//! backends drive these functions from outside.

pub mod directory;
pub mod event;
pub mod keys;
pub mod relay;
pub mod seqs;
pub mod session;
pub mod store;
pub mod worker;
pub mod text;

use vstd::prelude::*;

verus! {

} // verus!
