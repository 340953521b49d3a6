//! The store key scheme: one presence hash for all online identities, one
//! platform hash per identity, and one message log per identity.

use vstd::prelude::*;
use vstd::string::*;

verus! {

/// The key of the message log of `identity`.
pub open spec fn spec_stream_key(identity: Seq<char>) -> Seq<char> {
    "stream-messages:"@ + identity
}

/// The key of the platform hash of `identity`.
pub open spec fn spec_key_platform(identity: Seq<char>) -> Seq<char> {
    "platforms:"@ + identity
}

/// The key of the hash that records all online identities.
pub fn online_users() -> (r: &'static str)
    ensures
        r@ == "online-users"@,
{
    "online-users"
}

/// The key of the platform hash of `identity`.
pub fn key_platform(identity: &str) -> (r: String)
    ensures
        r@ == spec_key_platform(identity@),
{
    String::from_str("platforms:").concat(identity)
}

/// The key of the message log of `identity`.
pub fn stream_key(identity: &str) -> (r: String)
    ensures
        r@ == spec_stream_key(identity@),
{
    String::from_str("stream-messages:").concat(identity)
}

} // verus!
