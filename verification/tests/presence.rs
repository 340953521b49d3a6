//! Presence directory behaviour: unique sessions, the
//! one-worker-per-identity rule, idempotent disconnect, snapshots, and
//! the heartbeat teardown path.

use presence_relay::directory::Directory;
use presence_relay::session::{HbAction, Phase, SessionEndpoint, CLIENT_TIMEOUT_MS};

fn names_of(d: &Directory) -> Vec<String> {
    d.list_names()
}

#[test]
fn connect_assigns_fresh_unique_ids() {
    let mut d = Directory::new();
    let a = d.connect();
    let b = d.connect();
    let c = d.connect();
    assert_ne!(a, b);
    assert_ne!(b, c);
    assert_ne!(a, c);
}

#[test]
fn second_online_replaces_prior_worker() {
    let mut d = Directory::new();
    let s1 = d.connect();
    let s2 = d.connect();
    assert!(d.online(s1, "bob", "web"));
    assert!(d.online(s2, "bob", "cli"));
    // One presence entry, bound to the later session.
    assert_eq!(d.presence.len(), 1);
    assert_eq!(d.presence[0].session, s2);
    assert_eq!(names_of(&d), vec![String::from("bob")]);
}

#[test]
fn online_on_unknown_session_is_noop() {
    let mut d = Directory::new();
    assert!(!d.online(42, "ghost", "web"));
    assert!(names_of(&d).is_empty());
}

#[test]
fn rebinding_a_session_drops_its_old_identity() {
    let mut d = Directory::new();
    let s1 = d.connect();
    d.online(s1, "bob", "web");
    d.online(s1, "bobby", "web");
    assert_eq!(names_of(&d), vec![String::from("bobby")]);
}

#[test]
fn disconnect_clears_presence_and_is_idempotent() {
    let mut d = Directory::new();
    let s1 = d.connect();
    let s2 = d.connect();
    d.online(s1, "bob", "web");
    d.online(s2, "carol", "web");

    d.disconnect(s1);
    assert_eq!(d.sessions, vec![s2]);
    assert_eq!(names_of(&d), vec![String::from("carol")]);

    // The second disconnect of the same id is a no-op.
    d.disconnect(s1);
    assert_eq!(d.sessions, vec![s2]);
    assert_eq!(names_of(&d), vec![String::from("carol")]);
}

#[test]
fn disconnect_unknown_id_is_noop() {
    let mut d = Directory::new();
    let s1 = d.connect();
    d.online(s1, "bob", "web");
    d.disconnect(999);
    assert_eq!(d.sessions, vec![s1]);
    assert_eq!(names_of(&d), vec![String::from("bob")]);
}

#[test]
fn list_snapshot_includes_online_excludes_offline() {
    // "bob" is online, "carol" is not; two sessions ask for the list.
    let mut d = Directory::new();
    let s1 = d.connect();
    let _s2 = d.connect();
    d.online(s1, "bob", "web");

    let first = names_of(&d);
    let second = names_of(&d);
    for answer in [&first, &second] {
        assert!(answer.iter().any(|n| n == "bob"));
        assert!(!answer.iter().any(|n| n == "carol"));
    }
}

#[test]
fn heartbeat_timeout_terminates_and_clears_presence() {
    let mut d = Directory::new();
    let sid = d.connect();
    d.online(sid, "mallory", "web");

    let mut sess = SessionEndpoint::new(1000);
    sess.on_registered(sid);

    // Still within the timeout: only a probe is sent.
    assert_eq!(sess.hb_tick(1000 + CLIENT_TIMEOUT_MS), HbAction::Ping);
    assert_eq!(sess.phase, Phase::Registered);

    // Past the timeout: the session terminates and disconnects itself.
    let act = sess.hb_tick(1000 + CLIENT_TIMEOUT_MS + 1);
    assert_eq!(act, HbAction::Disconnect);
    assert_eq!(sess.phase, Phase::Closing);

    // One directory round trip later the identity is offline.
    d.disconnect(sid);
    assert!(names_of(&d).is_empty());
}

#[test]
fn liveness_signal_resets_the_clock() {
    let mut sess = SessionEndpoint::new(0);
    sess.on_registered(3);
    sess.touch(CLIENT_TIMEOUT_MS);
    assert_eq!(sess.hb_tick(2 * CLIENT_TIMEOUT_MS), HbAction::Ping);
    assert_eq!(sess.phase, Phase::Registered);
}
