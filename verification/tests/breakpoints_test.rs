//! The hub of breakpoints.

use rproxy::breakpoints::{BreakpointDecision, BreakpointHub};

#[test]
fn hub_settings() {
    let mut hub = BreakpointHub::default();
    assert!(!hub.enabled());
    assert_eq!(hub.pattern(), "");
    hub.set_enabled(true);
    // An empty pattern holds nothing.
    assert!(!hub.should_hold("http://h/"));
    hub.set_pattern("/a");
    assert_eq!(hub.pattern(), "/a");
    assert!(hub.should_hold("http://h/a"));
    assert!(!hub.should_hold("http://h/b"));
    hub.set_enabled(false);
    assert!(!hub.should_hold("http://h/a"));
}

#[test]
fn decisions_reach_those_who_wait() {
    let mut hub = BreakpointHub::new("x", true);
    let (tx, mut rx) = tokio::sync::oneshot::channel();
    let (tx2, rx2) = tokio::sync::oneshot::channel();
    hub.register(1, tx);
    hub.register(2, tx2);
    let mut waiting = hub.pending();
    waiting.sort();
    assert_eq!(waiting, vec![1, 2]);
    assert!(hub.resolve(1, BreakpointDecision::Drop));
    assert_eq!(rx.try_recv().unwrap(), BreakpointDecision::Drop);
    assert_eq!(hub.pending(), vec![2]);
    // Once decided, it no longer waits.
    assert!(!hub.resolve(1, BreakpointDecision::Drop));
    // Nobody listens any more.
    drop(rx2);
    assert!(!hub.resolve(2, BreakpointDecision::Continue));
    assert!(hub.pending().is_empty());
}

#[test]
fn all_are_decided_at_once() {
    let mut hub = BreakpointHub::new("x", true);
    let mut ends = Vec::new();
    for id in 0..4 {
        let (tx, rx) = tokio::sync::oneshot::channel();
        hub.register(id, tx);
        ends.push(rx);
    }
    assert_eq!(hub.resolve_all(BreakpointDecision::Continue), 4);
    for mut rx in ends {
        assert_eq!(rx.try_recv().unwrap(), BreakpointDecision::Continue);
    }
    assert_eq!(hub.resolve_all(BreakpointDecision::Continue), 0);
    assert!(hub.pending().is_empty());
}

#[test]
fn a_release_carries_the_decision() {
    let mut hub = BreakpointHub::new("x", true);
    let (tx, _rx) = tokio::sync::oneshot::channel();
    hub.register(9, tx);
    let r = hub.release(9, BreakpointDecision::Drop).expect("waits");
    assert_eq!((r.id, r.decision), (9, BreakpointDecision::Drop));
    assert!(hub.release(9, BreakpointDecision::Drop).is_none());
}
