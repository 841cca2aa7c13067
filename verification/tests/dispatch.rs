use dom_dispatch::event::{Event, EventPhase};
use dom_dispatch::eventtarget::{EventListener, EventTarget, ListenerPhase};
use dom_dispatch::eventdispatcher::{dispatch_event, DispatchTrace};
use dom_dispatch::node::Forest;
use dom_dispatch::rooting::RootOp;

fn listener(id: u64) -> EventListener {
    EventListener {
        id,
        calls_stop_propagation: false,
        calls_stop_immediate: false,
        calls_prevent_default: false,
        raises: false,
    }
}

/// A forest of elements forming a single chain root -> ... -> leaf, returning
/// the node indices from root to leaf.
fn chain_forest(depth: usize) -> (Forest, Vec<usize>) {
    let mut f = Forest::new();
    let mut ids = Vec::new();
    for k in 0..depth {
        let i = f.create_element(format!("e{}", k));
        if k > 0 {
            assert!(f.append_child(ids[k - 1], i).is_ok());
        }
        ids.push(i);
    }
    (f, ids)
}

#[test]
fn lone_target_no_listeners_returns_true() {
    let mut f = Forest::new();
    let t = f.create_element("div".to_string());
    let mut event = Event::new("click".to_string(), true);
    let mut trace = DispatchTrace::new();
    let r = dispatch_event(&f, t, None, &mut event, &mut trace);
    assert!(r);
    assert_eq!(event.phase, EventPhase::PhaseNone);
    assert_eq!(event.target, Some(t));
    assert_eq!(event.current_target, None);
    assert!(!event.dispatching);
    assert!(trace.invocations.is_empty());
    assert!(trace.exceptions.is_empty());
    assert!(trace.root_ops.is_empty());
}

#[test]
fn capturing_ancestor_prevents_default() {
    // root(A) <- target; A registers a capturing listener that prevents the
    // default action.
    let (mut f, ids) = chain_forest(2);
    let a = ids[0];
    let target = ids[1];
    let mut l = listener(7);
    l.calls_prevent_default = true;
    f.add_event_listener(a, "click".to_string(), ListenerPhase::Capturing, l);
    let mut event = Event::new("click".to_string(), false);
    let mut trace = DispatchTrace::new();
    let r = dispatch_event(&f, target, None, &mut event, &mut trace);
    assert!(!r);
    assert!(event.canceled);
    assert_eq!(trace.invocations.len(), 1);
    assert_eq!(trace.invocations[0].listener.id, 7);
    assert_eq!(trace.invocations[0].node, a);
    assert_eq!(trace.invocations[0].phase, EventPhase::PhaseCapturing);
}

#[test]
fn non_bubbling_event_skips_bubbling_listeners() {
    // B <- A <- target; B has only a bubbling-affinity listener, and the
    // event does not bubble: that listener never runs.
    let (mut f, ids) = chain_forest(3);
    let b = ids[0];
    let target = ids[2];
    f.add_event_listener(b, "click".to_string(), ListenerPhase::Bubbling, listener(3));
    let mut event = Event::new("click".to_string(), false);
    let mut trace = DispatchTrace::new();
    let r = dispatch_event(&f, target, None, &mut event, &mut trace);
    assert!(r);
    assert!(trace.invocations.is_empty());
}

#[test]
fn stop_immediate_suppresses_second_listener_and_bubbling() {
    // Two at-target listeners; the first stops immediate propagation, so the
    // second never runs, and the implied stop-propagation also skips the
    // bubbling phase of this bubbling event.
    let (mut f, ids) = chain_forest(2);
    let a = ids[0];
    let target = ids[1];
    let mut l1 = listener(1);
    l1.calls_stop_immediate = true;
    let l2 = listener(2);
    f.add_event_listener(target, "click".to_string(), ListenerPhase::Capturing, l1);
    f.add_event_listener(target, "click".to_string(), ListenerPhase::Bubbling, l2);
    f.add_event_listener(a, "click".to_string(), ListenerPhase::Bubbling, listener(9));
    let mut event = Event::new("click".to_string(), true);
    let mut trace = DispatchTrace::new();
    let r = dispatch_event(&f, target, None, &mut event, &mut trace);
    assert!(r);
    assert_eq!(trace.invocations.len(), 1);
    assert_eq!(trace.invocations[0].listener.id, 1);
    assert_eq!(trace.invocations[0].phase, EventPhase::PhaseAtTarget);
    assert!(event.stop_immediate);
    assert!(event.stop_propagation);
}

#[test]
fn stop_propagation_in_bubbling_stops_outer_ancestor() {
    // B <- A <- target, bubbling event; A's bubbling listener stops
    // propagation: B's bubbling listener never runs, and the returned value
    // still reports the default-prevented state.
    let (mut f, ids) = chain_forest(3);
    let b = ids[0];
    let a = ids[1];
    let target = ids[2];
    let mut la = listener(4);
    la.calls_stop_propagation = true;
    la.calls_prevent_default = true;
    f.add_event_listener(a, "click".to_string(), ListenerPhase::Bubbling, la);
    f.add_event_listener(b, "click".to_string(), ListenerPhase::Bubbling, listener(5));
    let mut event = Event::new("click".to_string(), true);
    let mut trace = DispatchTrace::new();
    let r = dispatch_event(&f, target, None, &mut event, &mut trace);
    assert!(!r);
    assert_eq!(trace.invocations.len(), 1);
    assert_eq!(trace.invocations[0].listener.id, 4);
    assert_eq!(trace.invocations[0].node, a);
    assert_eq!(trace.invocations[0].phase, EventPhase::PhaseBubbling);
}

#[test]
fn stop_propagation_in_capturing_prevents_target_and_bubbling() {
    let (mut f, ids) = chain_forest(2);
    let a = ids[0];
    let target = ids[1];
    let mut la = listener(1);
    la.calls_stop_propagation = true;
    f.add_event_listener(a, "click".to_string(), ListenerPhase::Capturing, la);
    f.add_event_listener(target, "click".to_string(), ListenerPhase::Capturing, listener(2));
    f.add_event_listener(target, "click".to_string(), ListenerPhase::Bubbling, listener(3));
    f.add_event_listener(a, "click".to_string(), ListenerPhase::Bubbling, listener(4));
    let mut event = Event::new("click".to_string(), true);
    let mut trace = DispatchTrace::new();
    let r = dispatch_event(&f, target, None, &mut event, &mut trace);
    assert!(r);
    assert_eq!(trace.invocations.len(), 1);
    assert_eq!(trace.invocations[0].listener.id, 1);
    assert_eq!(trace.invocations[0].phase, EventPhase::PhaseCapturing);
}

#[test]
fn capturing_runs_root_to_nearest_and_bubbling_back() {
    // B <- A <- target with capturing and bubbling listeners on both
    // ancestors and both affinities on the target.
    let (mut f, ids) = chain_forest(3);
    let b = ids[0];
    let a = ids[1];
    let target = ids[2];
    f.add_event_listener(b, "click".to_string(), ListenerPhase::Capturing, listener(1));
    f.add_event_listener(a, "click".to_string(), ListenerPhase::Capturing, listener(2));
    f.add_event_listener(target, "click".to_string(), ListenerPhase::Capturing, listener(3));
    f.add_event_listener(target, "click".to_string(), ListenerPhase::Bubbling, listener(4));
    f.add_event_listener(a, "click".to_string(), ListenerPhase::Bubbling, listener(5));
    f.add_event_listener(b, "click".to_string(), ListenerPhase::Bubbling, listener(6));
    let mut event = Event::new("click".to_string(), true);
    let mut trace = DispatchTrace::new();
    let r = dispatch_event(&f, target, None, &mut event, &mut trace);
    assert!(r);
    let got: Vec<(u64, usize, EventPhase)> = trace
        .invocations
        .iter()
        .map(|i| (i.listener.id, i.node, i.phase))
        .collect();
    assert_eq!(got, vec![
        (1, b, EventPhase::PhaseCapturing),
        (2, a, EventPhase::PhaseCapturing),
        (3, target, EventPhase::PhaseAtTarget),
        (4, target, EventPhase::PhaseAtTarget),
        (5, a, EventPhase::PhaseBubbling),
        (6, b, EventPhase::PhaseBubbling),
    ]);
}

#[test]
fn liveness_registry_releases_in_reverse_order() {
    let (f, ids) = chain_forest(3);
    let target = ids[2];
    let mut event = Event::new("click".to_string(), true);
    let mut trace = DispatchTrace::new();
    dispatch_event(&f, target, None, &mut event, &mut trace);
    // The chain is nearest-first: [A, B].
    assert_eq!(trace.root_ops, vec![
        RootOp::Acquire(ids[1]),
        RootOp::Acquire(ids[0]),
        RootOp::Release(ids[0]),
        RootOp::Release(ids[1]),
    ]);
}

#[test]
fn pseudo_target_addresses_event_but_walks_real_chain() {
    let (mut f, ids) = chain_forest(2);
    let a = ids[0];
    let target = ids[1];
    f.add_event_listener(a, "click".to_string(), ListenerPhase::Capturing, listener(8));
    let mut event = Event::new("click".to_string(), false);
    let mut trace = DispatchTrace::new();
    let r = dispatch_event(&f, target, Some(77), &mut event, &mut trace);
    assert!(r);
    assert_eq!(event.target, Some(77));
    assert_eq!(trace.invocations.len(), 1);
    assert_eq!(trace.invocations[0].node, a);
}

#[test]
fn listener_exception_is_reported_and_dispatch_continues() {
    let mut f = Forest::new();
    let target = f.create_element("div".to_string());
    let mut raising = listener(31);
    raising.raises = true;
    f.add_event_listener(target, "click".to_string(), ListenerPhase::Capturing, raising);
    f.add_event_listener(target, "click".to_string(), ListenerPhase::Bubbling, listener(32));
    let mut event = Event::new("click".to_string(), false);
    let mut trace = DispatchTrace::new();
    let r = dispatch_event(&f, target, None, &mut event, &mut trace);
    assert!(r);
    assert_eq!(trace.exceptions, vec![31]);
    assert_eq!(trace.invocations.len(), 2);
    assert_eq!(trace.invocations[1].listener.id, 32);
}

#[test]
fn at_target_delivers_both_affinities_in_registration_order() {
    let mut f = Forest::new();
    let target = f.create_element("div".to_string());
    f.add_event_listener(target, "click".to_string(), ListenerPhase::Bubbling, listener(1));
    f.add_event_listener(target, "click".to_string(), ListenerPhase::Capturing, listener(2));
    let mut event = Event::new("click".to_string(), false);
    let mut trace = DispatchTrace::new();
    dispatch_event(&f, target, None, &mut event, &mut trace);
    let got: Vec<u64> = trace.invocations.iter().map(|i| i.listener.id).collect();
    assert_eq!(got, vec![1, 2]);
    assert!(trace
        .invocations
        .iter()
        .all(|i| i.phase == EventPhase::PhaseAtTarget && i.node == target));
}

#[test]
fn listeners_of_other_types_do_not_fire() {
    let mut f = Forest::new();
    let target = f.create_element("div".to_string());
    f.add_event_listener(target, "keydown".to_string(), ListenerPhase::Capturing, listener(1));
    let mut event = Event::new("click".to_string(), true);
    let mut trace = DispatchTrace::new();
    let r = dispatch_event(&f, target, None, &mut event, &mut trace);
    assert!(r);
    assert!(trace.invocations.is_empty());
}

#[test]
fn event_new_starts_idle_with_clear_flags() {
    let e = Event::new("load".to_string(), true);
    assert_eq!(e.type_, "load");
    assert!(e.bubbles);
    assert_eq!(e.phase, EventPhase::PhaseNone);
    assert_eq!(e.target, None);
    assert_eq!(e.current_target, None);
    assert!(!e.stop_propagation);
    assert!(!e.stop_immediate);
    assert!(!e.canceled);
    assert!(!e.dispatching);
    assert!(!e.default_prevented());
}

#[test]
fn registry_lookup_distinguishes_missing_type_from_missing_affinity() {
    let mut t = EventTarget::new();
    t.add_event_listener("click".to_string(), ListenerPhase::Bubbling, listener(1));
    assert!(t.get_listeners(&"keyup".to_string()).is_none());
    assert!(t.get_listeners_for(&"keyup".to_string(), ListenerPhase::Bubbling).is_none());
    let same_type = t.get_listeners_for(&"click".to_string(), ListenerPhase::Capturing);
    assert_eq!(same_type.map(|ls| ls.len()), Some(0));
    let hit = t.get_listeners_for(&"click".to_string(), ListenerPhase::Bubbling).unwrap();
    assert_eq!(hit.len(), 1);
    assert_eq!(hit[0].id, 1);
}
