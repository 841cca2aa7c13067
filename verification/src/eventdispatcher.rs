//! The dispatch engine: delivers an event to listener registrations over the
//! target's ancestor chain in capturing, at-target and bubbling order.

use vstd::prelude::*;
use crate::event::{Event, EventPhase, Flags};
use crate::eventtarget::{EventListener, ListenerPhase, ListenerEntry, has_type, listeners_for,
    listeners_any};
use crate::node::Forest;
use crate::rooting::{RootCollection, RootOp, acquire_ops, release_ops};

verus! {

/// One observed listener invocation: which listener ran, on which node, in
/// which phase.
#[derive(Clone, Copy, PartialEq, Eq, Structural, Debug)]
pub struct Invocation {
    pub listener: EventListener,
    pub node: usize,
    pub phase: EventPhase,
}

/// The instrumented record of one dispatch call: every listener invocation in
/// order, the diagnostic sink of reported listener exceptions, and the
/// liveness registry's operation log.
pub struct DispatchTrace {
    pub invocations: Vec<Invocation>,
    pub exceptions: Vec<u64>,
    pub root_ops: Vec<RootOp>,
}

impl DispatchTrace {
    pub fn new() -> (t: DispatchTrace)
        ensures
            t.invocations@ =~= Seq::<Invocation>::empty(),
            t.exceptions@ =~= Seq::<u64>::empty(),
            t.root_ops@ =~= Seq::<RootOp>::empty(),
    {
        DispatchTrace { invocations: Vec::new(), exceptions: Vec::new(), root_ops: Vec::new() }
    }
}

/// What one stretch of dispatch does: the control flags afterwards, the
/// listener invocations it performs, and the exceptions it reports.
pub struct StepOutcome {
    pub flags: Flags,
    pub invocations: Seq<Invocation>,
    pub exceptions: Seq<u64>,
}

/// The flag state after a listener's callback returns: each setter the
/// listener calls turns its flag on; stopping immediate propagation also
/// stops propagation; no flag is ever cleared.
pub open spec fn apply_listener(f: Flags, l: EventListener) -> Flags {
    Flags {
        stop_propagation: f.stop_propagation || l.calls_stop_propagation || l.calls_stop_immediate,
        stop_immediate: f.stop_immediate || l.calls_stop_immediate,
        canceled: f.canceled || l.calls_prevent_default,
    }
}

/// What the listener reports to the diagnostic sink.
pub open spec fn exception_of(l: EventListener) -> Seq<u64> {
    if l.raises {
        seq![l.id]
    } else {
        Seq::<u64>::empty()
    }
}

/// Run the listeners `ls` on one node in one phase, in registration order:
/// each listener is invoked, and, checking after each invocation, the run
/// stops as soon as stop-immediate-propagation is set.
pub open spec fn run_list(ls: Seq<EventListener>, f: Flags, node: usize, phase: EventPhase)
    -> StepOutcome
    decreases ls.len(),
{
    if ls.len() == 0 {
        StepOutcome { flags: f, invocations: Seq::empty(), exceptions: Seq::empty() }
    } else {
        let l = ls[0];
        let f1 = apply_listener(f, l);
        let inv = Invocation { listener: l, node, phase };
        if f1.stop_immediate {
            StepOutcome { flags: f1, invocations: seq![inv], exceptions: exception_of(l) }
        } else {
            let rest = run_list(ls.drop_first(), f1, node, phase);
            StepOutcome {
                flags: rest.flags,
                invocations: seq![inv] + rest.invocations,
                exceptions: exception_of(l) + rest.exceptions,
            }
        }
    }
}

/// The listener registrations on node `node` of `f`.
pub open spec fn entries_at(f: Forest, node: usize) -> Seq<ListenerEntry> {
    f.nodes@[node as int].event_target.entries@
}

/// Visit one chain member in the capturing or bubbling phase: if it has any
/// registration for the type, its matching-affinity listeners run; otherwise
/// nothing changes.
pub open spec fn phase_visit(f: Forest, t: Seq<char>, node: usize, flags: Flags,
    phase: EventPhase, affinity: ListenerPhase) -> StepOutcome {
    if has_type(entries_at(f, node), t) {
        run_list(listeners_for(entries_at(f, node), t, affinity), flags, node, phase)
    } else {
        StepOutcome { flags, invocations: Seq::empty(), exceptions: Seq::empty() }
    }
}

/// Whether a capturing or bubbling visit aborts the rest of its phase: the
/// stop-propagation flag is consulted only on a node that had a registration
/// for the type.
pub open spec fn visit_stopped(f: Forest, t: Seq<char>, node: usize, after: Flags) -> bool {
    has_type(entries_at(f, node), t) && after.stop_propagation
}

/// The capturing phase over the chain (nearest-first), traversed from the
/// root to the nearest ancestor; a visit whose end sees stop-propagation set
/// aborts the remaining (nearer) members.
pub open spec fn capture_over(f: Forest, t: Seq<char>, chain: Seq<usize>, flags: Flags)
    -> StepOutcome
    decreases chain.len(),
{
    if chain.len() == 0 {
        StepOutcome { flags, invocations: Seq::empty(), exceptions: Seq::empty() }
    } else {
        let node = chain.last();
        let v = phase_visit(f, t, node, flags, EventPhase::PhaseCapturing,
            ListenerPhase::Capturing);
        if visit_stopped(f, t, node, v.flags) {
            v
        } else {
            let rest = capture_over(f, t, chain.drop_last(), v.flags);
            StepOutcome {
                flags: rest.flags,
                invocations: v.invocations + rest.invocations,
                exceptions: v.exceptions + rest.exceptions,
            }
        }
    }
}

/// The target phase: listeners of both affinities registered on the target
/// itself run, in registration order.
pub open spec fn target_visit(f: Forest, t: Seq<char>, node: usize, flags: Flags) -> StepOutcome {
    if has_type(entries_at(f, node), t) {
        run_list(listeners_any(entries_at(f, node), t), flags, node, EventPhase::PhaseAtTarget)
    } else {
        StepOutcome { flags, invocations: Seq::empty(), exceptions: Seq::empty() }
    }
}

/// The bubbling phase over the chain, traversed from the nearest ancestor to
/// the root; a visit whose end sees stop-propagation set aborts the rest.
pub open spec fn bubble_over(f: Forest, t: Seq<char>, chain: Seq<usize>, flags: Flags)
    -> StepOutcome
    decreases chain.len(),
{
    if chain.len() == 0 {
        StepOutcome { flags, invocations: Seq::empty(), exceptions: Seq::empty() }
    } else {
        let node = chain[0];
        let v = phase_visit(f, t, node, flags, EventPhase::PhaseBubbling,
            ListenerPhase::Bubbling);
        if visit_stopped(f, t, node, v.flags) {
            v
        } else {
            let rest = bubble_over(f, t, chain.drop_first(), v.flags);
            StepOutcome {
                flags: rest.flags,
                invocations: v.invocations + rest.invocations,
                exceptions: v.exceptions + rest.exceptions,
            }
        }
    }
}

/// The whole dispatch of an event of type `t` with starting flags `flags` at
/// `target`: capturing, then — unless propagation was stopped — the target
/// phase, then — for a bubbling event whose propagation was not stopped —
/// the bubbling phase.
pub open spec fn dispatch_outcome(f: Forest, target: usize, t: Seq<char>, flags: Flags,
    bubbles: bool) -> StepOutcome {
    let chain = f.chain_from(target as int);
    let c = capture_over(f, t, chain, flags);
    let a = if !c.flags.stop_propagation {
        target_visit(f, t, target, c.flags)
    } else {
        StepOutcome { flags: c.flags, invocations: Seq::empty(), exceptions: Seq::empty() }
    };
    let b = if bubbles && !a.flags.stop_propagation {
        bubble_over(f, t, chain, a.flags)
    } else {
        StepOutcome { flags: a.flags, invocations: Seq::empty(), exceptions: Seq::empty() }
    };
    StepOutcome {
        flags: b.flags,
        invocations: c.invocations + a.invocations + b.invocations,
        exceptions: c.exceptions + a.exceptions + b.exceptions,
    }
}

/// Invoke the listeners of one node in one phase, in registration order,
/// recording each invocation and stopping after an invocation that set
/// stop-immediate-propagation.
fn run_listener_list(listeners: &Vec<EventListener>, node: usize, event: &mut Event,
    trace: &mut DispatchTrace)
    ensures
        ({
            let o = run_list(listeners@, old(event).flags(), node, old(event).phase);
            &&& *final(event) == (Event {
                stop_propagation: o.flags.stop_propagation,
                stop_immediate: o.flags.stop_immediate,
                canceled: o.flags.canceled,
                ..*old(event)
            })
            &&& final(trace).invocations@ == old(trace).invocations@ + o.invocations
            &&& final(trace).exceptions@ == old(trace).exceptions@ + o.exceptions
            &&& final(trace).root_ops@ == old(trace).root_ops@
        }),
{
    let ghost e0 = *event;
    let ghost f0 = event.flags();
    let ghost ph = event.phase;
    let ghost base_invs = trace.invocations@;
    let ghost base_excs = trace.exceptions@;
    let ghost base_root = trace.root_ops@;
    let ghost full = run_list(listeners@, f0, node, ph);
    proof {
        assert(listeners@.skip(0) =~= listeners@);
        assert(base_invs + full.invocations =~= trace.invocations@ + full.invocations);
        assert(base_excs + full.exceptions =~= trace.exceptions@ + full.exceptions);
    }
    let n = listeners.len();
    let mut i: usize = 0;
    while i < n
        invariant_except_break
            i <= n,
            ({
                let o = run_list(listeners@.skip(i as int), event.flags(), node, ph);
                &&& full.flags == o.flags
                &&& base_invs + full.invocations == trace.invocations@ + o.invocations
                &&& base_excs + full.exceptions == trace.exceptions@ + o.exceptions
            }),
        invariant
            n == listeners@.len(),
            full == run_list(listeners@, f0, node, ph),
            event.type_ == e0.type_,
            event.target == e0.target,
            event.current_target == e0.current_target,
            event.phase == ph,
            event.bubbles == e0.bubbles,
            event.dispatching == e0.dispatching,
            trace.root_ops@ == base_root,
        ensures
            event.type_ == e0.type_,
            event.target == e0.target,
            event.current_target == e0.current_target,
            event.phase == ph,
            event.bubbles == e0.bubbles,
            event.dispatching == e0.dispatching,
            event.flags() == full.flags,
            trace.invocations@ == base_invs + full.invocations,
            trace.exceptions@ == base_excs + full.exceptions,
            trace.root_ops@ == base_root,
        decreases n - i,
    {
        let l = listeners[i];
        let ghost f_before = event.flags();
        let ghost remaining = listeners@.skip(i as int);
        proof {
            assert(remaining[0] == listeners@[i as int]);
            assert(remaining.drop_first() =~= listeners@.skip(i as int + 1));
        }
        trace.invocations.push(Invocation { listener: l, node, phase: event.phase });
        l.handle_event(event, &mut trace.exceptions);
        proof {
            let o_here = run_list(remaining, f_before, node, ph);
            let f1 = apply_listener(f_before, l);
            let inv = Invocation { listener: l, node, phase: ph };
            assert(event.flags() == f1);
            if f1.stop_immediate {
                assert(o_here.invocations =~= seq![inv]);
                assert(base_invs + full.invocations =~= trace.invocations@);
                assert(base_excs + full.exceptions =~= trace.exceptions@);
            } else {
                let rest = run_list(remaining.drop_first(), f1, node, ph);
                assert(o_here.invocations =~= seq![inv] + rest.invocations);
                assert(base_invs + full.invocations =~= trace.invocations@ + rest.invocations);
                assert(base_excs + full.exceptions =~= trace.exceptions@ + rest.exceptions);
            }
        }
        if event.stop_immediate {
            break;
        }
        i = i + 1;
    }
    proof {
        assert(*event == (Event {
            stop_propagation: full.flags.stop_propagation,
            stop_immediate: full.flags.stop_immediate,
            canceled: full.flags.canceled,
            ..e0
        }));
    }
}

/// Dispatch `event` at node `target` of `forest`, per the three-phase
/// protocol, and return whether the default action should proceed.
///
/// When a pseudo-target is supplied the event is addressed to it — its
/// identity is what listeners observe as the event's target — while
/// propagation still walks the actual target's ancestor chain.
///
/// The chain is snapshotted before any listener runs, every member is held in
/// the liveness registry for the whole call, and the holds are released in
/// exactly the reverse of acquisition order. `trace` is overwritten with the
/// instrumented record of the call.
///
/// Dispatching a record that is already being dispatched is a programming
/// error, excluded by precondition rather than handled.
pub fn dispatch_event(forest: &Forest, target: usize, pseudo_target: Option<usize>,
    event: &mut Event, trace: &mut DispatchTrace) -> (r: bool)
    requires
        forest.wf(),
        target < forest.nodes@.len(),
        !old(event).dispatching,
    ensures
        ({
            let o = dispatch_outcome(*forest, target, old(event).type_@, old(event).flags(),
                old(event).bubbles);
            let chain = forest.chain_from(target as int);
            &&& r == !o.flags.canceled
            &&& final(event).type_ == old(event).type_
            &&& final(event).bubbles == old(event).bubbles
            &&& final(event).target == Some(match pseudo_target {
                Some(p) => p,
                None => target,
            })
            &&& final(event).current_target is None
            &&& final(event).phase == EventPhase::PhaseNone
            &&& !final(event).dispatching
            &&& final(event).flags() == o.flags
            &&& final(trace).invocations@ == o.invocations
            &&& final(trace).exceptions@ == o.exceptions
            &&& final(trace).root_ops@ == acquire_ops(chain) + release_ops(chain.reverse())
        }),
{
    let mut roots = RootCollection::new();
    trace.invocations = Vec::new();
    trace.exceptions = Vec::new();
    trace.root_ops = Vec::new();

    // Addressing: the event is addressed to the pseudo-target when one is
    // supplied, to the dispatch target otherwise.
    let addressed: usize = match pseudo_target {
        Some(p) => p,
        None => target,
    };
    event.target = Some(addressed);
    event.dispatching = true;

    let type_ = event.type_.clone();
    let ghost t = old(event).type_@;
    let ghost e0 = *old(event);
    let ghost f_start = old(event).flags();

    // Chain construction: a stable snapshot, taken before any listener runs.
    let chain = forest.ancestors(target);
    proof {
        forest.lemma_chain_in_bounds(target as int);
    }

    // Register every chain member with the liveness registry, in chain order.
    let n = chain.len();
    let mut i: usize = 0;
    while i < n
        invariant
            i <= n,
            n == chain@.len(),
            roots.held@ == chain@.take(i as int),
            roots.log@ == acquire_ops(chain@.take(i as int)),
        decreases n - i,
    {
        proof {
            assert(chain@.take(i as int + 1).drop_last() =~= chain@.take(i as int));
            assert(chain@.take(i as int).push(chain@[i as int]) =~= chain@.take(i as int + 1));
        }
        roots.root(chain[i]);
        i = i + 1;
    }
    proof {
        assert(chain@.take(n as int) =~= chain@);
    }

    let ghost full_cap = capture_over(*forest, t, chain@, f_start);

    // Capturing phase: traverse the chain root-to-nearest.
    event.phase = EventPhase::PhaseCapturing;
    proof {
        assert(chain@.take(chain@.len() as int) =~= chain@);
        assert(full_cap.invocations =~= trace.invocations@ + full_cap.invocations);
        assert(full_cap.exceptions =~= trace.exceptions@ + full_cap.exceptions);
    }
    let mut idx: usize = chain.len();
    while idx > 0
        invariant_except_break
            idx <= chain@.len(),
            ({
                let o = capture_over(*forest, t, chain@.take(idx as int), event.flags());
                &&& full_cap.flags == o.flags
                &&& full_cap.invocations == trace.invocations@ + o.invocations
                &&& full_cap.exceptions == trace.exceptions@ + o.exceptions
            }),
        invariant
            forest.wf(),
            target < forest.nodes@.len(),
            forall|k: int| 0 <= k < chain@.len()
                ==> (#[trigger] chain@[k]) < forest.nodes@.len(),
            type_@ == t,
            full_cap == capture_over(*forest, t, chain@, f_start),
            event.type_ == e0.type_,
            event.target == Some(addressed),
            event.phase == EventPhase::PhaseCapturing,
            event.bubbles == e0.bubbles,
            event.dispatching,
            trace.root_ops@.len() == 0,
        ensures
            event.type_ == e0.type_,
            event.target == Some(addressed),
            event.phase == EventPhase::PhaseCapturing,
            event.bubbles == e0.bubbles,
            event.dispatching,
            trace.root_ops@.len() == 0,
            event.flags() == full_cap.flags,
            trace.invocations@ == full_cap.invocations,
            trace.exceptions@ == full_cap.exceptions,
        decreases idx,
    {
        idx = idx - 1;
        let cur = chain[idx];
        let ghost f_before = event.flags();
        let ghost pre = chain@.take(idx as int + 1);
        proof {
            assert(chain@[idx as int] < forest.nodes@.len());
            assert(pre.last() == chain@[idx as int]);
            assert(pre.drop_last() =~= chain@.take(idx as int));
        }
        let stopped = match forest.nodes[cur].event_target.get_listeners_for(&type_,
            ListenerPhase::Capturing) {
            Some(listeners) => {
                event.current_target = Some(cur);
                run_listener_list(&listeners, cur, event, trace);
                event.stop_propagation
            }
            None => false,
        };
        proof {
            let v = phase_visit(*forest, t, cur, f_before, EventPhase::PhaseCapturing,
                ListenerPhase::Capturing);
            assert(event.flags() == v.flags);
            assert(stopped == visit_stopped(*forest, t, cur, v.flags));
            let o_pre = capture_over(*forest, t, pre, f_before);
            if stopped {
                assert(full_cap.invocations =~= trace.invocations@);
                assert(full_cap.exceptions =~= trace.exceptions@);
            } else {
                let rest = capture_over(*forest, t, chain@.take(idx as int), v.flags);
                assert(o_pre.invocations =~= v.invocations + rest.invocations);
                assert(o_pre.exceptions =~= v.exceptions + rest.exceptions);
                assert(full_cap.invocations =~= trace.invocations@ + rest.invocations);
                assert(full_cap.exceptions =~= trace.exceptions@ + rest.exceptions);
            }
        }
        if stopped {
            break;
        }
    }
    proof {
        if !(idx > 0) {
            assert(chain@.take(0) =~= Seq::<usize>::empty());
        }
    }

    let ghost full_tgt = if !full_cap.flags.stop_propagation {
        target_visit(*forest, t, target, full_cap.flags)
    } else {
        StepOutcome {
            flags: full_cap.flags,
            invocations: Seq::empty(),
            exceptions: Seq::empty(),
        }
    };

    // Target phase: both affinities on the target itself, unless propagation
    // was stopped during capturing.
    if !event.stop_propagation {
        event.phase = EventPhase::PhaseAtTarget;
        event.current_target = Some(target);
        match forest.nodes[target].event_target.get_listeners(&type_) {
            Some(listeners) => {
                run_listener_list(&listeners, target, event, trace);
            }
            None => {}
        }
    }
    proof {
        assert(event.flags() == full_tgt.flags);
        assert(trace.invocations@ =~= full_cap.invocations + full_tgt.invocations);
        assert(trace.exceptions@ =~= full_cap.exceptions + full_tgt.exceptions);
    }

    let ghost full_bub = if e0.bubbles && !full_tgt.flags.stop_propagation {
        bubble_over(*forest, t, chain@, full_tgt.flags)
    } else {
        StepOutcome {
            flags: full_tgt.flags,
            invocations: Seq::empty(),
            exceptions: Seq::empty(),
        }
    };
    let ghost base_invs = trace.invocations@;
    let ghost base_excs = trace.exceptions@;
    let ghost f_mid = full_tgt.flags;

    // Bubbling phase: traverse the chain nearest-to-root, only for a bubbling
    // event whose propagation was not stopped.
    if event.bubbles && !event.stop_propagation {
        event.phase = EventPhase::PhaseBubbling;
        proof {
            assert(chain@.skip(0) =~= chain@);
            assert(base_invs + full_bub.invocations =~= trace.invocations@
                + full_bub.invocations);
            assert(base_excs + full_bub.exceptions =~= trace.exceptions@
                + full_bub.exceptions);
        }
        let n2 = chain.len();
        let mut j: usize = 0;
        while j < n2
            invariant_except_break
                j <= n2,
                ({
                    let o = bubble_over(*forest, t, chain@.skip(j as int), event.flags());
                    &&& full_bub.flags == o.flags
                    &&& base_invs + full_bub.invocations == trace.invocations@ + o.invocations
                    &&& base_excs + full_bub.exceptions == trace.exceptions@ + o.exceptions
                }),
            invariant
                forest.wf(),
                target < forest.nodes@.len(),
                n2 == chain@.len(),
                forall|k: int| 0 <= k < chain@.len()
                    ==> (#[trigger] chain@[k]) < forest.nodes@.len(),
                type_@ == t,
                full_bub == bubble_over(*forest, t, chain@, f_mid),
                event.type_ == e0.type_,
                event.target == Some(addressed),
                event.phase == EventPhase::PhaseBubbling,
                event.bubbles == e0.bubbles,
                event.dispatching,
                trace.root_ops@.len() == 0,
            ensures
                event.type_ == e0.type_,
                event.target == Some(addressed),
                event.bubbles == e0.bubbles,
                event.dispatching,
                trace.root_ops@.len() == 0,
                event.flags() == full_bub.flags,
                trace.invocations@ == base_invs + full_bub.invocations,
                trace.exceptions@ == base_excs + full_bub.exceptions,
            decreases n2 - j,
        {
            let cur = chain[j];
            let ghost f_before = event.flags();
            let ghost remaining = chain@.skip(j as int);
            proof {
                assert(chain@[j as int] < forest.nodes@.len());
                assert(remaining[0] == chain@[j as int]);
                assert(remaining.drop_first() =~= chain@.skip(j as int + 1));
            }
            let stopped = match forest.nodes[cur].event_target.get_listeners_for(&type_,
                ListenerPhase::Bubbling) {
                Some(listeners) => {
                    event.current_target = Some(cur);
                    run_listener_list(&listeners, cur, event, trace);
                    event.stop_propagation
                }
                None => false,
            };
            proof {
                let v = phase_visit(*forest, t, cur, f_before, EventPhase::PhaseBubbling,
                    ListenerPhase::Bubbling);
                assert(event.flags() == v.flags);
                assert(stopped == visit_stopped(*forest, t, cur, v.flags));
                let o_rem = bubble_over(*forest, t, remaining, f_before);
                if stopped {
                    assert(base_invs + full_bub.invocations =~= trace.invocations@);
                    assert(base_excs + full_bub.exceptions =~= trace.exceptions@);
                } else {
                    let rest = bubble_over(*forest, t, chain@.skip(j as int + 1), v.flags);
                    assert(o_rem.invocations =~= v.invocations + rest.invocations);
                    assert(o_rem.exceptions =~= v.exceptions + rest.exceptions);
                    assert(base_invs + full_bub.invocations
                        =~= trace.invocations@ + rest.invocations);
                    assert(base_excs + full_bub.exceptions
                        =~= trace.exceptions@ + rest.exceptions);
                }
            }
            if stopped {
                break;
            }
            j = j + 1;
        }
        proof {
            if !(j < n2) {
                assert(chain@.skip(n2 as int) =~= Seq::<usize>::empty());
            }
        }
    }
    proof {
        assert(event.flags() == full_bub.flags);
        assert(trace.invocations@ =~= (full_cap.invocations + full_tgt.invocations)
            + full_bub.invocations);
        assert(trace.exceptions@ =~= (full_cap.exceptions + full_tgt.exceptions)
            + full_bub.exceptions);
    }

    // Teardown: release every hold, last-acquired first, then return the
    // event record to its idle, re-readable state.
    roots.unroot_all();
    trace.root_ops = roots.log;
    event.dispatching = false;
    event.phase = EventPhase::PhaseNone;
    event.current_target = None;

    proof {
        let o = dispatch_outcome(*forest, target, t, f_start, e0.bubbles);
        assert(o.invocations =~= (full_cap.invocations + full_tgt.invocations)
            + full_bub.invocations);
        assert(o.exceptions =~= (full_cap.exceptions + full_tgt.exceptions)
            + full_bub.exceptions);
    }

    !event.default_prevented()
}

} // verus!

// What follows states the engine's delivery laws over the dispatch model and
// proves them for every forest, chain, listener population and flag state.

verus! {

/// Whether some recorded invocation called the default-prevented setter.
pub open spec fn some_prevents(invs: Seq<Invocation>) -> bool {
    exists|k: int| 0 <= k < invs.len() && (#[trigger] invs[k]).listener.calls_prevent_default
}

proof fn lemma_some_prevents_concat(a: Seq<Invocation>, b: Seq<Invocation>)
    ensures
        some_prevents(a + b) == (some_prevents(a) || some_prevents(b)),
{
    if some_prevents(a) {
        let k = choose|k: int| 0 <= k < a.len() && (#[trigger] a[k]).listener.calls_prevent_default;
        assert((a + b)[k] == a[k]);
        assert(some_prevents(a + b));
    }
    if some_prevents(b) {
        let k = choose|k: int| 0 <= k < b.len() && (#[trigger] b[k]).listener.calls_prevent_default;
        assert((a + b)[a.len() + k] == b[k]);
        assert(some_prevents(a + b));
    }
    if some_prevents(a + b) {
        let k = choose|k: int| 0 <= k < (a + b).len()
            && (#[trigger] (a + b)[k]).listener.calls_prevent_default;
        if k < a.len() {
            assert(a[k] == (a + b)[k]);
            assert(some_prevents(a));
        } else {
            assert(b[k - a.len()] == (a + b)[k]);
            assert(some_prevents(b));
        }
    }
}

/// The listeners a per-node run invokes are exactly a prefix of the
/// registration-ordered list, all on that node and in that phase.
pub proof fn lemma_run_list_shape(ls: Seq<EventListener>, f: Flags, node: usize,
    phase: EventPhase)
    ensures
        ({
            let o = run_list(ls, f, node, phase);
            &&& o.invocations.len() <= ls.len()
            &&& forall|k: int| 0 <= k < o.invocations.len()
                ==> (#[trigger] o.invocations[k]) == (Invocation { listener: ls[k], node, phase })
        }),
    decreases ls.len(),
{
    if ls.len() == 0 {
    } else {
        let f1 = apply_listener(f, ls[0]);
        if f1.stop_immediate {
        } else {
            lemma_run_list_shape(ls.drop_first(), f1, node, phase);
            let o = run_list(ls, f, node, phase);
            let rest = run_list(ls.drop_first(), f1, node, phase);
            assert forall|k: int| 0 <= k < o.invocations.len()
                implies (#[trigger] o.invocations[k])
                    == (Invocation { listener: ls[k], node, phase }) by {
                if k > 0 {
                    assert(o.invocations[k] == rest.invocations[k - 1]);
                    assert(ls.drop_first()[k - 1] == ls[k]);
                }
            }
        }
    }
}

proof fn lemma_run_list_canceled(ls: Seq<EventListener>, f: Flags, node: usize, phase: EventPhase)
    ensures
        ({
            let o = run_list(ls, f, node, phase);
            o.flags.canceled == (f.canceled || some_prevents(o.invocations))
        }),
    decreases ls.len(),
{
    if ls.len() == 0 {
    } else {
        let l = ls[0];
        let f1 = apply_listener(f, l);
        let inv = Invocation { listener: l, node, phase };
        let o = run_list(ls, f, node, phase);
        if f1.stop_immediate {
            assert(o.invocations[0] == inv);
            if o.flags.canceled && !f.canceled {
                assert(some_prevents(o.invocations));
            }
            if some_prevents(o.invocations) {
                let k = choose|k: int| 0 <= k < o.invocations.len()
                    && (#[trigger] o.invocations[k]).listener.calls_prevent_default;
                assert(k == 0);
            }
        } else {
            lemma_run_list_canceled(ls.drop_first(), f1, node, phase);
            let rest = run_list(ls.drop_first(), f1, node, phase);
            lemma_some_prevents_concat(seq![inv], rest.invocations);
            if some_prevents(seq![inv]) {
                let k = choose|k: int| 0 <= k < seq![inv].len()
                    && (#[trigger] seq![inv][k]).listener.calls_prevent_default;
                assert(k == 0);
            }
            if l.calls_prevent_default {
                assert(seq![inv][0] == inv);
                assert(some_prevents(seq![inv]));
            }
        }
    }
}

proof fn lemma_phase_visit_canceled(f: Forest, t: Seq<char>, node: usize, flags: Flags,
    phase: EventPhase, affinity: ListenerPhase)
    ensures
        ({
            let o = phase_visit(f, t, node, flags, phase, affinity);
            o.flags.canceled == (flags.canceled || some_prevents(o.invocations))
        }),
{
    if has_type(entries_at(f, node), t) {
        lemma_run_list_canceled(listeners_for(entries_at(f, node), t, affinity), flags, node,
            phase);
    }
}

proof fn lemma_capture_canceled(f: Forest, t: Seq<char>, chain: Seq<usize>, flags: Flags)
    ensures
        ({
            let o = capture_over(f, t, chain, flags);
            o.flags.canceled == (flags.canceled || some_prevents(o.invocations))
        }),
    decreases chain.len(),
{
    if chain.len() == 0 {
    } else {
        let node = chain.last();
        let v = phase_visit(f, t, node, flags, EventPhase::PhaseCapturing,
            ListenerPhase::Capturing);
        lemma_phase_visit_canceled(f, t, node, flags, EventPhase::PhaseCapturing,
            ListenerPhase::Capturing);
        if !visit_stopped(f, t, node, v.flags) {
            lemma_capture_canceled(f, t, chain.drop_last(), v.flags);
            let rest = capture_over(f, t, chain.drop_last(), v.flags);
            lemma_some_prevents_concat(v.invocations, rest.invocations);
        }
    }
}

proof fn lemma_bubble_canceled(f: Forest, t: Seq<char>, chain: Seq<usize>, flags: Flags)
    ensures
        ({
            let o = bubble_over(f, t, chain, flags);
            o.flags.canceled == (flags.canceled || some_prevents(o.invocations))
        }),
    decreases chain.len(),
{
    if chain.len() == 0 {
    } else {
        let node = chain[0];
        let v = phase_visit(f, t, node, flags, EventPhase::PhaseBubbling,
            ListenerPhase::Bubbling);
        lemma_phase_visit_canceled(f, t, node, flags, EventPhase::PhaseBubbling,
            ListenerPhase::Bubbling);
        if !visit_stopped(f, t, node, v.flags) {
            lemma_bubble_canceled(f, t, chain.drop_first(), v.flags);
            let rest = bubble_over(f, t, chain.drop_first(), v.flags);
            lemma_some_prevents_concat(v.invocations, rest.invocations);
        }
    }
}

/// The default action survives unless a listener asked to prevent it: when
/// the event record enters dispatch with its default-prevented flag clear,
/// the flag that decides the returned boolean ends set exactly when some
/// invoked listener called the default-prevented setter.
pub proof fn lemma_default_prevented_only_by_listeners(f: Forest, target: usize, t: Seq<char>,
    flags: Flags, bubbles: bool)
    requires
        !flags.canceled,
    ensures
        ({
            let o = dispatch_outcome(f, target, t, flags, bubbles);
            o.flags.canceled == some_prevents(o.invocations)
        }),
{
    let chain = f.chain_from(target as int);
    let c = capture_over(f, t, chain, flags);
    lemma_capture_canceled(f, t, chain, flags);
    let a = if !c.flags.stop_propagation {
        target_visit(f, t, target, c.flags)
    } else {
        StepOutcome { flags: c.flags, invocations: Seq::empty(), exceptions: Seq::empty() }
    };
    if !c.flags.stop_propagation && has_type(entries_at(f, target), t) {
        lemma_run_list_canceled(listeners_any(entries_at(f, target), t), c.flags, target,
            EventPhase::PhaseAtTarget);
    }
    assert(a.flags.canceled == (c.flags.canceled || some_prevents(a.invocations)));
    let b = if bubbles && !a.flags.stop_propagation {
        bubble_over(f, t, chain, a.flags)
    } else {
        StepOutcome { flags: a.flags, invocations: Seq::empty(), exceptions: Seq::empty() }
    };
    if bubbles && !a.flags.stop_propagation {
        lemma_bubble_canceled(f, t, chain, a.flags);
    }
    assert(b.flags.canceled == (a.flags.canceled || some_prevents(b.invocations)));
    lemma_some_prevents_concat(c.invocations, a.invocations);
    lemma_some_prevents_concat(c.invocations + a.invocations, b.invocations);
}

/// Every invocation a per-node run performs in a given phase carries that
/// phase; lifted over the capturing traversal.
proof fn lemma_capture_phases(f: Forest, t: Seq<char>, chain: Seq<usize>, flags: Flags)
    ensures
        ({
            let o = capture_over(f, t, chain, flags);
            forall|k: int| 0 <= k < o.invocations.len()
                ==> (#[trigger] o.invocations[k]).phase == EventPhase::PhaseCapturing
        }),
    decreases chain.len(),
{
    if chain.len() == 0 {
    } else {
        let node = chain.last();
        let v = phase_visit(f, t, node, flags, EventPhase::PhaseCapturing,
            ListenerPhase::Capturing);
        if has_type(entries_at(f, node), t) {
            lemma_run_list_shape(listeners_for(entries_at(f, node), t,
                ListenerPhase::Capturing), flags, node, EventPhase::PhaseCapturing);
        }
        if !visit_stopped(f, t, node, v.flags) {
            lemma_capture_phases(f, t, chain.drop_last(), v.flags);
            let rest = capture_over(f, t, chain.drop_last(), v.flags);
            let o = capture_over(f, t, chain, flags);
            assert forall|k: int| 0 <= k < o.invocations.len()
                implies (#[trigger] o.invocations[k]).phase == EventPhase::PhaseCapturing by {
                if k < v.invocations.len() {
                    assert(o.invocations[k] == v.invocations[k]);
                } else {
                    assert(o.invocations[k] == rest.invocations[k - v.invocations.len()]);
                }
            }
        }
    }
}

proof fn lemma_target_phases(f: Forest, t: Seq<char>, node: usize, flags: Flags)
    ensures
        ({
            let o = target_visit(f, t, node, flags);
            forall|k: int| 0 <= k < o.invocations.len()
                ==> (#[trigger] o.invocations[k]).phase == EventPhase::PhaseAtTarget
        }),
{
    if has_type(entries_at(f, node), t) {
        lemma_run_list_shape(listeners_any(entries_at(f, node), t), flags, node,
            EventPhase::PhaseAtTarget);
    }
}

proof fn lemma_bubble_phases(f: Forest, t: Seq<char>, chain: Seq<usize>, flags: Flags)
    ensures
        ({
            let o = bubble_over(f, t, chain, flags);
            forall|k: int| 0 <= k < o.invocations.len()
                ==> (#[trigger] o.invocations[k]).phase == EventPhase::PhaseBubbling
        }),
    decreases chain.len(),
{
    if chain.len() == 0 {
    } else {
        let node = chain[0];
        let v = phase_visit(f, t, node, flags, EventPhase::PhaseBubbling,
            ListenerPhase::Bubbling);
        if has_type(entries_at(f, node), t) {
            lemma_run_list_shape(listeners_for(entries_at(f, node), t,
                ListenerPhase::Bubbling), flags, node, EventPhase::PhaseBubbling);
        }
        if !visit_stopped(f, t, node, v.flags) {
            lemma_bubble_phases(f, t, chain.drop_first(), v.flags);
            let rest = bubble_over(f, t, chain.drop_first(), v.flags);
            let o = bubble_over(f, t, chain, flags);
            assert forall|k: int| 0 <= k < o.invocations.len()
                implies (#[trigger] o.invocations[k]).phase == EventPhase::PhaseBubbling by {
                if k < v.invocations.len() {
                    assert(o.invocations[k] == v.invocations[k]);
                } else {
                    assert(o.invocations[k] == rest.invocations[k - v.invocations.len()]);
                }
            }
        }
    }
}

/// No listener ever observes the idle phase: every invocation a dispatch
/// performs happens in the capturing, at-target or bubbling phase.
pub proof fn lemma_listener_never_observes_idle_phase(f: Forest, target: usize, t: Seq<char>,
    flags: Flags, bubbles: bool)
    ensures
        ({
            let o = dispatch_outcome(f, target, t, flags, bubbles);
            forall|k: int| 0 <= k < o.invocations.len()
                ==> (#[trigger] o.invocations[k]).phase != EventPhase::PhaseNone
        }),
{
    let chain = f.chain_from(target as int);
    let c = capture_over(f, t, chain, flags);
    lemma_capture_phases(f, t, chain, flags);
    let a = if !c.flags.stop_propagation {
        target_visit(f, t, target, c.flags)
    } else {
        StepOutcome { flags: c.flags, invocations: Seq::empty(), exceptions: Seq::empty() }
    };
    lemma_target_phases(f, t, target, c.flags);
    if bubbles && !a.flags.stop_propagation {
        lemma_bubble_phases(f, t, chain, a.flags);
    }
    let b = if bubbles && !a.flags.stop_propagation {
        bubble_over(f, t, chain, a.flags)
    } else {
        StepOutcome { flags: a.flags, invocations: Seq::empty(), exceptions: Seq::empty() }
    };
    let o = dispatch_outcome(f, target, t, flags, bubbles);
    assert forall|k: int| 0 <= k < o.invocations.len()
        implies (#[trigger] o.invocations[k]).phase != EventPhase::PhaseNone by {
        if k < c.invocations.len() {
            assert(o.invocations[k] == c.invocations[k]);
        } else if k < c.invocations.len() + a.invocations.len() {
            assert(o.invocations[k] == a.invocations[k - c.invocations.len()]);
        } else {
            assert(o.invocations[k]
                == b.invocations[k - c.invocations.len() - a.invocations.len()]);
        }
    }
}

/// A non-bubbling event is delivered by capturing and target-phase
/// invocations alone: no invocation of its dispatch happens in the bubbling
/// phase.
pub proof fn lemma_non_bubbling_no_bubble_phase(f: Forest, target: usize, t: Seq<char>,
    flags: Flags)
    requires
        !flags.stop_propagation,
        !flags.stop_immediate,
    ensures
        ({
            let o = dispatch_outcome(f, target, t, flags, false);
            forall|k: int| 0 <= k < o.invocations.len()
                ==> (#[trigger] o.invocations[k]).phase == EventPhase::PhaseCapturing
                    || (#[trigger] o.invocations[k]).phase == EventPhase::PhaseAtTarget
        }),
{
    let chain = f.chain_from(target as int);
    let c = capture_over(f, t, chain, flags);
    lemma_capture_phases(f, t, chain, flags);
    let a = if !c.flags.stop_propagation {
        target_visit(f, t, target, c.flags)
    } else {
        StepOutcome { flags: c.flags, invocations: Seq::empty(), exceptions: Seq::empty() }
    };
    lemma_target_phases(f, t, target, c.flags);
    let o = dispatch_outcome(f, target, t, flags, false);
    assert(o.invocations =~= (c.invocations + a.invocations));
    assert forall|k: int| 0 <= k < o.invocations.len()
        implies (#[trigger] o.invocations[k]).phase == EventPhase::PhaseCapturing
            || (#[trigger] o.invocations[k]).phase == EventPhase::PhaseAtTarget by {
        if k < c.invocations.len() {
            assert(o.invocations[k] == c.invocations[k]);
        } else {
            assert(o.invocations[k] == a.invocations[k - c.invocations.len()]);
        }
    }
}

/// Setting stop-immediate-propagation suppresses exactly the later listeners
/// of the same node and phase: the run invokes the listeners up to and
/// including the first one that calls the stop-immediate setter, and no
/// others — and, because that setter also stops propagation, the flags it
/// leaves behind suppress the later phases as well.
pub proof fn lemma_stop_immediate_suppresses_rest(ls: Seq<EventListener>, f: Flags, node: usize,
    phase: EventPhase, i: int)
    requires
        0 <= i < ls.len(),
        !f.stop_immediate,
        forall|j: int| 0 <= j < i ==> !(#[trigger] ls[j]).calls_stop_immediate,
        ls[i].calls_stop_immediate,
    ensures
        ({
            let o = run_list(ls, f, node, phase);
            &&& o.invocations.len() == i + 1
            &&& forall|k: int| 0 <= k <= i
                ==> (#[trigger] o.invocations[k]) == (Invocation { listener: ls[k], node, phase })
            &&& o.flags.stop_immediate
            &&& o.flags.stop_propagation
        }),
    decreases i,
{
    lemma_run_list_shape(ls, f, node, phase);
    let l = ls[0];
    let f1 = apply_listener(f, l);
    if i == 0 {
    } else {
        assert(!l.calls_stop_immediate);
        assert(!f1.stop_immediate);
        assert(ls.drop_first()[i - 1] == ls[i]);
        assert(forall|j: int| 0 <= j < i - 1
            ==> !(#[trigger] ls.drop_first()[j]).calls_stop_immediate);
        lemma_stop_immediate_suppresses_rest(ls.drop_first(), f1, node, phase, i - 1);
    }
}

/// Stopping propagation during the capturing phase prevents target-phase and
/// bubbling-phase delivery entirely: the dispatch performs the capturing
/// invocations and no others.
pub proof fn lemma_stop_propagation_in_capture_prevents_rest(f: Forest, target: usize,
    t: Seq<char>, flags: Flags, bubbles: bool)
    requires
        capture_over(f, t, f.chain_from(target as int), flags).flags.stop_propagation,
    ensures
        ({
            let o = dispatch_outcome(f, target, t, flags, bubbles);
            let c = capture_over(f, t, f.chain_from(target as int), flags);
            &&& o.flags == c.flags
            &&& o.invocations == c.invocations
            &&& forall|k: int| 0 <= k < o.invocations.len()
                ==> (#[trigger] o.invocations[k]).phase == EventPhase::PhaseCapturing
        }),
{
    let chain = f.chain_from(target as int);
    let c = capture_over(f, t, chain, flags);
    lemma_capture_phases(f, t, chain, flags);
    let o = dispatch_outcome(f, target, t, flags, bubbles);
    assert(o.invocations =~= c.invocations);
}

} // verus!
