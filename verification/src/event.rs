//! The event record: the mutable state machine instance that dispatch drives.

use vstd::prelude::*;

verus! {

/// The stage of propagation an event record is currently in.
///
/// `PhaseNone` holds before and after dispatch; a listener never observes it.
#[derive(Clone, Copy, PartialEq, Eq, Structural, Debug)]
pub enum EventPhase {
    PhaseNone,
    PhaseCapturing,
    PhaseAtTarget,
    PhaseBubbling,
}

/// The three control flags a listener can set on an event record.
///
/// `stop_immediate` is always set together with `stop_propagation`: stopping
/// immediate propagation implies stopping propagation.
#[derive(Clone, Copy, PartialEq, Eq, Structural, Debug)]
pub struct Flags {
    pub stop_propagation: bool,
    pub stop_immediate: bool,
    pub canceled: bool,
}

/// A dispatchable event record.
///
/// `target` and `current_target` address nodes by their index in the forest
/// the event is dispatched over. Both are `None` outside of a dispatch call.
pub struct Event {
    /// The event type identifier listeners are keyed by.
    pub type_: String,
    /// The node the event is addressed to; set once at dispatch start.
    pub target: Option<usize>,
    /// The node whose listeners are currently being invoked.
    pub current_target: Option<usize>,
    /// The propagation stage currently active.
    pub phase: EventPhase,
    /// Whether the event takes part in the bubbling phase; fixed at creation.
    pub bubbles: bool,
    /// Halts traversal to further chain members once the current one finishes.
    pub stop_propagation: bool,
    /// Halts further listener invocation at the current node in this phase.
    pub stop_immediate: bool,
    /// Records that some listener suppressed the default action.
    pub canceled: bool,
    /// Reentrancy guard: true exactly while a dispatch call runs.
    pub dispatching: bool,
}

impl Event {
    /// The three listener-settable control flags of this record.
    pub open spec fn flags(self) -> Flags {
        Flags {
            stop_propagation: self.stop_propagation,
            stop_immediate: self.stop_immediate,
            canceled: self.canceled,
        }
    }

    /// A fresh event record: idle, unaddressed, with all flags clear.
    pub fn new(type_: String, bubbles: bool) -> (e: Event)
        ensures
            e.type_ == type_,
            e.target is None,
            e.current_target is None,
            e.phase == EventPhase::PhaseNone,
            e.bubbles == bubbles,
            e.flags() == (Flags { stop_propagation: false, stop_immediate: false, canceled: false }),
            !e.dispatching,
    {
        Event {
            type_,
            target: None,
            current_target: None,
            phase: EventPhase::PhaseNone,
            bubbles,
            stop_propagation: false,
            stop_immediate: false,
            canceled: false,
            dispatching: false,
        }
    }

    /// Whether some listener suppressed the default action.
    pub fn default_prevented(&self) -> (r: bool)
        ensures
            r == self.canceled,
    {
        self.canceled
    }
}

} // verus!
