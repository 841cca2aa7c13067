//! Listener registrations and the per-node listener registry.

use vstd::prelude::*;
use crate::event::Event;

verus! {

/// The phase affinity a listener is registered with.
///
/// Affinity selects the propagation phase the listener fires in; it is
/// irrelevant exactly at the target, where both affinities are delivered.
#[derive(Clone, Copy, PartialEq, Eq, Structural, Debug)]
pub enum ListenerPhase {
    Capturing,
    Bubbling,
}

/// A listener registration, described by the effect its callback has on the
/// event record it is handed.
///
/// Each `calls_*` field records whether the callback invokes the matching
/// setter on the event record; `raises` records that the callback ends in an
/// exception, which is reported to a diagnostic sink and never propagated.
///
/// A callback so described touches only the event record, never a listener
/// registry, so listener lists are stable for the duration of a dispatch:
/// reading them live and snapshotting them per phase coincide.
#[derive(Clone, Copy, PartialEq, Eq, Structural, Debug)]
pub struct EventListener {
    /// Caller-chosen identity, echoed in the invocation log.
    pub id: u64,
    /// The callback calls the stop-propagation setter.
    pub calls_stop_propagation: bool,
    /// The callback calls the stop-immediate-propagation setter, which also
    /// stops propagation.
    pub calls_stop_immediate: bool,
    /// The callback calls the default-prevented setter.
    pub calls_prevent_default: bool,
    /// The callback ends in an exception, absorbed at the invocation boundary.
    pub raises: bool,
}

impl EventListener {
    /// Invoke this listener's callback on the event record.
    ///
    /// Exceptions are recovered here, per the report-exceptions policy: the
    /// listener's id is appended to the diagnostic sink and dispatch carries
    /// on as if the callback had returned normally.
    pub fn handle_event(&self, event: &mut Event, sink: &mut Vec<u64>)
        ensures
            *final(event) == (Event {
                stop_propagation: old(event).stop_propagation || self.calls_stop_propagation
                    || self.calls_stop_immediate,
                stop_immediate: old(event).stop_immediate || self.calls_stop_immediate,
                canceled: old(event).canceled || self.calls_prevent_default,
                ..*old(event)
            }),
            final(sink)@ == if self.raises {
                old(sink)@.push(self.id)
            } else {
                old(sink)@
            },
    {
        if self.calls_stop_propagation {
            event.stop_propagation = true;
        }
        if self.calls_stop_immediate {
            event.stop_propagation = true;
            event.stop_immediate = true;
        }
        if self.calls_prevent_default {
            event.canceled = true;
        }
        if self.raises {
            sink.push(self.id);
        }
    }
}

/// One row of a listener registry: a listener bound to an event type and a
/// phase affinity.
pub struct ListenerEntry {
    pub type_: String,
    pub phase: ListenerPhase,
    pub listener: EventListener,
}

/// The listener registry owned by one event-target: its registrations, in
/// registration order.
pub struct EventTarget {
    pub entries: Vec<ListenerEntry>,
}

/// Whether the registry rows `entries` contain some registration for the
/// event type `t`.
pub open spec fn has_type(entries: Seq<ListenerEntry>, t: Seq<char>) -> bool {
    exists|i: int| 0 <= i < entries.len() && entries[i].type_@ == t
}

/// The listeners among `entries` registered for type `t` with affinity `p`,
/// in registration order.
pub open spec fn listeners_for(entries: Seq<ListenerEntry>, t: Seq<char>, p: ListenerPhase)
    -> Seq<EventListener>
    decreases entries.len(),
{
    if entries.len() == 0 {
        Seq::empty()
    } else {
        let init = listeners_for(entries.drop_last(), t, p);
        let last = entries.last();
        if last.type_@ == t && last.phase == p {
            init.push(last.listener)
        } else {
            init
        }
    }
}

/// The listeners among `entries` registered for type `t` with either
/// affinity, in registration order.
pub open spec fn listeners_any(entries: Seq<ListenerEntry>, t: Seq<char>) -> Seq<EventListener>
    decreases entries.len(),
{
    if entries.len() == 0 {
        Seq::empty()
    } else {
        let init = listeners_any(entries.drop_last(), t);
        let last = entries.last();
        if last.type_@ == t {
            init.push(last.listener)
        } else {
            init
        }
    }
}

impl EventTarget {
    pub fn new() -> (t: EventTarget)
        ensures
            t.entries@ =~= Seq::<ListenerEntry>::empty(),
    {
        EventTarget { entries: Vec::new() }
    }

    /// Register `listener` for events of type `type_` with affinity `phase`,
    /// after all existing registrations.
    pub fn add_event_listener(&mut self, type_: String, phase: ListenerPhase,
        listener: EventListener)
        ensures
            final(self).entries@ == old(self).entries@.push(
                (ListenerEntry { type_, phase, listener }),
            ),
    {
        self.entries.push(ListenerEntry { type_, phase, listener });
    }

    /// The listeners registered here for `type_` with affinity `phase`, or
    /// `None` when no registration for `type_` exists at all.
    pub fn get_listeners_for(&self, type_: &String, phase: ListenerPhase)
        -> (r: Option<Vec<EventListener>>)
        ensures
            match r {
                Some(ls) => has_type(self.entries@, type_@)
                    && ls@ == listeners_for(self.entries@, type_@, phase),
                None => !has_type(self.entries@, type_@),
            },
    {
        let mut found = false;
        let mut ls: Vec<EventListener> = Vec::new();
        let n = self.entries.len();
        for i in 0..n
            invariant
                n == self.entries.len(),
                found == has_type(self.entries@.take(i as int), type_@),
                ls@ == listeners_for(self.entries@.take(i as int), type_@, phase),
        {
            let entry = &self.entries[i];
            proof {
                assert(self.entries@.take(i + 1).drop_last() =~= self.entries@.take(i as int));
                assert(self.entries@.take(i + 1).last() == self.entries@[i as int]);
            }
            if entry.type_ == *type_ {
                found = true;
                if entry.phase == phase {
                    ls.push(entry.listener);
                }
            }
            proof {
                if found {
                    assert(has_type(self.entries@.take(i + 1), type_@));
                }
            }
        }
        proof {
            assert(self.entries@.take(n as int) =~= self.entries@);
        }
        if found {
            Some(ls)
        } else {
            None
        }
    }

    /// The listeners registered here for `type_` with either affinity, or
    /// `None` when no registration for `type_` exists at all.
    pub fn get_listeners(&self, type_: &String) -> (r: Option<Vec<EventListener>>)
        ensures
            match r {
                Some(ls) => has_type(self.entries@, type_@)
                    && ls@ == listeners_any(self.entries@, type_@),
                None => !has_type(self.entries@, type_@),
            },
    {
        let mut found = false;
        let mut ls: Vec<EventListener> = Vec::new();
        let n = self.entries.len();
        for i in 0..n
            invariant
                n == self.entries.len(),
                found == has_type(self.entries@.take(i as int), type_@),
                ls@ == listeners_any(self.entries@.take(i as int), type_@),
        {
            let entry = &self.entries[i];
            proof {
                assert(self.entries@.take(i + 1).drop_last() =~= self.entries@.take(i as int));
                assert(self.entries@.take(i + 1).last() == self.entries@[i as int]);
            }
            if entry.type_ == *type_ {
                found = true;
                ls.push(entry.listener);
            }
            proof {
                if found {
                    assert(has_type(self.entries@.take(i + 1), type_@));
                }
            }
        }
        proof {
            assert(self.entries@.take(n as int) =~= self.entries@);
        }
        if found {
            Some(ls)
        } else {
            None
        }
    }
}

} // verus!
