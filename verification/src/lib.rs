//! An in-process DOM-style event dispatch engine.
//!
//! Events are delivered to listener registrations in the classic three-phase
//! order (capturing, at-target, bubbling) over a snapshot of the target's
//! ancestor chain, honouring the propagation-stopping and
//! default-action-suppression flags that listeners may set, and holding every
//! chain member in a stack-disciplined liveness registry for the duration of
//! the call.

pub mod domimplementation;
pub mod event;
pub mod eventdispatcher;
pub mod eventtarget;
pub mod node;
pub mod rooting;
