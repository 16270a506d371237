//! Subscribers to events.

use vstd::prelude::*;

verus! {

/// A subscriber to events of type `E`.
///
/// Whoever delivers an event to the subscriber calls `on_event` once.
/// Nothing is asked of what the call does.
pub trait EventListener<E>: Send + Sync {
    fn on_event(&self, event: &E);
}

} // verus!
