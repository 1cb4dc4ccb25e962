//! The waker-style notification primitive that couples readers to
//! writers: readers that find a value not yet fresh obtain a listener and
//! await it; a producer's completion notifies all listeners.

use vstd::prelude::*;

verus! {

#[verifier::external_type_specification]
#[verifier::external_body]
pub struct ExEvent(event_listener::Event);

#[verifier::external_type_specification]
#[verifier::external_body]
pub struct ExEventListener(event_listener::EventListener);

/// Relies on event_listener::Event::new: creates an event with no
/// registered listeners.
#[verifier::external_body]
pub(crate) fn event_new() -> event_listener::Event {
    event_listener::Event::new()
}

/// Relies on event_listener::Event::listen: registers a waiter that any
/// later notification on the same event wakes. Nothing about the waiting
/// itself can be promised here; awaiting the listener is the embedder's
/// part.
#[verifier::external_body]
pub(crate) fn event_listen(ev: &event_listener::Event) -> event_listener::EventListener {
    ev.listen()
}

/// Relies on event_listener::Event::notify: wakes every active listener
/// registered before this call. Duplicate wakeups are harmless to the
/// engine, whose re-checks are idempotent.
#[verifier::external_body]
pub(crate) fn event_notify_all(ev: &event_listener::Event) {
    ev.notify(usize::MAX);
}

} // verus!
