//! The events of the registry.

use super::reference::ServiceRef;
use crate::common::listener::EventListener;
use vstd::prelude::*;

verus! {

/// A subscriber to the events of the registry.
pub trait ServiceEventListener: EventListener<ServiceEvent> {
}

/// What happened to a registration.
#[derive(Debug, PartialEq, Eq, PartialOrd, Ord, Hash)]
pub enum ServiceEvent {
    ServiceRegistered(ServiceRef),
    ServiceModified(ServiceRef),
    ServiceUnregistered(ServiceRef),
}

impl Clone for ServiceEvent {
    fn clone(&self) -> (r: ServiceEvent)
        ensures
            r == *self,
    {
        match self {
            ServiceEvent::ServiceRegistered(s) => ServiceEvent::ServiceRegistered(s.clone()),
            ServiceEvent::ServiceModified(s) => ServiceEvent::ServiceModified(s.clone()),
            ServiceEvent::ServiceUnregistered(s) => ServiceEvent::ServiceUnregistered(s.clone()),
        }
    }
}

impl ServiceEvent {
    /// The registration that the event is about.
    pub open spec fn service_ref(self) -> ServiceRef {
        match self {
            ServiceEvent::ServiceRegistered(s) => s,
            ServiceEvent::ServiceModified(s) => s,
            ServiceEvent::ServiceUnregistered(s) => s,
        }
    }

    /// The registration that the event is about.
    pub fn get_service_ref(&self) -> (r: &ServiceRef)
        ensures
            *r == self.service_ref(),
    {
        match self {
            ServiceEvent::ServiceRegistered(rfe) => rfe,
            ServiceEvent::ServiceModified(rfe) => rfe,
            ServiceEvent::ServiceUnregistered(rfe) => rfe,
        }
    }
}

} // verus!
