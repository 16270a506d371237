//! The handle that a producer holds for a service it registered.

use super::listeners::ListenerId;
use super::manager::ServiceManager;
use super::reference::ServiceRef;
use vstd::prelude::*;

verus! {

/// What a producer holds for one registration. Giving it up with
/// `unregister` takes the service out of the registry.
pub struct ServiceRegistration {
    pub svc_ref: ServiceRef,
}

impl ServiceRegistration {
    /// The handle for the registration that `svc_ref` describes.
    pub fn new(svc_ref: ServiceRef) -> (r: ServiceRegistration)
        ensures
            r.svc_ref == svc_ref,
    {
        ServiceRegistration { svc_ref }
    }

    /// Unregisters the service. Handles that consumers hold keep resolving
    /// until they are released.
    pub fn unregister<S>(self, manager: &mut ServiceManager<S>)
        requires
            old(manager).wf(),
        ensures
            final(manager).wf(),
            final(manager).listeners == old(manager).listeners,
            final(manager).registry@ == old(manager).registry@.unregister(self.svc_ref.core.id),
            !final(manager).registry@.is_live(self.svc_ref.core.id),
    {
        proof {
            manager.registry@.lemma_unregister(self.svc_ref.core.id);
        }
        manager.unregister_service(self.svc_ref.core.id);
    }
}

/// What a subscriber holds for one subscription. Giving it up with `release`
/// ends the subscription.
pub struct ServiceEventListenerGuard {
    pub listener_id: ListenerId,
}

impl ServiceEventListenerGuard {
    /// The guard of the subscription `listener_id`.
    pub fn new(listener_id: ListenerId) -> (r: ServiceEventListenerGuard)
        ensures
            r.listener_id == listener_id,
    {
        ServiceEventListenerGuard { listener_id }
    }

    /// Ends the subscription: no event that is taken up from now on is
    /// delivered to it. Events that were taken up before are delivered to the
    /// subscribers as they stood then.
    pub fn release<S>(self, manager: &mut ServiceManager<S>)
        requires
            old(manager).wf(),
        ensures
            final(manager).wf(),
            final(manager).registry == old(manager).registry,
            final(manager).pending@ == old(manager).pending@,
            final(manager).listeners.ids() == old(manager).listeners.ids().filter(
                |x: ListenerId| x != self.listener_id,
            ),
            !final(manager).listeners.ids().contains(self.listener_id),
    {
        manager.unregister_listener(self.listener_id);
    }
}

} // verus!
