//! The handle through which a consumer uses a service.

use super::manager::{registry_only, ServiceManager};
use super::model::RegistryView;
use super::service::{answered, Service, ServiceId};
use crate::module::dynamod::DynamodId;
use std::any::TypeId;
use vstd::prelude::*;

verus! {

/// A consumer's handle to one service.
///
/// A handle owns nothing. It names the service, the module that uses it and
/// the interface under which the module sees it, and resolves to the service
/// object through the registry each time it is used. One handle stands for
/// one use that the registry counts: it is made when the use is taken out,
/// and `release` gives the use back.
#[derive(Debug)]
pub struct Svc {
    pub service_id: ServiceId,
    pub user_id: DynamodId,
    pub interface: TypeId,
}

impl Svc {
    /// The handle seen under the interface `target`: the same use of the
    /// same service.
    pub open spec fn recast(self, target: TypeId) -> Svc {
        Svc { service_id: self.service_id, user_id: self.user_id, interface: target }
    }

    /// A handle of the module `user_id` to the service `service_id`, seen
    /// under `interface`. The caller has taken the use out.
    pub fn new(service_id: ServiceId, user_id: DynamodId, interface: TypeId) -> (r: Svc)
        ensures
            r == (Svc { service_id, user_id, interface }),
    {
        Svc { service_id, user_id, interface }
    }

    /// Turns the handle into one under the interface `target` if the object
    /// was found to provide it, and hands the handle back unchanged if not.
    pub fn cast_with(self, target: TypeId, provided: bool) -> (r: Result<Svc, Svc>)
        ensures
            r == if provided {
                Ok::<Svc, Svc>(self.recast(target))
            } else {
                Err::<Svc, Svc>(self)
            },
    {
        if provided {
            Ok(Svc { service_id: self.service_id, user_id: self.user_id, interface: target })
        } else {
            Err(self)
        }
    }

    /// Asks the service object whether it provides the interface `target`,
    /// and turns the handle into one under that interface if it does.
    ///
    /// Either way the result is the one handle that went in: it stands for
    /// the same use, and the registry is not touched. Where the object says
    /// no, or the registry knows the service no longer, the handle comes back
    /// unchanged as the error.
    pub fn cast<S: Service>(self, manager: &ServiceManager<S>, target: TypeId) -> (r: Result<
        Svc,
        Svc,
    >)
        requires
            manager.wf(),
        ensures
            r matches Ok(cast) ==> cast == self.recast(target) && manager.registry@.resolvable(
                self.service_id,
            ) && answered(manager.registry@.entry(self.service_id).object, target, true),
            r matches Err(same) ==> same == self && (!manager.registry@.resolvable(self.service_id)
                || answered(manager.registry@.entry(self.service_id).object, target, false)),
    {
        let provided = match manager.registry.resolve(self.service_id) {
            Some(object) => object.query(&target),
            None => false,
        };
        self.cast_with(target, provided)
    }

    /// The service object that the handle stands for, or `None` if the
    /// registry has given the object up.
    pub fn try_as_ref<'a, S>(&self, manager: &'a ServiceManager<S>) -> (r: Option<&'a S>)
        requires
            manager.wf(),
        ensures
            r is Some <==> manager.registry@.resolvable(self.service_id),
            r is Some ==> *r->0 == manager.registry@.entry(self.service_id).object,
    {
        manager.registry.resolve(self.service_id)
    }

    /// The service object that the handle stands for.
    ///
    /// The registry keeps the object of a service for as long as a use of it
    /// is out, so a handle that was not yet released resolves.
    pub fn as_ref<'a, S>(&self, manager: &'a ServiceManager<S>) -> (r: &'a S)
        requires
            manager.wf(),
            manager.registry@.resolvable(self.service_id),
        ensures
            *r == manager.registry@.entry(self.service_id).object,
    {
        match manager.registry.resolve(self.service_id) {
            Some(object) => object,
            None => unreached(),
        }
    }

    /// Gives the use back. The handle is gone; if it was the last one to a
    /// service that is registered no longer, the registry drops the service.
    pub fn release<S>(self, manager: &mut ServiceManager<S>)
        requires
            old(manager).wf(),
        ensures
            registry_only(*old(manager), *final(manager)),
            final(manager).registry@ == old(manager).registry@.release(
                self.service_id,
                self.user_id,
            ),
    {
        manager.remove_use(self.service_id, self.user_id);
    }
}

/// A handle that was cast stands for the use that was taken out with it:
/// taking a handle raises the count of its holder by one, and giving back
/// the handle that a cast returned, be the cast a success or not, brings the
/// count back to where it was.
pub proof fn law_cast_keeps_the_use<S>(
    v: RegistryView<S>,
    handle: Svc,
    target: TypeId,
    provided: bool,
)
    requires
        v.wf(),
        v.is_live(handle.service_id),
    ensures
        ({
            let taken = v.checkout(handle.service_id, handle.user_id);
            let back = if provided {
                handle.recast(target)
            } else {
                handle
            };
            &&& taken.use_count(handle.service_id, handle.user_id) == v.use_count(
                handle.service_id,
                handle.user_id,
            ) + 1
            &&& taken.release(back.service_id, back.user_id).use_count(
                handle.service_id,
                handle.user_id,
            ) == v.use_count(handle.service_id, handle.user_id)
            &&& taken.release(back.service_id, back.user_id).handles(handle.service_id)
                == v.handles(handle.service_id)
        }),
{
    let taken = v.checkout(handle.service_id, handle.user_id);
    v.lemma_checkout(handle.service_id, handle.user_id);
    taken.lemma_release_counts(handle.service_id, handle.user_id);
}

} // verus!
