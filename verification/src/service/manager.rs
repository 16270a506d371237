//! The one object that a process shares: the registry, the table of
//! subscribers, and the events that wait to be delivered.

use super::event::ServiceEvent;
use super::listeners::{ListenerId, ServiceListeners};
use super::model::{RegistryView, ServiceEntry};
use super::query::{QueryView, ServiceQuery};
use super::reference::{ServiceRanking, ServiceRef};
use super::registry::ServiceRegistry;
use super::service::ServiceId;
use crate::module::dynamod::DynamodId;
use crate::Error;
use std::any::TypeId;
use vstd::prelude::*;

verus! {

/// An event and the subscribers that are to hear of it.
pub struct Notification {
    pub event: ServiceEvent,
    /// The table of subscribers as it stood when the event was taken up.
    pub targets: ServiceListeners,
}

/// The registry and what surrounds it.
///
/// An operation that registers or unregisters a service changes the registry
/// and notes the event. It calls no subscriber. The events wait, oldest
/// first, until the caller takes them up with `next_notification` and
/// delivers them, by which time it holds no borrow of the manager: a
/// subscriber is free to register or unregister services in turn.
pub struct ServiceManager<S> {
    pub registry: ServiceRegistry<S>,
    pub listeners: ServiceListeners,
    /// The events that wait to be delivered, oldest first.
    pub pending: Vec<ServiceEvent>,
}

/// The manager `after` is well-formed and differs from `before` in its
/// registry at most.
pub open spec fn registry_only<S>(before: ServiceManager<S>, after: ServiceManager<S>) -> bool {
    &&& after.wf()
    &&& after.listeners == before.listeners
    &&& after.pending@ == before.pending@
}

impl<S> ServiceManager<S> {
    /// The registry and the table of subscribers are well-formed.
    pub open spec fn wf(&self) -> bool {
        self.registry.wf() && self.listeners.wf()
    }

    /// A manager that holds no service, no subscriber and no event.
    pub fn new() -> (r: ServiceManager<S>)
        ensures
            r.wf(),
            r.registry@ == RegistryView::<S>::empty(),
            r.listeners.ids() == Seq::<ListenerId>::empty(),
            r.pending@ == Seq::<ServiceEvent>::empty(),
    {
        ServiceManager {
            registry: ServiceRegistry::new(),
            listeners: ServiceListeners::new(),
            pending: Vec::new(),
        }
    }

    /// Makes a subscription and returns its identity. Before that, the
    /// subscriptions for which `is_alive` answers `false` are dropped.
    pub fn register_listener<F: Fn(ListenerId) -> bool>(&mut self, is_alive: F) -> (r: ListenerId)
        requires
            old(self).wf(),
            old(self).listeners.next_id() < u32::MAX,
            forall|i: int|
                0 <= i < old(self).listeners.ids().len() ==> call_requires(
                    is_alive,
                    (old(self).listeners.ids()[i],),
                ),
        ensures
            final(self).wf(),
            final(self).registry == old(self).registry,
            final(self).pending@ == old(self).pending@,
            r == old(self).listeners.next_id(),
            final(self).listeners.next_id() == r + 1,
            exists|kept: Seq<bool>|
                {
                    &&& ServiceListeners::answers(is_alive, old(self).listeners.ids(), kept)
                    &&& final(self).listeners.ids() == ServiceListeners::chosen(
                        old(self).listeners.ids(),
                        kept,
                    ).push(r)
                },
    {
        self.listeners.clean_up(is_alive);
        self.listeners.insert_listener()
    }

    /// Ends the subscription `listener_id`: no event that is taken up from
    /// now on is delivered to it.
    pub fn unregister_listener(&mut self, listener_id: ListenerId)
        requires
            old(self).wf(),
        ensures
            final(self).wf(),
            final(self).registry == old(self).registry,
            final(self).pending@ == old(self).pending@,
            final(self).listeners.next_id() == old(self).listeners.next_id(),
            final(self).listeners.ids() == old(self).listeners.ids().filter(
                |x: ListenerId| x != listener_id,
            ),
            !final(self).listeners.ids().contains(listener_id),
    {
        self.listeners.remove_listener(listener_id);
    }

    /// Registers `svc` and notes the event `ServiceRegistered`.
    pub fn register_service(
        &mut self,
        svc_type_id: TypeId,
        svc_name: &str,
        svc_ranking: ServiceRanking,
        owner_id: DynamodId,
        svc: S,
    ) -> (r: Result<ServiceRef, Error>)
        requires
            old(self).wf(),
            old(self).registry@.curr_id < u32::MAX,
        ensures
            final(self).wf(),
            final(self).listeners == old(self).listeners,
            final(self).registry@ == old(self).registry@.register(
                svc_type_id,
                svc_name@,
                svc,
                svc_ranking,
                owner_id,
            ),
            r matches Ok(service_ref) && service_ref@ == old(self).registry@.new_entry(
                svc_type_id,
                svc_name@,
                svc,
                svc_ranking,
                owner_id,
            ).service_ref() && final(self).pending@ == old(self).pending@.push(
                ServiceEvent::ServiceRegistered(service_ref),
            ),
    {
        let service_ref = self.registry.register_service(
            svc_type_id,
            svc_name,
            svc,
            svc_ranking,
            owner_id,
        );
        self.pending.push(ServiceEvent::ServiceRegistered(service_ref.clone()));
        Ok(service_ref)
    }

    /// Unregisters the service `svc_id` and, if it was registered, notes the
    /// event `ServiceUnregistered`.
    pub fn unregister_service(&mut self, svc_id: ServiceId)
        requires
            old(self).wf(),
        ensures
            final(self).wf(),
            final(self).listeners == old(self).listeners,
            final(self).registry@ == old(self).registry@.unregister(svc_id),
            !old(self).registry@.is_live(svc_id) ==> final(self).pending@ == old(self).pending@,
            old(self).registry@.is_live(svc_id) ==> {
                &&& final(self).pending@.len() == old(self).pending@.len() + 1
                &&& final(self).pending@.drop_last() == old(self).pending@
                &&& final(self).pending@.last() is ServiceUnregistered
                &&& final(self).pending@.last().service_ref()@ == old(self).registry@.entry(
                    svc_id,
                ).service_ref()
            },
    {
        let mb_ref = self.registry.unregister_service(svc_id);
        if let Some(service_ref) = mb_ref {
            let ghost before = self.pending@;
            self.pending.push(ServiceEvent::ServiceUnregistered(service_ref));
            assert(self.pending@.drop_last() =~= before);
        }
    }

    /// Takes up the oldest event that waits, together with the subscribers
    /// as they stand now. `None` if no event waits.
    pub fn next_notification(&mut self) -> (r: Option<Notification>)
        requires
            old(self).wf(),
        ensures
            final(self).wf(),
            final(self).registry == old(self).registry,
            final(self).listeners == old(self).listeners,
            r is Some <==> old(self).pending@.len() > 0,
            r is None ==> final(self).pending@ == old(self).pending@,
            r matches Some(n) ==> {
                &&& n.event == old(self).pending@[0]
                &&& n.targets.ids() == old(self).listeners.ids()
                &&& final(self).pending@ == old(self).pending@.skip(1)
            },
    {
        if self.pending.len() == 0 {
            None
        } else {
            let event = self.pending.remove(0);
            assert(self.pending@ =~= old(self).pending@.skip(1));
            Some(Notification { event, targets: self.listeners.snapshot() })
        }
    }

    /// Delivers `event` to the subscribers as they stand now, oldest first,
    /// and says whether one of them was gone.
    pub fn fire_event<F: Fn(ListenerId, &ServiceEvent) -> bool>(
        &self,
        event: &ServiceEvent,
        deliver: F,
    ) -> (dirty: bool)
        requires
            forall|i: int|
                0 <= i < self.listeners.ids().len() ==> call_requires(
                    deliver,
                    (self.listeners.ids()[i], event),
                ),
        ensures
            exists|reached: Seq<bool>|
                {
                    &&& reached.len() == self.listeners.ids().len()
                    &&& forall|i: int|
                        0 <= i < reached.len() ==> call_ensures(
                            deliver,
                            (self.listeners.ids()[i], event),
                            #[trigger] reached[i],
                        )
                    &&& dirty == reached.contains(false)
                },
    {
        self.listeners.fire_event(event, deliver)
    }

    /// The snapshot of the registered service `svc_id`.
    pub fn get_service_ref(&self, svc_id: ServiceId) -> (r: Option<ServiceRef>)
        requires
            self.wf(),
        ensures
            r is Some <==> self.registry@.is_live(svc_id),
            r is Some ==> r->0@ == self.registry@.entry(svc_id).service_ref(),
    {
        self.registry.get_service_ref(svc_id)
    }

    /// Takes a handle to the registered service `svc_id` for the module
    /// `user_id` and lends the service object.
    pub fn get_service_object(&mut self, svc_id: ServiceId, user_id: DynamodId) -> (r: Option<&S>)
        requires
            old(self).wf(),
            old(self).registry@.use_count(svc_id, user_id) < u32::MAX,
        ensures
            registry_only(*old(self), *final(self)),
            final(self).registry@ == old(self).registry@.checkout(svc_id, user_id),
            r is Some <==> old(self).registry@.is_live(svc_id),
            r is Some ==> *r->0 == old(self).registry@.entry(svc_id).object,
    {
        self.registry.get_service_object(svc_id, user_id)
    }

    /// The identities of the registered services indexed under `svc_type_id`,
    /// in rising order of ranking and identity.
    pub fn get_services_id_by_type_id(&self, svc_type_id: TypeId) -> (r: Vec<ServiceId>)
        requires
            self.wf(),
        ensures
            r@ == self.registry@.typed(svc_type_id).map_values(|e: ServiceEntry<S>| e.core.id),
    {
        self.registry.get_services_id_by_type_id(svc_type_id)
    }

    /// The snapshots of the registered services indexed under `svc_type_id`,
    /// in rising order of ranking and identity.
    pub fn get_services_ref_by_type_id(&self, svc_type_id: TypeId) -> (r: Vec<ServiceRef>)
        requires
            self.wf(),
        ensures
            r@.map_values(|x: ServiceRef| x@) == self.registry@.typed(svc_type_id).map_values(
                |e: ServiceEntry<S>| e.service_ref(),
            ),
    {
        self.registry.get_services_ref_by_type_id(svc_type_id)
    }

    /// Takes, for the module `user_id`, one handle to every registered
    /// service indexed under `svc_type_id`, and returns their identities in
    /// rising order of ranking and identity.
    pub fn get_services_by_type_id(&mut self, svc_type_id: TypeId, user_id: DynamodId) -> (r: Vec<
        ServiceId,
    >)
        requires
            old(self).wf(),
            old(self).registry@.can_checkout_matching(
                QueryView::TypeId(svc_type_id),
                user_id,
            ),
        ensures
            registry_only(*old(self), *final(self)),
            final(self).registry@ == old(self).registry@.checkout_matching(
                QueryView::TypeId(svc_type_id),
                user_id,
            ),
            r@ == old(self).registry@.typed(svc_type_id).map_values(
                |e: ServiceEntry<S>| e.core.id,
            ),
    {
        let query = ServiceQuery::by_type_id(svc_type_id);
        self.registry.get_service_objects_by_query(&query, user_id)
    }

    /// The identities of the registered services with the name `svc_name`,
    /// in rising order of ranking and identity.
    pub fn get_services_id_by_name(&self, svc_name: &str) -> (r: Vec<ServiceId>)
        requires
            self.wf(),
        ensures
            r@ == self.registry@.named(svc_name@).map_values(|e: ServiceEntry<S>| e.core.id),
    {
        self.registry.get_services_id_by_name(svc_name)
    }

    /// The snapshots of the registered services with the name `svc_name`, in
    /// rising order of ranking and identity.
    pub fn get_services_ref_by_name(&self, svc_name: &str) -> (r: Vec<ServiceRef>)
        requires
            self.wf(),
        ensures
            r@.map_values(|x: ServiceRef| x@) == self.registry@.named(svc_name@).map_values(
                |e: ServiceEntry<S>| e.service_ref(),
            ),
    {
        self.registry.get_services_ref_by_name(svc_name)
    }

    /// Takes, for the module `user_id`, one handle to every registered
    /// service with the name `svc_name`, and returns their identities in
    /// rising order of ranking and identity.
    pub fn get_services_by_name(&mut self, svc_name: &str, user_id: DynamodId
        ) -> ( r: Vec<ServiceId>)
        requires
            old(self).wf(),
            old(self).registry@.can_checkout_matching(QueryView::Name(svc_name@), user_id),
        ensures
            registry_only(*old(self), *final(self)),
            final(self).registry@ == old(self).registry@.checkout_matching(
                QueryView::Name(svc_name@),
                user_id,
            ),
            r@ == old(self).registry@.named(svc_name@).map_values(|e: ServiceEntry<S>| e.core.id),
    {
        let query = ServiceQuery::Name(svc_name.to_owned());
        self.registry.get_service_objects_by_query(&query, user_id)
    }

    /// Takes, for the module `user_id`, one handle to every registered
    /// service that answers `query`, and returns their identities in rising
    /// order of ranking and identity.
    pub fn get_services_by_query(&mut self, query: &ServiceQuery, user_id: DynamodId) -> (r: Vec<
        ServiceId,
    >)
        requires
            old(self).wf(),
            old(self).registry@.can_checkout_matching(query@, user_id),
        ensures
            registry_only(*old(self), *final(self)),
            final(self).registry@ == old(self).registry@.checkout_matching(query@, user_id),
            r@ == old(self).registry@.candidates(query@).map_values(
                |e: ServiceEntry<S>| e.core.id,
            ),
    {
        self.registry.get_service_objects_by_query(query, user_id)
    }

    /// Gives back one handle of the module `user_id` to the service `svc_id`.
    pub fn remove_use(&mut self, svc_id: ServiceId, user_id: DynamodId)
        requires
            old(self).wf(),
        ensures
            registry_only(*old(self), *final(self)),
            final(self).registry@ == old(self).registry@.release(svc_id, user_id),
    {
        self.registry.remove_use(svc_id, user_id);
    }
}

impl<S> Default for ServiceManager<S> {
    /// A manager that holds no service, no subscriber and no event.
    fn default() -> (r: ServiceManager<S>)
        ensures
            r.wf(),
            r.registry@ == RegistryView::<S>::empty(),
            r.listeners.ids() == Seq::<ListenerId>::empty(),
            r.pending@ == Seq::<ServiceEvent>::empty(),
    {
        ServiceManager::new()
    }
}

} // verus!
