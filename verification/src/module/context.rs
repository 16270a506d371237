//! What a module sees of the runtime.

use super::dynamod::DynamodId;
use crate::service::event::ServiceEvent;
use crate::service::listeners::{ListenerId, ServiceListeners};
use crate::service::manager::{registry_only, ServiceManager};
use crate::service::model::{RegistryView, ServiceEntry};
use crate::service::query::{QueryView, ServiceQuery};
use crate::service::reference::{ServiceRanking, ServiceRef};
use crate::service::registration::{ServiceEventListenerGuard, ServiceRegistration};
use crate::service::service::{
    answered, any_service_type_id, service_name, service_type_id, Named, Service, ServiceId,
};
use crate::service::svc::Svc;
use crate::Error;
use std::any::TypeId;
use vstd::prelude::*;

verus! {

/// The face of the runtime towards one module: every use that the module
/// makes of the registry is made in the name of its identity.
///
/// A context holds no reference to the manager. Each operation takes the
/// manager that it is to work on.
#[derive(Debug, Clone, Copy, PartialEq, Eq, Structural)]
pub struct Context {
    pub dynamod_id: DynamodId,
}

impl Context {
    /// The handle of this module to the service `id`, seen under
    /// `interface`.
    pub open spec fn handle(self, id: ServiceId, interface: TypeId) -> Svc {
        Svc { service_id: id, user_id: self.dynamod_id, interface }
    }

    /// The handles of this module to the services `ids`, seen under
    /// `interface`.
    pub open spec fn handles(self, ids: Seq<ServiceId>, interface: TypeId) -> Seq<Svc> {
        Seq::new(ids.len(), |i: int| self.handle(ids[i], interface))
    }

    /// `r` is the handle to the first service that answers `query` in the
    /// registry `v`, seen under the interface that every service has, and `w`
    /// is the registry after the handle was taken; or no service answers, `r`
    /// is `None` and the registry is as it was.
    pub open spec fn took_first<S>(
        self,
        v: RegistryView<S>,
        query: QueryView,
        r: Option<Svc>,
        w: RegistryView<S>,
    ) -> bool {
        match r {
            Some(svc) => {
                &&& v.candidates(query).len() > 0
                &&& svc.service_id == v.candidates(query)[0].core.id
                &&& svc.user_id == self.dynamod_id
                &&& call_ensures(TypeId::of::<dyn Service>, (), svc.interface)
                &&& w == v.checkout(svc.service_id, self.dynamod_id)
            },
            None => v.candidates(query).len() == 0 && w == v,
        }
    }

    /// `r` holds one handle to each service that answers `query` in the
    /// registry `v`, in the order of listing and seen under the interface
    /// that every service has, and `w` is the registry after the handles
    /// were taken.
    pub open spec fn took_all<S>(
        self,
        v: RegistryView<S>,
        query: QueryView,
        r: Seq<Svc>,
        w: RegistryView<S>,
    ) -> bool {
        &&& w == v.checkout_matching(query, self.dynamod_id)
        &&& exists|any: TypeId|
            call_ensures(TypeId::of::<dyn Service>, (), any) && r == self.handles(
                v.candidates(query).map_values(|e: ServiceEntry<S>| e.core.id),
                any,
            )
    }

    /// `r` is the handle, seen under `target`, to the first service in the
    /// registry `v` that answers `query` and whose object said that it
    /// provides `target`, and `w` is the registry after the handle was
    /// taken; or every object that was asked said no, `r` is `None` and the
    /// registry is as it was.
    pub open spec fn took_first_typed<S: Service>(
        self,
        v: RegistryView<S>,
        query: QueryView,
        target: TypeId,
        r: Option<Svc>,
        w: RegistryView<S>,
    ) -> bool {
        match r {
            Some(svc) => {
                &&& svc == self.handle(svc.service_id, target)
                &&& v.is_live(svc.service_id)
                &&& query.accepts(v.entry(svc.service_id).service_ref())
                &&& answered(v.entry(svc.service_id).object, target, true)
                &&& forall|k: int|
                    0 <= k < v.live_index(svc.service_id) && query.accepts(
                        (#[trigger] v.live[k]).service_ref(),
                    ) ==> answered(v.live[k].object, target, false)
                &&& w == v.checkout(svc.service_id, self.dynamod_id)
            },
            None => {
                &&& forall|k: int|
                    0 <= k < v.live.len() && query.accepts((#[trigger] v.live[k]).service_ref())
                        ==> answered(v.live[k].object, target, false)
                &&& w == v
            },
        }
    }

    /// `r` holds one handle, seen under `target`, to each service in the
    /// registry `v` that answers `query` and whose object said that it
    /// provides `target`, in the order of listing, and `w` is the registry
    /// after the handles were taken. Each object was asked once.
    pub open spec fn took_all_typed<S: Service>(
        self,
        v: RegistryView<S>,
        query: QueryView,
        target: TypeId,
        r: Seq<Svc>,
        w: RegistryView<S>,
    ) -> bool {
        exists|flags: Seq<bool>|
            {
                &&& flags.len() == v.live.len()
                &&& forall|k: int|
                    0 <= k < flags.len() && query.accepts((#[trigger] v.live[k]).service_ref())
                        ==> answered(v.live[k].object, target, flags[k])
                &&& w == v.checkout_chosen(query, self.dynamod_id, flags)
                &&& r == self.handles(v.chosen_ids(query, flags, flags.len() as int), target)
            }
    }

    /// The context of the module `dynamod_id`.
    pub fn new(dynamod_id: DynamodId) -> (r: Context)
        ensures
            r.dynamod_id == dynamod_id,
    {
        Context { dynamod_id }
    }

    /// Subscribes to the events of the registry and returns the guard of the
    /// subscription. Before that, the subscriptions for which `is_alive`
    /// answers `false` are dropped.
    pub fn register_listener<S, F: Fn(ListenerId) -> bool>(
        &self,
        manager: &mut ServiceManager<S>,
        is_alive: F,
    ) -> (r: Result<ServiceEventListenerGuard, Error>)
        requires
            old(manager).wf(),
            old(manager).listeners.next_id() < u32::MAX,
            forall|i: int|
                0 <= i < old(manager).listeners.ids().len() ==> call_requires(
                    is_alive,
                    (old(manager).listeners.ids()[i],),
                ),
        ensures
            final(manager).wf(),
            final(manager).registry == old(manager).registry,
            final(manager).pending@ == old(manager).pending@,
            r matches Ok(guard) && guard.listener_id == old(manager).listeners.next_id(),
            exists|kept: Seq<bool>|
                {
                    &&& ServiceListeners::answers(is_alive, old(manager).listeners.ids(), kept)
                    &&& final(manager).listeners.ids() == ServiceListeners::chosen(
                        old(manager).listeners.ids(),
                        kept,
                    ).push(old(manager).listeners.next_id())
                },
    {
        let listener_id = manager.register_listener(is_alive);
        Ok(ServiceEventListenerGuard::new(listener_id))
    }

    /// Registers `svc` in the name of this module and returns the handle of
    /// the registration.
    pub fn register_service<S>(
        &self,
        manager: &mut ServiceManager<S>,
        type_id: TypeId,
        svc_name: &str,
        svc_ranking: ServiceRanking,
        svc: S,
    ) -> (r: Result<ServiceRegistration, Error>)
        requires
            old(manager).wf(),
            old(manager).registry@.curr_id < u32::MAX,
        ensures
            final(manager).wf(),
            final(manager).listeners == old(manager).listeners,
            final(manager).registry@ == old(manager).registry@.register(
                type_id,
                svc_name@,
                svc,
                svc_ranking,
                self.dynamod_id,
            ),
            r matches Ok(registration) && {
                &&& registration.svc_ref@ == old(manager).registry@.new_entry(
                    type_id,
                    svc_name@,
                    svc,
                    svc_ranking,
                    self.dynamod_id,
                ).service_ref()
                &&& final(manager).pending@ == old(manager).pending@.push(
                    ServiceEvent::ServiceRegistered(registration.svc_ref),
                )
            },
    {
        match manager.register_service(type_id, svc_name, svc_ranking, self.dynamod_id, svc) {
            Ok(service_ref) => Ok(ServiceRegistration::new(service_ref)),
            Err(e) => Err(e),
        }
    }

    /// Registers `svc` under the type `T` and its name, with the ranking 0.
    pub fn register_service_typed<T: Named + ?Sized + 'static, S>(
        &self,
        manager: &mut ServiceManager<S>,
        svc: S,
    ) -> (r: Result<ServiceRegistration, Error>)
        requires
            old(manager).wf(),
            old(manager).registry@.curr_id < u32::MAX,
        ensures
            final(manager).wf(),
            final(manager).listeners == old(manager).listeners,
            r matches Ok(registration) && {
                &&& call_ensures(TypeId::of::<T>, (), registration.svc_ref.type_id)
                &&& exists|name: &'static str|
                    call_ensures(T::interface_name, (), name) && name@
                        == registration.svc_ref.name@
                &&& registration.svc_ref.core.ranking == 0
                &&& registration.svc_ref.core.id == old(manager).registry@.curr_id + 1
                &&& registration.svc_ref.owner_id == self.dynamod_id
                &&& final(manager).registry@ == old(manager).registry@.register(
                    registration.svc_ref.type_id,
                    registration.svc_ref.name@,
                    svc,
                    0,
                    self.dynamod_id,
                )
                &&& final(manager).pending@ == old(manager).pending@.push(
                    ServiceEvent::ServiceRegistered(registration.svc_ref),
                )
            },
    {
        let svc_type_id = service_type_id::<T>();
        let svc_name = service_name::<T>();
        self.register_service(manager, svc_type_id, svc_name, 0, svc)
    }

    /// The snapshot of the registered service `svc_id`.
    pub fn get_service_ref<S>(&self, manager: &ServiceManager<S>, svc_id: ServiceId) -> (r: Option<
        ServiceRef,
    >)
        requires
            manager.wf(),
        ensures
            r is Some <==> manager.registry@.is_live(svc_id),
            r is Some ==> r->0@ == manager.registry@.entry(svc_id).service_ref(),
    {
        manager.get_service_ref(svc_id)
    }

    /// Takes a handle to the registered service `svc_id`.
    pub fn get_service<S>(&self, manager: &mut ServiceManager<S>, svc_id: ServiceId) -> (r: Option<
        Svc,
    >)
        requires
            old(manager).wf(),
            old(manager).registry@.use_count(svc_id, self.dynamod_id) < u32::MAX,
        ensures
            registry_only(*old(manager), *final(manager)),
            final(manager).registry@ == old(manager).registry@.checkout(svc_id, self.dynamod_id),
            r is Some <==> old(manager).registry@.is_live(svc_id),
            r matches Some(svc) ==> {
                &&& svc.service_id == svc_id
                &&& svc.user_id == self.dynamod_id
                &&& call_ensures(TypeId::of::<dyn Service>, (), svc.interface)
            },
    {
        match manager.get_service_object(svc_id, self.dynamod_id) {
            Some(_) => Some(Svc::new(svc_id, self.dynamod_id, any_service_type_id())),
            None => None,
        }
    }

    /// The snapshot of the first registered service that answers `query`.
    pub fn get_first_service_ref_by_query<S>(
        &self,
        manager: &ServiceManager<S>,
        query: &ServiceQuery,
    ) -> (r: Option<ServiceRef>)
        requires
            manager.wf(),
        ensures
            r is Some <==> manager.registry@.candidates(query@).len() > 0,
            r is Some ==> r->0@ == manager.registry@.candidates(query@)[0].service_ref(),
    {
        manager.registry.get_service_ref_by_query(query)
    }

    /// The snapshots of the registered services that answer `query`, in
    /// rising order of ranking and identity.
    pub fn get_all_services_ref_by_query<S>(
        &self,
        manager: &ServiceManager<S>,
        query: &ServiceQuery,
    ) -> (r: Vec<ServiceRef>)
        requires
            manager.wf(),
        ensures
            r@.map_values(|x: ServiceRef| x@) == manager.registry@.candidates(query@).map_values(
                |e: ServiceEntry<S>| e.service_ref(),
            ),
    {
        manager.registry.get_services_ref_by_query(query)
    }

    /// Takes a handle to the first registered service that answers `query`.
    fn first_by_query<S>(&self, manager: &mut ServiceManager<S>, query: &ServiceQuery) -> (r:
        Option<Svc>)
        requires
            old(manager).wf(),
            old(manager).registry@.can_checkout_matching(query@, self.dynamod_id),
        ensures
            registry_only(*old(manager), *final(manager)),
            self.took_first(old(manager).registry@, query@, r, final(manager).registry@),
    {
        match manager.registry.get_service_id_by_query(query) {
            Some(id) => {
                proof {
                    let v = manager.registry@;
                    v.lemma_live_index(id, v.live_index(id));
                }
                self.get_service(manager, id)
            },
            None => None,
        }
    }

    /// Takes one handle to every registered service that answers `query`.
    fn all_by_query<S>(&self, manager: &mut ServiceManager<S>, query: &ServiceQuery) -> (r: Vec<
        Svc,
    >)
        requires
            old(manager).wf(),
            old(manager).registry@.can_checkout_matching(query@, self.dynamod_id),
        ensures
            registry_only(*old(manager), *final(manager)),
            self.took_all(old(manager).registry@, query@, r@, final(manager).registry@),
    {
        let ids = manager.get_services_by_query(query, self.dynamod_id);
        let any = any_service_type_id();
        self.wrap(&ids, any)
    }

    /// The handles of this module to the services `ids`, seen under
    /// `interface`.
    fn wrap(&self, ids: &Vec<ServiceId>, interface: TypeId) -> (r: Vec<Svc>)
        ensures
            r@ == self.handles(ids@, interface),
    {
        let mut s: Vec<Svc> = Vec::new();
        let mut i: usize = 0;
        while i < ids.len()
            invariant
                i <= ids@.len(),
                s@ == self.handles(ids@.take(i as int), interface),
            decreases ids@.len() - i,
        {
            s.push(Svc::new(ids[i], self.dynamod_id, interface));
            assert(s@ =~= self.handles(ids@.take(i + 1), interface));
            i = i + 1;
        }
        assert(ids@.take(ids@.len() as int) =~= ids@);
        s
    }

    /// Takes a handle, seen under `target`, to the first registered service
    /// that answers `query` and whose object provides `target`.
    ///
    /// The objects of the services that answer `query` are asked in rising
    /// order of ranking and identity, until one says yes.
    pub fn get_first_service_by_query<S: Service>(
        &self,
        manager: &mut ServiceManager<S>,
        query: &ServiceQuery,
        target: TypeId,
    ) -> (r: Option<Svc>)
        requires
            old(manager).wf(),
            old(manager).registry@.can_checkout_matching(query@, self.dynamod_id),
        ensures
            registry_only(*old(manager), *final(manager)),
            self.took_first_typed(
                old(manager).registry@,
                query@,
                target,
                r,
                final(manager).registry@,
            ),
    {
        let provides = |object: &S| -> (b: bool)
            ensures
                answered(*object, target, b),
            { object.query(&target) };
        match manager.registry.get_service_object_where(query, self.dynamod_id, provides) {
            Some(id) => Some(Svc::new(id, self.dynamod_id, target)),
            None => None,
        }
    }

    /// Takes one handle, seen under `target`, to every registered service
    /// that answers `query` and whose object provides `target`.
    ///
    /// The handles stand in rising order of ranking and identity of their
    /// services. The object of each service that answers `query` is asked
    /// once.
    pub fn get_all_services_by_query<S: Service>(
        &self,
        manager: &mut ServiceManager<S>,
        query: &ServiceQuery,
        target: TypeId,
    ) -> (r: Vec<Svc>)
        requires
            old(manager).wf(),
            old(manager).registry@.can_checkout_matching(query@, self.dynamod_id),
        ensures
            registry_only(*old(manager), *final(manager)),
            self.took_all_typed(
                old(manager).registry@,
                query@,
                target,
                r@,
                final(manager).registry@,
            ),
    {
        let provides = |object: &S| -> (b: bool)
            ensures
                answered(*object, target, b),
            { object.query(&target) };
        let ids = manager.registry.get_service_objects_where(query, self.dynamod_id, provides);
        self.wrap(&ids, target)
    }

    /// The identity of the first registered service indexed under
    /// `svc_type_id`.
    pub fn get_first_service_id_by_type_id<S>(
        &self,
        manager: &ServiceManager<S>,
        svc_type_id: TypeId,
    ) -> (r: Option<ServiceId>)
        requires
            manager.wf(),
        ensures
            r == if manager.registry@.typed(svc_type_id).len() > 0 {
                Some(manager.registry@.typed(svc_type_id)[0].core.id)
            } else {
                None
            },
    {
        manager.registry.get_service_id_by_type_id(svc_type_id)
    }

    /// The identities of the registered services indexed under
    /// `svc_type_id`, in rising order of ranking and identity.
    pub fn get_all_services_id_by_type_id<S>(
        &self,
        manager: &ServiceManager<S>,
        svc_type_id: TypeId,
    ) -> (r: Vec<ServiceId>)
        requires
            manager.wf(),
        ensures
            r@ == manager.registry@.typed(svc_type_id).map_values(|e: ServiceEntry<S>| e.core.id),
    {
        manager.get_services_id_by_type_id(svc_type_id)
    }

    /// The snapshot of the first registered service indexed under
    /// `svc_type_id`.
    pub fn get_first_service_ref_by_type_id<S>(
        &self,
        manager: &ServiceManager<S>,
        svc_type_id: TypeId,
    ) -> (r: Option<ServiceRef>)
        requires
            manager.wf(),
        ensures
            r is Some <==> manager.registry@.typed(svc_type_id).len() > 0,
            r is Some ==> r->0@ == manager.registry@.typed(svc_type_id)[0].service_ref(),
    {
        let query = ServiceQuery::by_type_id(svc_type_id);
        self.get_first_service_ref_by_query(manager, &query)
    }

    /// The snapshots of the registered services indexed under `svc_type_id`,
    /// in rising order of ranking and identity.
    pub fn get_all_services_ref_by_type_id<S>(
        &self,
        manager: &ServiceManager<S>,
        svc_type_id: TypeId,
    ) -> (r: Vec<ServiceRef>)
        requires
            manager.wf(),
        ensures
            r@.map_values(|x: ServiceRef| x@) == manager.registry@.typed(svc_type_id).map_values(
                |e: ServiceEntry<S>| e.service_ref(),
            ),
    {
        manager.get_services_ref_by_type_id(svc_type_id)
    }

    /// Takes a handle to the first registered service indexed under
    /// `svc_type_id`.
    pub fn get_first_service_by_type_id<S>(
        &self,
        manager: &mut ServiceManager<S>,
        svc_type_id: TypeId,
    ) -> (r: Option<Svc>)
        requires
            old(manager).wf(),
            old(manager).registry@.can_checkout_matching(
                QueryView::TypeId(svc_type_id),
                self.dynamod_id,
            ),
        ensures
            registry_only(*old(manager), *final(manager)),
            self.took_first(
                old(manager).registry@,
                QueryView::TypeId(svc_type_id),
                r,
                final(manager).registry@,
            ),
    {
        let query = ServiceQuery::by_type_id(svc_type_id);
        self.first_by_query(manager, &query)
    }

    /// Takes one handle to every registered service indexed under
    /// `svc_type_id`. The handles stand in rising order of ranking and
    /// identity of their services.
    pub fn get_all_services_by_type_id<S>(
        &self,
        manager: &mut ServiceManager<S>,
        svc_type_id: TypeId,
    ) -> (r: Vec<Svc>)
        requires
            old(manager).wf(),
            old(manager).registry@.can_checkout_matching(
                QueryView::TypeId(svc_type_id),
                self.dynamod_id,
            ),
        ensures
            registry_only(*old(manager), *final(manager)),
            self.took_all(
                old(manager).registry@,
                QueryView::TypeId(svc_type_id),
                r@,
                final(manager).registry@,
            ),
    {
        let query = ServiceQuery::by_type_id(svc_type_id);
        self.all_by_query(manager, &query)
    }

    /// The identity of the first registered service with the name
    /// `svc_name`.
    pub fn get_first_service_id_by_name<S>(
        &self,
        manager: &ServiceManager<S>,
        svc_name: &str,
    ) -> (r: Option<ServiceId>)
        requires
            manager.wf(),
        ensures
            r == if manager.registry@.named(svc_name@).len() > 0 {
                Some(manager.registry@.named(svc_name@)[0].core.id)
            } else {
                None
            },
    {
        manager.registry.get_service_id_by_name(svc_name)
    }

    /// The identities of the registered services with the name `svc_name`,
    /// in rising order of ranking and identity.
    pub fn get_all_services_id_by_name<S>(
        &self,
        manager: &ServiceManager<S>,
        svc_name: &str,
    ) -> (r: Vec<ServiceId>)
        requires
            manager.wf(),
        ensures
            r@ == manager.registry@.named(svc_name@).map_values(|e: ServiceEntry<S>| e.core.id),
    {
        manager.get_services_id_by_name(svc_name)
    }

    /// The snapshot of the first registered service with the name
    /// `svc_name`.
    pub fn get_first_service_ref_by_name<S>(
        &self,
        manager: &ServiceManager<S>,
        svc_name: &str,
    ) -> (r: Option<ServiceRef>)
        requires
            manager.wf(),
        ensures
            r is Some <==> manager.registry@.named(svc_name@).len() > 0,
            r is Some ==> r->0@ == manager.registry@.named(svc_name@)[0].service_ref(),
    {
        let query = ServiceQuery::Name(svc_name.to_owned());
        self.get_first_service_ref_by_query(manager, &query)
    }

    /// The snapshots of the registered services with the name `svc_name`, in
    /// rising order of ranking and identity.
    pub fn get_all_services_ref_by_name<S>(
        &self,
        manager: &ServiceManager<S>,
        svc_name: &str,
    ) -> (r: Vec<ServiceRef>)
        requires
            manager.wf(),
        ensures
            r@.map_values(|x: ServiceRef| x@) == manager.registry@.named(svc_name@).map_values(
                |e: ServiceEntry<S>| e.service_ref(),
            ),
    {
        manager.get_services_ref_by_name(svc_name)
    }

    /// Takes a handle to the first registered service with the name
    /// `svc_name`.
    pub fn get_first_service_by_name<S>(
        &self,
        manager: &mut ServiceManager<S>,
        svc_name: &str,
    ) -> (r: Option<Svc>)
        requires
            old(manager).wf(),
            old(manager).registry@.can_checkout_matching(
                QueryView::Name(svc_name@),
                self.dynamod_id,
            ),
        ensures
            registry_only(*old(manager), *final(manager)),
            self.took_first(
                old(manager).registry@,
                QueryView::Name(svc_name@),
                r,
                final(manager).registry@,
            ),
    {
        let query = ServiceQuery::Name(svc_name.to_owned());
        self.first_by_query(manager, &query)
    }

    /// Takes one handle to every registered service with the name
    /// `svc_name`. The handles stand in rising order of ranking and identity
    /// of their services.
    pub fn get_all_services_by_name<S>(
        &self,
        manager: &mut ServiceManager<S>,
        svc_name: &str,
    ) -> (r: Vec<Svc>)
        requires
            old(manager).wf(),
            old(manager).registry@.can_checkout_matching(
                QueryView::Name(svc_name@),
                self.dynamod_id,
            ),
        ensures
            registry_only(*old(manager), *final(manager)),
            self.took_all(
                old(manager).registry@,
                QueryView::Name(svc_name@),
                r@,
                final(manager).registry@,
            ),
    {
        let query = ServiceQuery::Name(svc_name.to_owned());
        self.all_by_query(manager, &query)
    }

    /// Takes a handle, seen under `target`, to the registered service
    /// `svc_id` if its object provides `target`. `None`, and no change, if
    /// the service is not registered or its object says no.
    pub fn get_service_by_id_typed<S: Service>(
        &self,
        manager: &mut ServiceManager<S>,
        svc_id: ServiceId,
        target: TypeId,
    ) -> (r: Option<Svc>)
        requires
            old(manager).wf(),
            old(manager).registry@.use_count(svc_id, self.dynamod_id) < u32::MAX,
        ensures
            registry_only(*old(manager), *final(manager)),
            self.took_first_typed(
                old(manager).registry@,
                QueryView::ServiceId(svc_id),
                target,
                r,
                final(manager).registry@,
            ),
            r is Some ==> r->0.service_id == svc_id,
    {
        let query = ServiceQuery::by_service_id(svc_id);
        proof {
            let v = manager.registry@;
            assert forall|i: int|
                0 <= i < v.live.len() && query@.accepts(
                    (#[trigger] v.live[i]).service_ref(),
                ) implies v.live[i].uses.count(self.dynamod_id) < u32::MAX by {
                v.lemma_live_index(svc_id, i);
            }
        }
        let r = self.get_first_service_by_query(manager, &query, target);
        proof {
            if r is Some {
                let v = old(manager).registry@;
                v.lemma_live_index(r->0.service_id, v.live_index(r->0.service_id));
            }
        }
        r
    }

    /// Takes a handle, seen under `target`, to the first registered service
    /// with the name `svc_name` whose object provides `target`.
    pub fn get_first_service_by_name_typed<S: Service>(
        &self,
        manager: &mut ServiceManager<S>,
        svc_name: &str,
        target: TypeId,
    ) -> (r: Option<Svc>)
        requires
            old(manager).wf(),
            old(manager).registry@.can_checkout_matching(
                QueryView::Name(svc_name@),
                self.dynamod_id,
            ),
        ensures
            registry_only(*old(manager), *final(manager)),
            self.took_first_typed(
                old(manager).registry@,
                QueryView::Name(svc_name@),
                target,
                r,
                final(manager).registry@,
            ),
    {
        let query = ServiceQuery::Name(svc_name.to_owned());
        self.get_first_service_by_query(manager, &query, target)
    }

    /// Takes one handle, seen under `target`, to every registered service
    /// with the name `svc_name` whose object provides `target`.
    pub fn get_all_services_by_name_typed<S: Service>(
        &self,
        manager: &mut ServiceManager<S>,
        svc_name: &str,
        target: TypeId,
    ) -> (r: Vec<Svc>)
        requires
            old(manager).wf(),
            old(manager).registry@.can_checkout_matching(
                QueryView::Name(svc_name@),
                self.dynamod_id,
            ),
        ensures
            registry_only(*old(manager), *final(manager)),
            self.took_all_typed(
                old(manager).registry@,
                QueryView::Name(svc_name@),
                target,
                r@,
                final(manager).registry@,
            ),
    {
        let query = ServiceQuery::Name(svc_name.to_owned());
        self.get_all_services_by_query(manager, &query, target)
    }

    /// Takes a handle, seen under `target`, to the first registered service
    /// indexed under `svc_type_id` whose object provides `target`.
    pub fn get_first_service_by_type_id_typed<S: Service>(
        &self,
        manager: &mut ServiceManager<S>,
        svc_type_id: TypeId,
        target: TypeId,
    ) -> (r: Option<Svc>)
        requires
            old(manager).wf(),
            old(manager).registry@.can_checkout_matching(
                QueryView::TypeId(svc_type_id),
                self.dynamod_id,
            ),
        ensures
            registry_only(*old(manager), *final(manager)),
            self.took_first_typed(
                old(manager).registry@,
                QueryView::TypeId(svc_type_id),
                target,
                r,
                final(manager).registry@,
            ),
    {
        let query = ServiceQuery::by_type_id(svc_type_id);
        self.get_first_service_by_query(manager, &query, target)
    }

    /// Takes one handle, seen under `target`, to every registered service
    /// indexed under `svc_type_id` whose object provides `target`.
    pub fn get_all_services_by_type_id_typed<S: Service>(
        &self,
        manager: &mut ServiceManager<S>,
        svc_type_id: TypeId,
        target: TypeId,
    ) -> (r: Vec<Svc>)
        requires
            old(manager).wf(),
            old(manager).registry@.can_checkout_matching(
                QueryView::TypeId(svc_type_id),
                self.dynamod_id,
            ),
        ensures
            registry_only(*old(manager), *final(manager)),
            self.took_all_typed(
                old(manager).registry@,
                QueryView::TypeId(svc_type_id),
                target,
                r@,
                final(manager).registry@,
            ),
    {
        let query = ServiceQuery::by_type_id(svc_type_id);
        self.get_all_services_by_query(manager, &query, target)
    }

    /// Takes a handle, seen under the type `T`, to the first registered
    /// service indexed under `T` whose object provides it.
    pub fn get_first_service_typed<T: ?Sized + 'static, S: Service>(
        &self,
        manager: &mut ServiceManager<S>,
    ) -> (r: Option<Svc>)
        requires
            old(manager).wf(),
            forall|t: TypeId|
                call_ensures(TypeId::of::<T>, (), t) ==> old(manager).registry@.can_checkout_matching(
                    QueryView::TypeId(t),
                    self.dynamod_id,
                ),
        ensures
            registry_only(*old(manager), *final(manager)),
            exists|t: TypeId|
                call_ensures(TypeId::of::<T>, (), t) && self.took_first_typed(
                    old(manager).registry@,
                    QueryView::TypeId(t),
                    t,
                    r,
                    final(manager).registry@,
                ),
    {
        let svc_type_id = service_type_id::<T>();
        self.get_first_service_by_type_id_typed(manager, svc_type_id, svc_type_id)
    }

    /// Takes one handle, seen under the type `T`, to every registered
    /// service indexed under `T` whose object provides it.
    pub fn get_all_services_typed<T: ?Sized + 'static, S: Service>(
        &self,
        manager: &mut ServiceManager<S>,
    ) -> (r: Vec<Svc>)
        requires
            old(manager).wf(),
            forall|t: TypeId|
                call_ensures(TypeId::of::<T>, (), t) ==> old(manager).registry@.can_checkout_matching(
                    QueryView::TypeId(t),
                    self.dynamod_id,
                ),
        ensures
            registry_only(*old(manager), *final(manager)),
            exists|t: TypeId|
                call_ensures(TypeId::of::<T>, (), t) && self.took_all_typed(
                    old(manager).registry@,
                    QueryView::TypeId(t),
                    t,
                    r@,
                    final(manager).registry@,
                ),
    {
        let svc_type_id = service_type_id::<T>();
        self.get_all_services_by_type_id_typed(manager, svc_type_id, svc_type_id)
    }
}

} // verus!
