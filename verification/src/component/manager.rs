//! The manager of the components of one module.

use super::controller::{
    apply_event, apply_scan, decide, found, matched, satisfied, Component, ComponentController,
    Transition,
};
use super::definition::{ComponentDefinition, Reference};
use crate::module::activator::Activator;
use crate::service::event::ServiceEvent;
use crate::service::listeners::{ListenerId, ServiceListeners};
use crate::service::manager::ServiceManager;
use crate::service::model::RegistryView;
use crate::service::registration::ServiceEventListenerGuard;
use crate::Error;
use vstd::prelude::*;

verus! {

/// A controller, whatever the component it controls.
pub trait ComponentControllerT: Sized + Send + Sync {
    /// What instances are made in the name of.
    type Context;

    /// The controller is in a state that its operations can have produced.
    spec fn ready(&self) -> bool;

    /// The references that the component declares.
    spec fn declared(&self) -> Seq<Reference>;

    /// The candidates of each reference, by its name.
    spec fn refs(&self) -> Map<Seq<char>, Set<(i32, u32)>>;

    /// There is an instance.
    spec fn active(&self) -> bool;

    /// The context in whose name instances are made, once one was set.
    spec fn context(&self) -> Option<Self::Context>;

    /// A controller that is ready has no instance of an unsatisfied
    /// component.
    proof fn lemma_active_is_satisfied(&self)
        requires
            self.ready(),
        ensures
            self.active() ==> satisfied(self.declared(), self.refs()),
    ;

    /// Sets the context in whose name instances are made from now on.
    fn set_context(&mut self, context: Self::Context)
        requires
            old(self).ready(),
        ensures
            final(self).ready(),
            final(self).context() == Some(context),
            final(self).declared() == old(self).declared(),
            final(self).refs() == old(self).refs(),
            final(self).active() == old(self).active(),
    ;

    /// Searches the registry of `manager` for the services that answer the
    /// references, and makes or drops the instance accordingly.
    fn query_registry<S>(&mut self, manager: &ServiceManager<S>)
        requires
            old(self).ready(),
            manager.wf(),
        ensures
            final(self).ready(),
            final(self).context() == old(self).context(),
            final(self).declared() == old(self).declared(),
            final(self).refs() == apply_scan(
                old(self).declared(),
                old(self).refs(),
                manager.registry@,
                old(self).declared().len() as int,
            ),
            instance_follows(
                decide(
                    found(old(self).declared(), manager.registry@),
                    old(self).active(),
                    satisfied(old(self).declared(), final(self).refs()),
                ),
                old(self).active(),
                final(self).active(),
            ),
    ;

    /// Holds `event` against the references, and makes or drops the
    /// instance accordingly.
    fn on_service_event(&mut self, event: &ServiceEvent)
        requires
            old(self).ready(),
            !(event is ServiceModified),
        ensures
            final(self).ready(),
            final(self).context() == old(self).context(),
            final(self).declared() == old(self).declared(),
            final(self).refs() == apply_event(
                old(self).declared(),
                old(self).refs(),
                *event,
                old(self).declared().len() as int,
            ),
            instance_follows(
                decide(
                    matched(old(self).declared(), event.service_ref()@),
                    old(self).active(),
                    satisfied(old(self).declared(), final(self).refs()),
                ),
                old(self).active(),
                final(self).active(),
            ),
    ;

    /// Whether every mandatory reference has a service that answers it.
    fn is_satisfied(&self) -> (r: bool)
        requires
            self.ready(),
        ensures
            r == satisfied(self.declared(), self.refs()),
    ;

    /// Whether there is an instance.
    fn is_active(&self) -> (r: bool)
        requires
            self.ready(),
        ensures
            r == self.active(),
    ;
}

/// `held` is a context that was set, and a copy of `context`.
pub open spec fn holds_copy<X: Clone>(held: Option<X>, context: X) -> bool {
    held matches Some(copy) && cloned(context, copy)
}

/// The controller `after` is `before` with a copy of `context` as its
/// context, and nothing else changed.
pub open spec fn took_context<K: ComponentControllerT>(
    before: K,
    after: K,
    context: K::Context,
) -> bool where K::Context: Clone {
    &&& holds_copy(after.context(), context)
    &&& after.declared() == before.declared()
    &&& after.refs() == before.refs()
    &&& after.active() == before.active()
}

/// What a step does to the instance: a drop leaves none, and a step that
/// neither asks for an instance nor drops it leaves things as they were.
/// Where the step asks for an instance, the component decides whether there
/// is one.
pub open spec fn instance_follows(step: Transition, was_active: bool, active: bool) -> bool {
    &&& step == Transition::Drop ==> !active
    &&& step == Transition::Stay || step == Transition::Update ==> active == was_active
}

/// The controller `after` is `before` after a change of its candidates to
/// `refs`, where `changed` says whether a reference was touched.
pub open spec fn followed<K: ComponentControllerT>(
    before: K,
    after: K,
    refs: Map<Seq<char>, Set<(i32, u32)>>,
    changed: bool,
) -> bool {
    &&& after.ready()
    &&& after.declared() == before.declared()
    &&& after.refs() == refs
    &&& instance_follows(
        decide(changed, before.active(), satisfied(before.declared(), refs)),
        before.active(),
        after.active(),
    )
}

/// The controller `after` is `before` after it followed `event`.
pub open spec fn followed_event<K: ComponentControllerT>(
    before: K,
    after: K,
    event: ServiceEvent,
) -> bool {
    followed(
        before,
        after,
        apply_event(before.declared(), before.refs(), event, before.declared().len() as int),
        matched(before.declared(), event.service_ref()@),
    )
}

/// The controller `after` is `before` after it searched the registry `v`.
pub open spec fn followed_registry<K: ComponentControllerT, S>(
    before: K,
    after: K,
    v: RegistryView<S>,
) -> bool {
    followed(
        before,
        after,
        apply_scan(before.declared(), before.refs(), v, before.declared().len() as int),
        found(before.declared(), v),
    )
}

impl<T: Component<C>, C: Send + Sync> ComponentControllerT for ComponentController<T, C> {
    type Context = C;

    open spec fn ready(&self) -> bool {
        self.wf()
    }

    open spec fn declared(&self) -> Seq<Reference> {
        ComponentController::declared(self)
    }

    open spec fn refs(&self) -> Map<Seq<char>, Set<(i32, u32)>> {
        ComponentController::refs(self)
    }

    open spec fn active(&self) -> bool {
        self.has_instance()
    }

    open spec fn context(&self) -> Option<C> {
        ComponentController::context(self)
    }

    proof fn lemma_active_is_satisfied(&self) {
    }

    fn set_context(&mut self, context: C) {
        ComponentController::set_context(self, context);
    }

    fn query_registry<S>(&mut self, manager: &ServiceManager<S>) {
        ComponentController::query_registry(self, manager);
    }

    fn on_service_event(&mut self, event: &ServiceEvent) {
        ComponentController::on_service_event(self, event);
    }

    fn is_satisfied(&self) -> (r: bool) {
        ComponentController::is_satisfied(self)
    }

    fn is_active(&self) -> (r: bool) {
        self.instance().is_some()
    }
}

/// One component of a manager: its name and its controller.
pub struct ManagedComponent<C> {
    pub name: String,
    pub controller: C,
}

/// What can be said of one component at a glance.
pub struct ComponentStatus {
    pub name: String,
    /// Every mandatory reference has a service that answers it.
    pub satisfied: bool,
    /// There is an instance.
    pub active: bool,
}

/// The components of one module, each with its controller, in the order in
/// which they were added.
pub struct ComponentManager<C: ComponentControllerT> {
    pub components: Vec<ManagedComponent<C>>,
}

impl<C: ComponentControllerT> ComponentManager<C> {
    /// Every controller is ready, and no name stands twice.
    pub open spec fn wf(&self) -> bool {
        &&& forall|i: int|
            0 <= i < self.components@.len() ==> (#[trigger] self.components@[i]).controller.ready()
        &&& forall|i: int, j: int|
            0 <= i < j < self.components@.len() ==> (#[trigger] self.components@[i]).name@ != (
            #[trigger] self.components@[j]).name@
    }

    /// No component of a well-formed manager has an instance while it is
    /// unsatisfied.
    pub proof fn law_active_components_are_satisfied(&self, i: int)
        requires
            self.wf(),
            0 <= i < self.components@.len(),
        ensures
            self.components@[i].controller.active() ==> satisfied(
                self.components@[i].controller.declared(),
                self.components@[i].controller.refs(),
            ),
    {
        self.components@[i].controller.lemma_active_is_satisfied();
    }

    /// The names of the components, in the order in which they were added.
    pub open spec fn names(&self) -> Seq<Seq<char>> {
        Seq::new(self.components@.len(), |i: int| self.components@[i].name@)
    }

    /// A manager without components.
    pub fn new() -> (r: ComponentManager<C>)
        ensures
            r.wf(),
            r.components@.len() == 0,
    {
        ComponentManager { components: Vec::new() }
    }

    /// The position of the component `name`.
    fn find(&self, name: &String) -> (r: Option<usize>)
        ensures
            r is Some ==> r->0 < self.components@.len() && self.components@[r->0 as int].name@
                == name@,
            r is None ==> forall|i: int|
                0 <= i < self.components@.len() ==> (#[trigger] self.components@[i]).name@ != name@,
    {
        let mut i: usize = 0;
        while i < self.components.len()
            invariant
                i <= self.components@.len(),
                forall|k: int| 0 <= k < i ==> (#[trigger] self.components@[k]).name@ != name@,
            decreases self.components@.len() - i,
        {
            if self.components[i].name == *name {
                return Some(i);
            }
            i = i + 1;
        }
        None
    }

    /// The components after `entry` was added: in the place of the component
    /// of its name if there is one, else behind the others.
    pub open spec fn added(
        components: Seq<ManagedComponent<C>>,
        entry: ManagedComponent<C>,
    ) -> Seq<ManagedComponent<C>> {
        if exists|i: int|
            0 <= i < components.len() && (#[trigger] components[i]).name@ == entry.name@ {
            components.update(
                choose|i: int|
                    0 <= i < components.len() && (#[trigger] components[i]).name@ == entry.name@,
                entry,
            )
        } else {
            components.push(entry)
        }
    }

    /// Adds `controller` under `name`. A component of that name that was
    /// added before is replaced, at its place; else the component stands
    /// behind the others.
    pub fn add_controller(self, name: String, controller: C) -> (r: ComponentManager<C>)
        requires
            self.wf(),
            controller.ready(),
        ensures
            r.wf(),
            r.components@ == Self::added(self.components@, ManagedComponent { name, controller }),
    {
        let found = self.find(&name);
        let mut this = self;
        match found {
            Some(i) => {
                proof {
                    let k = choose|k: int|
                        0 <= k < self.components@.len() && (#[trigger] self.components@[k]).name@
                            == name@;
                    if k < i {
                        assert(self.components@[k].name@ != self.components@[i as int].name@);
                    } else if i < k {
                        assert(self.components@[i as int].name@ != self.components@[k].name@);
                    }
                }
                this.components[i] = ManagedComponent { name, controller };
                assert(this.components@ =~= self.components@.update(
                    i as int,
                    ManagedComponent { name, controller },
                ));
                assert forall|a: int, b: int| 0 <= a < b < this.components@.len() implies (
                #[trigger] this.components@[a]).name@ != (#[trigger] this.components@[b]).name@ by {
                    assert(self.components@[a].name@ != self.components@[b].name@);
                }
            },
            None => {
                this.components.push(ManagedComponent { name, controller });
                assert forall|a: int, b: int| 0 <= a < b < this.components@.len() implies (
                #[trigger] this.components@[a]).name@ != (#[trigger] this.components@[b]).name@ by {
                    if b < self.components@.len() {
                        assert(self.components@[a].name@ != self.components@[b].name@);
                    } else {
                        assert(this.components@[a] == self.components@[a]);
                    }
                }
            },
        }
        this
    }

    /// Sets, for every component, a copy of `context` as the context in
    /// whose name instances are made from now on. Nothing else changes.
    pub fn set_context(&mut self, context: &C::Context) where C::Context: Clone
        requires
            old(self).wf(),
        ensures
            final(self).wf(),
            final(self).names() == old(self).names(),
            forall|k: int|
                0 <= k < old(self).components@.len() ==> #[trigger] took_context(
                    old(self).components@[k].controller,
                    final(self).components@[k].controller,
                    *context,
                ),
    {
        let n = self.components.len();
        let mut i: usize = 0;
        while i < n
            invariant
                self.wf(),
                i <= n,
                n == self.components@.len(),
                n == old(self).components@.len(),
                self.names() == old(self).names(),
                forall|k: int|
                    0 <= k < i ==> #[trigger] took_context(
                        old(self).components@[k].controller,
                        self.components@[k].controller,
                        *context,
                    ),
                forall|k: int|
                    i <= k < n ==> self.components@[k] == #[trigger] old(self).components@[k],
            decreases n - i,
        {
            let ghost before = *self;
            let own = context.clone();
            self.components[i].controller.set_context(own);
            proof {
                assert forall|a: int, b: int| 0 <= a < b < self.components@.len() implies (
                #[trigger] self.components@[a]).name@ != (#[trigger] self.components@[b]).name@ by {
                    assert(before.components@[a].name@ != before.components@[b].name@);
                }
                assert(self.names() =~= before.names());
                assert forall|k: int| 0 <= k < i + 1 implies #[trigger] took_context(
                    old(self).components@[k].controller,
                    self.components@[k].controller,
                    *context,
                ) by {
                    if k < i {
                        assert(self.components@[k] == before.components@[k]);
                        assert(took_context(
                            old(self).components@[k].controller,
                            before.components@[k].controller,
                            *context,
                        ));
                    } else {
                        assert(before.components@[k] == old(self).components@[k]);
                        assert(cloned(*context, own));
                    }
                }
            }
            i = i + 1;
        }
    }

    /// Lets every controller search the registry of `manager`, in the order
    /// in which the components were added.
    pub fn query_registry<S>(&mut self, manager: &ServiceManager<S>)
        requires
            old(self).wf(),
            manager.wf(),
        ensures
            final(self).wf(),
            final(self).names() == old(self).names(),
            forall|k: int|
                0 <= k < old(self).components@.len() ==> followed_registry(
                    (#[trigger] old(self).components@[k]).controller,
                    final(self).components@[k].controller,
                    manager.registry@,
                ) && final(self).components@[k].controller.context()
                    == old(self).components@[k].controller.context(),
    {
        let n = self.components.len();
        let mut i: usize = 0;
        while i < n
            invariant
                self.wf(),
                manager.wf(),
                i <= n,
                n == self.components@.len(),
                self.names() == old(self).names(),
                forall|k: int|
                    0 <= k < i ==> followed_registry(
                        (#[trigger] old(self).components@[k]).controller,
                        self.components@[k].controller,
                        manager.registry@,
                    ) && self.components@[k].controller.context()
                        == old(self).components@[k].controller.context(),
                forall|k: int|
                    i <= k < n ==> self.components@[k] == #[trigger] old(self).components@[k],
            decreases n - i,
        {
            let ghost before = *self;
            self.components[i].controller.query_registry(manager);
            proof {
                assert forall|a: int, b: int| 0 <= a < b < self.components@.len() implies (
                #[trigger] self.components@[a]).name@ != (#[trigger] self.components@[b]).name@ by {
                    assert(before.components@[a].name@ != before.components@[b].name@);
                }
                assert(self.names() =~= before.names());
            }
            i = i + 1;
        }
    }

    /// Hands `event` to every controller, in the order in which the
    /// components were added.
    pub fn on_event(&mut self, event: &ServiceEvent)
        requires
            old(self).wf(),
            !(event is ServiceModified),
        ensures
            final(self).wf(),
            final(self).names() == old(self).names(),
            forall|k: int|
                0 <= k < old(self).components@.len() ==> followed_event(
                    (#[trigger] old(self).components@[k]).controller,
                    final(self).components@[k].controller,
                    *event,
                ) && final(self).components@[k].controller.context()
                    == old(self).components@[k].controller.context(),
    {
        let n = self.components.len();
        let mut i: usize = 0;
        while i < n
            invariant
                self.wf(),
                !(event is ServiceModified),
                i <= n,
                n == self.components@.len(),
                self.names() == old(self).names(),
                forall|k: int|
                    0 <= k < i ==> followed_event(
                        (#[trigger] old(self).components@[k]).controller,
                        self.components@[k].controller,
                        *event,
                    ) && self.components@[k].controller.context()
                        == old(self).components@[k].controller.context(),
                forall|k: int|
                    i <= k < n ==> self.components@[k] == #[trigger] old(self).components@[k],
            decreases n - i,
        {
            let ghost before = *self;
            self.components[i].controller.on_service_event(event);
            proof {
                assert forall|a: int, b: int| 0 <= a < b < self.components@.len() implies (
                #[trigger] self.components@[a]).name@ != (#[trigger] self.components@[b]).name@ by {
                    assert(before.components@[a].name@ != before.components@[b].name@);
                }
                assert(self.names() =~= before.names());
            }
            i = i + 1;
        }
    }

    /// The state of every component, in the order in which the components
    /// were added.
    pub fn status(&self) -> (r: Vec<ComponentStatus>)
        requires
            self.wf(),
        ensures
            r@.len() == self.components@.len(),
            forall|i: int|
                0 <= i < r@.len() ==> (#[trigger] r@[i]).name@ == self.components@[i].name@
                    && r@[i].satisfied == satisfied(
                    self.components@[i].controller.declared(),
                    self.components@[i].controller.refs(),
                )
                    && r@[i].active == self.components@[i].controller.active(),
    {
        let mut out: Vec<ComponentStatus> = Vec::new();
        let mut i: usize = 0;
        while i < self.components.len()
            invariant
                self.wf(),
                i <= self.components@.len(),
                out@.len() == i,
                forall|k: int|
                    0 <= k < i ==> (#[trigger] out@[k]).name@ == self.components@[k].name@
                        && out@[k].satisfied == satisfied(
                        self.components@[k].controller.declared(),
                        self.components@[k].controller.refs(),
                    )
                        && out@[k].active == self.components@[k].controller.active(),
            decreases self.components@.len() - i,
        {
            let c = &self.components[i];
            out.push(
                ComponentStatus {
                    name: c.name.clone(),
                    satisfied: c.controller.is_satisfied(),
                    active: c.controller.is_active(),
                },
            );
            i = i + 1;
        }
        out
    }
}

impl<T: Component<C>, C: Send + Sync> ComponentManager<ComponentController<T, C>> {
    /// Adds the component `T` with a fresh controller, under the name that
    /// its definition gives. A component of that name that was added before
    /// is replaced, at its place.
    pub fn add_component(self) -> (r: ComponentManager<ComponentController<T, C>>)
        requires
            self.wf(),
        ensures
            r.wf(),
            exists|def: ComponentDefinition, controller: ComponentController<T, C>|
                {
                    &&& call_ensures(T::get_definition, (), def)
                    &&& controller.wf()
                    &&& controller.declared() == def.references@
                    &&& controller.refs() == Map::<Seq<char>, Set<(i32, u32)>>::empty()
                    &&& !controller.has_instance()
                    &&& controller.context() is None
                    &&& r.components@ == Self::added(
                        self.components@,
                        ManagedComponent { name: def.name, controller },
                    )
                },
    {
        let def = T::get_definition();
        let ghost given = def;
        let name = def.name.clone();
        let cc: ComponentController<T, C> = ComponentController::new(def);
        let ghost fresh = cc;
        let r = self.add_controller(name, cc);
        assert(call_ensures(T::get_definition, (), given) && r.components@ == Self::added(
            self.components@,
            ManagedComponent { name: given.name, controller: fresh },
        ));
        r
    }
}

/// What a module keeps while its components are managed: the manager and the
/// guard of its subscription to the events of the registry.
pub struct ComponentManagerHandler<C: ComponentControllerT> {
    pub manager: ComponentManager<C>,
    pub guard: ServiceEventListenerGuard,
}

impl<C: ComponentControllerT> Activator for ComponentManagerHandler<C> {
}

impl<C: ComponentControllerT> ComponentManagerHandler<C> {
    /// Puts `manager` to work for the module of `context`: sets the context
    /// of every component, subscribes to the events of the registry, and
    /// searches the registry once for every component.
    pub fn start<S, F: Fn(ListenerId) -> bool>(
        context: &C::Context,
        svc_manager: &mut ServiceManager<S>,
        manager: ComponentManager<C>,
        is_alive: F,
    ) -> (r: Result<ComponentManagerHandler<C>, Error>) where C::Context: Clone
        requires
            manager.wf(),
            old(svc_manager).wf(),
            old(svc_manager).listeners.next_id() < u32::MAX,
            forall|i: int|
                0 <= i < old(svc_manager).listeners.ids().len() ==> call_requires(
                    is_alive,
                    (old(svc_manager).listeners.ids()[i],),
                ),
        ensures
            final(svc_manager).wf(),
            final(svc_manager).registry == old(svc_manager).registry,
            final(svc_manager).pending@ == old(svc_manager).pending@,
            exists|kept: Seq<bool>|
                {
                    &&& ServiceListeners::answers(is_alive, old(svc_manager).listeners.ids(), kept)
                    &&& final(svc_manager).listeners.ids() == ServiceListeners::chosen(
                        old(svc_manager).listeners.ids(),
                        kept,
                    ).push(old(svc_manager).listeners.next_id())
                },
            r matches Ok(handler) && {
                &&& handler.guard.listener_id == old(svc_manager).listeners.next_id()
                &&& handler.manager.wf()
                &&& handler.manager.names() == manager.names()
                &&& forall|k: int|
                    0 <= k < manager.components@.len() ==> followed_registry(
                        (#[trigger] manager.components@[k]).controller,
                        handler.manager.components@[k].controller,
                        old(svc_manager).registry@,
                    ) && holds_copy(handler.manager.components@[k].controller.context(), *context)
            },
    {
        let mut working = manager;
        working.set_context(context);
        let ghost prepared = working;
        let listener_id = svc_manager.register_listener(is_alive);
        working.query_registry(svc_manager);
        proof {
            assert forall|k: int| 0 <= k < manager.components@.len() implies followed_registry(
                (#[trigger] manager.components@[k]).controller,
                working.components@[k].controller,
                old(svc_manager).registry@,
            ) && holds_copy(working.components@[k].controller.context(), *context) by {
                assert(prepared.names().len() == manager.names().len());
                assert(working.names().len() == manager.names().len());
                assert(took_context(
                    manager.components@[k].controller,
                    prepared.components@[k].controller,
                    *context,
                ));
                let scanned = prepared.components@[k];
                assert(working.components@[k].controller.context()
                    == scanned.controller.context());
                assert(followed_registry(
                    prepared.components@[k].controller,
                    working.components@[k].controller,
                    svc_manager.registry@,
                ));
            }
        }
        Ok(
            ComponentManagerHandler {
                manager: working,
                guard: ServiceEventListenerGuard::new(listener_id),
            },
        )
    }

    /// The manager.
    pub fn get_manager(&self) -> (r: &ComponentManager<C>)
        ensures
            *r == self.manager,
    {
        &self.manager
    }

    pub fn boxed(self) -> (r: Box<Self>)
        ensures
            *r == self,
    {
        Box::new(self)
    }
}

} // verus!
