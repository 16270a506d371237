//! The controller of one component: it follows the services that answer the
//! component's references, and makes and drops the instance accordingly.

use super::definition::{Cardinality, ComponentDefinition, Reference};
use super::references::{touch, ComponentReferences};
use crate::module::context::Context;
use crate::service::event::ServiceEvent;
use crate::service::manager::ServiceManager;
use crate::service::model::{RegistryView, ServiceEntry};
use crate::service::reference::{ServiceRef, ServiceRefView};
use crate::service::registration::ServiceRegistration;
use vstd::prelude::*;

verus! {

/// What is called at the turns of an instance's life.
pub trait Lifecycle {
    fn on_start(&self) {
    }
}

/// A component: a type that says what it requires and how it is made.
///
/// `C` is what an instance is made in the name of: the context of the module
/// that the component belongs to.
pub trait Component<C = Context>: Lifecycle + Sized + Send + Sync {
    /// What the component provides and requires.
    fn get_definition() -> ComponentDefinition;

    /// Makes an instance for the module of `context` from the services that
    /// answer the references, or `None` if that cannot be done.
    fn instantiate(context: &C, references: &ComponentReferences) -> Option<Self>;

    /// Tells the instance that the services behind the field `field_id`
    /// changed.
    fn update(
        &self,
        field_id: usize,
        context: &C,
        references: &ComponentReferences,
    ) -> Option<()>;
}

/// What a change of the references asks of the controller.
#[derive(Debug, Clone, Copy, PartialEq, Eq, Structural)]
pub enum Transition {
    /// Nothing: no reference was touched, or the component is unsatisfied
    /// as it was before.
    Stay,
    /// The component became satisfied: an instance is to be made.
    Instantiate,
    /// The component is satisfied as it was before, with other services.
    Update,
    /// The component is satisfied no longer: the instance is dropped.
    Drop,
}

/// Every mandatory reference has a service that answers it. References that
/// are optional or multiple never stand in the way.
pub open spec fn satisfied(
    references: Seq<Reference>,
    refs: Map<Seq<char>, Set<(i32, u32)>>,
) -> bool {
    forall|i: int|
        0 <= i < references.len() && (#[trigger] references[i]).options.cardinality
            == Cardinality::Mandatory ==> refs.contains_key(references[i].name@)
            && !refs[references[i].name@].is_empty()
}

/// The service that `e` describes answers one of the references.
pub open spec fn matched(references: Seq<Reference>, e: ServiceRefView) -> bool {
    exists|i: int| 0 <= i < references.len() && (#[trigger] references[i]).svc_query.accepts(e)
}

/// The candidates after `event` was held against the first `n` references:
/// the service joins the candidates of each reference that it answers when
/// it was registered, and leaves them when it was unregistered.
pub open spec fn apply_event(
    references: Seq<Reference>,
    refs: Map<Seq<char>, Set<(i32, u32)>>,
    event: ServiceEvent,
    n: int,
) -> Map<Seq<char>, Set<(i32, u32)>>
    decreases n,
{
    if n <= 0 {
        refs
    } else {
        let prev = apply_event(references, refs, event, n - 1);
        if references[n - 1].svc_query.accepts(event.service_ref()@) {
            touch(
                prev,
                references[n - 1].name@,
                event.service_ref().core.key(),
                event is ServiceRegistered,
            )
        } else {
            prev
        }
    }
}

/// The rankings and identities of `cands`.
pub open spec fn keys_of<S>(cands: Seq<ServiceEntry<S>>) -> Set<(i32, u32)> {
    Set::new(
        |k: (i32, u32)|
            exists|j: int| 0 <= j < cands.len() && (#[trigger] cands[j]).core.key() == k,
    )
}

/// The candidates after the registry `v` was searched for the first `n`
/// references: every registered service that answers a reference joins its
/// candidates.
pub open spec fn apply_scan<S>(
    references: Seq<Reference>,
    refs: Map<Seq<char>, Set<(i32, u32)>>,
    v: RegistryView<S>,
    n: int,
) -> Map<Seq<char>, Set<(i32, u32)>>
    decreases n,
{
    if n <= 0 {
        refs
    } else {
        let prev = apply_scan(references, refs, v, n - 1);
        let cands = v.candidates(references[n - 1].svc_query@);
        if cands.len() > 0 {
            let name = references[n - 1].name@;
            let cur = if prev.contains_key(name) {
                prev[name]
            } else {
                Set::empty()
            };
            prev.insert(name, cur.union(keys_of(cands)))
        } else {
            prev
        }
    }
}

/// A registered service answers one of the references.
pub open spec fn found<S>(references: Seq<Reference>, v: RegistryView<S>) -> bool {
    exists|i: int|
        0 <= i < references.len() && v.candidates((#[trigger] references[i]).svc_query@).len() > 0
}

/// What is to be done when the references were touched (`changed`), given
/// whether an instance was there (`was`) and whether the component is
/// satisfied (`now`).
pub open spec fn decide(changed: bool, was: bool, now: bool) -> Transition {
    if !changed {
        Transition::Stay
    } else if now && was {
        Transition::Update
    } else if now {
        Transition::Instantiate
    } else if was {
        Transition::Drop
    } else {
        Transition::Stay
    }
}

/// An instance of a component, and the registration under which it is
/// published if it is.
pub struct ComponentInstance<T> {
    pub registration: Option<ServiceRegistration>,
    pub component: T,
}

impl<T> ComponentInstance<T> {
    pub fn new(registration: Option<ServiceRegistration>, component: T) -> (r: ComponentInstance<T>)
        ensures
            r.registration == registration,
            r.component == component,
    {
        ComponentInstance { registration, component }
    }
}

/// The controller of the component `T`, which is made in the name of a `C`.
pub struct ComponentController<T: Component<C>, C = Context> {
    context: Option<C>,
    definition: ComponentDefinition,
    references: ComponentReferences,
    instances: Vec<ComponentInstance<T>>,
}

impl<T: Component<C>, C> ComponentController<T, C> {
    /// The references that the component declares.
    pub closed spec fn declared(&self) -> Seq<Reference> {
        self.definition.references@
    }

    /// The candidates of each reference, by its name.
    pub closed spec fn refs(&self) -> Map<Seq<char>, Set<(i32, u32)>> {
        self.references@
    }

    /// The instances.
    pub closed spec fn instances(&self) -> Seq<ComponentInstance<T>> {
        self.instances@
    }

    /// The context in whose name instances are made.
    pub closed spec fn context(&self) -> Option<C> {
        self.context
    }

    /// The table of candidates as it is handed to the component.
    pub closed spec fn reference_table(&self) -> ComponentReferences {
        self.references
    }

    /// The table of candidates is well-formed.
    pub closed spec fn refs_wf(&self) -> bool {
        self.references.wf()
    }

    /// There is an instance.
    pub open spec fn has_instance(&self) -> bool {
        self.instances().len() > 0
    }

    /// There is at most one instance, and none while the component is
    /// unsatisfied.
    pub open spec fn wf(&self) -> bool {
        &&& self.refs_wf()
        &&& self.instances().len() <= 1
        &&& self.has_instance() ==> satisfied(self.declared(), self.refs())
    }

    /// A controller for the component that `definition` declares: no
    /// candidates, no instance, no context.
    pub fn new(definition: ComponentDefinition) -> (r: ComponentController<T, C>)
        ensures
            r.wf(),
            r.declared() == definition.references@,
            r.refs() == Map::<Seq<char>, Set<(i32, u32)>>::empty(),
            !r.has_instance(),
            r.context() is None,
    {
        ComponentController {
            context: None,
            definition,
            references: ComponentReferences::new(),
            instances: Vec::new(),
        }
    }

    /// Sets the context in whose name instances are made from now on.
    pub fn set_context(&mut self, context: C)
        ensures
            final(self).context() == Some(context),
            final(self).declared() == old(self).declared(),
            final(self).refs() == old(self).refs(),
            final(self).refs_wf() == old(self).refs_wf(),
            final(self).instances() == old(self).instances(),
    {
        self.context = Some(context);
    }

    /// The definition of the component.
    pub fn definition(&self) -> (r: &ComponentDefinition)
        ensures
            r.references@ == self.declared(),
    {
        &self.definition
    }

    /// The candidates of each reference.
    pub fn references(&self) -> (r: &ComponentReferences)
        ensures
            r.wf() == self.refs_wf(),
            r@ == self.refs(),
    {
        &self.references
    }

    /// The instance, if there is one.
    pub fn instance(&self) -> (r: Option<&T>)
        ensures
            r is Some <==> self.has_instance(),
            r is Some ==> *r->0 == self.instances()[0].component,
    {
        if self.instances.len() > 0 {
            Some(&self.instances[0].component)
        } else {
            None
        }
    }

    /// Whether every mandatory reference has a service that answers it.
    pub fn is_satisfied(&self) -> (r: bool)
        requires
            self.refs_wf(),
        ensures
            r == satisfied(self.declared(), self.refs()),
    {
        let mut i: usize = 0;
        while i < self.definition.references.len()
            invariant
                self.refs_wf(),
                i <= self.definition.references@.len(),
                forall|k: int|
                    0 <= k < i && (#[trigger] self.definition.references@[k]).options.cardinality
                        == Cardinality::Mandatory ==> self.references@.contains_key(
                        self.definition.references@[k].name@,
                    ) && !self.references@[self.definition.references@[k].name@].is_empty(),
            decreases self.definition.references@.len() - i,
        {
            let rfe = &self.definition.references[i];
            if rfe.options.cardinality == Cardinality::Mandatory && !self.references.is_bound(
                rfe.name.as_str(),
            ) {
                return false;
            }
            i = i + 1;
        }
        true
    }

    /// Carries out what a change of the references asks for, but for making
    /// the instance: drops the instance if the component is satisfied no
    /// longer, and says what the change asks for.
    fn handle_change(&mut self, changed: bool) -> (r: Transition)
        requires
            old(self).refs_wf(),
            old(self).instances().len() <= 1,
            !changed ==> old(self).wf(),
        ensures
            final(self).wf(),
            final(self).context() == old(self).context(),
            final(self).declared() == old(self).declared(),
            final(self).refs() == old(self).refs(),
            r == decide(
                changed,
                old(self).has_instance(),
                satisfied(old(self).declared(), old(self).refs()),
            ),
            r == Transition::Drop ==> !final(self).has_instance(),
            r != Transition::Drop ==> final(self).instances() == old(self).instances(),
    {
        if !changed {
            return Transition::Stay;
        }
        let was_satisfied = self.instances.len() > 0;
        let is_satisfied = self.is_satisfied();
        if is_satisfied {
            if was_satisfied {
                Transition::Update
            } else {
                Transition::Instantiate
            }
        } else if was_satisfied {
            self.instances.clear();
            Transition::Drop
        } else {
            Transition::Stay
        }
    }

    /// Holds `event` against the references and follows the change, but for
    /// making the instance.
    ///
    /// The service of the event joins or leaves the candidates of every
    /// reference that it answers. If none answers, nothing changes. If the
    /// component thereby loses a mandatory reference, the instance is
    /// dropped. If it becomes satisfied, the result says so and the caller
    /// makes the instance and hands it to `install`.
    pub fn track_event(&mut self, event: &ServiceEvent) -> (r: Transition)
        requires
            old(self).wf(),
            !(event is ServiceModified),
        ensures
            final(self).wf(),
            final(self).context() == old(self).context(),
            final(self).declared() == old(self).declared(),
            final(self).refs() == apply_event(
                old(self).declared(),
                old(self).refs(),
                *event,
                old(self).declared().len() as int,
            ),
            r == decide(
                matched(old(self).declared(), event.service_ref()@),
                old(self).has_instance(),
                satisfied(old(self).declared(), final(self).refs()),
            ),
            r == Transition::Drop ==> !final(self).has_instance(),
            r != Transition::Drop ==> final(self).instances() == old(self).instances(),
    {
        let service_ref = event.get_service_ref();
        let mut changed = false;
        let mut i: usize = 0;
        while i < self.definition.references.len()
            invariant
                self.refs_wf(),
                i <= self.definition.references@.len(),
                self.definition == old(self).definition,
                self.context == old(self).context,
                self.instances == old(self).instances,
                *service_ref == event.service_ref(),
                !(event is ServiceModified),
                self.references@ == apply_event(
                    self.definition.references@,
                    old(self).references@,
                    *event,
                    i as int,
                ),
                changed == exists|k: int|
                    0 <= k < i && (#[trigger] self.definition.references@[k]).svc_query.accepts(
                        service_ref@,
                    ),
                !changed ==> self.references == old(self).references,
            decreases self.definition.references@.len() - i,
        {
            let ghost before = changed;
            if self.definition.references[i].svc_query.matches(service_ref) {
                changed = true;
                match event {
                    ServiceEvent::ServiceRegistered(_) => {
                        self.references.insert(
                            self.definition.references[i].name.as_str(),
                            service_ref.core,
                        );
                    },
                    _ => {
                        self.references.remove(
                            self.definition.references[i].name.as_str(),
                            service_ref.core,
                        );
                    },
                }
            }
            proof {
                if before {
                    let k = choose|k: int|
                        0 <= k < i && (
                        #[trigger] self.definition.references@[k]).svc_query.accepts(service_ref@);
                    assert(0 <= k < i + 1);
                }
                if changed && !before {
                    assert(self.definition.references@[i as int].svc_query.accepts(service_ref@));
                }
            }
            i = i + 1;
        }
        self.handle_change(changed)
    }

    /// Takes up the instance that was made after `track_event` asked for
    /// one, and says whether it was kept.
    ///
    /// The instance is kept if the component is satisfied and has no
    /// instance. Otherwise, and when `component` is `None`, nothing changes.
    pub fn install(&mut self, component: Option<T>) -> (r: bool)
        requires
            old(self).wf(),
        ensures
            final(self).wf(),
            final(self).context() == old(self).context(),
            final(self).declared() == old(self).declared(),
            final(self).refs() == old(self).refs(),
            final(self).reference_table() == old(self).reference_table(),
            r == (component is Some && !old(self).has_instance() && satisfied(
                old(self).declared(),
                old(self).refs(),
            )),
            r ==> final(self).instances() == seq![
                ComponentInstance { registration: None, component: component->0 },
            ],
            !r ==> final(self).instances() == old(self).instances(),
    {
        match component {
            Some(made) => {
                if self.instances.len() == 0 && self.is_satisfied() {
                    self.instances.push(ComponentInstance::new(None, made));
                    assert(self.instances@ =~= seq![
                        ComponentInstance { registration: None, component: made },
                    ]);
                    true
                } else {
                    false
                }
            },
            None => false,
        }
    }

    /// `made` is what the component returned when it was asked for an
    /// instance in the name of the context and with the table of candidates
    /// as it stands; without a context it is not asked, and `made` is
    /// `None`.
    pub open spec fn made(&self, made: Option<T>) -> bool {
        match self.context() {
            Some(context) => call_ensures(
                T::instantiate,
                (&context, &self.reference_table()),
                made,
            ),
            None => made is None,
        }
    }

    /// The instances after `made` was taken up by a controller that had
    /// none.
    pub open spec fn kept(made: Option<T>) -> Seq<ComponentInstance<T>> {
        match made {
            Some(component) => seq![ComponentInstance { registration: None, component }],
            None => Seq::empty(),
        }
    }

    /// Makes an instance in the name of the context, if there is one.
    fn instantiate(&self) -> (r: Option<T>)
        ensures
            self.made(r),
    {
        match &self.context {
            Some(context) => T::instantiate(context, &self.references),
            None => None,
        }
    }

    /// Holds `event` against the references and follows the change: see
    /// `track_event`. Where the component became satisfied, an instance is
    /// made in the name of the context and kept; if the component makes
    /// none, or no context is set, the controller stays without one.
    pub fn on_service_event(&mut self, event: &ServiceEvent) -> (r: Transition)
        requires
            old(self).wf(),
            !(event is ServiceModified),
        ensures
            final(self).wf(),
            final(self).context() == old(self).context(),
            final(self).declared() == old(self).declared(),
            final(self).refs() == apply_event(
                old(self).declared(),
                old(self).refs(),
                *event,
                old(self).declared().len() as int,
            ),
            r == decide(
                matched(old(self).declared(), event.service_ref()@),
                old(self).has_instance(),
                satisfied(old(self).declared(), final(self).refs()),
            ),
            r == Transition::Drop ==> !final(self).has_instance(),
            r == Transition::Stay || r == Transition::Update
                ==> final(self).instances() == old(self).instances(),
            r == Transition::Instantiate ==> exists|made: Option<T>|
                final(self).made(made) && final(self).instances() == Self::kept(made),
    {
        let r = self.track_event(event);
        if r == Transition::Instantiate {
            let made = self.instantiate();
            let ghost given = made;
            self.install(made);
            assert(self.made(given) && self.instances() =~= Self::kept(given));
        }
        r
    }

    /// Searches the registry of `manager` for the services that answer the
    /// references, and follows the change, but for making the instance.
    ///
    /// Every registered service that answers a reference joins its
    /// candidates. If none is found, nothing changes. If the component
    /// thereby becomes satisfied, the result says so and the caller makes the
    /// instance and hands it to `install`.
    pub fn track_registry<S>(&mut self, manager: &ServiceManager<S>) -> (r: Transition)
        requires
            old(self).wf(),
            manager.wf(),
        ensures
            final(self).wf(),
            final(self).context() == old(self).context(),
            final(self).declared() == old(self).declared(),
            final(self).refs() == apply_scan(
                old(self).declared(),
                old(self).refs(),
                manager.registry@,
                old(self).declared().len() as int,
            ),
            r == decide(
                found(old(self).declared(), manager.registry@),
                old(self).has_instance(),
                satisfied(old(self).declared(), final(self).refs()),
            ),
            r == Transition::Drop ==> !final(self).has_instance(),
            r != Transition::Drop ==> final(self).instances() == old(self).instances(),
    {
        let mut changed = false;
        let mut i: usize = 0;
        let ghost v = manager.registry@;
        while i < self.definition.references.len()
            invariant
                self.refs_wf(),
                manager.wf(),
                v == manager.registry@,
                i <= self.definition.references@.len(),
                self.definition == old(self).definition,
                self.context == old(self).context,
                self.instances == old(self).instances,
                self.references@ == apply_scan(
                    self.definition.references@,
                    old(self).references@,
                    v,
                    i as int,
                ),
                changed == exists|k: int|
                    0 <= k < i && v.candidates(
                        (#[trigger] self.definition.references@[k]).svc_query@,
                    ).len() > 0,
                !changed ==> self.references == old(self).references,
            decreases self.definition.references@.len() - i,
        {
            let ghost before = changed;
            let ghost prev = self.references@;
            let ghost query = self.definition.references@[i as int].svc_query@;
            let ghost name = self.definition.references@[i as int].name@;
            let ghost cands = v.candidates(query);
            let ghost cur = if prev.contains_key(name) {
                prev[name]
            } else {
                Set::<(i32, u32)>::empty()
            };
            let hits = manager.registry.get_services_ref_by_query(
                &self.definition.references[i].svc_query,
            );
            proof {
                let looked = hits@.map_values(|x: ServiceRef| x@);
                let snaps = cands.map_values(|e: ServiceEntry<S>| e.service_ref());
                assert(looked.len() == hits@.len());
                assert(snaps.len() == cands.len());
                assert forall|j: int| 0 <= j < hits@.len() implies (#[trigger] hits@[j]).core
                    == cands[j].core by {
                    assert(looked[j] == hits@[j]@);
                    assert(snaps[j] == cands[j].service_ref());
                }
            }
            let mut j: usize = 0;
            while j < hits.len()
                invariant
                    self.refs_wf(),
                    j <= hits@.len(),
                    hits@.len() == cands.len(),
                    forall|k: int| 0 <= k < hits@.len() ==> (#[trigger] hits@[k]).core
                        == cands[k].core,
                    i < self.definition.references@.len(),
                    self.definition == old(self).definition,
                    self.context == old(self).context,
                    self.instances == old(self).instances,
                    name == self.definition.references@[i as int].name@,
                    cur == if prev.contains_key(name) {
                        prev[name]
                    } else {
                        Set::<(i32, u32)>::empty()
                    },
                    j == 0 ==> self.references@ == prev,
                    j == 0 ==> changed == before,
                    j == 0 && !changed ==> self.references == old(self).references,
                    j > 0 ==> changed,
                    j > 0 ==> self.references@ == prev.insert(
                        name,
                        cur.union(keys_of(cands.take(j as int))),
                    ),
                decreases hits@.len() - j,
            {
                changed = true;
                self.references.insert(self.definition.references[i].name.as_str(), hits[j].core);
                proof {
                    let more = keys_of(cands.take(j + 1));
                    let less = keys_of(cands.take(j as int));
                    assert(more =~= less.insert(cands[j as int].core.key())) by {
                        assert forall|k: (i32, u32)| more.contains(k) implies less.insert(
                            cands[j as int].core.key(),
                        ).contains(k) by {
                            let a = choose|a: int|
                                0 <= a < cands.take(j + 1).len() && (#[trigger] cands.take(
                                    j + 1,
                                )[a]).core.key() == k;
                            if a < j {
                                assert(cands.take(j as int)[a].core.key() == k);
                            }
                        }
                        assert forall|k: (i32, u32)|
                            less.insert(cands[j as int].core.key()).contains(
                                k,
                            ) implies more.contains(k) by {
                            if less.contains(k) {
                                let a = choose|a: int|
                                    0 <= a < cands.take(j as int).len() && (#[trigger] cands.take(
                                        j as int,
                                    )[a]).core.key() == k;
                                assert(cands.take(j + 1)[a].core.key() == k);
                            } else {
                                assert(cands.take(j + 1)[j as int].core.key() == k);
                            }
                        }
                    }
                    let key = cands[j as int].core.key();
                    if j == 0 {
                        assert(less =~= Set::<(i32, u32)>::empty());
                        assert(cur.insert(key) =~= cur.union(more));
                    } else {
                        assert(cur.union(less).insert(key) =~= cur.union(more));
                    }
                    assert(self.references@ =~= prev.insert(name, cur.union(more)));
                }
                j = j + 1;
            }
            proof {
                assert(cands.take(cands.len() as int) =~= cands);
                if before {
                    let k = choose|k: int|
                        0 <= k < i && v.candidates(
                            (#[trigger] self.definition.references@[k]).svc_query@,
                        ).len() > 0;
                    assert(0 <= k < i + 1);
                }
                if changed && !before {
                    assert(v.candidates(self.definition.references@[i as int].svc_query@).len() > 0);
                }
            }
            i = i + 1;
        }
        self.handle_change(changed)
    }

    /// Searches the registry of `manager` for the services that answer the
    /// references, and follows the change as `on_service_event` does.
    ///
    /// Every registered service that answers a reference joins its
    /// candidates. If none is found, nothing changes.
    pub fn query_registry<S>(&mut self, manager: &ServiceManager<S>) -> (r: Transition)
        requires
            old(self).wf(),
            manager.wf(),
        ensures
            final(self).wf(),
            final(self).context() == old(self).context(),
            final(self).declared() == old(self).declared(),
            final(self).refs() == apply_scan(
                old(self).declared(),
                old(self).refs(),
                manager.registry@,
                old(self).declared().len() as int,
            ),
            r == decide(
                found(old(self).declared(), manager.registry@),
                old(self).has_instance(),
                satisfied(old(self).declared(), final(self).refs()),
            ),
            r == Transition::Drop ==> !final(self).has_instance(),
            r == Transition::Stay || r == Transition::Update
                ==> final(self).instances() == old(self).instances(),
            r == Transition::Instantiate ==> exists|made: Option<T>|
                final(self).made(made) && final(self).instances() == Self::kept(made),
    {
        let r = self.track_registry(manager);
        if r == Transition::Instantiate {
            let made = self.instantiate();
            let ghost given = made;
            self.install(made);
            assert(self.made(given) && self.instances() =~= Self::kept(given));
        }
        r
    }
}

/// A controller as the laws below see it.
pub struct ControllerState {
    /// The candidates of each reference, by its name.
    pub refs: Map<Seq<char>, Set<(i32, u32)>>,
    /// There is an instance.
    pub instance: bool,
    /// What the last evaluation of the references found: satisfied or not.
    /// `false` before the first evaluation.
    pub last: bool,
}

/// The controller after `event`, where `made` says whether the component
/// made an instance when it was asked for one.
pub open spec fn step(
    references: Seq<Reference>,
    s: ControllerState,
    event: ServiceEvent,
    made: bool,
) -> ControllerState {
    let refs = apply_event(references, s.refs, event, references.len() as int);
    let changed = matched(references, event.service_ref()@);
    let now = satisfied(references, refs);
    ControllerState {
        refs,
        instance: match decide(changed, s.instance, now) {
            Transition::Instantiate => made,
            Transition::Drop => false,
            _ => s.instance,
        },
        last: if changed {
            now
        } else {
            s.last
        },
    }
}

/// An event whose service answers none of the first `n` references leaves
/// the candidates as they are.
pub proof fn lemma_unmatched_event(
    references: Seq<Reference>,
    refs: Map<Seq<char>, Set<(i32, u32)>>,
    event: ServiceEvent,
    n: int,
)
    requires
        0 <= n <= references.len(),
        forall|k: int|
            0 <= k < n ==> !(#[trigger] references[k]).svc_query.accepts(event.service_ref()@),
    ensures
        apply_event(references, refs, event, n) == refs,
    decreases n,
{
    if n > 0 {
        lemma_unmatched_event(references, refs, event, n - 1);
    }
}

/// A registration only adds candidates: what answered a reference before
/// still does, and the registered service is a candidate of every reference
/// that it answers.
pub proof fn lemma_registered_grows(
    references: Seq<Reference>,
    refs: Map<Seq<char>, Set<(i32, u32)>>,
    event: ServiceEvent,
    n: int,
)
    requires
        0 <= n <= references.len(),
        event is ServiceRegistered,
    ensures
        forall|name: Seq<char>| #[trigger]
            refs.contains_key(name) ==> apply_event(references, refs, event, n).contains_key(name)
                && refs[name].subset_of(apply_event(references, refs, event, n)[name]),
        forall|k: int|
            0 <= k < n && (#[trigger] references[k]).svc_query.accepts(event.service_ref()@)
                ==> apply_event(references, refs, event, n).contains_key(references[k].name@)
                && apply_event(references, refs, event, n)[references[k].name@].contains(
                event.service_ref().core.key(),
            ),
    decreases n,
{
    if n > 0 {
        lemma_registered_grows(references, refs, event, n - 1);
        let prev = apply_event(references, refs, event, n - 1);
        let next = apply_event(references, refs, event, n);
        assert forall|name: Seq<char>| #[trigger] refs.contains_key(name) implies next.contains_key(
            name,
        ) && refs[name].subset_of(next[name]) by {
            assert(prev.contains_key(name) && refs[name].subset_of(prev[name]));
        }
        assert forall|k: int|
            0 <= k < n && (#[trigger] references[k]).svc_query.accepts(
                event.service_ref()@,
            ) implies next.contains_key(references[k].name@) && next[references[k].name@].contains(
            event.service_ref().core.key(),
        ) by {
            if k < n - 1 {
                assert(prev.contains_key(references[k].name@));
            }
        }
    }
}

/// An unregistration only takes candidates away: no reference gains one, and
/// the unregistered service is a candidate of no reference that it answers.
pub proof fn lemma_unregistered_shrinks(
    references: Seq<Reference>,
    refs: Map<Seq<char>, Set<(i32, u32)>>,
    event: ServiceEvent,
    n: int,
)
    requires
        0 <= n <= references.len(),
        event is ServiceUnregistered,
    ensures
        forall|name: Seq<char>, key: (i32, u32)|
            apply_event(references, refs, event, n).contains_key(name) && (#[trigger] apply_event(
                references,
                refs,
                event,
                n,
            )[name].contains(key)) ==> refs.contains_key(name) && refs[name].contains(key),
        forall|k: int|
            0 <= k < n && (#[trigger] references[k]).svc_query.accepts(event.service_ref()@)
                ==> apply_event(references, refs, event, n).contains_key(references[k].name@)
                && !apply_event(references, refs, event, n)[references[k].name@].contains(
                event.service_ref().core.key(),
            ),
    decreases n,
{
    if n > 0 {
        lemma_unregistered_shrinks(references, refs, event, n - 1);
        let prev = apply_event(references, refs, event, n - 1);
        let next = apply_event(references, refs, event, n);
        assert forall|name: Seq<char>, key: (i32, u32)|
            next.contains_key(name) && (#[trigger] next[name].contains(
                key,
            )) implies refs.contains_key(name) && refs[name].contains(key) by {
            assert(prev.contains_key(name) && prev[name].contains(key));
        }
        assert forall|k: int|
            0 <= k < n && (#[trigger] references[k]).svc_query.accepts(
                event.service_ref()@,
            ) implies next.contains_key(references[k].name@) && !next[references[k].name@].contains(
            event.service_ref().core.key(),
        ) by {
            if k < n - 1 {
                assert(prev.contains_key(references[k].name@));
                assert(!prev[references[k].name@].contains(event.service_ref().core.key()));
            }
        }
    }
}

/// A controller has an instance exactly if it found the component satisfied
/// when it last evaluated the references, provided that the component makes
/// an instance whenever it is asked for one.
pub proof fn law_instance_follows_satisfaction(
    references: Seq<Reference>,
    s: ControllerState,
    event: ServiceEvent,
    made: bool,
)
    requires
        s.instance == s.last,
        made,
    ensures
        step(references, s, event, made).instance == step(references, s, event, made).last,
        step(references, s, event, made).last && matched(references, event.service_ref()@)
            ==> satisfied(references, step(references, s, event, made).refs),
{
}

/// An instance is asked for exactly when the references were touched, the
/// component is satisfied and has no instance; the instance is dropped
/// exactly when the references were touched, the component is unsatisfied
/// and has an instance. So no instance is asked for while there is one, and
/// none is dropped while there is none. An event whose service answers no
/// reference does neither, and leaves the candidates as they are.
pub proof fn law_transitions(references: Seq<Reference>, s: ControllerState, event: ServiceEvent)
    ensures
        ({
            let refs = apply_event(references, s.refs, event, references.len() as int);
            let changed = matched(references, event.service_ref()@);
            let now = satisfied(references, refs);
            let t = decide(changed, s.instance, now);
            &&& t == Transition::Instantiate <==> changed && now && !s.instance
            &&& t == Transition::Drop <==> changed && !now && s.instance
            &&& !changed ==> t == Transition::Stay && refs == s.refs
        }),
{
    if !matched(references, event.service_ref()@) {
        lemma_unmatched_event(references, s.refs, event, references.len() as int);
    }
}

/// When the last mandatory reference that lacks a service gets one, an
/// instance is asked for: if a service is registered that answers a
/// reference, and every mandatory reference that it does not answer has a
/// candidate, a controller without an instance asks for one.
pub proof fn law_last_reference_instantiates(
    references: Seq<Reference>,
    s: ControllerState,
    event: ServiceEvent,
)
    requires
        event is ServiceRegistered,
        !s.instance,
        matched(references, event.service_ref()@),
        forall|i: int|
            0 <= i < references.len() && (#[trigger] references[i]).options.cardinality
                == Cardinality::Mandatory && !references[i].svc_query.accepts(
                event.service_ref()@,
            ) ==> s.refs.contains_key(references[i].name@)
                && !s.refs[references[i].name@].is_empty(),
    ensures
        decide(
            matched(references, event.service_ref()@),
            s.instance,
            satisfied(
                references,
                apply_event(references, s.refs, event, references.len() as int),
            ),
        ) == Transition::Instantiate,
{
    let n = references.len() as int;
    let refs = apply_event(references, s.refs, event, n);
    lemma_registered_grows(references, s.refs, event, n);
    assert forall|i: int|
        0 <= i < references.len() && (#[trigger] references[i]).options.cardinality
            == Cardinality::Mandatory implies refs.contains_key(references[i].name@)
        && !refs[references[i].name@].is_empty() by {
        let name = references[i].name@;
        if references[i].svc_query.accepts(event.service_ref()@) {
            assert(refs[name].contains(event.service_ref().core.key()));
        } else {
            assert(s.refs.contains_key(name));
            let x = choose|x: (i32, u32)| s.refs[name].contains(x);
            assert(s.refs[name].subset_of(refs[name]));
            assert(refs[name].contains(x));
        }
    }
}

/// When a mandatory reference loses its only service, the instance is
/// dropped: if a service is unregistered that answers a mandatory reference
/// of which it was the one candidate, a controller with an instance drops
/// it.
pub proof fn law_lost_reference_drops(
    references: Seq<Reference>,
    s: ControllerState,
    event: ServiceEvent,
    i: int,
)
    requires
        event is ServiceUnregistered,
        s.instance,
        0 <= i < references.len(),
        references[i].options.cardinality == Cardinality::Mandatory,
        references[i].svc_query.accepts(event.service_ref()@),
        forall|x: (i32, u32)|
            s.refs.contains_key(references[i].name@) && s.refs[references[i].name@].contains(x)
                ==> x == event.service_ref().core.key(),
    ensures
        decide(
            matched(references, event.service_ref()@),
            s.instance,
            satisfied(
                references,
                apply_event(references, s.refs, event, references.len() as int),
            ),
        ) == Transition::Drop,
{
    let n = references.len() as int;
    let refs = apply_event(references, s.refs, event, n);
    let name = references[i].name@;
    lemma_unregistered_shrinks(references, s.refs, event, n);
    assert(refs.contains_key(name));
    assert(refs[name] =~= Set::<(i32, u32)>::empty()) by {
        assert forall|x: (i32, u32)| !refs[name].contains(x) by {
            if refs[name].contains(x) {
                assert(s.refs[name].contains(x));
            }
        }
    }
}

} // verus!
