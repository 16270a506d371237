use socrates::component::controller::{ComponentController, Transition};
use socrates::component::definition::{
    Cardinality, ComponentDefinition, Policy, PolicyOption, Reference, ReferenceOptions,
};
use socrates::component::{
    build, Component, ComponentManager, ComponentManagerHandler, ComponentReferences, Factory,
    Lifecycle,
};
use socrates::module::Context;
use socrates::service::{
    ServiceCoreProps, ServiceEvent, ServiceManager, ServiceQuery, ServiceRef,
};
use std::any::TypeId;
use std::sync::atomic::{AtomicUsize, Ordering};
use std::sync::Arc;

struct Greeter;
struct Logger;

fn reference(name: &str, type_id: TypeId, cardinality: Cardinality) -> Reference {
    Reference {
        name: name.into(),
        svc_name: name.into(),
        svc_query: ServiceQuery::by_type_id(type_id),
        options: ReferenceOptions {
            cardinality,
            policy: Policy::Static,
            policy_option: PolicyOption::Greedy,
        },
    }
}

fn definition(references: Vec<Reference>) -> ComponentDefinition {
    ComponentDefinition {
        name: "Consumer".into(),
        provides: vec![],
        references,
    }
}

fn service(id: u32, ranking: i32, type_id: TypeId) -> ServiceRef {
    ServiceRef {
        core: ServiceCoreProps { ranking, id },
        name: "svc".into(),
        type_id,
        owner_id: 0,
    }
}

fn registered(id: u32, type_id: TypeId) -> ServiceEvent {
    ServiceEvent::ServiceRegistered(service(id, 0, type_id))
}

fn unregistered(id: u32, type_id: TypeId) -> ServiceEvent {
    ServiceEvent::ServiceUnregistered(service(id, 0, type_id))
}

/// A component that notes what it was made from and counts its drops.
struct Consumer {
    made_for: u32,
    greeter: Option<ServiceCoreProps>,
    drops: Arc<AtomicUsize>,
}

impl Lifecycle for Consumer {}

impl Component for Consumer {
    fn get_definition() -> ComponentDefinition {
        definition(vec![reference(
            "greeter",
            TypeId::of::<Greeter>(),
            Cardinality::Mandatory,
        )])
    }

    fn instantiate(context: &Context, references: &ComponentReferences) -> Option<Consumer> {
        Some(Consumer {
            made_for: context.dynamod_id,
            greeter: references.first("greeter"),
            drops: Arc::new(AtomicUsize::new(0)),
        })
    }

    fn update(&self, _field_id: usize, _c: &Context, _r: &ComponentReferences) -> Option<()> {
        Some(())
    }
}

impl Drop for Consumer {
    fn drop(&mut self) {
        self.drops.fetch_add(1, Ordering::SeqCst);
    }
}

/// A component that can never be made.
struct Reluctant;

impl Lifecycle for Reluctant {}

impl Component for Reluctant {
    fn get_definition() -> ComponentDefinition {
        ComponentDefinition {
            name: "Reluctant".into(),
            provides: vec![],
            references: vec![reference(
                "greeter",
                TypeId::of::<Greeter>(),
                Cardinality::Mandatory,
            )],
        }
    }

    fn instantiate(_context: &Context, _references: &ComponentReferences) -> Option<Reluctant> {
        None
    }

    fn update(&self, _field_id: usize, _c: &Context, _r: &ComponentReferences) -> Option<()> {
        None
    }
}

fn controller() -> ComponentController<Consumer> {
    let mut cc = ComponentController::new(Consumer::get_definition());
    cc.set_context(Context::new(6));
    cc
}

#[test]
fn references_keep_candidates_in_order() {
    let mut refs = ComponentReferences::new();
    assert!(!refs.is_bound("greeter"));
    assert_eq!(refs.first("greeter"), None);
    refs.insert("greeter", ServiceCoreProps { ranking: 10, id: 1 });
    refs.insert("greeter", ServiceCoreProps { ranking: 5, id: 3 });
    refs.insert("greeter", ServiceCoreProps { ranking: 5, id: 2 });
    refs.insert("greeter", ServiceCoreProps { ranking: 5, id: 2 });
    refs.insert("logger", ServiceCoreProps { ranking: -1, id: 9 });
    assert!(refs.is_bound("greeter"));
    assert_eq!(refs.first("greeter"), Some(ServiceCoreProps { ranking: 5, id: 2 }));
    assert_eq!(refs.first("logger"), Some(ServiceCoreProps { ranking: -1, id: 9 }));
    let copy = refs.clone();
    refs.remove("greeter", ServiceCoreProps { ranking: 5, id: 2 });
    assert_eq!(refs.first("greeter"), Some(ServiceCoreProps { ranking: 5, id: 3 }));
    refs.remove("greeter", ServiceCoreProps { ranking: 5, id: 3 });
    refs.remove("greeter", ServiceCoreProps { ranking: 7, id: 7 });
    assert_eq!(refs.first("greeter"), Some(ServiceCoreProps { ranking: 10, id: 1 }));
    refs.remove("greeter", ServiceCoreProps { ranking: 10, id: 1 });
    assert!(!refs.is_bound("greeter"));
    assert_eq!(refs.first("greeter"), None);
    assert!(refs.is_bound("logger"));
    refs.remove("nobody", ServiceCoreProps { ranking: 0, id: 0 });
    assert!(!refs.is_bound("nobody"));
    assert_eq!(copy.first("greeter"), Some(ServiceCoreProps { ranking: 5, id: 2 }));
}

#[test]
fn the_component_follows_its_mandatory_reference() {
    let mut manager: ServiceManager<String> = ServiceManager::new();
    let mut cc = controller();

    assert_eq!(cc.query_registry(&manager), Transition::Stay);
    assert!(cc.instance().is_none());
    assert!(!cc.is_satisfied());

    let g = manager
        .register_service(TypeId::of::<Greeter>(), "Greeter", 0, 1, "hello".into())
        .unwrap();
    let event = manager.next_notification().unwrap().event;
    assert_eq!(cc.on_service_event(&event), Transition::Instantiate);
    assert!(cc.is_satisfied());
    let drops = {
        let instance = cc.instance().unwrap();
        assert_eq!(instance.made_for, 6);
        assert_eq!(instance.greeter, Some(g.core));
        Arc::clone(&instance.drops)
    };
    assert_eq!(drops.load(Ordering::SeqCst), 0);

    manager.unregister_service(g.core.id);
    let event = manager.next_notification().unwrap().event;
    assert_eq!(cc.on_service_event(&event), Transition::Drop);
    assert!(cc.instance().is_none());
    assert!(!cc.is_satisfied());
    assert_eq!(drops.load(Ordering::SeqCst), 1);
    assert_eq!(cc.on_service_event(&event), Transition::Stay);
    assert_eq!(drops.load(Ordering::SeqCst), 1);
}

#[test]
fn an_unrelated_event_changes_nothing() {
    let mut cc = controller();
    assert_eq!(cc.on_service_event(&registered(1, TypeId::of::<Logger>())), Transition::Stay);
    assert!(cc.instance().is_none());
    assert_eq!(cc.on_service_event(&registered(2, TypeId::of::<Greeter>())), Transition::Instantiate);
    let drops = Arc::clone(&cc.instance().unwrap().drops);
    assert_eq!(cc.on_service_event(&registered(3, TypeId::of::<Logger>())), Transition::Stay);
    assert_eq!(cc.on_service_event(&unregistered(3, TypeId::of::<Logger>())), Transition::Stay);
    assert!(cc.instance().is_some());
    assert_eq!(drops.load(Ordering::SeqCst), 0);
}

#[test]
fn a_second_candidate_updates_and_the_first_loss_does_not_drop() {
    let mut cc = controller();
    let t = TypeId::of::<Greeter>();
    assert_eq!(cc.on_service_event(&registered(1, t)), Transition::Instantiate);
    let drops = Arc::clone(&cc.instance().unwrap().drops);
    assert_eq!(cc.on_service_event(&registered(2, t)), Transition::Update);
    assert_eq!(cc.instance().unwrap().greeter, Some(ServiceCoreProps { ranking: 0, id: 1 }));
    assert_eq!(cc.on_service_event(&unregistered(1, t)), Transition::Update);
    assert!(cc.instance().is_some());
    assert_eq!(drops.load(Ordering::SeqCst), 0);
    assert_eq!(cc.on_service_event(&unregistered(2, t)), Transition::Drop);
    assert_eq!(drops.load(Ordering::SeqCst), 1);
    assert!(cc.instance().is_none());
}

#[test]
fn only_mandatory_references_stand_in_the_way() {
    let def = definition(vec![
        reference("greeter", TypeId::of::<Greeter>(), Cardinality::Mandatory),
        reference("logger", TypeId::of::<Logger>(), Cardinality::Optional),
        reference("loggers", TypeId::of::<Logger>(), Cardinality::Multiple),
    ]);
    let mut cc: ComponentController<Consumer> = ComponentController::new(def);
    cc.set_context(Context::new(1));
    assert!(!cc.is_satisfied());
    assert_eq!(cc.on_service_event(&registered(1, TypeId::of::<Logger>())), Transition::Stay);
    assert!(!cc.is_satisfied());
    assert!(cc.references().is_bound("logger"));
    assert!(cc.references().is_bound("loggers"));
    assert_eq!(cc.on_service_event(&registered(2, TypeId::of::<Greeter>())), Transition::Instantiate);
    assert!(cc.is_satisfied());
    assert_eq!(cc.on_service_event(&unregistered(1, TypeId::of::<Logger>())), Transition::Update);
    assert!(cc.instance().is_some());
    assert!(!cc.references().is_bound("logger"));
}

#[test]
fn two_mandatory_references_need_both() {
    let def = definition(vec![
        reference("greeter", TypeId::of::<Greeter>(), Cardinality::Mandatory),
        reference("logger", TypeId::of::<Logger>(), Cardinality::Mandatory),
    ]);
    let mut cc: ComponentController<Consumer> = ComponentController::new(def);
    cc.set_context(Context::new(1));
    assert_eq!(cc.on_service_event(&registered(1, TypeId::of::<Greeter>())), Transition::Stay);
    assert!(cc.instance().is_none());
    assert_eq!(cc.on_service_event(&registered(2, TypeId::of::<Logger>())), Transition::Instantiate);
    assert!(cc.instance().is_some());
    assert_eq!(cc.on_service_event(&unregistered(1, TypeId::of::<Greeter>())), Transition::Drop);
    assert!(cc.instance().is_none());
    assert_eq!(cc.on_service_event(&unregistered(2, TypeId::of::<Logger>())), Transition::Stay);
}

#[test]
fn a_component_without_mandatory_references_is_made_on_the_first_match() {
    let def = definition(vec![reference(
        "logger",
        TypeId::of::<Logger>(),
        Cardinality::Optional,
    )]);
    let mut cc: ComponentController<Consumer> = ComponentController::new(def);
    cc.set_context(Context::new(1));
    assert!(cc.is_satisfied());
    assert!(cc.instance().is_none());
    assert_eq!(cc.on_service_event(&registered(1, TypeId::of::<Greeter>())), Transition::Stay);
    assert!(cc.instance().is_none());
    assert_eq!(cc.on_service_event(&registered(2, TypeId::of::<Logger>())), Transition::Instantiate);
    assert!(cc.instance().is_some());
    assert_eq!(cc.on_service_event(&unregistered(2, TypeId::of::<Logger>())), Transition::Update);
    assert!(cc.instance().is_some());
}

#[test]
fn the_registry_is_searched_at_the_start() {
    let mut manager: ServiceManager<String> = ServiceManager::new();
    let t = TypeId::of::<Greeter>();
    manager.register_service(t, "Greeter", 7, 1, "a".into()).unwrap();
    manager.register_service(t, "Greeter", 3, 1, "b".into()).unwrap();
    manager.register_service(TypeId::of::<Logger>(), "Logger", 0, 1, "c".into()).unwrap();
    let mut cc = controller();
    assert_eq!(cc.query_registry(&manager), Transition::Instantiate);
    assert_eq!(
        cc.instance().unwrap().greeter,
        Some(ServiceCoreProps { ranking: 3, id: 2 })
    );
    assert_eq!(cc.query_registry(&manager), Transition::Update);
    let second = ServiceEvent::ServiceUnregistered(service(2, 3, t));
    assert_eq!(cc.on_service_event(&second), Transition::Update);
    assert_eq!(
        cc.references().first("greeter"),
        Some(ServiceCoreProps { ranking: 7, id: 1 })
    );
    let first = ServiceEvent::ServiceUnregistered(service(1, 7, t));
    assert_eq!(cc.on_service_event(&first), Transition::Drop);
}

#[test]
fn track_and_install_are_the_two_halves() {
    let mut cc = controller();
    assert!(!cc.install(None));
    let early = Consumer {
        made_for: 0,
        greeter: None,
        drops: Arc::new(AtomicUsize::new(0)),
    };
    let early_drops = Arc::clone(&early.drops);
    assert!(!cc.install(Some(early)));
    assert_eq!(early_drops.load(Ordering::SeqCst), 1);
    assert!(cc.instance().is_none());

    let t = TypeId::of::<Greeter>();
    assert_eq!(cc.track_event(&registered(1, t)), Transition::Instantiate);
    assert!(cc.instance().is_none());
    let made = Consumer::instantiate(&Context::new(2), cc.references()).unwrap();
    assert!(cc.install(Some(made)));
    assert_eq!(cc.instance().unwrap().made_for, 2);
    let late = Consumer::instantiate(&Context::new(3), cc.references()).unwrap();
    assert!(!cc.install(Some(late)));
    assert_eq!(cc.instance().unwrap().made_for, 2);
    assert_eq!(cc.track_event(&unregistered(1, t)), Transition::Drop);
    assert!(cc.instance().is_none());
}

#[test]
fn a_component_that_is_not_made_is_asked_again() {
    let mut cc: ComponentController<Reluctant> = ComponentController::new(Reluctant::get_definition());
    cc.set_context(Context::new(1));
    let t = TypeId::of::<Greeter>();
    assert_eq!(cc.on_service_event(&registered(1, t)), Transition::Instantiate);
    assert!(cc.instance().is_none());
    assert!(cc.is_satisfied());
    assert_eq!(cc.on_service_event(&registered(2, t)), Transition::Instantiate);
    assert!(cc.instance().is_none());
}

#[test]
fn without_a_context_no_instance_is_made() {
    let mut cc: ComponentController<Consumer> = ComponentController::new(Consumer::get_definition());
    let t = TypeId::of::<Greeter>();
    assert_eq!(cc.on_service_event(&registered(1, t)), Transition::Instantiate);
    assert!(cc.instance().is_none());
    assert_eq!(cc.definition().name, "Consumer");
}

#[test]
fn the_manager_hands_events_to_every_component() {
    let mut svc_manager: ServiceManager<String> = ServiceManager::new();
    let manager: ComponentManager<ComponentController<Consumer>> =
        ComponentManager::new().add_component();
    assert_eq!(manager.components.len(), 1);
    let manager = manager.add_component();
    assert_eq!(manager.components.len(), 1);
    let other = ComponentController::new(ComponentDefinition {
        name: "Other".into(),
        provides: vec![],
        references: vec![reference("logger", TypeId::of::<Logger>(), Cardinality::Mandatory)],
    });
    let manager = manager.add_controller("Other".into(), other);
    assert_eq!(manager.components.len(), 2);

    let handler = ComponentManagerHandler::start(&Context::new(4), &mut svc_manager, manager, |_| true);
    let mut handler = match handler {
        Ok(handler) => handler,
        Err(_) => panic!("the manager is up"),
    };
    assert_eq!(handler.guard.listener_id, 0);
    assert_eq!(svc_manager.listeners.listener_ids(), vec![0]);
    let status = handler.get_manager().status();
    assert_eq!(status.len(), 2);
    assert_eq!(status[0].name, "Consumer");
    assert_eq!((status[0].satisfied, status[0].active), (false, false));
    assert_eq!(status[1].name, "Other");

    handler.manager.on_event(&registered(1, TypeId::of::<Greeter>()));
    let status = handler.manager.status();
    assert_eq!((status[0].satisfied, status[0].active), (true, true));
    assert_eq!((status[1].satisfied, status[1].active), (false, false));
    assert_eq!(
        handler.manager.components[0].controller.instance().map(|c| c.made_for),
        Some(4)
    );
    handler.manager.on_event(&registered(2, TypeId::of::<Logger>()));
    let status = handler.manager.status();
    assert_eq!((status[1].satisfied, status[1].active), (true, true));
    handler.manager.on_event(&unregistered(1, TypeId::of::<Greeter>()));
    let status = handler.manager.status();
    assert_eq!((status[0].satisfied, status[0].active), (false, false));
    assert_eq!((status[1].satisfied, status[1].active), (true, true));
    let boxed = handler.boxed();
    assert_eq!(boxed.manager.components.len(), 2);
}

#[test]
fn the_handler_finds_what_is_registered_already() {
    let mut svc_manager: ServiceManager<String> = ServiceManager::new();
    svc_manager
        .register_service(TypeId::of::<Greeter>(), "Greeter", 0, 1, "a".into())
        .unwrap();
    let manager: ComponentManager<ComponentController<Consumer>> =
        ComponentManager::new().add_component();
    let handler = ComponentManagerHandler::start(&Context::new(4), &mut svc_manager, manager, |_| true);
    let handler = match handler {
        Ok(handler) => handler,
        Err(_) => panic!("the manager is up"),
    };
    let status = handler.get_manager().status();
    assert_eq!((status[0].satisfied, status[0].active), (true, true));
}

struct Doubled(u32);

impl Factory<u32> for Doubled {
    fn build(from: u32) -> Option<Doubled> {
        from.checked_mul(2).map(Doubled)
    }
}

#[test]
fn build_converts_and_makes() {
    let d: Option<Doubled> = build(21u16);
    assert_eq!(d.map(|d| d.0), Some(42));
    let none: Option<Doubled> = build(u32::MAX);
    assert!(none.is_none());
    let ctx = Context::new(5);
    let copy: Option<Context> = build(&ctx);
    assert_eq!(copy, Some(ctx));
}

#[test]
fn the_search_can_be_followed_by_hand() {
    let mut manager: ServiceManager<String> = ServiceManager::new();
    let t = TypeId::of::<Greeter>();
    let mut cc = controller();
    assert_eq!(cc.track_registry(&manager), Transition::Stay);
    manager.register_service(t, "Greeter", 0, 1, "a".into()).unwrap();
    assert_eq!(cc.track_registry(&manager), Transition::Instantiate);
    assert!(cc.instance().is_none());
    assert!(cc.is_satisfied());
    let made = Consumer::instantiate(&Context::new(8), cc.references());
    assert!(cc.install(made));
    assert_eq!(cc.instance().map(|c| c.made_for), Some(8));
    assert_eq!(cc.track_registry(&manager), Transition::Update);
}

#[test]
fn a_part_that_may_be_missing_is_always_built() {
    let some: Option<Option<Doubled>> = build(4u32);
    assert_eq!(some.map(|d| d.map(|d| d.0)), Some(Some(8)));
    let none: Option<Option<Doubled>> = build(u32::MAX);
    assert!(matches!(none, Some(None)));
}

#[test]
fn the_manager_sets_the_context_of_every_component() {
    let mut manager: ComponentManager<ComponentController<Consumer>> =
        ComponentManager::new().add_component();
    let other = ComponentController::new(ComponentDefinition {
        name: "Other".into(),
        provides: vec![],
        references: vec![reference("greeter", TypeId::of::<Greeter>(), Cardinality::Mandatory)],
    });
    manager = manager.add_controller("Other".into(), other);
    manager.on_event(&registered(1, TypeId::of::<Greeter>()));
    assert!(manager.components[0].controller.instance().is_none());
    assert!(manager.components[1].controller.instance().is_none());
    manager.on_event(&unregistered(1, TypeId::of::<Greeter>()));

    manager.set_context(&Context::new(11));
    assert_eq!(manager.components.len(), 2);
    assert_eq!(manager.components[0].name, "Consumer");
    assert_eq!(manager.components[1].name, "Other");
    manager.on_event(&registered(2, TypeId::of::<Greeter>()));
    assert_eq!(manager.components[0].controller.instance().map(|c| c.made_for), Some(11));
    assert_eq!(manager.components[1].controller.instance().map(|c| c.made_for), Some(11));

    manager.set_context(&Context::new(12));
    assert_eq!(manager.components[0].controller.instance().map(|c| c.made_for), Some(11));
    manager.on_event(&unregistered(2, TypeId::of::<Greeter>()));
    manager.on_event(&registered(3, TypeId::of::<Greeter>()));
    assert_eq!(manager.components[0].controller.instance().map(|c| c.made_for), Some(12));
    assert_eq!(manager.components[1].controller.instance().map(|c| c.made_for), Some(12));
}
