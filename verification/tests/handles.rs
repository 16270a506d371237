use socrates::module::Context;
use socrates::service::{Named, Service, ServiceManager, ServiceQuery, ServiceRegistration, Svc};
use std::any::TypeId;

struct Greeter;
struct Printer;

struct Object {
    label: &'static str,
    provides: Vec<TypeId>,
}

impl Service for Object {
    fn query(&self, interface: &TypeId) -> bool {
        self.provides.contains(interface)
    }
}

impl Named for Greeter {
    fn interface_name() -> &'static str {
        "Greeter"
    }
}

fn greeter(label: &'static str) -> Object {
    Object {
        label,
        provides: vec![TypeId::of::<dyn Service>(), TypeId::of::<Greeter>()],
    }
}

fn plain(label: &'static str) -> Object {
    Object {
        label,
        provides: vec![TypeId::of::<dyn Service>()],
    }
}

#[test]
fn a_handle_is_one_use() {
    let mut manager: ServiceManager<Object> = ServiceManager::new();
    let provider = Context::new(1);
    let consumer = Context::new(2);
    let reg = provider
        .register_service(&mut manager, TypeId::of::<Greeter>(), "Greeter", 0, greeter("g"))
        .unwrap();
    let id = reg.svc_ref.core.id;
    assert_eq!(reg.svc_ref.owner_id, 1);
    assert_eq!(manager.registry.use_count(id, 2), 0);
    let svc = consumer.get_service(&mut manager, id).unwrap();
    assert_eq!(svc.service_id, id);
    assert_eq!(svc.user_id, 2);
    assert_eq!(svc.interface, TypeId::of::<dyn Service>());
    assert_eq!(manager.registry.use_count(id, 2), 1);
    assert_eq!(svc.as_ref(&manager).label, "g");
    svc.release(&mut manager);
    assert_eq!(manager.registry.use_count(id, 2), 0);
    assert!(consumer.get_service(&mut manager, id + 1).is_none());
}

#[test]
fn cast_round_trip_keeps_the_one_use() {
    let mut manager: ServiceManager<Object> = ServiceManager::new();
    let ctx = Context::new(2);
    ctx.register_service(&mut manager, TypeId::of::<Greeter>(), "Greeter", 0, greeter("g"))
        .unwrap();
    let svc = ctx.get_service(&mut manager, 1).unwrap();
    assert_eq!(manager.registry.use_count(1, 2), 1);
    let typed = match svc.cast(&manager, TypeId::of::<Greeter>()) {
        Ok(typed) => typed,
        Err(_) => panic!("the object provides the interface"),
    };
    assert_eq!(typed.service_id, 1);
    assert_eq!(typed.user_id, 2);
    assert_eq!(typed.interface, TypeId::of::<Greeter>());
    assert_eq!(manager.registry.use_count(1, 2), 1);
    assert_eq!(typed.as_ref(&manager).label, "g");
    typed.release(&mut manager);
    assert_eq!(manager.registry.use_count(1, 2), 0);
}

#[test]
fn a_failed_cast_hands_the_handle_back() {
    let mut manager: ServiceManager<Object> = ServiceManager::new();
    let ctx = Context::new(2);
    ctx.register_service(&mut manager, TypeId::of::<Greeter>(), "Greeter", 0, plain("p"))
        .unwrap();
    let svc = ctx.get_service(&mut manager, 1).unwrap();
    let back = match svc.cast(&manager, TypeId::of::<Printer>()) {
        Ok(_) => panic!("the object does not provide the interface"),
        Err(back) => back,
    };
    assert_eq!(back.service_id, 1);
    assert_eq!(back.user_id, 2);
    assert_eq!(back.interface, TypeId::of::<dyn Service>());
    assert_eq!(manager.registry.use_count(1, 2), 1);
    let again = match back.cast(&manager, TypeId::of::<dyn Service>()) {
        Ok(again) => again,
        Err(_) => panic!("every object provides the common interface"),
    };
    again.release(&mut manager);
    assert_eq!(manager.registry.use_count(1, 2), 0);
}

#[test]
fn cast_with_follows_the_answer() {
    let svc = Svc::new(4, 5, TypeId::of::<dyn Service>());
    let ok = svc.cast_with(TypeId::of::<Greeter>(), true);
    match ok {
        Ok(s) => {
            assert_eq!((s.service_id, s.user_id), (4, 5));
            assert_eq!(s.interface, TypeId::of::<Greeter>());
        }
        Err(_) => panic!("the cast was allowed"),
    }
    let svc = Svc::new(4, 5, TypeId::of::<dyn Service>());
    match svc.cast_with(TypeId::of::<Greeter>(), false) {
        Ok(_) => panic!("the cast was refused"),
        Err(s) => {
            assert_eq!((s.service_id, s.user_id), (4, 5));
            assert_eq!(s.interface, TypeId::of::<dyn Service>());
        }
    }
}

#[test]
fn handles_resolve_after_unregistration_until_released() {
    let mut manager: ServiceManager<Object> = ServiceManager::new();
    let provider = Context::new(1);
    let reg: ServiceRegistration = provider
        .register_service_typed::<Greeter, Object>(&mut manager, greeter("g"))
        .unwrap();
    assert_eq!(reg.svc_ref.name, "Greeter");
    assert_eq!(reg.svc_ref.type_id, TypeId::of::<Greeter>());
    assert_eq!(reg.svc_ref.core.ranking, 0);
    let one = Context::new(2).get_service(&mut manager, 1).unwrap();
    let two = Context::new(3).get_service(&mut manager, 1).unwrap();
    reg.unregister(&mut manager);
    assert!(manager.get_service_ref(1).is_none());
    assert!(Context::new(4).get_service(&mut manager, 1).is_none());
    assert_eq!(one.as_ref(&manager).label, "g");
    assert_eq!(two.try_as_ref(&manager).map(|o| o.label), Some("g"));
    let cast = match two.cast(&manager, TypeId::of::<Greeter>()) {
        Ok(cast) => cast,
        Err(_) => panic!("a zombie still answers"),
    };
    one.release(&mut manager);
    assert!(manager.registry.is_zombie(1));
    assert_eq!(cast.as_ref(&manager).label, "g");
    let stale = Svc::new(1, 3, TypeId::of::<Greeter>());
    cast.release(&mut manager);
    assert!(!manager.registry.is_zombie(1));
    assert!(stale.try_as_ref(&manager).is_none());
    assert!(stale.cast(&manager, TypeId::of::<Greeter>()).is_err());
}

#[test]
fn context_finds_services_by_name_type_and_query() {
    let mut manager: ServiceManager<Object> = ServiceManager::new();
    let ctx = Context::new(9);
    let t = TypeId::of::<Greeter>();
    ctx.register_service(&mut manager, t, "Greeter", 5, plain("a")).unwrap();
    ctx.register_service(&mut manager, t, "Greeter", 1, greeter("b")).unwrap();
    ctx.register_service(&mut manager, t, "Greeter", 3, greeter("c")).unwrap();
    ctx.register_service(&mut manager, TypeId::of::<Printer>(), "Printer", 0, plain("d"))
        .unwrap();

    assert_eq!(ctx.get_first_service_id_by_name(&manager, "Greeter"), Some(2));
    assert_eq!(ctx.get_all_services_id_by_name(&manager, "Greeter"), vec![2, 3, 1]);
    assert_eq!(ctx.get_first_service_id_by_type_id(&manager, t), Some(2));
    assert_eq!(ctx.get_all_services_id_by_type_id(&manager, t), vec![2, 3, 1]);
    assert_eq!(ctx.get_first_service_id_by_name(&manager, "Nobody"), None);
    assert_eq!(
        ctx.get_first_service_ref_by_name(&manager, "Greeter").map(|r| r.core.id),
        Some(2)
    );
    assert_eq!(
        ctx.get_first_service_ref_by_type_id(&manager, t).map(|r| r.core.ranking),
        Some(1)
    );
    assert_eq!(ctx.get_all_services_ref_by_name(&manager, "Printer").len(), 1);
    assert_eq!(ctx.get_all_services_ref_by_type_id(&manager, t).len(), 3);
    assert_eq!(ctx.get_service_ref(&manager, 4).map(|r| r.name), Some("Printer".to_string()));
    let q = ServiceQuery::by_service_id(3);
    assert_eq!(
        ctx.get_first_service_ref_by_query(&manager, &q).map(|r| r.core.id),
        Some(3)
    );
    assert_eq!(ctx.get_all_services_ref_by_query(&manager, &q).len(), 1);

    let first = ctx.get_first_service_by_name(&mut manager, "Greeter").unwrap();
    assert_eq!(first.service_id, 2);
    assert_eq!(manager.registry.use_count(2, 9), 1);
    assert!(ctx.get_first_service_by_name(&mut manager, "Nobody").is_none());
    let all = ctx.get_all_services_by_type_id(&mut manager, t);
    let ids: Vec<u32> = all.iter().map(|s| s.service_id).collect();
    assert_eq!(ids, vec![2, 3, 1]);
    assert_eq!(manager.registry.use_count(2, 9), 2);
    assert_eq!(manager.registry.use_count(1, 9), 1);
    let by_type = ctx.get_first_service_by_type_id(&mut manager, t).unwrap();
    assert_eq!(by_type.service_id, 2);
    assert_eq!(manager.registry.use_count(2, 9), 3);
    let named = ctx.get_all_services_by_name(&mut manager, "Printer");
    assert_eq!(named.len(), 1);
    assert_eq!(named[0].service_id, 4);
    assert_eq!(named[0].interface, TypeId::of::<dyn Service>());
}

#[test]
fn typed_lookups_skip_objects_that_lack_the_interface() {
    let mut manager: ServiceManager<Object> = ServiceManager::new();
    let ctx = Context::new(9);
    let t = TypeId::of::<Greeter>();
    ctx.register_service(&mut manager, t, "Greeter", 1, plain("a")).unwrap();
    ctx.register_service(&mut manager, t, "Greeter", 2, greeter("b")).unwrap();
    ctx.register_service(&mut manager, t, "Greeter", 3, greeter("c")).unwrap();

    let first = ctx.get_first_service_typed::<Greeter, Object>(&mut manager).unwrap();
    assert_eq!(first.service_id, 2);
    assert_eq!(first.interface, t);
    assert_eq!(manager.registry.use_count(1, 9), 0);
    assert_eq!(manager.registry.use_count(2, 9), 1);

    let all = ctx.get_all_services_typed::<Greeter, Object>(&mut manager);
    let ids: Vec<u32> = all.iter().map(|s| s.service_id).collect();
    assert_eq!(ids, vec![2, 3]);
    assert_eq!(manager.registry.use_count(1, 9), 0);
    assert_eq!(manager.registry.use_count(2, 9), 2);
    assert_eq!(manager.registry.use_count(3, 9), 1);

    assert!(ctx.get_service_by_id_typed(&mut manager, 1, t).is_none());
    assert_eq!(manager.registry.use_count(1, 9), 0);
    assert_eq!(
        ctx.get_service_by_id_typed(&mut manager, 3, t).map(|s| s.service_id),
        Some(3)
    );
    assert!(ctx.get_service_by_id_typed(&mut manager, 8, t).is_none());
    assert_eq!(
        ctx.get_first_service_by_name_typed(&mut manager, "Greeter", t).map(|s| s.service_id),
        Some(2)
    );
    assert!(ctx
        .get_first_service_by_name_typed(&mut manager, "Greeter", TypeId::of::<Printer>())
        .is_none());
    assert_eq!(ctx.get_all_services_by_name_typed(&mut manager, "Greeter", t).len(), 2);
    assert_eq!(
        ctx.get_first_service_by_type_id_typed(&mut manager, t, TypeId::of::<dyn Service>())
            .map(|s| s.service_id),
        Some(1)
    );
    assert_eq!(ctx.get_all_services_by_type_id_typed(&mut manager, t, t).len(), 2);
    let q = ServiceQuery::by_name("Greeter".into());
    assert_eq!(
        ctx.get_first_service_by_query(&mut manager, &q, t).map(|s| s.service_id),
        Some(2)
    );
    assert_eq!(ctx.get_all_services_by_query(&mut manager, &q, t).len(), 2);
}
