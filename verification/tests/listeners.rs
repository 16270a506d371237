use socrates::service::{
    ServiceCoreProps, ServiceEvent, ServiceEventListenerGuard, ServiceListeners, ServiceManager,
    ServiceRef, SvcTracker,
};
use std::any::TypeId;
use std::cell::RefCell;

fn event(id: u32) -> ServiceEvent {
    ServiceEvent::ServiceRegistered(ServiceRef {
        core: ServiceCoreProps { ranking: 0, id },
        name: "Greeter".into(),
        type_id: TypeId::of::<u8>(),
        owner_id: 0,
    })
}

#[test]
fn subscriptions_get_rising_identities_and_keep_their_order() {
    let mut table = ServiceListeners::new();
    assert_eq!(table.len(), 0);
    assert!(table.listener_ids().is_empty());
    assert_eq!(table.insert_listener(), 0);
    assert_eq!(table.insert_listener(), 1);
    assert_eq!(table.insert_listener(), 2);
    assert_eq!(table.len(), 3);
    assert_eq!(table.listener_ids(), vec![0, 1, 2]);
}

#[test]
fn events_are_delivered_in_the_order_of_subscription() {
    let mut table = ServiceListeners::new();
    table.insert_listener();
    table.insert_listener();
    table.insert_listener();
    let heard: RefCell<Vec<(u32, u32)>> = RefCell::new(Vec::new());
    let dirty = table.fire_event(&event(9), |id, e: &ServiceEvent| {
        heard.borrow_mut().push((id, e.get_service_ref().core.id));
        true
    });
    assert!(!dirty);
    assert_eq!(heard.into_inner(), vec![(0, 9), (1, 9), (2, 9)]);
}

#[test]
fn a_subscriber_that_is_gone_makes_the_table_dirty() {
    let mut table = ServiceListeners::new();
    table.insert_listener();
    table.insert_listener();
    table.insert_listener();
    let heard: RefCell<Vec<u32>> = RefCell::new(Vec::new());
    let dirty = table.fire_event(&event(1), |id, _e: &ServiceEvent| {
        heard.borrow_mut().push(id);
        id != 1
    });
    assert!(dirty);
    assert_eq!(heard.into_inner(), vec![0, 1, 2]);
    let empty = ServiceListeners::new();
    assert!(!empty.fire_event(&event(1), |_id, _e: &ServiceEvent| false));
}

#[test]
fn clean_up_drops_the_dead_and_keeps_the_order() {
    let mut table = ServiceListeners::new();
    for _ in 0..5 {
        table.insert_listener();
    }
    table.clean_up(|id| id % 2 == 0);
    assert_eq!(table.listener_ids(), vec![0, 2, 4]);
    assert_eq!(table.insert_listener(), 5);
    assert_eq!(table.listener_ids(), vec![0, 2, 4, 5]);
    table.clean_up(|_id| true);
    assert_eq!(table.listener_ids(), vec![0, 2, 4, 5]);
    table.clean_up(|_id| false);
    assert!(table.listener_ids().is_empty());
    assert_eq!(table.insert_listener(), 6);
}

#[test]
fn a_removed_subscription_hears_nothing_more() {
    let mut table = ServiceListeners::new();
    table.insert_listener();
    table.insert_listener();
    table.insert_listener();
    table.remove_listener(1);
    assert_eq!(table.listener_ids(), vec![0, 2]);
    let heard: RefCell<Vec<u32>> = RefCell::new(Vec::new());
    table.fire_event(&event(1), |id, _e: &ServiceEvent| {
        heard.borrow_mut().push(id);
        true
    });
    assert_eq!(heard.into_inner(), vec![0, 2]);
    table.remove_listener(1);
    table.remove_listener(77);
    assert_eq!(table.listener_ids(), vec![0, 2]);
}

#[test]
fn a_snapshot_is_not_touched_by_later_changes() {
    let mut table = ServiceListeners::new();
    table.insert_listener();
    table.insert_listener();
    let before = table.snapshot();
    table.remove_listener(0);
    table.insert_listener();
    assert_eq!(before.listener_ids(), vec![0, 1]);
    assert_eq!(table.listener_ids(), vec![1, 2]);
    let heard: RefCell<Vec<u32>> = RefCell::new(Vec::new());
    before.fire_event(&event(1), |id, _e: &ServiceEvent| {
        heard.borrow_mut().push(id);
        true
    });
    assert_eq!(heard.into_inner(), vec![0, 1]);
}

#[test]
fn manager_notes_events_and_hands_them_out_oldest_first() {
    let mut manager: ServiceManager<String> = ServiceManager::new();
    assert!(manager.next_notification().is_none());
    let first = manager.register_listener(|_id| true);
    let a = manager
        .register_service(TypeId::of::<u8>(), "A", 0, 3, "a".to_string())
        .unwrap();
    let b = manager
        .register_service(TypeId::of::<u8>(), "B", 0, 3, "b".to_string())
        .unwrap();
    manager.unregister_service(a.core.id);
    manager.unregister_service(a.core.id);
    manager.unregister_service(99);
    assert_eq!(manager.pending.len(), 3);

    let n1 = manager.next_notification().unwrap();
    assert_eq!(n1.event, ServiceEvent::ServiceRegistered(a.clone()));
    assert_eq!(n1.targets.listener_ids(), vec![first]);

    let second = manager.register_listener(|_id| true);
    let n2 = manager.next_notification().unwrap();
    assert_eq!(n2.event, ServiceEvent::ServiceRegistered(b));
    assert_eq!(n2.targets.listener_ids(), vec![first, second]);

    ServiceEventListenerGuard::new(first).release(&mut manager);
    let n3 = manager.next_notification().unwrap();
    assert_eq!(n3.event, ServiceEvent::ServiceUnregistered(a));
    assert_eq!(n3.targets.listener_ids(), vec![second]);
    assert_eq!(n1.targets.listener_ids(), vec![first]);

    assert!(manager.next_notification().is_none());
}

#[test]
fn manager_purges_the_dead_when_a_listener_subscribes() {
    let mut manager: ServiceManager<String> = ServiceManager::new();
    assert_eq!(manager.register_listener(|_id| true), 0);
    assert_eq!(manager.register_listener(|_id| true), 1);
    assert_eq!(manager.register_listener(|id| id != 0), 2);
    assert_eq!(manager.listeners.listener_ids(), vec![1, 2]);
    manager.unregister_listener(2);
    assert_eq!(manager.listeners.listener_ids(), vec![1]);
    let heard: RefCell<Vec<u32>> = RefCell::new(Vec::new());
    let dirty = manager.fire_event(&event(4), |id, _e: &ServiceEvent| {
        heard.borrow_mut().push(id);
        false
    });
    assert!(dirty);
    assert_eq!(heard.into_inner(), vec![1]);
}

#[test]
fn manager_lists_services_by_name_and_type() {
    let mut manager: ServiceManager<String> = ServiceManager::new();
    let t = TypeId::of::<u8>();
    let u = TypeId::of::<u16>();
    manager.register_service(t, "A", 3, 0, "x".into()).unwrap();
    manager.register_service(u, "A", 1, 0, "y".into()).unwrap();
    manager.register_service(t, "B", 2, 0, "z".into()).unwrap();
    assert_eq!(manager.get_services_id_by_name("A"), vec![2, 1]);
    assert_eq!(manager.get_services_id_by_type_id(t), vec![3, 1]);
    let by_name: Vec<u32> = manager
        .get_services_ref_by_name("A")
        .iter()
        .map(|r| r.core.id)
        .collect();
    assert_eq!(by_name, vec![2, 1]);
    let by_type: Vec<u32> = manager
        .get_services_ref_by_type_id(t)
        .iter()
        .map(|r| r.core.id)
        .collect();
    assert_eq!(by_type, vec![3, 1]);
    assert_eq!(manager.get_service_ref(2).map(|r| r.owner_id), Some(0));
    assert_eq!(manager.get_services_by_type_id(t, 9), vec![3, 1]);
    assert_eq!(manager.registry.use_count(3, 9), 1);
    assert_eq!(manager.registry.use_count(2, 9), 0);
    assert_eq!(manager.get_service_object(2, 9).cloned(), Some("y".to_string()));
    manager.remove_use(3, 9);
    assert_eq!(manager.registry.use_count(3, 9), 0);
}

#[test]
fn a_tracker_follows_the_names_it_was_given() {
    let mut manager: ServiceManager<String> = ServiceManager::new();
    let t = TypeId::of::<u8>();
    manager.register_service(t, "A", 5, 0, "a5".into()).unwrap();
    manager.register_service(t, "A", 1, 0, "a1".into()).unwrap();
    manager.register_service(t, "C", 0, 0, "c".into()).unwrap();
    let mut tracker = SvcTracker::new(vec!["A".into(), "B".into(), "A".into()]);
    assert!(tracker.get("A").is_none());
    assert!(tracker.get("B").is_none());
    assert!(tracker.activate(&mut manager, |_id| true).is_ok());
    assert_eq!(manager.listeners.listener_ids(), vec![0]);
    assert_eq!(tracker.get("A").map(|r| r.core.id), Some(2));
    assert!(tracker.get("B").is_none());
    assert!(tracker.get("C").is_none());

    let b = ServiceRef {
        core: ServiceCoreProps { ranking: 0, id: 9 },
        name: "B".into(),
        type_id: t,
        owner_id: 0,
    };
    let c = ServiceRef {
        core: ServiceCoreProps { ranking: 0, id: 3 },
        name: "C".into(),
        type_id: t,
        owner_id: 0,
    };
    tracker.on_service_event(&ServiceEvent::ServiceRegistered(b.clone()));
    tracker.on_service_event(&ServiceEvent::ServiceRegistered(c.clone()));
    assert_eq!(tracker.get("B"), Some(&b));
    assert!(tracker.get("C").is_none());
    tracker.on_service_event(&ServiceEvent::ServiceModified(b.clone()));
    assert_eq!(tracker.get("B"), Some(&b));
    tracker.on_service_event(&ServiceEvent::ServiceUnregistered(b));
    assert!(tracker.get("B").is_none());
    assert_eq!(tracker.get("A").map(|r| r.core.ranking), Some(1));
}

#[test]
fn the_next_identity_is_known_in_advance() {
    let mut table = ServiceListeners::new();
    assert_eq!(table.next_listener_id(), 0);
    let id = table.insert_listener();
    assert_eq!(id, 0);
    assert_eq!(table.next_listener_id(), 1);
    table.remove_listener(0);
    assert_eq!(table.next_listener_id(), 1);
    assert_eq!(table.snapshot().next_listener_id(), 1);
}

#[test]
fn manager_takes_handles_by_name() {
    let mut manager: ServiceManager<String> = ServiceManager::new();
    let t = TypeId::of::<u8>();
    manager.register_service(t, "A", 3, 0, "x".into()).unwrap();
    manager.register_service(t, "B", 1, 0, "y".into()).unwrap();
    manager.register_service(t, "A", 2, 0, "z".into()).unwrap();
    assert_eq!(manager.get_services_by_name("A", 4), vec![3, 1]);
    assert_eq!(manager.registry.use_count(1, 4), 1);
    assert_eq!(manager.registry.use_count(2, 4), 0);
    assert_eq!(manager.registry.use_count(3, 4), 1);
    assert!(manager.get_services_by_name("C", 4).is_empty());
}
