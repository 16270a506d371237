use socrates::service::{Service, ServiceQuery, ServiceRegistry};
use std::any::TypeId;
use std::sync::atomic::{AtomicUsize, Ordering};
use std::sync::Arc;

struct Probe {
    label: &'static str,
    drops: Arc<AtomicUsize>,
}

impl Probe {
    fn new(label: &'static str, drops: &Arc<AtomicUsize>) -> Probe {
        Probe {
            label,
            drops: Arc::clone(drops),
        }
    }
}

impl Drop for Probe {
    fn drop(&mut self) {
        self.drops.fetch_add(1, Ordering::SeqCst);
    }
}

impl Service for Probe {
    fn query(&self, interface: &TypeId) -> bool {
        *interface == TypeId::of::<Probe>()
    }
}

fn greeter_type() -> TypeId {
    TypeId::of::<Probe>()
}

#[test]
fn first_by_name_is_the_lowest_ranking() {
    let drops = Arc::new(AtomicUsize::new(0));
    let mut reg: ServiceRegistry<Probe> = ServiceRegistry::new();
    let a = reg.register_service(greeter_type(), "Greeter", Probe::new("a", &drops), 5, 0);
    let b = reg.register_service(greeter_type(), "Greeter", Probe::new("b", &drops), 10, 0);
    assert_eq!(a.core.id, 1);
    assert_eq!(a.core.ranking, 5);
    assert_eq!(b.core.id, 2);
    assert_eq!(b.core.ranking, 10);
    assert_eq!(reg.get_service_id_by_name("Greeter"), Some(1));
    assert_eq!(reg.get_services_id_by_name("Greeter"), vec![1, 2]);
    assert_eq!(reg.get_service_id_by_type_id(greeter_type()), Some(1));
    assert_eq!(reg.get_services_id_by_type_id(greeter_type()), vec![1, 2]);
}

#[test]
fn a_lower_ranking_registered_later_comes_first() {
    let drops = Arc::new(AtomicUsize::new(0));
    let mut reg: ServiceRegistry<Probe> = ServiceRegistry::new();
    reg.register_service(greeter_type(), "Greeter", Probe::new("a", &drops), 10, 0);
    reg.register_service(greeter_type(), "Greeter", Probe::new("b", &drops), 5, 0);
    reg.register_service(greeter_type(), "Greeter", Probe::new("c", &drops), 10, 0);
    reg.register_service(greeter_type(), "Greeter", Probe::new("d", &drops), -3, 0);
    assert_eq!(reg.get_services_id_by_name("Greeter"), vec![4, 2, 1, 3]);
    assert_eq!(reg.get_service_id_by_name("Greeter"), Some(4));
    let refs = reg.get_services_ref_by_name("Greeter");
    let rankings: Vec<i32> = refs.iter().map(|r| r.core.ranking).collect();
    assert_eq!(rankings, vec![-3, 5, 10, 10]);
}

#[test]
fn register_returns_the_snapshot() {
    let drops = Arc::new(AtomicUsize::new(0));
    let mut reg: ServiceRegistry<Probe> = ServiceRegistry::new();
    let r = reg.register_service(greeter_type(), "Greeter", Probe::new("a", &drops), 7, 42);
    assert_eq!(r.core.id, 1);
    assert_eq!(r.core.ranking, 7);
    assert_eq!(r.name, "Greeter");
    assert_eq!(r.type_id, greeter_type());
    assert_eq!(r.owner_id, 42);
    assert_eq!(reg.get_service_ref(1), Some(r));
    assert_eq!(reg.get_service_ref(2), None);
}

#[test]
fn lookups_of_what_is_not_there_find_nothing() {
    let drops = Arc::new(AtomicUsize::new(0));
    let mut reg: ServiceRegistry<Probe> = ServiceRegistry::new();
    assert_eq!(reg.get_service_id_by_name("Greeter"), None);
    assert!(reg.get_services_id_by_name("Greeter").is_empty());
    assert_eq!(reg.get_service_id_by_type_id(greeter_type()), None);
    assert_eq!(reg.get_service_ref(1), None);
    assert!(reg.get_service_object(1, 0).is_none());
    assert!(reg.resolve(1).is_none());
    assert_eq!(reg.unregister_service(1), None);
    reg.remove_use(1, 0);
    reg.register_service(greeter_type(), "Greeter", Probe::new("a", &drops), 0, 0);
    assert_eq!(reg.get_service_id_by_name("Other"), None);
    assert_eq!(reg.get_service_id_by_type_id(TypeId::of::<u8>()), None);
    assert!(reg
        .get_services_ref_by_query(&ServiceQuery::by_service_id(2))
        .is_empty());
    assert_eq!(
        reg.get_services_id_by_query(&ServiceQuery::by_service_id(1)),
        vec![1]
    );
}

#[test]
fn identities_are_never_used_twice() {
    let drops = Arc::new(AtomicUsize::new(0));
    let mut reg: ServiceRegistry<Probe> = ServiceRegistry::new();
    let a = reg.register_service(greeter_type(), "A", Probe::new("a", &drops), 0, 0);
    assert!(reg.unregister_service(a.core.id).is_some());
    let b = reg.register_service(greeter_type(), "A", Probe::new("b", &drops), 0, 0);
    assert_eq!(a.core.id, 1);
    assert_eq!(b.core.id, 2);
    assert_eq!(reg.get_service_ref(1), None);
}

#[test]
fn usage_is_counted_per_consumer() {
    let drops = Arc::new(AtomicUsize::new(0));
    let mut reg: ServiceRegistry<Probe> = ServiceRegistry::new();
    reg.register_service(greeter_type(), "Greeter", Probe::new("a", &drops), 0, 0);
    assert_eq!(reg.use_count(1, 7), 0);
    assert_eq!(reg.get_service_object(1, 7).map(|p| p.label), Some("a"));
    assert_eq!(reg.use_count(1, 7), 1);
    assert!(reg.get_service_object(1, 7).is_some());
    assert!(reg.get_service_object(1, 8).is_some());
    assert_eq!(reg.use_count(1, 7), 2);
    assert_eq!(reg.use_count(1, 8), 1);
    assert_eq!(reg.use_count(1, 9), 0);
    reg.remove_use(1, 7);
    assert_eq!(reg.use_count(1, 7), 1);
    assert_eq!(reg.use_count(1, 8), 1);
    reg.remove_use(1, 7);
    assert_eq!(reg.use_count(1, 7), 0);
    reg.remove_use(1, 7);
    assert_eq!(reg.use_count(1, 7), 0);
    assert_eq!(reg.use_count(1, 8), 1);
    assert_eq!(reg.use_count(2, 7), 0);
}

#[test]
fn releasing_a_registered_service_keeps_it_listed() {
    let drops = Arc::new(AtomicUsize::new(0));
    let mut reg: ServiceRegistry<Probe> = ServiceRegistry::new();
    reg.register_service(greeter_type(), "Greeter", Probe::new("a", &drops), 0, 0);
    assert!(reg.get_service_object(1, 7).is_some());
    reg.remove_use(1, 7);
    assert_eq!(reg.get_service_id_by_name("Greeter"), Some(1));
    assert!(reg.resolve(1).is_some());
    assert!(!reg.is_zombie(1));
    assert_eq!(drops.load(Ordering::SeqCst), 0);
}

#[test]
fn unregistering_an_unused_service_drops_it_at_once() {
    let drops = Arc::new(AtomicUsize::new(0));
    let mut reg: ServiceRegistry<Probe> = ServiceRegistry::new();
    reg.register_service(greeter_type(), "Greeter", Probe::new("a", &drops), 0, 0);
    let gone = reg.unregister_service(1);
    assert_eq!(gone.map(|r| r.core.id), Some(1));
    assert_eq!(drops.load(Ordering::SeqCst), 1);
    assert!(!reg.is_zombie(1));
    assert!(reg.resolve(1).is_none());
    assert_eq!(reg.unregister_service(1), None);
    assert_eq!(drops.load(Ordering::SeqCst), 1);
}

#[test]
fn a_used_service_is_kept_until_the_last_release() {
    let drops = Arc::new(AtomicUsize::new(0));
    let mut reg: ServiceRegistry<Probe> = ServiceRegistry::new();
    reg.register_service(greeter_type(), "Greeter", Probe::new("a", &drops), 0, 0);
    assert!(reg.get_service_object(1, 7).is_some());
    assert!(reg.get_service_object(1, 7).is_some());
    assert!(reg.get_service_object(1, 8).is_some());

    assert!(reg.unregister_service(1).is_some());
    assert!(reg.is_zombie(1));
    assert_eq!(reg.get_service_ref(1), None);
    assert_eq!(reg.get_service_id_by_name("Greeter"), None);
    assert!(reg.get_service_object(1, 9).is_none());
    assert_eq!(reg.use_count(1, 9), 0);
    assert_eq!(reg.resolve(1).map(|p| p.label), Some("a"));
    assert_eq!(drops.load(Ordering::SeqCst), 0);

    reg.remove_use(1, 7);
    assert!(reg.resolve(1).is_some());
    reg.remove_use(1, 9);
    assert!(reg.resolve(1).is_some());
    reg.remove_use(1, 8);
    assert!(reg.resolve(1).is_some());
    assert_eq!(drops.load(Ordering::SeqCst), 0);
    reg.remove_use(1, 7);
    assert!(reg.resolve(1).is_none());
    assert!(!reg.is_zombie(1));
    assert_eq!(drops.load(Ordering::SeqCst), 1);
    reg.remove_use(1, 7);
    assert_eq!(drops.load(Ordering::SeqCst), 1);
}

#[test]
fn two_consumers_outlive_the_registration() {
    let drops = Arc::new(AtomicUsize::new(0));
    let mut reg: ServiceRegistry<Probe> = ServiceRegistry::new();
    let r = reg.register_service(greeter_type(), "Greeter", Probe::new("shared", &drops), 0, 0);
    let id = r.core.id;
    assert!(reg.get_service_object(id, 1).is_some());
    assert!(reg.get_service_object(id, 2).is_some());
    assert!(reg.unregister_service(id).is_some());
    assert_eq!(reg.resolve(id).map(|p| p.label), Some("shared"));
    assert_eq!(reg.resolve(id).map(|p| p.label), Some("shared"));
    reg.remove_use(id, 1);
    assert_eq!(reg.resolve(id).map(|p| p.label), Some("shared"));
    reg.remove_use(id, 2);
    assert_eq!(reg.get_service_ref(id), None);
    assert!(reg.resolve(id).is_none());
    assert!(reg.get_service_object(id, 1).is_none());
    assert_eq!(
        reg.get_service_id_by_query(&ServiceQuery::by_service_id(id)),
        None
    );
    assert_eq!(drops.load(Ordering::SeqCst), 1);
}

#[test]
fn unregistering_one_service_leaves_its_namesakes() {
    let drops = Arc::new(AtomicUsize::new(0));
    let mut reg: ServiceRegistry<Probe> = ServiceRegistry::new();
    reg.register_service(greeter_type(), "Greeter", Probe::new("a", &drops), 1, 0);
    reg.register_service(greeter_type(), "Greeter", Probe::new("b", &drops), 2, 0);
    reg.register_service(TypeId::of::<u8>(), "Other", Probe::new("c", &drops), 0, 0);
    assert!(reg.unregister_service(1).is_some());
    assert_eq!(reg.get_services_id_by_name("Greeter"), vec![2]);
    assert_eq!(reg.get_services_id_by_type_id(greeter_type()), vec![2]);
    assert_eq!(reg.get_services_id_by_name("Other"), vec![3]);
    assert_eq!(reg.get_services_id_by_type_id(TypeId::of::<u8>()), vec![3]);
}

#[test]
fn bulk_checkout_takes_one_handle_to_each_candidate() {
    let drops = Arc::new(AtomicUsize::new(0));
    let mut reg: ServiceRegistry<Probe> = ServiceRegistry::new();
    reg.register_service(greeter_type(), "Greeter", Probe::new("a", &drops), 2, 0);
    reg.register_service(greeter_type(), "Other", Probe::new("b", &drops), 1, 0);
    reg.register_service(greeter_type(), "Greeter", Probe::new("c", &drops), 1, 0);
    let ids = reg.get_service_objects_by_query(&ServiceQuery::by_name("Greeter".into()), 5);
    assert_eq!(ids, vec![3, 1]);
    assert_eq!(reg.use_count(1, 5), 1);
    assert_eq!(reg.use_count(2, 5), 0);
    assert_eq!(reg.use_count(3, 5), 1);
}

#[test]
fn conditional_checkout_asks_the_objects_in_order() {
    let drops = Arc::new(AtomicUsize::new(0));
    let mut reg: ServiceRegistry<Probe> = ServiceRegistry::new();
    reg.register_service(greeter_type(), "Greeter", Probe::new("a", &drops), 1, 0);
    reg.register_service(greeter_type(), "Greeter", Probe::new("b", &drops), 2, 0);
    reg.register_service(greeter_type(), "Greeter", Probe::new("c", &drops), 3, 0);
    let q = ServiceQuery::by_name("Greeter".into());
    let first = reg.get_service_object_where(&q, 5, |p: &Probe| p.label != "a");
    assert_eq!(first, Some(2));
    assert_eq!(reg.use_count(1, 5), 0);
    assert_eq!(reg.use_count(2, 5), 1);
    assert_eq!(reg.use_count(3, 5), 0);
    let none = reg.get_service_object_where(&q, 5, |_p: &Probe| false);
    assert_eq!(none, None);
    assert_eq!(reg.use_count(2, 5), 1);
    let all = reg.get_service_objects_where(&q, 5, |p: &Probe| p.label != "b");
    assert_eq!(all, vec![1, 3]);
    assert_eq!(reg.use_count(1, 5), 1);
    assert_eq!(reg.use_count(2, 5), 1);
    assert_eq!(reg.use_count(3, 5), 1);
}

#[test]
fn the_registry_says_what_can_be_asked_of_it() {
    let drops = Arc::new(AtomicUsize::new(0));
    let mut reg: ServiceRegistry<Probe> = ServiceRegistry::new();
    assert_eq!(reg.last_id(), 0);
    reg.register_service(greeter_type(), "Greeter", Probe::new("a", &drops), 0, 0);
    reg.register_service(greeter_type(), "Greeter", Probe::new("b", &drops), 0, 0);
    assert_eq!(reg.last_id(), 2);
    reg.unregister_service(2);
    assert_eq!(reg.last_id(), 2);
    let q = ServiceQuery::by_name("Greeter".into());
    assert!(reg.can_checkout(&q, 1));
    assert!(reg.get_service_object(1, 1).is_some());
    assert!(reg.can_checkout(&q, 1));
    assert!(reg.can_checkout(&ServiceQuery::by_name("Nobody".into()), 1));
    assert_eq!(
        reg.get_service_ref_by_query(&q).map(|r| r.core.id),
        Some(1)
    );
    assert_eq!(
        reg.get_service_ref_by_query(&ServiceQuery::by_service_id(2)),
        None
    );
}
