use socrates::component::definition::{
    Cardinality, ComponentDefinition, Policy, PolicyOption, Provide, Reference, ReferenceOptions,
};
use socrates::service::{
    any_service_type_id, get_name, service_name, service_type_id, Named, Service,
    ServiceCoreProps, ServiceEvent, ServiceQuery, ServiceRef, TypeQuery,
};
use std::any::TypeId;

trait Greeter: Service {
    fn greet(&self, who: &str) -> String;
}

impl Named for dyn Greeter {
    fn interface_name() -> &'static str {
        "Greeter"
    }
}

struct FormalGreeter;

impl Greeter for FormalGreeter {
    fn greet(&self, who: &str) -> String {
        format!("{} {}", "Hello", who)
    }
}

impl FormalGreeter {
    fn new() -> FormalGreeter {
        FormalGreeter
    }
}

impl Service for FormalGreeter {
    fn query(&self, interface: &TypeId) -> bool {
        *interface == TypeId::of::<dyn Greeter>() || *interface == TypeId::of::<dyn Service>()
    }
}

struct GreetPrinter {
    greeter: FormalGreeter,
}

impl GreetPrinter {
    pub fn print_greet(&self) -> String {
        self.greeter.greet("world")
    }
}

#[test]
fn mod_test_foo() {
    let formal_greeter_def = ComponentDefinition {
        name: "FormalGreeter".into(),
        provides: vec![Provide {
            name: "Greeter".into(),
        }],
        ..Default::default()
    };

    let greet_printer_def = ComponentDefinition {
        name: "GreetPrinter".into(),
        references: vec![Reference {
            name: "Greeter".into(),
            svc_name: get_name("dyn Greeter").into(),
            svc_query: ServiceQuery::by_type_id(<dyn Service>::type_id::<dyn Greeter>()),
            options: Default::default(),
        }],
        ..Default::default()
    };

    println!("{:?}", formal_greeter_def);
    println!("{:?}", greet_printer_def);
}

#[test]
fn lib_test_foo() {
    let formal_greeter_def = ComponentDefinition {
        name: "FormalGreeter".into(),
        provides: vec![Provide {
            name: "Greeter".into(),
        }],
        ..Default::default()
    };

    let greet_printer_def = ComponentDefinition {
        name: "GreetPrinter".into(),
        references: vec![Reference {
            name: "Greeter".into(),
            svc_name: <dyn Greeter as Named>::interface_name().into(),
            svc_query: ServiceQuery::by_type_id(<dyn Service>::type_id::<dyn Greeter>()),
            options: Default::default(),
        }],
        ..Default::default()
    };

    println!("{:?}", formal_greeter_def);
    println!("{:?}", greet_printer_def);
}

#[test]
fn greeter_greets() {
    let printer = GreetPrinter {
        greeter: FormalGreeter::new(),
    };
    assert_eq!(printer.print_greet(), "Hello world");
    assert!(printer.greeter.query(&TypeId::of::<dyn Greeter>()));
    assert!(!printer.greeter.query(&TypeId::of::<String>()));
}

#[test]
fn defaults_are_mandatory_static_greedy() {
    let options = ReferenceOptions::default();
    assert_eq!(options.cardinality, Cardinality::Mandatory);
    assert_eq!(options.policy, Policy::Static);
    assert_eq!(options.policy_option, PolicyOption::Greedy);
    assert_eq!(Cardinality::default(), Cardinality::Mandatory);
    assert_eq!(Policy::default(), Policy::Static);
    assert_eq!(PolicyOption::default(), PolicyOption::Greedy);
    let def = ComponentDefinition::default();
    assert_eq!(def.name, "");
    assert!(def.provides.is_empty());
    assert!(def.references.is_empty());
    assert_eq!(Provide::default().name, "");
}

#[test]
fn type_ids_are_those_of_std() {
    assert_eq!(service_type_id::<dyn Greeter>(), TypeId::of::<dyn Greeter>());
    assert_eq!(any_service_type_id(), TypeId::of::<dyn Service>());
    assert_eq!(<dyn Service>::type_id::<u8>(), TypeId::of::<u8>());
    assert_eq!(<dyn Service>::any_type_id(), TypeId::of::<dyn Service>());
    assert_eq!(service_name::<dyn Greeter>(), "Greeter");
    assert_eq!(TypeQuery::raw(TypeId::of::<u8>()).type_id, TypeId::of::<u8>());
    assert_eq!(TypeQuery::by_type::<u16>().type_id, TypeId::of::<u16>());
}

fn sample(id: u32, ranking: i32, name: &str, type_id: TypeId) -> ServiceRef {
    ServiceRef {
        core: ServiceCoreProps { ranking, id },
        name: name.into(),
        type_id,
        owner_id: 7,
    }
}

#[test]
fn query_matches_by_id_name_and_type() {
    let e = sample(3, 10, "Greeter", TypeId::of::<dyn Greeter>());

    assert!(ServiceQuery::by_service_id(3).matches(&e));
    assert!(!ServiceQuery::by_service_id(4).matches(&e));

    assert!(ServiceQuery::by_name("Greeter".into()).matches(&e));
    assert!(!ServiceQuery::by_name("Greete".into()).matches(&e));
    assert!(!ServiceQuery::by_name("".into()).matches(&e));

    assert!(ServiceQuery::by_type_id(TypeId::of::<dyn Greeter>()).matches(&e));
    assert!(!ServiceQuery::by_type_id(TypeId::of::<dyn Service>()).matches(&e));
    assert!(ServiceQuery::by_type::<dyn Greeter>().matches(&e));
    assert!(!ServiceQuery::by_type::<u8>().matches(&e));
}

#[test]
fn query_constructors_build_the_variants() {
    assert_eq!(ServiceQuery::by_service_id(9), ServiceQuery::ServiceId(9));
    assert_eq!(
        ServiceQuery::by_name("a".into()),
        ServiceQuery::Name("a".into())
    );
    assert_eq!(
        ServiceQuery::by_type_id(TypeId::of::<u8>()),
        ServiceQuery::TypeId(TypeQuery {
            type_id: TypeId::of::<u8>()
        })
    );
    let q = ServiceQuery::by_name("b".into());
    assert_eq!(q.clone(), q);
}

#[test]
fn event_carries_its_service_ref() {
    let e = sample(1, 0, "x", TypeId::of::<u8>());
    let registered = ServiceEvent::ServiceRegistered(e.clone());
    let modified = ServiceEvent::ServiceModified(e.clone());
    let unregistered = ServiceEvent::ServiceUnregistered(e.clone());
    assert_eq!(registered.get_service_ref(), &e);
    assert_eq!(modified.get_service_ref(), &e);
    assert_eq!(unregistered.get_service_ref(), &e);
    assert_eq!(registered.clone(), registered);
    assert_ne!(registered, unregistered);
}

#[test]
fn core_props_order_by_ranking_then_id() {
    let low = ServiceCoreProps { ranking: 5, id: 9 };
    let high = ServiceCoreProps { ranking: 10, id: 2 };
    let tie = ServiceCoreProps { ranking: 5, id: 10 };
    assert!(low.precedes(&high));
    assert!(!high.precedes(&low));
    assert!(low.precedes(&tie));
    assert!(!tie.precedes(&low));
    assert!(!low.precedes(&low));
    assert!(low < high);
    assert!(low < tie);
    assert_eq!(low.as_pair(), (5, 9));
    assert_eq!(ServiceCoreProps::from_pair((5, 9)), low);
    let negative = ServiceCoreProps { ranking: -1, id: 100 };
    assert!(negative.precedes(&low));
}

#[test]
fn published_names_lose_the_dyn_in_front() {
    assert_eq!(get_name("dyn api::Greeter"), "api::Greeter");
    assert_eq!(get_name("api::Greeter"), "api::Greeter");
    assert_eq!(get_name("dyn "), "");
    assert_eq!(get_name("dyn"), "dyn");
    assert_eq!(get_name("dynamo"), "dynamo");
    assert_eq!(get_name(""), "");
    assert_eq!(get_name("dyn dyn X"), "dyn X");
    assert_eq!(get_name("dýn é"), "dýn é");
    assert_eq!(get_name("dyn é"), "é");
}
