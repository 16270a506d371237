use socrates::module::dynamod::activation_outcome;
use socrates::module::{Activator, Container, Context, Dynamod, NoopActivator};
use socrates::service::ServiceManager;
use socrates::Error;

struct Started(&'static str);

impl Activator for Started {}

type TestContainer = Container<ServiceManager<String>, Started, &'static str>;

fn missing_symbol() -> Error {
    Error::StrError("symbol `activate` not found".to_string())
}

#[test]
fn a_library_without_entry_point_is_not_installed() {
    let mut c = TestContainer::new();
    assert!(c.install("good.so", Ok("good")).is_ok());
    let r = c.install("bad.so", Err(missing_symbol()));
    assert!(matches!(r, Err(Error::StrError(ref s)) if s == "symbol `activate` not found"));
    assert_eq!(c.modules.len(), 1);
    assert_eq!(c.zombie_modules.len(), 0);
    let io = std::io::Error::new(std::io::ErrorKind::NotFound, "no such file");
    assert!(matches!(c.install("none.so", Err(Error::from(io))), Err(Error::IoError(_))));
    assert_eq!(c.modules.len(), 1);
    assert!(c.install("other.so", Ok("other")).is_ok());
    assert_eq!(c.installed_modules(), vec!["good.so".to_string(), "other.so".to_string()]);
    assert_eq!(c.modules[1].id, 1);
    assert_eq!(c.modules[1].lib, "other");
    assert!(!c.modules[1].is_started());
}

#[test]
fn a_panicking_activator_leaves_the_module_installed() {
    let mut c = TestContainer::new();
    c.install("a.so", Ok("a")).unwrap();
    let outcome = activation_outcome::<Started>(None);
    assert!(matches!(outcome, Err(Error::StrError(ref s)) if s == "Panic in Activate"));
    let r = c.start(0, outcome);
    assert!(matches!(r, Err(Error::StrError(ref s)) if s == "Panic in Activate"));
    assert_eq!(c.modules.len(), 1);
    assert!(!c.modules[0].is_started());
    assert!(c.stop(0).is_ok());
    assert!(!c.modules[0].is_started());
    assert!(c.uninstall(0).is_ok());
    assert_eq!(c.modules.len(), 0);
    assert_eq!(c.zombie_modules.len(), 1);
}

#[test]
fn a_module_goes_through_its_states() {
    let mut c = TestContainer::new();
    c.install("a.so", Ok("a")).unwrap();
    c.install("b.so", Ok("b")).unwrap();
    assert!(c.start(1, activation_outcome(Some(Ok(Started("b"))))).is_ok());
    assert!(!c.modules[0].is_started());
    assert!(c.modules[1].is_started());
    assert_eq!(c.modules[1].activator.as_ref().map(|a| a.0), Some("b"));
    let failed = c.start(1, Err(Error::from("refused")));
    assert!(matches!(failed, Err(Error::StrError(ref s)) if s == "refused"));
    assert_eq!(c.modules[1].activator.as_ref().map(|a| a.0), Some("b"));
    assert!(c.stop(1).is_ok());
    assert!(!c.modules[1].is_started());
    assert!(c.start(1, Ok(Started("again"))).is_ok());
    assert!(c.uninstall(0).is_ok());
    assert_eq!(c.installed_modules(), vec!["b.so".to_string()]);
    assert_eq!(c.modules[0].id, 1);
    assert!(c.modules[0].is_started());
    assert_eq!(c.zombie_modules[0].path, "a.so");
    assert_eq!(c.zombie_modules[0].lib, "a");
    assert!(c.uninstall(0).is_ok());
    assert!(c.zombie_modules[1].activator.is_none());
    assert_eq!(c.zombie_modules[1].lib, "b");
}

#[test]
fn a_position_without_module_is_not_found() {
    let mut c = TestContainer::new();
    assert!(matches!(c.start(0, Ok(Started("x"))), Err(Error::NotFound(0))));
    assert!(matches!(c.stop(3), Err(Error::NotFound(3))));
    assert!(matches!(c.uninstall(0), Err(Error::NotFound(0))));
    c.install("a.so", Ok("a")).unwrap();
    assert!(matches!(c.stop(1), Err(Error::NotFound(1))));
    assert!(c.stop(0).is_ok());
    assert_eq!(c.modules.len(), 1);
}

#[test]
fn one_failure_does_not_stand_in_the_way_of_other_modules() {
    let mut c = TestContainer::new();
    assert!(c.install("bad.so", Err(missing_symbol())).is_err());
    assert!(c.install("a.so", Ok("a")).is_ok());
    assert!(c.install("b.so", Ok("b")).is_ok());
    assert!(c.start(0, activation_outcome(None)).is_err());
    assert!(c.start(1, Ok(Started("b"))).is_ok());
    assert!(c.modules[1].is_started());
    let ctx = Context::new(c.modules[1].id);
    let reg = ctx
        .register_service(&mut c.svc_manager, std::any::TypeId::of::<u8>(), "S", 0, "s".into())
        .unwrap();
    assert_eq!(reg.svc_ref.owner_id, 1);
    assert_eq!(c.svc_manager.get_services_id_by_name("S"), vec![1]);
}

#[test]
fn dynamod_alone_keeps_its_library_when_it_becomes_a_zombie() {
    let mut m: Dynamod<NoopActivator, u8> = Dynamod::new(3, "m.so", 42);
    assert_eq!(m.id, 3);
    assert_eq!(m.path, "m.so");
    assert!(!m.is_started());
    assert_eq!(m.context(), Context::new(3));
    assert!(m.start(Ok(NoopActivator)).is_ok());
    assert!(m.is_started());
    let z = m.zombify();
    assert!(!z.is_started());
    assert_eq!((z.id, z.lib), (3, 42));
    assert_eq!(z.path, "m.so");
}

#[test]
fn container_subscribes_listeners() {
    let mut c = TestContainer::new();
    let g0 = c.register_listener(|_id| true).unwrap();
    let g1 = c.register_listener(|_id| true).unwrap();
    assert_eq!((g0.listener_id, g1.listener_id), (0, 1));
    g0.release(&mut c.svc_manager);
    assert_eq!(c.svc_manager.listeners.listener_ids(), vec![1]);
}

#[test]
fn errors_are_made_from_text() {
    assert!(matches!(Error::from("a"), Error::StrError(ref s) if s == "a"));
    assert!(matches!(Error::from("b".to_string()), Error::StrError(ref s) if s == "b"));
    assert_eq!(Error::from("c").message().map(|s| s.as_str()), Some("c"));
    assert_eq!(Error::NotFound(1).message(), None);
}

#[test]
fn a_container_can_be_built_around_any_manager() {
    let mut c: Container<u8, NoopActivator, ()> = Container::with_manager(7);
    assert_eq!(c.svc_manager, 7);
    assert!(c.install("a.so", Ok(())).is_ok());
    assert!(c.start(0, Ok(NoopActivator)).is_ok());
    assert!(c.modules[0].is_started());
    assert!(c.uninstall(0).is_ok());
    assert_eq!(c.zombie_modules.len(), 1);
}
