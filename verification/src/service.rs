//! Services: what is registered, how it is found, and who uses it.

pub mod event;
pub mod laws;
pub mod listeners;
pub mod manager;
pub mod model;
pub mod query;
pub mod reference;
pub mod registration;
pub mod registry;
pub mod service;
pub mod svc;
pub mod tracker;
pub mod usage;

pub use self::event::ServiceEvent;
pub use self::event::ServiceEventListener;
pub use self::listeners::ListenerId;
pub use self::listeners::ServiceListeners;
pub use self::manager::Notification;
pub use self::manager::ServiceManager;
pub use self::model::RegistryView;
pub use self::model::ServiceEntry;
pub use self::query::ServiceQuery;
pub use self::query::TypeQuery;
pub use self::reference::ServiceCoreProps;
pub use self::reference::ServiceRanking;
pub use self::reference::ServiceRef;
pub use self::registration::ServiceEventListenerGuard;
pub use self::registration::ServiceRegistration;
pub use self::registry::RegisteredService;
pub use self::registry::ServiceRegistry;
pub use self::service::any_service_type_id;
pub use self::service::get_name;
pub use self::service::service_name;
pub use self::service::service_type_id;
pub use self::service::Named;
pub use self::service::Service;
pub use self::service::ServiceId;
pub use self::svc::Svc;
pub use self::tracker::SvcTracker;
pub use self::usage::UsageCounts;
