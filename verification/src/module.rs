//! Modules: the units that are installed, started, stopped and uninstalled.

pub mod activator;
pub mod container;
pub mod context;
pub mod dynamod;

pub use self::activator::Activator;
pub use self::activator::NoopActivator;
pub use self::container::Container;
pub use self::context::Context;
pub use self::dynamod::Dynamod;
pub use self::dynamod::DynamodId;
