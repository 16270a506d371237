//! Components: units that are instantiated once the services they require
//! are registered, and dropped when a required service is lost.

pub mod controller;
pub mod definition;
pub mod factory;
pub mod manager;
pub mod references;

pub use self::controller::Component;
pub use self::controller::ComponentController;
pub use self::controller::ComponentInstance;
pub use self::controller::Lifecycle;
pub use self::controller::Transition;
pub use self::definition::Cardinality;
pub use self::definition::ComponentDefinition;
pub use self::definition::Policy;
pub use self::definition::PolicyOption;
pub use self::definition::Provide;
pub use self::definition::Reference;
pub use self::definition::ReferenceOptions;
pub use self::factory::build;
pub use self::factory::Factory;
pub use self::factory::Update;
pub use self::manager::ComponentControllerT;
pub use self::manager::ComponentManager;
pub use self::manager::ComponentManagerHandler;
pub use self::references::ComponentReferences;
