//! What a component declares: the interfaces it provides and the services it
//! requires.

use crate::service::query::ServiceQuery;
use vstd::prelude::*;

verus! {

/// A component as it is declared.
#[derive(Debug, Clone, PartialEq, Eq, PartialOrd, Ord, Hash)]
pub struct ComponentDefinition {
    pub name: String,
    pub provides: Vec<Provide>,
    pub references: Vec<Reference>,
}

impl Default for ComponentDefinition {
    fn default() -> (r: ComponentDefinition)
        ensures
            r.name@.len() == 0,
            r.provides@.len() == 0,
            r.references@.len() == 0,
    {
        ComponentDefinition { name: String::new(), provides: Vec::new(), references: Vec::new() }
    }
}

/// An interface that a component provides.
#[derive(Debug, Clone, PartialEq, Eq, PartialOrd, Ord, Hash)]
pub struct Provide {
    pub name: String,
}

impl Default for Provide {
    fn default() -> (r: Provide)
        ensures
            r.name@.len() == 0,
    {
        Provide { name: String::new() }
    }
}

/// A service that a component requires.
#[derive(Debug, Clone, PartialEq, Eq, PartialOrd, Ord, Hash)]
pub struct Reference {
    /// The name under which the component knows the reference.
    pub name: String,
    /// The name of the interface, for the reader.
    pub svc_name: String,
    /// Which services satisfy the reference.
    pub svc_query: ServiceQuery,
    pub options: ReferenceOptions,
}

/// How a reference is bound.
#[derive(Debug, Clone, Copy, PartialEq, Eq, PartialOrd, Ord, Hash, Structural)]
pub struct ReferenceOptions {
    pub cardinality: Cardinality,
    pub policy: Policy,
    pub policy_option: PolicyOption,
}

impl Default for ReferenceOptions {
    fn default() -> (r: ReferenceOptions)
        ensures
            r == (ReferenceOptions {
                cardinality: Cardinality::Mandatory,
                policy: Policy::Static,
                policy_option: PolicyOption::Greedy,
            }),
    {
        ReferenceOptions {
            cardinality: Cardinality::Mandatory,
            policy: Policy::Static,
            policy_option: PolicyOption::Greedy,
        }
    }
}

/// How many services a reference needs. Only a `Mandatory` reference keeps a
/// component from being instantiated while no service answers it.
#[derive(Debug, Clone, Copy, PartialEq, Eq, PartialOrd, Ord, Hash, Structural)]
pub enum Cardinality {
    Optional,
    Mandatory,
    Multiple,
}

impl Default for Cardinality {
    fn default() -> (r: Cardinality)
        ensures
            r == Cardinality::Mandatory,
    {
        Cardinality::Mandatory
    }
}

/// Whether an instance keeps the services it was made with (`Static`) or is
/// to follow the registry (`Dynamic`).
#[derive(Debug, Clone, Copy, PartialEq, Eq, PartialOrd, Ord, Hash, Structural)]
pub enum Policy {
    Static,
    Dynamic,
}

impl Default for Policy {
    fn default() -> (r: Policy)
        ensures
            r == Policy::Static,
    {
        Policy::Static
    }
}

/// Which of several services a reference prefers. The option is declared
/// and carried; no operation reads it.
#[derive(Debug, Clone, Copy, PartialEq, Eq, PartialOrd, Ord, Hash, Structural)]
pub enum PolicyOption {
    Greedy,
    Reluctant,
}

impl Default for PolicyOption {
    fn default() -> (r: PolicyOption)
        ensures
            r == PolicyOption::Greedy,
    {
        PolicyOption::Greedy
    }
}

} // verus!
