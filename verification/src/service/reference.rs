//! Snapshots of registrations, and the order in which candidates are listed.

use super::service::ServiceId;
use std::any::TypeId;
use vstd::prelude::*;

verus! {

/// The priority of a registration among those that answer one query.
pub type ServiceRanking = i32;

/// What orders one registration among others: its ranking, then its identity.
///
/// Candidates are listed in rising order, so the first candidate of a query
/// is the one with the lowest ranking, and among those of equal ranking the
/// one registered earliest.
#[derive(Debug, Clone, Copy, PartialEq, Eq, PartialOrd, Ord, Hash, Structural)]
pub struct ServiceCoreProps {
    pub ranking: ServiceRanking,
    pub id: ServiceId,
}

impl ServiceCoreProps {
    /// The pair by which registrations are ordered.
    pub open spec fn key(self) -> (ServiceRanking, ServiceId) {
        (self.ranking, self.id)
    }

    /// `self` comes strictly before `other`.
    pub open spec fn before(self, other: ServiceCoreProps) -> bool {
        self.ranking < other.ranking || (self.ranking == other.ranking && self.id < other.id)
    }

    /// Whether `self` comes strictly before `other`.
    pub fn precedes(&self, other: &ServiceCoreProps) -> (r: bool)
        ensures
            r == self.before(*other),
    {
        self.ranking < other.ranking || (self.ranking == other.ranking && self.id < other.id)
    }

    /// The ranking and the identity as a pair.
    pub fn as_pair(&self) -> (r: (ServiceRanking, ServiceId))
        ensures
            r == self.key(),
    {
        (self.ranking, self.id)
    }

    /// The properties that `pair` stands for.
    pub fn from_pair(pair: (ServiceRanking, ServiceId)) -> (r: ServiceCoreProps)
        ensures
            r.key() == pair,
    {
        ServiceCoreProps { ranking: pair.0, id: pair.1 }
    }
}

/// A snapshot of one registration: what a query is matched against and what
/// an event carries.
#[derive(Debug, PartialEq, Eq, PartialOrd, Ord, Hash)]
pub struct ServiceRef {
    pub core: ServiceCoreProps,
    pub name: String,
    pub type_id: TypeId,
    pub owner_id: u32,
}

/// A `ServiceRef` with its name as a sequence of characters.
pub struct ServiceRefView {
    pub core: ServiceCoreProps,
    pub name: Seq<char>,
    pub type_id: TypeId,
    pub owner_id: u32,
}

impl View for ServiceRef {
    type V = ServiceRefView;

    open spec fn view(&self) -> ServiceRefView {
        ServiceRefView {
            core: self.core,
            name: self.name@,
            type_id: self.type_id,
            owner_id: self.owner_id,
        }
    }
}

impl Clone for ServiceRef {
    fn clone(&self) -> (r: ServiceRef)
        ensures
            r == *self,
    {
        ServiceRef {
            core: self.core,
            name: self.name.clone(),
            type_id: self.type_id,
            owner_id: self.owner_id,
        }
    }
}

/// The order of candidates is strict and total: of two distinct keys exactly
/// one comes before the other, and the order is transitive.
pub proof fn law_order_is_strict_and_total(
    a: ServiceCoreProps,
    b: ServiceCoreProps,
    c: ServiceCoreProps,
)
    ensures
        !a.before(a),
        a.before(b) ==> !b.before(a),
        a.before(b) && b.before(c) ==> a.before(c),
        a.before(b) || b.before(a) || a == b,
{
}

} // verus!
