//! Queries: how services are asked for.

use super::reference::{ServiceRef, ServiceRefView};
use super::service::{same_type_id, service_type_id, ServiceId};
use std::any::TypeId;
use vstd::prelude::*;

verus! {

/// A question put to the registry, or a filter held against an event.
#[derive(Debug, PartialEq, Eq, PartialOrd, Ord, Hash)]
pub enum ServiceQuery {
    ServiceId(ServiceId),
    Name(String),
    TypeId(TypeQuery),
}

impl Clone for ServiceQuery {
    fn clone(&self) -> (r: ServiceQuery)
        ensures
            r == *self,
    {
        match self {
            ServiceQuery::ServiceId(id) => ServiceQuery::ServiceId(*id),
            ServiceQuery::Name(s) => ServiceQuery::Name(s.clone()),
            ServiceQuery::TypeId(tq) => ServiceQuery::TypeId(tq.clone()),
        }
    }
}

/// A query for the services indexed under one type.
#[derive(Debug, PartialEq, Eq, PartialOrd, Ord, Hash)]
pub struct TypeQuery {
    pub type_id: TypeId,
}

impl Clone for TypeQuery {
    fn clone(&self) -> (r: TypeQuery)
        ensures
            r == *self,
    {
        TypeQuery { type_id: self.type_id }
    }
}

impl TypeQuery {
    /// The query for the services indexed under `type_id`.
    pub fn raw(type_id: TypeId) -> (r: TypeQuery)
        ensures
            r.type_id == type_id,
    {
        TypeQuery { type_id }
    }

    /// The query for the services indexed under the type `U`.
    pub fn by_type<U: ?Sized + 'static>() -> (r: TypeQuery)
        ensures
            call_ensures(TypeId::of::<U>, (), r.type_id),
    {
        TypeQuery { type_id: service_type_id::<U>() }
    }
}

/// A query with its name as a sequence of characters.
pub enum QueryView {
    ServiceId(ServiceId),
    Name(Seq<char>),
    TypeId(TypeId),
}

impl QueryView {
    /// Whether a registration with the snapshot `e` answers the query: by its
    /// identity, by its name, or by the type it is indexed under.
    pub open spec fn accepts(self, e: ServiceRefView) -> bool {
        match self {
            QueryView::ServiceId(id) => e.core.id == id,
            QueryView::Name(s) => e.name == s,
            QueryView::TypeId(t) => e.type_id == t,
        }
    }
}

impl View for ServiceQuery {
    type V = QueryView;

    open spec fn view(&self) -> QueryView {
        match *self {
            ServiceQuery::ServiceId(id) => QueryView::ServiceId(id),
            ServiceQuery::Name(s) => QueryView::Name(s@),
            ServiceQuery::TypeId(tq) => QueryView::TypeId(tq.type_id),
        }
    }
}

impl ServiceQuery {
    /// Whether a registration with the snapshot `e` answers the query.
    pub open spec fn accepts(self, e: ServiceRefView) -> bool {
        self@.accepts(e)
    }

    pub fn by_service_id(id: ServiceId) -> (r: ServiceQuery)
        ensures
            r == ServiceQuery::ServiceId(id),
    {
        ServiceQuery::ServiceId(id)
    }

    pub fn by_name(s: String) -> (r: ServiceQuery)
        ensures
            r == ServiceQuery::Name(s),
    {
        ServiceQuery::Name(s)
    }

    pub fn by_type_id(s: TypeId) -> (r: ServiceQuery)
        ensures
            r == ServiceQuery::TypeId(TypeQuery { type_id: s }),
    {
        let tq = TypeQuery::raw(s);
        ServiceQuery::TypeId(tq)
    }

    /// The query for the services indexed under the type `T`.
    pub fn by_type<T: ?Sized + 'static>() -> (r: ServiceQuery)
        ensures
            r matches ServiceQuery::TypeId(tq) && call_ensures(TypeId::of::<T>, (), tq.type_id),
    {
        ServiceQuery::TypeId(TypeQuery::by_type::<T>())
    }

    /// Whether the registration that `e` describes answers the query: by its
    /// identity, by its name, or by the type it is indexed under.
    pub fn matches(&self, e: &ServiceRef) -> (r: bool)
        ensures
            r == self.accepts(e@),
    {
        match self {
            ServiceQuery::ServiceId(id) => e.core.id == *id,
            ServiceQuery::Name(s) => e.name == *s,
            ServiceQuery::TypeId(tq) => same_type_id(&e.type_id, &tq.type_id),
        }
    }
}

} // verus!
