//! Service objects, the names and the type identifiers they are published under.

use std::any::TypeId;
use vstd::prelude::*;
use vstd::string::StrSliceExecFns;

verus! {

/// The identity of a registration. Identities are handed out in rising order
/// and never used twice.
pub type ServiceId = u32;

/// `std::any::TypeId`: an opaque identifier of a type.
#[verifier::external_type_specification]
#[verifier::external_body]
pub struct ExTypeId(std::any::TypeId);

/// `TypeId::of`: the identifier of `T`. Nothing is claimed of its value.
pub assume_specification<T: ?Sized + 'static>[ std::any::TypeId::of::<T> ](
    ) -> ( r: std::any::TypeId)
;

/// `TypeId`'s `==`: two identifiers are equal exactly when they are the same
/// value.
#[verifier::external_body]
pub(crate) fn same_type_id(a: &TypeId, b: &TypeId) -> (r: bool)
    ensures
        r == (*a == *b),
{
    a == b
}

/// A type that knows the name under which its services are published.
pub trait Named {
    fn interface_name() -> &'static str;
}

/// An object that can be registered.
///
/// A service may stand for several interfaces. `query` answers whether the
/// object also implements the interface that `interface` identifies.
pub trait Service: Send + Sync {
    fn query(&self, interface: &TypeId) -> bool;
}

/// `answer` is what `object` answered when it was asked whether it provides
/// `interface`.
pub open spec fn answered<S: Service>(object: S, interface: TypeId, answer: bool) -> bool {
    call_ensures(S::query, (&object, &interface), answer)
}

/// The name of an interface as it is published: the name of its type
/// without the `dyn ` that stands in front of the name of a trait.
pub open spec fn published_name(full_name: Seq<char>) -> Seq<char> {
    if full_name.len() >= 4 && full_name.subrange(0, 4) == seq!['d', 'y', 'n', ' '] {
        full_name.skip(4)
    } else {
        full_name
    }
}

/// The name under which an interface is published, from the name of its
/// type.
pub fn get_name<'a>(full_name: &'a str) -> (r: &'a str)
    ensures
        r@ == published_name(full_name@),
{
    let n = full_name.unicode_len();
    if n >= 4 && full_name.get_char(0) == 'd' && full_name.get_char(1) == 'y'
        && full_name.get_char(2) == 'n' && full_name.get_char(3) == ' ' {
        assert(full_name@.subrange(0, 4) =~= seq!['d', 'y', 'n', ' ']);
        assert(full_name@.subrange(4, n as int) =~= full_name@.skip(4));
        full_name.substring_char(4, n)
    } else {
        proof {
            if full_name@.len() >= 4 {
                let head = full_name@.subrange(0, 4);
                assert(head[0] == full_name@[0]);
                assert(head[1] == full_name@[1]);
                assert(head[2] == full_name@[2]);
                assert(head[3] == full_name@[3]);
            }
        }
        full_name
    }
}

/// The name under which services of type `T` are published.
pub fn service_name<T: Named + ?Sized>() -> (r: &'static str)
    ensures
        call_ensures(T::interface_name, (), r),
{
    T::interface_name()
}

/// The identifier under which services of type `T` are indexed.
pub fn service_type_id<T: ?Sized + 'static>() -> (r: TypeId)
    ensures
        call_ensures(TypeId::of::<T>, (), r),
{
    TypeId::of::<T>()
}

/// The identifier of the interface that every service has.
pub fn any_service_type_id() -> (r: TypeId)
    ensures
        call_ensures(TypeId::of::<dyn Service>, (), r),
{
    service_type_id::<dyn Service>()
}

impl dyn Service {
    /// The identifier under which services of type `T` are indexed.
    pub fn type_id<T: ?Sized + 'static>() -> (r: TypeId)
        ensures
            call_ensures(TypeId::of::<T>, (), r),
    {
        service_type_id::<T>()
    }

    /// The identifier of the interface that every service has.
    pub fn any_type_id() -> (r: TypeId)
        ensures
            call_ensures(TypeId::of::<dyn Service>, (), r),
    {
        any_service_type_id()
    }
}

} // verus!
