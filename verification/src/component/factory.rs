//! How the parts of a component are made from what the runtime offers.

use crate::module::context::Context;
use vstd::prelude::*;

verus! {

/// A value that can be made from a `Source`, or not.
pub trait Factory<Source>: Sized {
    fn build(from: Source) -> Option<Self>;
}

/// A value that can be brought up to date from a `Source`, or not.
pub trait Update<Source>: Sized {
    fn update(&self, ctx: Source) -> Option<()>;
}

/// Makes a `T` from what `from` converts into.
pub fn build<Source, Provided: Into<Source>, T: Factory<Source>>(from: Provided) -> (r: Option<T>)
    ensures
        exists|source: Source|
            call_ensures(<Provided as Into<Source>>::into, (from,), source) && call_ensures(
                T::build,
                (source,),
                r,
            ),
{
    T::build(from.into())
}

impl<Source, T: Factory<Source>> Factory<Source> for Option<T> {
    /// A part that may be missing is always made: with the value if that can
    /// be made, and without it if not.
    fn build(from: Source) -> (r: Option<Option<T>>)
        ensures
            r matches Some(made) && call_ensures(T::build, (from,), made),
    {
        Some(T::build(from))
    }
}

impl<'a> Factory<&'a Context> for Context {
    /// A context is made from a context by copying it.
    fn build(ctx: &'a Context) -> (r: Option<Context>)
        ensures
            r == Some(*ctx),
    {
        Some(*ctx)
    }
}

} // verus!
