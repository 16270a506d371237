//! One installed module.

use super::activator::Activator;
use super::context::Context;
use crate::Error;
use vstd::prelude::*;

verus! {

/// The identity of a module: its position in the container when it was
/// installed.
pub type DynamodId = u32;

/// One installed module: a mapped library of type `L` and, while the module
/// is started, the activator of type `A` that its entry point returned.
///
/// The activator lives in the code of the library. It stands before the
/// library so that it is dropped first.
pub struct Dynamod<A: Activator, L> {
    pub id: DynamodId,
    pub path: String,
    pub activator: Option<A>,
    pub lib: L,
}

/// What became of a call of a module's entry point: `None` if it panicked,
/// else what it returned.
pub fn activation_outcome<A: Activator>(returned: Option<Result<A, Error>>) -> (r: Result<
    A,
    Error,
>)
    ensures
        returned matches Some(outcome) ==> r == outcome,
        returned is None ==> (r matches Err(Error::StrError(s)) && s@ == "Panic in Activate"@),
{
    match returned {
        Some(outcome) => outcome,
        None => Err(Error::StrError("Panic in Activate".to_owned())),
    }
}

impl<A: Activator, L> Dynamod<A, L> {
    /// The module is started: it holds an activator.
    pub open spec fn started(&self) -> bool {
        self.activator is Some
    }

    /// A module that is installed and not started.
    pub fn new(id: DynamodId, path: &str, lib: L) -> (r: Dynamod<A, L>)
        ensures
            r.id == id,
            r.path@ == path@,
            r.activator is None,
            r.lib == lib,
    {
        Dynamod { id, path: path.to_owned(), activator: None, lib }
    }

    /// A fresh context, bound to the identity of the module: what its entry
    /// point is called with.
    pub fn context(&self) -> (r: Context)
        ensures
            r.dynamod_id == self.id,
    {
        Context::new(self.id)
    }

    /// Whether the module is started.
    pub fn is_started(&self) -> (r: bool)
        ensures
            r == self.started(),
    {
        self.activator.is_some()
    }

    /// Starts the module with the outcome of its entry point.
    ///
    /// If the entry point returned an activator, the module keeps it and is
    /// started. If the entry point failed, the failure is passed on and the
    /// module stays as it was.
    pub fn start(&mut self, activation: Result<A, Error>) -> (r: Result<(), Error>)
        ensures
            final(self).id == old(self).id,
            final(self).path == old(self).path,
            final(self).lib == old(self).lib,
            match activation {
                Ok(activator) => r is Ok && final(self).activator == Some(activator),
                Err(e) => r == Err::<(), Error>(e) && final(self).activator == old(self).activator,
            },
    {
        match activation {
            Ok(activator) => {
                self.activator = Some(activator);
                Ok(())
            },
            Err(e) => Err(e),
        }
    }

    /// Stops the module: the activator, if there is one, is dropped. Stopping
    /// a module that is not started succeeds and changes nothing.
    pub fn stop(&mut self) -> (r: Result<(), Error>)
        ensures
            r is Ok,
            final(self).id == old(self).id,
            final(self).path == old(self).path,
            final(self).lib == old(self).lib,
            final(self).activator is None,
    {
        self.activator = None;
        Ok(())
    }

    /// The module without its activator, with the library still mapped: what
    /// is kept of a module that was uninstalled.
    pub fn zombify(self) -> (r: Dynamod<A, L>)
        ensures
            r.id == self.id,
            r.path == self.path,
            r.lib == self.lib,
            r.activator is None,
    {
        Dynamod { id: self.id, path: self.path, activator: None, lib: self.lib }
    }
}

} // verus!
