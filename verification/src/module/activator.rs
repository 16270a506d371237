//! What a module hands to the container when it is started.

use vstd::prelude::*;

verus! {

/// What the entry point of a module returns. The container keeps it while
/// the module is started and drops it when the module is stopped.
pub trait Activator: Send {
}

/// An activator that holds nothing.
pub struct NoopActivator;

impl Activator for NoopActivator {
}

impl Activator for Box<dyn Activator> {
}

} // verus!
