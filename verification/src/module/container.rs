//! The container: the installed modules and the manager they share.

use super::activator::Activator;
use super::dynamod::{Dynamod, DynamodId};
use crate::service::listeners::{ListenerId, ServiceListeners};
use crate::service::manager::ServiceManager;
use crate::service::model::RegistryView;
use crate::service::registration::ServiceEventListenerGuard;
use crate::Error;
use vstd::prelude::*;

verus! {

/// The installed modules, in the order of their installation, the modules
/// that were uninstalled and are kept because services of theirs may still
/// be in use, and the one manager of the process.
///
/// `M` is the form in which the process holds its manager: a
/// `ServiceManager`, or a handle to one that is shared.
pub struct Container<M, A: Activator, L> {
    pub svc_manager: M,
    pub modules: Vec<Dynamod<A, L>>,
    pub zombie_modules: Vec<Dynamod<A, L>>,
}

impl<M, A: Activator, L> Container<M, A, L> {
    /// A container without modules, around the manager `svc_manager`.
    pub fn with_manager(svc_manager: M) -> (r: Container<M, A, L>)
        ensures
            r.svc_manager == svc_manager,
            r.modules@.len() == 0,
            r.zombie_modules@.len() == 0,
    {
        Container { svc_manager, modules: Vec::new(), zombie_modules: Vec::new() }
    }

    /// Installs the module at `path` with the outcome of mapping its
    /// library.
    ///
    /// If the library was mapped, the module is added behind the installed
    /// ones, not started, with its position as its identity. If mapping
    /// failed, be it for the path or for the entry point, the failure is
    /// passed on and the container stays as it was.
    pub fn install(&mut self, path: &str, loaded: Result<L, Error>) -> (r: Result<(), Error>)
        requires
            old(self).modules@.len() <= u32::MAX,
        ensures
            final(self).svc_manager == old(self).svc_manager,
            final(self).zombie_modules == old(self).zombie_modules,
            match loaded {
                Ok(lib) => {
                    &&& r is Ok
                    &&& final(self).modules@.len() == old(self).modules@.len() + 1
                    &&& final(self).modules@.drop_last() == old(self).modules@
                    &&& final(self).modules@.last().id == old(self).modules@.len()
                    &&& final(self).modules@.last().path@ == path@
                    &&& final(self).modules@.last().lib == lib
                    &&& !final(self).modules@.last().started()
                },
                Err(e) => r == Err::<(), Error>(e) && final(self).modules == old(self).modules,
            },
    {
        match loaded {
            Ok(lib) => {
                let id = self.modules.len() as u32;
                let dyn_mod = Dynamod::new(id, path, lib);
                self.modules.push(dyn_mod);
                assert(self.modules@.drop_last() =~= old(self).modules@);
                Ok(())
            },
            Err(e) => Err(e),
        }
    }

    /// Uninstalls the module at position `idx`: it leaves the installed
    /// modules, loses its activator, and is kept, with its library mapped,
    /// among the zombies. The modules behind it move up by one position.
    ///
    /// `NotFound` if no module stands at `idx`.
    pub fn uninstall(&mut self, idx: DynamodId) -> (r: Result<(), Error>)
        ensures
            final(self).svc_manager == old(self).svc_manager,
            idx < old(self).modules@.len() ==> {
                &&& r is Ok
                &&& final(self).modules@ == old(self).modules@.remove(idx as int)
                &&& final(self).zombie_modules@.len() == old(self).zombie_modules@.len() + 1
                &&& final(self).zombie_modules@.drop_last() == old(self).zombie_modules@
                &&& final(self).zombie_modules@.last().id == old(self).modules@[idx as int].id
                &&& final(self).zombie_modules@.last().path == old(self).modules@[idx as int].path
                &&& final(self).zombie_modules@.last().lib == old(self).modules@[idx as int].lib
                &&& !final(self).zombie_modules@.last().started()
            },
            idx >= old(self).modules@.len() ==> {
                &&& r == Err::<(), Error>(Error::NotFound(idx))
                &&& final(self).modules == old(self).modules
                &&& final(self).zombie_modules == old(self).zombie_modules
            },
    {
        if (idx as usize) < self.modules.len() {
            let dyn_mod = self.modules.remove(idx as usize);
            let zm = dyn_mod.zombify();
            self.zombie_modules.push(zm);
            assert(self.zombie_modules@.drop_last() =~= old(self).zombie_modules@);
            Ok(())
        } else {
            Err(Error::NotFound(idx))
        }
    }

    /// Starts the module at position `idx` with the outcome of its entry
    /// point.
    ///
    /// If the entry point returned an activator, the module keeps it and is
    /// started. If it failed, the failure is passed on and the module stays
    /// as it was. `NotFound` if no module stands at `idx`.
    pub fn start(&mut self, idx: DynamodId, activation: Result<A, Error>) -> (r:
        Result<(), Error>)
        ensures
            final(self).svc_manager == old(self).svc_manager,
            final(self).zombie_modules == old(self).zombie_modules,
            final(self).modules@.len() == old(self).modules@.len(),
            forall|k: int|
                0 <= k < old(self).modules@.len() && k != idx
                    ==> final(self).modules@[k] == old(self).modules@[k],
            idx < old(self).modules@.len() ==> {
                &&& final(self).modules@[idx as int].id == old(self).modules@[idx as int].id
                &&& final(self).modules@[idx as int].path == old(self).modules@[idx as int].path
                &&& final(self).modules@[idx as int].lib == old(self).modules@[idx as int].lib
                &&& match activation {
                    Ok(activator) => r is Ok && final(self).modules@[idx as int].activator == Some(
                        activator,
                    ),
                    Err(e) => r == Err::<(), Error>(e) && final(self).modules@[idx as int].activator
                        == old(self).modules@[idx as int].activator,
                }
            },
            idx >= old(self).modules@.len() ==> r == Err::<(), Error>(Error::NotFound(idx)),
    {
        if (idx as usize) < self.modules.len() {
            self.modules[idx as usize].start(activation)
        } else {
            Err(Error::NotFound(idx))
        }
    }

    /// Stops the module at position `idx`: its activator, if it has one, is
    /// dropped. `NotFound` if no module stands at `idx`.
    pub fn stop(&mut self, idx: DynamodId) -> (r: Result<(), Error>)
        ensures
            final(self).svc_manager == old(self).svc_manager,
            final(self).zombie_modules == old(self).zombie_modules,
            final(self).modules@.len() == old(self).modules@.len(),
            forall|k: int|
                0 <= k < old(self).modules@.len() && k != idx
                    ==> final(self).modules@[k] == old(self).modules@[k],
            idx < old(self).modules@.len() ==> {
                &&& r is Ok
                &&& final(self).modules@[idx as int].id == old(self).modules@[idx as int].id
                &&& final(self).modules@[idx as int].path == old(self).modules@[idx as int].path
                &&& final(self).modules@[idx as int].lib == old(self).modules@[idx as int].lib
                &&& !final(self).modules@[idx as int].started()
            },
            idx >= old(self).modules@.len() ==> r == Err::<(), Error>(Error::NotFound(idx)),
    {
        if (idx as usize) < self.modules.len() {
            self.modules[idx as usize].stop()
        } else {
            Err(Error::NotFound(idx))
        }
    }

    /// The paths of the installed modules, in the order of installation.
    pub fn installed_modules(&self) -> (r: Vec<String>)
        ensures
            r@.len() == self.modules@.len(),
            forall|k: int| 0 <= k < r@.len() ==> r@[k]@ == self.modules@[k].path@,
    {
        let mut out: Vec<String> = Vec::new();
        let mut i: usize = 0;
        while i < self.modules.len()
            invariant
                i <= self.modules@.len(),
                out@.len() == i,
                forall|k: int| 0 <= k < i ==> out@[k]@ == self.modules@[k].path@,
            decreases self.modules@.len() - i,
        {
            out.push(self.modules[i].path.clone());
            i = i + 1;
        }
        out
    }

}

impl<S, A: Activator, L> Container<ServiceManager<S>, A, L> {
    /// A container without modules, around a manager that holds nothing.
    pub fn new() -> (r: Container<ServiceManager<S>, A, L>)
        ensures
            r.svc_manager.wf(),
            r.svc_manager.registry@ == RegistryView::<S>::empty(),
            r.modules@.len() == 0,
            r.zombie_modules@.len() == 0,
    {
        Container::with_manager(ServiceManager::new())
    }

    /// Subscribes to the events of the registry and returns the guard of the
    /// subscription. Before that, the subscriptions for which `is_alive`
    /// answers `false` are dropped.
    pub fn register_listener<F: Fn(ListenerId) -> bool>(&mut self, is_alive: F) -> (r: Result<
        ServiceEventListenerGuard,
        Error,
    >)
        requires
            old(self).svc_manager.wf(),
            old(self).svc_manager.listeners.next_id() < u32::MAX,
            forall|i: int|
                0 <= i < old(self).svc_manager.listeners.ids().len() ==> call_requires(
                    is_alive,
                    (old(self).svc_manager.listeners.ids()[i],),
                ),
        ensures
            final(self).svc_manager.wf(),
            final(self).modules == old(self).modules,
            final(self).zombie_modules == old(self).zombie_modules,
            final(self).svc_manager.registry == old(self).svc_manager.registry,
            r matches Ok(guard) && guard.listener_id == old(self).svc_manager.listeners.next_id()
                && exists|kept: Seq<bool>|
                ServiceListeners::answers(is_alive, old(self).svc_manager.listeners.ids(), kept)
                    && final(self).svc_manager.listeners.ids() == ServiceListeners::chosen(
                    old(self).svc_manager.listeners.ids(),
                    kept,
                ).push(guard.listener_id),
    {
        let listener_id = self.svc_manager.register_listener(is_alive);
        Ok(ServiceEventListenerGuard::new(listener_id))
    }
}

impl<S, A: Activator, L> Default for Container<ServiceManager<S>, A, L> {
    /// A container without modules, around a manager that holds nothing.
    fn default() -> (r: Container<ServiceManager<S>, A, L>)
        ensures
            r.svc_manager.wf(),
            r.svc_manager.registry@ == RegistryView::<S>::empty(),
            r.modules@.len() == 0,
            r.zombie_modules@.len() == 0,
    {
        Container::new()
    }
}

} // verus!
