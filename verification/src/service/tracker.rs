//! A tracker that follows the services registered under a set of names.

use super::event::ServiceEvent;
use super::listeners::{ListenerId, ServiceListeners};
use super::manager::ServiceManager;
use super::query::ServiceQuery;
use super::reference::{ServiceRef, ServiceRefView};
use super::registration::ServiceEventListenerGuard;
use crate::Error;
use vstd::prelude::*;

verus! {

/// What is known of one name.
struct Followed {
    name: String,
    found: Option<ServiceRef>,
}

/// For each of a set of names, the service that was last seen under it.
pub struct SvcTracker {
    svcs: Vec<Followed>,
    listener_guard: Option<ServiceEventListenerGuard>,
}

/// What a tracker knows after `event`: under the name of the service, if it
/// is tracked, the service that was registered or modified, or nothing once
/// it was unregistered.
pub open spec fn follow(
    known: Map<Seq<char>, Option<ServiceRefView>>,
    event: ServiceEvent,
) -> Map<Seq<char>, Option<ServiceRefView>> {
    let name = event.service_ref().name@;
    if known.contains_key(name) {
        known.insert(
            name,
            if event is ServiceUnregistered {
                None
            } else {
                Some(event.service_ref()@)
            },
        )
    } else {
        known
    }
}

impl View for SvcTracker {
    type V = Map<Seq<char>, Option<ServiceRefView>>;

    closed spec fn view(&self) -> Map<Seq<char>, Option<ServiceRefView>> {
        Map::new(
            |n: Seq<char>| self.has(n),
            |n: Seq<char>|
                match self.svcs@[self.slot(n)].found {
                    Some(r) => Some(r@),
                    None => None,
                },
        )
    }
}

impl SvcTracker {
    spec fn has(&self, n: Seq<char>) -> bool {
        exists|i: int| 0 <= i < self.svcs@.len() && (#[trigger] self.svcs@[i]).name@ == n
    }

    spec fn slot(&self, n: Seq<char>) -> int {
        choose|i: int| 0 <= i < self.svcs@.len() && (#[trigger] self.svcs@[i]).name@ == n
    }

    /// No name stands twice.
    pub closed spec fn wf(&self) -> bool {
        forall|i: int, j: int|
            0 <= i < j < self.svcs@.len() ==> (#[trigger] self.svcs@[i]).name@ != (
            #[trigger] self.svcs@[j]).name@
    }

    /// The guard of the subscription, once the tracker was activated.
    pub closed spec fn guard(&self) -> Option<ServiceEventListenerGuard> {
        self.listener_guard
    }

    proof fn lemma_slot(&self, i: int)
        requires
            self.wf(),
            0 <= i < self.svcs@.len(),
        ensures
            self.has(self.svcs@[i].name@),
            self.slot(self.svcs@[i].name@) == i,
    {
        let n = self.svcs@[i].name@;
        let k = self.slot(n);
        if k < i {
            assert(self.svcs@[k].name@ != self.svcs@[i].name@);
        } else if i < k {
            assert(self.svcs@[i].name@ != self.svcs@[k].name@);
        }
    }

    fn find(&self, name: &String) -> (r: Option<usize>)
        requires
            self.wf(),
        ensures
            match r {
                Some(i) => i < self.svcs@.len() && self.svcs@[i as int].name@ == name@ && self.has(
                    name@,
                ) && self.slot(name@) == i,
                None => !self.has(name@),
            },
    {
        let mut i: usize = 0;
        while i < self.svcs.len()
            invariant
                self.wf(),
                i <= self.svcs@.len(),
                forall|k: int| 0 <= k < i ==> (#[trigger] self.svcs@[k]).name@ != name@,
            decreases self.svcs@.len() - i,
        {
            if self.svcs[i].name == *name {
                proof {
                    self.lemma_slot(i as int);
                }
                return Some(i);
            }
            i = i + 1;
        }
        None
    }

    /// A tracker of the names in `queries`, which has seen no service yet.
    pub fn new(queries: Vec<String>) -> (r: SvcTracker)
        ensures
            r.wf(),
            r.guard() is None,
            forall|n: Seq<char>|
                r@.contains_key(n) <==> exists|i: int|
                    0 <= i < queries@.len() && (#[trigger] queries@[i])@ == n,
            forall|n: Seq<char>| r@.contains_key(n) ==> r@[n] is None,
    {
        let mut this = SvcTracker { svcs: Vec::new(), listener_guard: None };
        let mut i: usize = 0;
        while i < queries.len()
            invariant
                this.wf(),
                this.listener_guard is None,
                i <= queries@.len(),
                forall|n: Seq<char>|
                    this.has(n) <==> exists|k: int| 0 <= k < i && (#[trigger] queries@[k])@ == n,
                forall|k: int| 0 <= k < this.svcs@.len()
                    ==> (#[trigger] this.svcs@[k]).found is None,
            decreases queries@.len() - i,
        {
            let ghost before = this;
            let name = queries[i].clone();
            if this.find(&name).is_none() {
                this.svcs.push(Followed { name, found: None });
                proof {
                    let last = this.svcs@.len() - 1;
                    assert forall|a: int, b: int| 0 <= a < b < this.svcs@.len() implies (
                    #[trigger] this.svcs@[a]).name@ != (#[trigger] this.svcs@[b]).name@ by {
                        assert(this.svcs@[a] == before.svcs@[a]);
                        if b < last {
                            assert(this.svcs@[b] == before.svcs@[b]);
                        } else {
                            assert(before.has(before.svcs@[a].name@));
                        }
                    }
                    this.lemma_slot(last);
                }
            }
            proof {
                assert forall|n: Seq<char>| this.has(n) <==> exists|k: int|
                    0 <= k < i + 1 && (#[trigger] queries@[k])@ == n by {
                    if this.has(n) {
                        let s = this.slot(n);
                        if s < before.svcs@.len() {
                            assert(before.svcs@[s].name@ == n);
                            assert(before.has(n));
                            let k = choose|k: int| 0 <= k < i && (#[trigger] queries@[k])@ == n;
                            assert(0 <= k < i + 1);
                        } else {
                            assert(queries@[i as int]@ == n);
                        }
                    }
                    if exists|k: int| 0 <= k < i + 1 && (#[trigger] queries@[k])@ == n {
                        let k = choose|k: int| 0 <= k < i + 1 && (#[trigger] queries@[k])@ == n;
                        if k < i {
                            assert(before.has(n));
                            let s = before.slot(n);
                            assert(this.svcs@[s].name@ == n);
                        } else if before.has(n) {
                            let s = before.slot(n);
                            assert(this.svcs@[s].name@ == n);
                        } else {
                            assert(this.svcs@[this.svcs@.len() - 1].name@ == n);
                        }
                    }
                }
                assert forall|k: int| 0 <= k < this.svcs@.len() implies (
                #[trigger] this.svcs@[k]).found is None by {
                    if k < before.svcs@.len() {
                        assert(this.svcs@[k] == before.svcs@[k]);
                    }
                }
            }
            i = i + 1;
        }
        proof {
            assert forall|n: Seq<char>| this@.contains_key(n) implies this@[n] is None by {
                let s = this.slot(n);
                assert(this.svcs@[s].found is None);
            }
        }
        this
    }

    /// Starts the tracker: it subscribes to the events of the registry and
    /// looks every name up once, taking the first service registered under
    /// it.
    pub fn activate<S, F: Fn(ListenerId) -> bool>(
        &mut self,
        manager: &mut ServiceManager<S>,
        is_alive: F,
    ) -> (r: Result<(), Error>)
        requires
            old(self).wf(),
            old(manager).wf(),
            old(manager).listeners.next_id() < u32::MAX,
            forall|i: int|
                0 <= i < old(manager).listeners.ids().len() ==> call_requires(
                    is_alive,
                    (old(manager).listeners.ids()[i],),
                ),
        ensures
            r is Ok,
            final(self).wf(),
            final(manager).wf(),
            final(manager).registry == old(manager).registry,
            final(manager).pending@ == old(manager).pending@,
            final(self).guard() matches Some(guard)
                && guard.listener_id == old(manager).listeners.next_id(),
            exists|kept: Seq<bool>|
                ServiceListeners::answers(is_alive, old(manager).listeners.ids(), kept)
                    && final(manager).listeners.ids() == ServiceListeners::chosen(
                    old(manager).listeners.ids(),
                    kept,
                ).push(old(manager).listeners.next_id()),
            final(self)@.dom() == old(self)@.dom(),
            forall|n: Seq<char>|
                final(self)@.contains_key(n)
                    ==> #[trigger] final(self)@[n] == if old(manager).registry@.named(n).len() > 0 {
                    Some(old(manager).registry@.named(n)[0].service_ref())
                } else {
                    None
                },
    {
        let listener_id = manager.register_listener(is_alive);
        self.listener_guard = Some(ServiceEventListenerGuard::new(listener_id));
        let n = self.svcs.len();
        let mut i: usize = 0;
        while i < n
            invariant
                self.wf(),
                manager.wf(),
                n == self.svcs@.len(),
                i <= n,
                self.listener_guard == Some(ServiceEventListenerGuard { listener_id }),
                forall|k: int|
                    0 <= k < n ==> (#[trigger] self.svcs@[k]).name@ == old(self).svcs@[k].name@,
                n == old(self).svcs@.len(),
                forall|k: int|
                    0 <= k < i ==> match (#[trigger] self.svcs@[k]).found {
                        Some(r) => manager.registry@.named(self.svcs@[k].name@).len() > 0 && r@
                            == manager.registry@.named(self.svcs@[k].name@)[0].service_ref(),
                        None => manager.registry@.named(self.svcs@[k].name@).len() == 0,
                    },
            decreases n - i,
        {
            let ghost before = *self;
            let query = ServiceQuery::by_name(self.svcs[i].name.clone());
            self.svcs[i].found = manager.registry.get_service_ref_by_query(&query);
            proof {
                assert forall|a: int, b: int| 0 <= a < b < self.svcs@.len() implies (
                #[trigger] self.svcs@[a]).name@ != (#[trigger] self.svcs@[b]).name@ by {
                    assert(before.svcs@[a].name@ != before.svcs@[b].name@);
                }
                assert forall|k: int| 0 <= k < i + 1 implies match (#[trigger] self.svcs@[k]).found {
                    Some(r) => manager.registry@.named(self.svcs@[k].name@).len() > 0 && r@
                        == manager.registry@.named(self.svcs@[k].name@)[0].service_ref(),
                    None => manager.registry@.named(self.svcs@[k].name@).len() == 0,
                } by {
                    if k < i {
                        assert(self.svcs@[k] == before.svcs@[k]);
                    }
                }
            }
            i = i + 1;
        }
        proof {
            assert forall|m: Seq<char>| self.has(m) == old(self).has(m) by {
                if self.has(m) {
                    assert(old(self).svcs@[self.slot(m)].name@ == m);
                }
                if old(self).has(m) {
                    assert(self.svcs@[old(self).slot(m)].name@ == m);
                }
            }
            assert(self@.dom() =~= old(self)@.dom());
        }
        Ok(())
    }

    /// Follows `event`: if the name of its service is tracked, the tracker
    /// knows the service from now on, or knows none once it was
    /// unregistered.
    pub fn on_service_event(&mut self, event: &ServiceEvent)
        requires
            old(self).wf(),
        ensures
            final(self).wf(),
            final(self).guard() == old(self).guard(),
            final(self)@ == follow(old(self)@, *event),
    {
        let svc_ref = event.get_service_ref();
        match self.find(&svc_ref.name) {
            Some(i) => {
                self.svcs[i].found = match event {
                    ServiceEvent::ServiceUnregistered(_) => None,
                    _ => Some(svc_ref.clone()),
                };
                proof {
                    assert forall|a: int, b: int| 0 <= a < b < self.svcs@.len() implies (
                    #[trigger] self.svcs@[a]).name@ != (#[trigger] self.svcs@[b]).name@ by {
                        assert(old(self).svcs@[a].name@ != old(self).svcs@[b].name@);
                    }
                    let want = follow(old(self)@, *event);
                    assert forall|m: Seq<char>| self@.contains_key(m) == want.contains_key(m) by {
                        if self.has(m) {
                            assert(old(self).svcs@[self.slot(m)].name@ == m);
                        }
                        if old(self).has(m) {
                            assert(self.svcs@[old(self).slot(m)].name@ == m);
                        }
                    }
                    assert forall|m: Seq<char>| self@.contains_key(m) implies self@[m]
                        == want[m] by {
                        let k = self.slot(m);
                        self.lemma_slot(k);
                        old(self).lemma_slot(k);
                        if k != i {
                            assert(self.svcs@[k] == old(self).svcs@[k]);
                        }
                    }
                    assert(self@ =~= want);
                }
            },
            None => {},
        }
    }

    /// The service that is known under `name`, if the name is tracked and a
    /// service is known.
    pub fn get(&self, name: &str) -> (r: Option<&ServiceRef>)
        requires
            self.wf(),
        ensures
            r is Some <==> self@.contains_key(name@) && self@[name@] is Some,
            r is Some ==> Some(r->0@) == self@[name@],
    {
        let owned = name.to_owned();
        match self.find(&owned) {
            Some(i) => self.svcs[i].found.as_ref(),
            None => None,
        }
    }
}

} // verus!
