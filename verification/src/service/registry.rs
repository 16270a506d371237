//! The registry: the one owner of every registered service object.

use super::model::{RegistryView, ServiceEntry};
use super::query::{QueryView, ServiceQuery};
use super::reference::{ServiceCoreProps, ServiceRanking, ServiceRef};
use super::service::{same_type_id, ServiceId};
use super::usage::UsageCounts;
use crate::common::seqs::{lemma_filter_first, lemma_filter_none, lemma_filter_step};
use crate::module::dynamod::DynamodId;
use std::any::TypeId;
use vstd::multiset::*;
use vstd::prelude::*;

verus! {

/// One registration: what describes it, who uses it, and the service object
/// itself.
pub struct RegisteredService<S> {
    core_props: ServiceCoreProps,
    type_id: TypeId,
    name: String,
    owner_id: DynamodId,
    used_by_count: UsageCounts,
    service_object: S,
}

impl<S> View for RegisteredService<S> {
    type V = ServiceEntry<S>;

    closed spec fn view(&self) -> ServiceEntry<S> {
        ServiceEntry {
            core: self.core_props,
            type_id: self.type_id,
            name: self.name@,
            owner_id: self.owner_id,
            uses: self.used_by_count.uses(),
            object: self.service_object,
        }
    }
}

impl<S> RegisteredService<S> {
    /// The snapshot of the registration that queries and events carry.
    pub fn make_service_ref(&self) -> (r: ServiceRef)
        ensures
            r@ == self@.service_ref(),
    {
        ServiceRef {
            core: self.core_props,
            name: self.name.clone(),
            type_id: self.type_id,
            owner_id: self.owner_id,
        }
    }
}

/// The registered services and the zombies.
pub struct ServiceRegistry<S> {
    curr_id: ServiceId,
    live: Vec<RegisteredService<S>>,
    zombies: Vec<RegisteredService<S>>,
}

impl<S> View for ServiceRegistry<S> {
    type V = RegistryView<S>;

    closed spec fn view(&self) -> RegistryView<S> {
        RegistryView {
            curr_id: self.curr_id,
            live: Seq::new(self.live@.len(), |i: int| self.live@[i]@),
            zombies: Seq::new(self.zombies@.len(), |i: int| self.zombies@[i]@),
        }
    }
}

impl<S> ServiceRegistry<S> {
    /// The state is one that the operations can have produced: see
    /// `RegistryView::wf`.
    pub open spec fn wf(&self) -> bool {
        self@.wf() && self.counts_wf()
    }

    /// The usage counts of every entry are well-formed.
    pub closed spec fn counts_wf(&self) -> bool {
        &&& forall|i: int|
            0 <= i < self.live@.len() ==> (#[trigger] self.live@[i]).used_by_count.wf()
        &&& forall|i: int|
            0 <= i < self.zombies@.len() ==> (#[trigger] self.zombies@[i]).used_by_count.wf()
    }

    /// A registry that holds nothing.
    pub fn new() -> (r: ServiceRegistry<S>)
        ensures
            r.wf(),
            r@ == RegistryView::<S>::empty(),
    {
        let r = ServiceRegistry { curr_id: 0, live: Vec::new(), zombies: Vec::new() };
        assert(r@.live =~= Seq::empty());
        assert(r@.zombies =~= Seq::empty());
        r
    }

    /// The identity that was handed out last; 0 before the first
    /// registration.
    pub fn last_id(&self) -> (r: ServiceId)
        ensures
            r == self@.curr_id,
    {
        self.curr_id
    }

    /// Whether the module `requestor` can take one more handle to every
    /// registered service that answers `query`: whether none of its counts
    /// stands at the largest number.
    pub fn can_checkout(&self, query: &ServiceQuery, requestor: DynamodId) -> (r: bool)
        requires
            self.wf(),
        ensures
            r == self@.can_checkout_matching(query@, requestor),
    {
        let mut i: usize = 0;
        while i < self.live.len()
            invariant
                self.wf(),
                i <= self.live@.len(),
                self@.live.len() == self.live@.len(),
                forall|k: int|
                    0 <= k < i && query@.accepts((#[trigger] self@.live[k]).service_ref())
                        ==> self@.live[k].uses.count(requestor) < u32::MAX,
            decreases self.live@.len() - i,
        {
            assert(self@.live[i as int] == self.live@[i as int]@);
            if Self::answers(&self.live[i], query) && self.live[i].used_by_count.count(requestor)
                == u32::MAX {
                return false;
            }
            i = i + 1;
        }
        true
    }

    /// The position of the registered service `svc_id` in `live`.
    fn find_live(&self, svc_id: ServiceId) -> (r: Option<usize>)
        requires
            self.wf(),
        ensures
            match r {
                Some(i) => i < self.live@.len() && self.live@[i as int]@.core.id == svc_id
                    && self@.is_live(svc_id) && !self@.is_zombie(svc_id) && self@.live_index(
                    svc_id,
                ) == i && self@.entry(svc_id) == self.live@[i as int]@,
                None => !self@.is_live(svc_id),
            },
    {
        let mut i: usize = 0;
        while i < self.live.len()
            invariant
                self.wf(),
                i <= self.live@.len(),
                self@.live.len() == self.live@.len(),
                forall|k: int| 0 <= k < i ==> (#[trigger] self@.live[k]).core.id != svc_id,
            decreases self.live@.len() - i,
        {
            if self.live[i].core_props.id == svc_id {
                proof {
                    assert(self@.live[i as int] == self.live@[i as int]@);
                    self@.lemma_live_index(svc_id, i as int);
                }
                return Some(i);
            }
            assert(self@.live[i as int] == self.live@[i as int]@);
            i = i + 1;
        }
        None
    }

    /// The position of the zombie `svc_id` in `zombies`.
    fn find_zombie(&self, svc_id: ServiceId) -> (r: Option<usize>)
        requires
            self.wf(),
        ensures
            match r {
                Some(j) => j < self.zombies@.len() && self.zombies@[j as int]@.core.id == svc_id
                    && self@.is_zombie(svc_id) && !self@.is_live(svc_id) && self@.zombie_index(
                    svc_id,
                ) == j && self@.entry(svc_id) == self.zombies@[j as int]@,
                None => !self@.is_zombie(svc_id),
            },
    {
        let mut j: usize = 0;
        while j < self.zombies.len()
            invariant
                self.wf(),
                j <= self.zombies@.len(),
                self@.zombies.len() == self.zombies@.len(),
                forall|k: int| 0 <= k < j ==> (#[trigger] self@.zombies[k]).core.id != svc_id,
            decreases self.zombies@.len() - j,
        {
            if self.zombies[j].core_props.id == svc_id {
                proof {
                    assert(self@.zombies[j as int] == self.zombies@[j as int]@);
                    self@.lemma_zombie_index(svc_id, j as int);
                }
                return Some(j);
            }
            assert(self@.zombies[j as int] == self.zombies@[j as int]@);
            j = j + 1;
        }
        None
    }

    /// Registers `service_object` under the type `svc_type_id` and the name
    /// `svc_name`, with the ranking `svc_ranking`, for the module `owner_id`.
    ///
    /// The service gets the identity that follows the one handed out last,
    /// and is listed at its place in the order of ranking and identity.
    pub fn register_service(
        &mut self,
        svc_type_id: TypeId,
        svc_name: &str,
        service_object: S,
        svc_ranking: ServiceRanking,
        owner_id: DynamodId,
    ) -> (r: ServiceRef)
        requires
            old(self).wf(),
            old(self)@.curr_id < u32::MAX,
        ensures
            final(self).wf(),
            final(self)@ == old(self)@.register(
                svc_type_id,
                svc_name@,
                service_object,
                svc_ranking,
                owner_id,
            ),
            r@ == old(self)@.new_entry(
                svc_type_id,
                svc_name@,
                service_object,
                svc_ranking,
                owner_id,
            ).service_ref(),
    {
        let new_id: ServiceId = self.curr_id + 1;
        let core = ServiceCoreProps { id: new_id, ranking: svc_ranking };
        let service = RegisteredService {
            core_props: core,
            type_id: svc_type_id,
            name: svc_name.to_owned(),
            owner_id,
            used_by_count: UsageCounts::new(),
            service_object,
        };
        let service_ref = service.make_service_ref();
        let ghost entry = service@;
        assert(entry == old(self)@.new_entry(
            svc_type_id,
            svc_name@,
            service_object,
            svc_ranking,
            owner_id,
        ));

        let mut p: usize = 0;
        while p < self.live.len() && self.live[p].core_props.precedes(&core)
            invariant
                p <= self.live@.len(),
                *self == *old(self),
                forall|k: int| 0 <= k < p ==> (#[trigger] self@.live[k]).core.before(core),
            decreases self.live@.len() - p,
        {
            assert(self@.live[p as int] == self.live@[p as int]@);
            p = p + 1;
        }
        proof {
            let v = old(self)@;
            assert forall|k: int| p <= k < v.live.len() implies !(#[trigger] v.live[k]).core.before(
                core,
            ) by {
                assert(v.live[p as int] == self.live@[p as int]@);
                if p < k {
                    assert(v.live[p as int].core.before(v.live[k].core));
                }
            }
            assert(v.splits_at(core, p as int));
            v.lemma_position(core, p as int);
        }
        self.live.insert(p, service);
        self.curr_id = new_id;
        proof {
            let v = old(self)@;
            let w = v.register(svc_type_id, svc_name@, service_object, svc_ranking, owner_id);
            assert(self@.live =~= w.live) by {
                assert forall|k: int| 0 <= k < self@.live.len() implies self@.live[k]
                    == w.live[k] by {
                    if k < p {
                        assert(self.live@[k] == old(self).live@[k]);
                    } else if k > p {
                        assert(self.live@[k] == old(self).live@[k - 1]);
                    }
                }
            }
            assert(self@.zombies =~= w.zombies);
            assert(self@ == w);
            v.lemma_register(svc_type_id, svc_name@, service_object, svc_ranking, owner_id);
            assert forall|i: int| 0 <= i < self.live@.len() implies (
            #[trigger] self.live@[i]).used_by_count.wf() by {
                if i < p {
                    assert(self.live@[i] == old(self).live@[i]);
                } else if i > p {
                    assert(self.live@[i] == old(self).live@[i - 1]);
                }
            }
        }
        service_ref
    }

    /// Unregisters the service `svc_id` and returns its snapshot, or `None`
    /// if no such service is registered.
    ///
    /// From now on no query finds the service. If handles to it are
    /// outstanding, the registry keeps the object as a zombie until the last
    /// of them is given back; if none is, the object is dropped here.
    pub fn unregister_service(&mut self, svc_id: ServiceId) -> (r: Option<ServiceRef>)
        requires
            old(self).wf(),
        ensures
            final(self).wf(),
            final(self)@ == old(self)@.unregister(svc_id),
            r is Some <==> old(self)@.is_live(svc_id),
            r is Some ==> r->0@ == old(self)@.entry(svc_id).service_ref(),
    {
        match self.find_live(svc_id) {
            Some(i) => {
                let rs = self.live.remove(i);
                let svc_ref = rs.make_service_ref();
                let ghost v = old(self)@;
                let ghost w = v.unregister(svc_id);
                assert(rs@ == v.live[i as int]);
                let kept = !rs.used_by_count.is_unused();
                if kept {
                    self.zombies.push(rs);
                }
                proof {
                    assert(self@.live =~= w.live) by {
                        assert forall|k: int| 0 <= k < self@.live.len() implies self@.live[k]
                            == w.live[k] by {
                            if k < i {
                                assert(self.live@[k] == old(self).live@[k]);
                            } else {
                                assert(self.live@[k] == old(self).live@[k + 1]);
                            }
                        }
                    }
                    assert(self@.zombies =~= w.zombies) by {
                        assert forall|k: int| 0 <= k < self@.zombies.len() implies self@.zombies[k]
                            == w.zombies[k] by {
                            if k < old(self).zombies@.len() {
                                assert(self.zombies@[k] == old(self).zombies@[k]);
                            }
                        }
                    }
                    assert(self@ == w);
                    v.lemma_unregister(svc_id);
                    assert forall|k: int| 0 <= k < self.live@.len() implies (
                    #[trigger] self.live@[k]).used_by_count.wf() by {
                        if k < i {
                            assert(self.live@[k] == old(self).live@[k]);
                        } else {
                            assert(self.live@[k] == old(self).live@[k + 1]);
                        }
                    }
                    assert forall|k: int| 0 <= k < self.zombies@.len() implies (
                    #[trigger] self.zombies@[k]).used_by_count.wf() by {
                        if k < old(self).zombies@.len() {
                            assert(self.zombies@[k] == old(self).zombies@[k]);
                        }
                    }
                }
                Some(svc_ref)
            },
            None => None,
        }
    }

    /// The snapshot of the registered service `svc_id`.
    pub fn get_service_ref(&self, svc_id: ServiceId) -> (r: Option<ServiceRef>)
        requires
            self.wf(),
        ensures
            r is Some <==> self@.is_live(svc_id),
            r is Some ==> r->0@ == self@.entry(svc_id).service_ref(),
    {
        match self.find_live(svc_id) {
            Some(i) => Some(self.live[i].make_service_ref()),
            None => None,
        }
    }

    /// Takes a handle to the registered service `svc_id` for the module
    /// `requestor`, and lends the service object for as long as the registry
    /// is not touched. `None` if no such service is registered.
    ///
    /// The registry stays the one owner of the object: what it hands out is
    /// borrowed, and a caller that wants to keep something keeps the identity.
    pub fn get_service_object(&mut self, svc_id: ServiceId, requestor: DynamodId) -> (r: Option<&S>)
        requires
            old(self).wf(),
            old(self)@.use_count(svc_id, requestor) < u32::MAX,
        ensures
            final(self).wf(),
            final(self)@ == old(self)@.checkout(svc_id, requestor),
            r is Some <==> old(self)@.is_live(svc_id),
            r is Some ==> *r->0 == old(self)@.entry(svc_id).object,
    {
        match self.find_live(svc_id) {
            Some(i) => {
                self.live[i].used_by_count.add_use(requestor);
                proof {
                    let v = old(self)@;
                    let w = v.checkout(svc_id, requestor);
                    assert(self@.live =~= w.live) by {
                        assert forall|k: int| 0 <= k < self@.live.len() implies self@.live[k]
                            == w.live[k] by {
                            if k != i {
                                assert(self.live@[k] == old(self).live@[k]);
                            }
                        }
                    }
                    assert(self@.zombies =~= w.zombies);
                    assert(self@ == w);
                    v.lemma_checkout(svc_id, requestor);
                    assert forall|k: int| 0 <= k < self.live@.len() implies (
                    #[trigger] self.live@[k]).used_by_count.wf() by {
                        if k != i {
                            assert(self.live@[k] == old(self).live@[k]);
                        }
                    }
                }
                Some(&self.live[i].service_object)
            },
            None => None,
        }
    }

    /// Gives back one handle of the module `user_id` to the service `svc_id`.
    ///
    /// The count of a registered service goes down by one. A zombie that
    /// loses its last handle is dropped here. A handle that `user_id` does
    /// not hold, or an identity that the registry does not know, changes
    /// nothing.
    pub fn remove_use(&mut self, svc_id: ServiceId, user_id: DynamodId)
        requires
            old(self).wf(),
        ensures
            final(self).wf(),
            final(self)@ == old(self)@.release(svc_id, user_id),
    {
        match self.find_live(svc_id) {
            Some(i) => {
                self.live[i].used_by_count.remove_use(user_id);
                proof {
                    let v = old(self)@;
                    let w = v.release(svc_id, user_id);
                    assert(self@.live =~= w.live) by {
                        assert forall|k: int| 0 <= k < self@.live.len() implies self@.live[k]
                            == w.live[k] by {
                            if k != i {
                                assert(self.live@[k] == old(self).live@[k]);
                            }
                        }
                    }
                    assert(self@.zombies =~= w.zombies);
                    assert(self@ == w);
                    v.lemma_release(svc_id, user_id);
                    assert forall|k: int| 0 <= k < self.live@.len() implies (
                    #[trigger] self.live@[k]).used_by_count.wf() by {
                        if k != i {
                            assert(self.live@[k] == old(self).live@[k]);
                        }
                    }
                }
            },
            None => {
                match self.find_zombie(svc_id) {
                    Some(j) => {
                        self.zombies[j].used_by_count.remove_use(user_id);
                        let last = self.zombies[j].used_by_count.is_unused();
                        if last {
                            self.zombies.remove(j);
                        }
                        proof {
                            let v = old(self)@;
                            let w = v.release(svc_id, user_id);
                            assert(self@.live =~= w.live);
                            assert(self@.zombies =~= w.zombies) by {
                                assert forall|k: int|
                                    0 <= k < self@.zombies.len() implies self@.zombies[k]
                                    == w.zombies[k] by {
                                    if last {
                                        if k < j {
                                            assert(self.zombies@[k] == old(self).zombies@[k]);
                                        } else {
                                            assert(self.zombies@[k] == old(self).zombies@[k + 1]);
                                        }
                                    } else if k != j {
                                        assert(self.zombies@[k] == old(self).zombies@[k]);
                                    }
                                }
                            }
                            assert(self@ == w);
                            v.lemma_release(svc_id, user_id);
                            assert forall|k: int| 0 <= k < self.zombies@.len() implies (
                            #[trigger] self.zombies@[k]).used_by_count.wf() by {
                                if last {
                                    if k < j {
                                        assert(self.zombies@[k] == old(self).zombies@[k]);
                                    } else {
                                        assert(self.zombies@[k] == old(self).zombies@[k + 1]);
                                    }
                                } else if k != j {
                                    assert(self.zombies@[k] == old(self).zombies@[k]);
                                }
                            }
                        }
                    },
                    None => {},
                }
            },
        }
    }

    /// Whether the registration `rs` answers `query`.
    fn answers(rs: &RegisteredService<S>, query: &ServiceQuery) -> (r: bool)
        ensures
            r == query.accepts(rs@.service_ref()),
    {
        match query {
            ServiceQuery::ServiceId(id) => rs.core_props.id == *id,
            ServiceQuery::Name(s) => rs.name == *s,
            ServiceQuery::TypeId(tq) => same_type_id(&rs.type_id, &tq.type_id),
        }
    }

    /// The snapshots of the registered services that answer `query`, in
    /// rising order of ranking and identity.
    pub fn get_services_ref_by_query(&self, query: &ServiceQuery) -> (r: Vec<ServiceRef>)
        requires
            self.wf(),
        ensures
            r@.map_values(|x: ServiceRef| x@) == self@.candidates(query@).map_values(
                |e: ServiceEntry<S>| e.service_ref(),
            ),
    {
        let mut out: Vec<ServiceRef> = Vec::new();
        let ghost pred = |e: ServiceEntry<S>| query@.accepts(e.service_ref());
        let ghost snap = |e: ServiceEntry<S>| e.service_ref();
        let ghost look = |x: ServiceRef| x@;
        let mut i: usize = 0;
        assert(self@.live.take(0).filter(pred) =~= Seq::empty()) by {
            reveal(Seq::filter);
        }
        while i < self.live.len()
            invariant
                i <= self.live@.len(),
                self@.live.len() == self.live@.len(),
                pred == |e: ServiceEntry<S>| query@.accepts(e.service_ref()),
                snap == |e: ServiceEntry<S>| e.service_ref(),
                look == |x: ServiceRef| x@,
                out@.map_values(look) == self@.live.take(i as int).filter(pred).map_values(snap),
            decreases self.live@.len() - i,
        {
            proof {
                lemma_filter_step(self@.live, pred, i as int);
                assert(self@.live[i as int] == self.live@[i as int]@);
            }
            let ghost before = out@;
            if Self::answers(&self.live[i], query) {
                let svc_ref = self.live[i].make_service_ref();
                out.push(svc_ref);
                assert(out@.map_values(look) =~= before.map_values(look).push(svc_ref@));
                assert(self@.live.take(i as int).filter(pred).push(self@.live[i as int]).map_values(
                    snap,
                ) =~= self@.live.take(i as int).filter(pred).map_values(snap).push(svc_ref@));
            }
            i = i + 1;
        }
        assert(self@.live.take(i as int) =~= self@.live);
        out
    }

    /// The identities of the registered services that answer `query`, in
    /// rising order of ranking and identity.
    pub fn get_services_id_by_query(&self, query: &ServiceQuery) -> (r: Vec<ServiceId>)
        requires
            self.wf(),
        ensures
            r@ == self@.candidates(query@).map_values(|e: ServiceEntry<S>| e.core.id),
    {
        let mut out: Vec<ServiceId> = Vec::new();
        let ghost pred = |e: ServiceEntry<S>| query@.accepts(e.service_ref());
        let ghost ident = |e: ServiceEntry<S>| e.core.id;
        let mut i: usize = 0;
        assert(self@.live.take(0).filter(pred) =~= Seq::empty()) by {
            reveal(Seq::filter);
        }
        assert(out@ =~= self@.live.take(0).filter(pred).map_values(ident));
        while i < self.live.len()
            invariant
                i <= self.live@.len(),
                self@.live.len() == self.live@.len(),
                pred == |e: ServiceEntry<S>| query@.accepts(e.service_ref()),
                ident == |e: ServiceEntry<S>| e.core.id,
                out@ == self@.live.take(i as int).filter(pred).map_values(ident),
            decreases self.live@.len() - i,
        {
            proof {
                lemma_filter_step(self@.live, pred, i as int);
                assert(self@.live[i as int] == self.live@[i as int]@);
            }
            let ghost before = out@;
            if Self::answers(&self.live[i], query) {
                out.push(self.live[i].core_props.id);
                assert(self@.live.take(i as int).filter(pred).push(self@.live[i as int]).map_values(
                    ident,
                ) =~= self@.live.take(i as int).filter(pred).map_values(ident).push(
                    self@.live[i as int].core.id,
                ));
            }
            i = i + 1;
        }
        assert(self@.live.take(i as int) =~= self@.live);
        out
    }

    /// The identity of the first registered service that answers `query`:
    /// the one with the lowest ranking, and among several of that ranking the
    /// one that was registered first.
    pub fn get_service_id_by_query(&self, query: &ServiceQuery) -> (r: Option<ServiceId>)
        requires
            self.wf(),
        ensures
            r == if self@.candidates(query@).len() > 0 {
                Some(self@.candidates(query@)[0].core.id)
            } else {
                None
            },
            r is Some ==> self@.is_live(r->0) && self@.entry(r->0) == self@.candidates(query@)[0],
    {
        let ghost pred = |e: ServiceEntry<S>| query@.accepts(e.service_ref());
        let mut i: usize = 0;
        while i < self.live.len()
            invariant
                i <= self.live@.len(),
                self@.live.len() == self.live@.len(),
                self.wf(),
                pred == |e: ServiceEntry<S>| query@.accepts(e.service_ref()),
                forall|k: int| 0 <= k < i ==> !pred(#[trigger] self@.live[k]),
            decreases self.live@.len() - i,
        {
            assert(self@.live[i as int] == self.live@[i as int]@);
            if Self::answers(&self.live[i], query) {
                proof {
                    lemma_filter_first(self@.live, pred, i as int);
                    self@.lemma_live_index(self@.live[i as int].core.id, i as int);
                }
                return Some(self.live[i].core_props.id);
            }
            i = i + 1;
        }
        proof {
            lemma_filter_none(self@.live, pred);
        }
        None
    }

    /// The snapshot of the first registered service that answers `query`.
    pub fn get_service_ref_by_query(&self, query: &ServiceQuery) -> (r: Option<ServiceRef>)
        requires
            self.wf(),
        ensures
            r is Some <==> self@.candidates(query@).len() > 0,
            r is Some ==> r->0@ == self@.candidates(query@)[0].service_ref(),
    {
        match self.get_service_id_by_query(query) {
            Some(id) => self.get_service_ref(id),
            None => None,
        }
    }

    /// The identity of the first registered service with the name `svc_name`.
    pub fn get_service_id_by_name(&self, svc_name: &str) -> (r: Option<ServiceId>)
        requires
            self.wf(),
        ensures
            r == if self@.named(svc_name@).len() > 0 {
                Some(self@.named(svc_name@)[0].core.id)
            } else {
                None
            },
    {
        let query = ServiceQuery::Name(svc_name.to_owned());
        self.get_service_id_by_query(&query)
    }

    /// The identities of the registered services with the name `svc_name`,
    /// in rising order of ranking and identity.
    pub fn get_services_id_by_name(&self, svc_name: &str) -> (r: Vec<ServiceId>)
        requires
            self.wf(),
        ensures
            r@ == self@.named(svc_name@).map_values(|e: ServiceEntry<S>| e.core.id),
    {
        let query = ServiceQuery::Name(svc_name.to_owned());
        self.get_services_id_by_query(&query)
    }

    /// The identity of the first registered service indexed under
    /// `svc_type_id`.
    pub fn get_service_id_by_type_id(&self, svc_type_id: TypeId) -> (r: Option<ServiceId>)
        requires
            self.wf(),
        ensures
            r == if self@.typed(svc_type_id).len() > 0 {
                Some(self@.typed(svc_type_id)[0].core.id)
            } else {
                None
            },
    {
        let query = ServiceQuery::by_type_id(svc_type_id);
        self.get_service_id_by_query(&query)
    }

    /// The identities of the registered services indexed under `svc_type_id`,
    /// in rising order of ranking and identity.
    pub fn get_services_id_by_type_id(&self, svc_type_id: TypeId) -> (r: Vec<ServiceId>)
        requires
            self.wf(),
        ensures
            r@ == self@.typed(svc_type_id).map_values(|e: ServiceEntry<S>| e.core.id),
    {
        let query = ServiceQuery::by_type_id(svc_type_id);
        self.get_services_id_by_query(&query)
    }

    /// The snapshots of the registered services with the name `svc_name`, in
    /// rising order of ranking and identity.
    pub fn get_services_ref_by_name(&self, svc_name: &str) -> (r: Vec<ServiceRef>)
        requires
            self.wf(),
        ensures
            r@.map_values(|x: ServiceRef| x@) == self@.named(svc_name@).map_values(
                |e: ServiceEntry<S>| e.service_ref(),
            ),
    {
        let query = ServiceQuery::Name(svc_name.to_owned());
        self.get_services_ref_by_query(&query)
    }

    /// The snapshots of the registered services indexed under `svc_type_id`,
    /// in rising order of ranking and identity.
    pub fn get_services_ref_by_type_id(&self, svc_type_id: TypeId) -> (r: Vec<ServiceRef>)
        requires
            self.wf(),
        ensures
            r@.map_values(|x: ServiceRef| x@) == self@.typed(svc_type_id).map_values(
                |e: ServiceEntry<S>| e.service_ref(),
            ),
    {
        let query = ServiceQuery::by_type_id(svc_type_id);
        self.get_services_ref_by_query(&query)
    }

    /// Takes, for the module `requestor`, one handle to every registered
    /// service that answers `query`, and returns their identities in rising
    /// order of ranking and identity.
    pub fn get_service_objects_by_query(&mut self, query: &ServiceQuery, requestor: DynamodId
        ) -> ( r:
        Vec<ServiceId>)
        requires
            old(self).wf(),
            old(self)@.can_checkout_matching(query@, requestor),
        ensures
            final(self).wf(),
            final(self)@ == old(self)@.checkout_matching(query@, requestor),
            r@ == old(self)@.candidates(query@).map_values(|e: ServiceEntry<S>| e.core.id),
    {
        let mut out: Vec<ServiceId> = Vec::new();
        let ghost v = self@;
        let ghost pred = |e: ServiceEntry<S>| query@.accepts(e.service_ref());
        let ghost ident = |e: ServiceEntry<S>| e.core.id;
        let n = self.live.len();
        let mut i: usize = 0;
        assert(v.live.take(0).filter(pred) =~= Seq::empty()) by {
            reveal(Seq::filter);
        }
        assert(out@ =~= v.live.take(0).filter(pred).map_values(ident));
        while i < n
            invariant
                v == old(self)@,
                v.wf(),
                v.can_checkout_matching(query@, requestor),
                i <= n,
                n == v.live.len(),
                self.live@.len() == n,
                self@.curr_id == v.curr_id,
                self@.zombies == v.zombies,
                self@.live.len() == n,
                self.zombies == old(self).zombies,
                pred == |e: ServiceEntry<S>| query@.accepts(e.service_ref()),
                ident == |e: ServiceEntry<S>| e.core.id,
                forall|k: int|
                    0 <= k < i
                        ==> #[trigger] self@.live[k]
                            == RegistryView::taken_if(v.live[k], query@, requestor),
                forall|k: int| i <= k < n ==> #[trigger] self@.live[k] == v.live[k],
                forall|k: int| 0 <= k < n ==> (#[trigger] self.live@[k]).used_by_count.wf(),
                out@ == v.live.take(i as int).filter(pred).map_values(ident),
            decreases n - i,
        {
            proof {
                lemma_filter_step(v.live, pred, i as int);
                assert(self@.live[i as int] == self.live@[i as int]@);
            }
            if Self::answers(&self.live[i], query) {
                out.push(self.live[i].core_props.id);
                assert(v.live.take(i as int).filter(pred).push(v.live[i as int]).map_values(ident)
                    =~= v.live.take(i as int).filter(pred).map_values(ident).push(
                    v.live[i as int].core.id,
                ));
                let ghost prev = *self;
                self.live[i].used_by_count.add_use(requestor);
                proof {
                    assert forall|k: int| 0 <= k < n implies (
                    #[trigger] self.live@[k]).used_by_count.wf() by {
                        if k != i {
                            assert(self.live@[k] == prev.live@[k]);
                        }
                    }
                    assert forall|k: int| 0 <= k < i + 1 implies #[trigger] self@.live[k]
                        == RegistryView::taken_if(v.live[k], query@, requestor) by {
                        if k != i {
                            assert(self.live@[k] == prev.live@[k]);
                            assert(prev@.live[k] == prev.live@[k]@);
                        }
                    }
                    assert forall|k: int| i + 1 <= k < n implies #[trigger] self@.live[k]
                        == v.live[k] by {
                        assert(self.live@[k] == prev.live@[k]);
                        assert(prev@.live[k] == prev.live@[k]@);
                    }
                    assert(self@.zombies =~= prev@.zombies);
                }
            }
            i = i + 1;
        }
        proof {
            assert(v.live.take(i as int) =~= v.live);
            assert(self@.live =~= v.checkout_matching(query@, requestor).live);
            v.lemma_checkout_matching(query@, requestor);
        }
        out
    }

    /// Takes, for the module `requestor`, a handle to the first registered
    /// service that answers `query` and whose object `provides` accepts, and
    /// returns its identity. `None`, and no change, if there is no such
    /// service.
    ///
    /// `provides` is asked of the objects of the services that answer
    /// `query`, in rising order of ranking and identity, until it accepts
    /// one.
    pub fn get_service_object_where<F: Fn(&S) -> bool>(
        &mut self,
        query: &ServiceQuery,
        requestor: DynamodId,
        provides: F,
    ) -> (r: Option<ServiceId>)
        requires
            old(self).wf(),
            old(self)@.can_checkout_matching(query@, requestor),
            forall|i: int|
                0 <= i < old(self)@.live.len() ==> call_requires(
                    provides,
                    (&(#[trigger] old(self)@.live[i]).object,),
                ),
        ensures
            final(self).wf(),
            match r {
                Some(id) => {
                    &&& old(self)@.is_live(id)
                    &&& query.accepts(old(self)@.entry(id).service_ref())
                    &&& call_ensures(provides, (&old(self)@.entry(id).object,), true)
                    &&& forall|k: int|
                        0 <= k < old(self)@.live_index(id) && query.accepts(
                            (#[trigger] old(self)@.live[k]).service_ref(),
                        ) ==> call_ensures(provides, (&old(self)@.live[k].object,), false)
                    &&& final(self)@ == old(self)@.checkout(id, requestor)
                },
                None => {
                    &&& final(self)@ == old(self)@
                    &&& forall|k: int|
                        0 <= k < old(self)@.live.len() && query.accepts(
                            (#[trigger] old(self)@.live[k]).service_ref(),
                        ) ==> call_ensures(provides, (&old(self)@.live[k].object,), false)
                },
            },
    {
        let mut i: usize = 0;
        while i < self.live.len()
            invariant
                *self == *old(self),
                self.wf(),
                i <= self.live@.len(),
                self@.live.len() == self.live@.len(),
                self@.can_checkout_matching(query@, requestor),
                forall|k: int|
                    0 <= k < self@.live.len() ==> call_requires(
                        provides,
                        (&(#[trigger] self@.live[k]).object,),
                    ),
                forall|k: int|
                    0 <= k < i && query.accepts((#[trigger] self@.live[k]).service_ref())
                        ==> call_ensures(provides, (&self@.live[k].object,), false),
            decreases self.live@.len() - i,
        {
            assert(self@.live[i as int] == self.live@[i as int]@);
            if Self::answers(&self.live[i], query) && provides(&self.live[i].service_object) {
                let id = self.live[i].core_props.id;
                proof {
                    self@.lemma_live_index(id, i as int);
                }
                self.get_service_object(id, requestor);
                return Some(id);
            }
            i = i + 1;
        }
        None
    }

    /// Takes, for the module `requestor`, one handle to every registered
    /// service that answers `query` and whose object `provides` accepts, and
    /// returns their identities in rising order of ranking and identity.
    ///
    /// `provides` is asked once of the object of each service that answers
    /// `query`.
    pub fn get_service_objects_where<F: Fn(&S) -> bool>(
        &mut self,
        query: &ServiceQuery,
        requestor: DynamodId,
        provides: F,
    ) -> (r: Vec<ServiceId>)
        requires
            old(self).wf(),
            old(self)@.can_checkout_matching(query@, requestor),
            forall|i: int|
                0 <= i < old(self)@.live.len() ==> call_requires(
                    provides,
                    (&(#[trigger] old(self)@.live[i]).object,),
                ),
        ensures
            final(self).wf(),
            exists|flags: Seq<bool>|
                {
                    &&& flags.len() == old(self)@.live.len()
                    &&& forall|k: int|
                        0 <= k < flags.len() && query.accepts(
                            (#[trigger] old(self)@.live[k]).service_ref(),
                        ) ==> call_ensures(provides, (&old(self)@.live[k].object,), flags[k])
                    &&& final(self)@ == old(self)@.checkout_chosen(query@, requestor, flags)
                    &&& r@ == old(self)@.chosen_ids(query@, flags, flags.len() as int)
                },
    {
        let mut out: Vec<ServiceId> = Vec::new();
        let ghost v = self@;
        let ghost mut flags: Seq<bool> = Seq::empty();
        let n = self.live.len();
        let mut i: usize = 0;
        while i < n
            invariant
                v == old(self)@,
                v.wf(),
                v.can_checkout_matching(query@, requestor),
                i <= n,
                n == v.live.len(),
                self.live@.len() == n,
                self@.curr_id == v.curr_id,
                self@.zombies == v.zombies,
                self@.live.len() == n,
                self.zombies == old(self).zombies,
                flags.len() == i,
                forall|k: int|
                    0 <= k < n ==> call_requires(provides, (&(#[trigger] v.live[k]).object,)),
                forall|k: int|
                    0 <= k < i && query.accepts((#[trigger] v.live[k]).service_ref())
                        ==> call_ensures(provides, (&v.live[k].object,), flags[k]),
                forall|k: int|
                    0 <= k < i ==> #[trigger] self@.live[k] == if v.chosen_at(query@, flags, k) {
                        v.live[k].taken_by(requestor)
                    } else {
                        v.live[k]
                    },
                forall|k: int| i <= k < n ==> #[trigger] self@.live[k] == v.live[k],
                forall|k: int| 0 <= k < n ==> (#[trigger] self.live@[k]).used_by_count.wf(),
                out@ == v.chosen_ids(query@, flags, i as int),
            decreases n - i,
        {
            assert(self@.live[i as int] == self.live@[i as int]@);
            let ghost earlier = flags;
            let take = Self::answers(&self.live[i], query) && provides(
                &self.live[i].service_object,
            );
            proof {
                flags = earlier.push(take);
                Self::lemma_chosen_ids_prefix(v, query@, earlier, flags, i as int);
            }
            if take {
                out.push(self.live[i].core_props.id);
                let ghost prev = *self;
                self.live[i].used_by_count.add_use(requestor);
                proof {
                    assert forall|k: int| 0 <= k < n implies (
                    #[trigger] self.live@[k]).used_by_count.wf() by {
                        if k != i {
                            assert(self.live@[k] == prev.live@[k]);
                        }
                    }
                    assert forall|k: int| 0 <= k < i + 1 implies #[trigger] self@.live[k]
                        == if v.chosen_at(query@, flags, k) {
                        v.live[k].taken_by(requestor)
                    } else {
                        v.live[k]
                    } by {
                        if k != i {
                            assert(self.live@[k] == prev.live@[k]);
                            assert(prev@.live[k] == prev.live@[k]@);
                        }
                    }
                    assert forall|k: int| i + 1 <= k < n implies #[trigger] self@.live[k]
                        == v.live[k] by {
                        assert(self.live@[k] == prev.live@[k]);
                        assert(prev@.live[k] == prev.live@[k]@);
                    }
                    assert(self@.zombies =~= prev@.zombies);
                }
            }
            i = i + 1;
        }
        proof {
            assert(self@.live =~= v.checkout_chosen(query@, requestor, flags).live);
            v.lemma_checkout_chosen(query@, requestor, flags);
        }
        out
    }

    /// What is chosen among the first `n` services depends on the first `n`
    /// flags only.
    proof fn lemma_chosen_ids_prefix(
        v: RegistryView<S>,
        query: QueryView,
        earlier: Seq<bool>,
        flags: Seq<bool>,
        n: int,
    )
        requires
            0 <= n <= earlier.len() <= flags.len(),
            forall|k: int| 0 <= k < n ==> earlier[k] == flags[k],
        ensures
            v.chosen_ids(query, earlier, n) == v.chosen_ids(query, flags, n),
        decreases n,
    {
        if n > 0 {
            Self::lemma_chosen_ids_prefix(v, query, earlier, flags, n - 1);
        }
    }

    /// The object of the service `svc_id`, be it registered or a zombie: what
    /// a handle to the service resolves to.
    pub fn resolve(&self, svc_id: ServiceId) -> (r: Option<&S>)
        requires
            self.wf(),
        ensures
            r is Some <==> self@.resolvable(svc_id),
            r is Some ==> *r->0 == self@.entry(svc_id).object,
    {
        match self.find_live(svc_id) {
            Some(i) => Some(&self.live[i].service_object),
            None => match self.find_zombie(svc_id) {
                Some(j) => Some(&self.zombies[j].service_object),
                None => None,
            },
        }
    }

    /// The number of handles to the service `svc_id` that the module
    /// `user_id` holds.
    pub fn use_count(&self, svc_id: ServiceId, user_id: DynamodId) -> (r: u32)
        requires
            self.wf(),
        ensures
            r == self@.use_count(svc_id, user_id),
    {
        match self.find_live(svc_id) {
            Some(i) => self.live[i].used_by_count.count(user_id),
            None => match self.find_zombie(svc_id) {
                Some(j) => self.zombies[j].used_by_count.count(user_id),
                None => 0,
            },
        }
    }

    /// Whether the service `svc_id` was unregistered and is kept for the
    /// handles that are outstanding.
    pub fn is_zombie(&self, svc_id: ServiceId) -> (r: bool)
        requires
            self.wf(),
        ensures
            r == self@.is_zombie(svc_id),
    {
        self.find_zombie(svc_id).is_some()
    }
}

impl<S> Default for ServiceRegistry<S> {
    /// A registry that holds nothing.
    fn default() -> (r: ServiceRegistry<S>)
        ensures
            r.wf(),
            r@ == RegistryView::<S>::empty(),
    {
        ServiceRegistry::new()
    }
}

} // verus!
