//! The registry as a mathematical value, and what holds of its operations.

use super::query::QueryView;
use super::reference::{ServiceCoreProps, ServiceRefView};
use std::any::TypeId;
use vstd::multiset::*;
use vstd::prelude::*;

verus! {

/// One registration as the registry sees it.
pub struct ServiceEntry<S> {
    pub core: ServiceCoreProps,
    pub type_id: TypeId,
    pub name: Seq<char>,
    pub owner_id: u32,
    /// The outstanding handles: each consumer as often as it holds one.
    pub uses: Multiset<u32>,
    /// The service object, which the registry alone owns.
    pub object: S,
}

impl<S> ServiceEntry<S> {
    /// The snapshot that queries and events see.
    pub open spec fn service_ref(self) -> ServiceRefView {
        ServiceRefView {
            core: self.core,
            name: self.name,
            type_id: self.type_id,
            owner_id: self.owner_id,
        }
    }

    /// The entry with one more handle in the hands of `who`.
    pub open spec fn taken_by(self, who: u32) -> ServiceEntry<S> {
        ServiceEntry { uses: self.uses.insert(who), ..self }
    }

    /// The entry after `who` gave one handle back.
    pub open spec fn given_back_by(self, who: u32) -> ServiceEntry<S> {
        ServiceEntry { uses: self.uses.remove(who), ..self }
    }
}

/// The state of a registry.
///
/// `live` holds the registered services in the order in which queries list
/// them. `zombies` holds the services that were unregistered while handles
/// to them were outstanding; a zombie answers no query and is dropped with
/// its last handle.
pub struct RegistryView<S> {
    /// The identity handed out last; 0 before the first registration.
    pub curr_id: u32,
    pub live: Seq<ServiceEntry<S>>,
    pub zombies: Seq<ServiceEntry<S>>,
}

impl<S> RegistryView<S> {
    /// The registry that holds nothing.
    pub open spec fn empty() -> RegistryView<S> {
        RegistryView { curr_id: 0, live: Seq::empty(), zombies: Seq::empty() }
    }

    /// A service with the identity `id` is registered.
    pub open spec fn is_live(self, id: u32) -> bool {
        exists|i: int| 0 <= i < self.live.len() && #[trigger] self.live[i].core.id == id
    }

    /// A service with the identity `id` is kept for its outstanding handles.
    pub open spec fn is_zombie(self, id: u32) -> bool {
        exists|i: int| 0 <= i < self.zombies.len() && #[trigger] self.zombies[i].core.id == id
    }

    /// The registry still owns the object of the service `id`, so a handle to
    /// it resolves.
    pub open spec fn resolvable(self, id: u32) -> bool {
        self.is_live(id) || self.is_zombie(id)
    }

    /// Where the registered service `id` stands in `live`.
    pub open spec fn live_index(self, id: u32) -> int {
        choose|i: int| 0 <= i < self.live.len() && #[trigger] self.live[i].core.id == id
    }

    /// Where the zombie `id` stands in `zombies`.
    pub open spec fn zombie_index(self, id: u32) -> int {
        choose|i: int| 0 <= i < self.zombies.len() && #[trigger] self.zombies[i].core.id == id
    }

    /// The entry of the service `id`, registered or zombie.
    pub open spec fn entry(self, id: u32) -> ServiceEntry<S> {
        if self.is_live(id) {
            self.live[self.live_index(id)]
        } else {
            self.zombies[self.zombie_index(id)]
        }
    }

    /// The number of handles to the service `id` that `who` holds.
    pub open spec fn use_count(self, id: u32, who: u32) -> nat {
        if self.resolvable(id) {
            self.entry(id).uses.count(who)
        } else {
            0
        }
    }

    /// The number of handles to the service `id` that are outstanding.
    pub open spec fn handles(self, id: u32) -> nat {
        if self.resolvable(id) {
            self.entry(id).uses.len()
        } else {
            0
        }
    }

    /// What every registry keeps true.
    ///
    /// The registered services stand in strictly rising order of ranking and
    /// identity. No identity above `curr_id` or below 1 is in use, and none is
    /// in use twice, be it among the registered services, among the zombies,
    /// or across the two. Every zombie has a handle outstanding.
    pub open spec fn wf(self) -> bool {
        &&& forall|i: int, j: int|
            0 <= i < j < self.live.len() ==> (#[trigger] self.live[i]).core.before(
                (#[trigger] self.live[j]).core,
            )
        &&& forall|i: int|
            0 <= i < self.live.len() ==> 1 <= (#[trigger] self.live[i]).core.id <= self.curr_id
        &&& forall|i: int, j: int|
            0 <= i < j < self.live.len() ==> (#[trigger] self.live[i]).core.id != (
            #[trigger] self.live[j]).core.id
        &&& forall|i: int|
            0 <= i < self.zombies.len() ==> 1 <= (#[trigger] self.zombies[i]).core.id
                <= self.curr_id
        &&& forall|i: int, j: int|
            0 <= i < j < self.zombies.len() ==> (#[trigger] self.zombies[i]).core.id != (
            #[trigger] self.zombies[j]).core.id
        &&& forall|i: int, j: int|
            0 <= i < self.zombies.len() && 0 <= j < self.live.len() ==> (
            #[trigger] self.zombies[i]).core.id != (#[trigger] self.live[j]).core.id
        &&& forall|i: int|
            0 <= i < self.zombies.len() ==> (#[trigger] self.zombies[i]).uses.len() > 0
    }

    /// Every registered service before position `p` comes before `core`, and
    /// none from `p` on does.
    pub open spec fn splits_at(self, core: ServiceCoreProps, p: int) -> bool {
        &&& 0 <= p <= self.live.len()
        &&& forall|j: int| 0 <= j < p ==> (#[trigger] self.live[j]).core.before(core)
        &&& forall|j: int| p <= j < self.live.len() ==> !(#[trigger] self.live[j]).core.before(core)
    }

    /// The position at which a registration with the properties `core` is
    /// listed: behind every registered service that comes before it.
    pub open spec fn position(self, core: ServiceCoreProps) -> int {
        choose|p: int| self.splits_at(core, p)
    }

    /// The entry that a registration creates.
    pub open spec fn new_entry(
        self,
        type_id: TypeId,
        name: Seq<char>,
        object: S,
        ranking: i32,
        owner_id: u32,
    ) -> ServiceEntry<S> {
        ServiceEntry {
            core: ServiceCoreProps { ranking, id: (self.curr_id + 1) as u32 },
            type_id,
            name,
            owner_id,
            uses: Multiset::empty(),
            object,
        }
    }

    /// The registry after a registration: the service gets the next identity
    /// and is listed at its place in the order. Nobody uses it yet.
    pub open spec fn register(
        self,
        type_id: TypeId,
        name: Seq<char>,
        object: S,
        ranking: i32,
        owner_id: u32,
    ) -> RegistryView<S> {
        let e = self.new_entry(type_id, name, object, ranking, owner_id);
        RegistryView {
            curr_id: (self.curr_id + 1) as u32,
            live: self.live.insert(self.position(e.core), e),
            zombies: self.zombies,
        }
    }

    /// The registry after the service `id` was unregistered. A service that
    /// is in use becomes a zombie; one that is not is dropped. An identity
    /// that is not registered changes nothing.
    pub open spec fn unregister(self, id: u32) -> RegistryView<S> {
        if self.is_live(id) {
            let i = self.live_index(id);
            let e = self.live[i];
            RegistryView {
                curr_id: self.curr_id,
                live: self.live.remove(i),
                zombies: if e.uses.len() > 0 {
                    self.zombies.push(e)
                } else {
                    self.zombies
                },
            }
        } else {
            self
        }
    }

    /// The registry after `who` took a handle to the registered service `id`.
    /// An identity that is not registered changes nothing.
    pub open spec fn checkout(self, id: u32, who: u32) -> RegistryView<S> {
        if self.is_live(id) {
            let i = self.live_index(id);
            RegistryView { live: self.live.update(i, self.live[i].taken_by(who)), ..self }
        } else {
            self
        }
    }

    /// The registry after `who` gave back a handle to the service `id`. A
    /// zombie that loses its last handle is dropped. A handle that `who` does
    /// not hold, or an identity that the registry does not know, changes
    /// nothing.
    pub open spec fn release(self, id: u32, who: u32) -> RegistryView<S> {
        if self.is_live(id) {
            let i = self.live_index(id);
            RegistryView { live: self.live.update(i, self.live[i].given_back_by(who)), ..self }
        } else if self.is_zombie(id) {
            let j = self.zombie_index(id);
            let z = self.zombies[j].given_back_by(who);
            RegistryView {
                zombies: if z.uses.len() == 0 {
                    self.zombies.remove(j)
                } else {
                    self.zombies.update(j, z)
                },
                ..self
            }
        } else {
            self
        }
    }

    /// The entry `e` after `who` took a handle to it if it answers `query`.
    pub open spec fn taken_if(e: ServiceEntry<S>, query: QueryView, who: u32) -> ServiceEntry<
        S,
    > {
        if query.accepts(e.service_ref()) {
            e.taken_by(who)
        } else {
            e
        }
    }

    /// The registry after `who` took one handle to every registered service
    /// that answers `query`.
    pub open spec fn checkout_matching(self, query: QueryView, who: u32) -> RegistryView<S> {
        RegistryView {
            live: Seq::new(self.live.len(), |i: int| Self::taken_if(self.live[i], query, who)),
            ..self
        }
    }

    /// `who` can take one more handle to every registered service that
    /// answers `query`: no count stands at the largest number.
    pub open spec fn can_checkout_matching(self, query: QueryView, who: u32) -> bool {
        forall|i: int|
            0 <= i < self.live.len() && query.accepts((#[trigger] self.live[i]).service_ref())
                ==> self.live[i].uses.count(who) < u32::MAX
    }

    /// The entry at position `i` is chosen: it answers `query` and its flag
    /// in `flags` is set.
    pub open spec fn chosen_at(self, query: QueryView, flags: Seq<bool>, i: int) -> bool {
        query.accepts(self.live[i].service_ref()) && flags[i]
    }

    /// The registry after `who` took one handle to every registered service
    /// that answers `query` and whose flag in `flags` is set.
    pub open spec fn checkout_chosen(
        self,
        query: QueryView,
        who: u32,
        flags: Seq<bool>,
    ) -> RegistryView<S> {
        RegistryView {
            live: Seq::new(
                self.live.len(),
                |i: int|
                    if self.chosen_at(query, flags, i) {
                        self.live[i].taken_by(who)
                    } else {
                        self.live[i]
                    },
            ),
            ..self
        }
    }

    /// The identities of the first `n` registered services that are chosen,
    /// in the order of listing.
    pub open spec fn chosen_ids(self, query: QueryView, flags: Seq<bool>, n: int) -> Seq<u32>
        decreases n,
    {
        if n <= 0 {
            Seq::empty()
        } else if self.chosen_at(query, flags, n - 1) {
            self.chosen_ids(query, flags, n - 1).push(self.live[n - 1].core.id)
        } else {
            self.chosen_ids(query, flags, n - 1)
        }
    }

    /// The registry after the handles of `who`, one for each member of
    /// `users` in turn, were given back to the service `id`.
    pub open spec fn release_all(self, id: u32, users: Seq<u32>) -> RegistryView<S>
        decreases users.len(),
    {
        if users.len() == 0 {
            self
        } else {
            self.release_all(id, users.drop_last()).release(id, users.last())
        }
    }

    /// The registered services that answer `query`, in the order of listing.
    pub open spec fn candidates(self, query: QueryView) -> Seq<ServiceEntry<S>> {
        self.live.filter(|e: ServiceEntry<S>| query.accepts(e.service_ref()))
    }

    /// The registered services with the name `name`, in the order of listing.
    pub open spec fn named(self, name: Seq<char>) -> Seq<ServiceEntry<S>> {
        self.candidates(QueryView::Name(name))
    }

    /// The registered services indexed under `type_id`, in the order of
    /// listing.
    pub open spec fn typed(self, type_id: TypeId) -> Seq<ServiceEntry<S>> {
        self.candidates(QueryView::TypeId(type_id))
    }

    /// Under `wf`, the index of a registered service is the only position
    /// that holds its identity.
    pub proof fn lemma_live_index(self, id: u32, i: int)
        requires
            self.wf(),
            0 <= i < self.live.len(),
            self.live[i].core.id == id,
        ensures
            self.is_live(id),
            !self.is_zombie(id),
            self.live_index(id) == i,
            self.entry(id) == self.live[i],
    {
        let k = self.live_index(id);
        if k < i {
            assert(self.live[k].core.id != self.live[i].core.id);
        } else if i < k {
            assert(self.live[i].core.id != self.live[k].core.id);
        }
        if self.is_zombie(id) {
            let z = self.zombie_index(id);
            assert(self.zombies[z].core.id != self.live[i].core.id);
        }
    }

    /// Under `wf`, the index of a zombie is the only position that holds its
    /// identity.
    pub proof fn lemma_zombie_index(self, id: u32, j: int)
        requires
            self.wf(),
            0 <= j < self.zombies.len(),
            self.zombies[j].core.id == id,
        ensures
            self.is_zombie(id),
            !self.is_live(id),
            self.zombie_index(id) == j,
            self.entry(id) == self.zombies[j],
    {
        let k = self.zombie_index(id);
        if k < j {
            assert(self.zombies[k].core.id != self.zombies[j].core.id);
        } else if j < k {
            assert(self.zombies[j].core.id != self.zombies[k].core.id);
        }
        if self.is_live(id) {
            let i = self.live_index(id);
            assert(self.zombies[j].core.id != self.live[i].core.id);
        }
    }

    /// Under `wf`, a registration with a fresh identity has exactly one place
    /// in the order.
    pub proof fn lemma_position(self, core: ServiceCoreProps, p: int)
        requires
            self.wf(),
            self.splits_at(core, p),
        ensures
            self.position(core) == p,
    {
        let q = self.position(core);
        if q < p {
            assert(self.live[q].core.before(core));
        } else if p < q {
            assert(self.live[p].core.before(core));
        }
    }
}

} // verus!
