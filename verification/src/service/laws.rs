//! What holds of every registry, whatever was registered, used and given back.

use super::model::RegistryView;
use super::query::QueryView;
use super::reference::ServiceCoreProps;
use std::any::TypeId;
use vstd::multiset::*;
use vstd::prelude::*;

verus! {

impl<S> RegistryView<S> {
    /// Every registration has a place in the order.
    pub proof fn lemma_position_exists(self, core: ServiceCoreProps, n: int)
        requires
            self.wf(),
            0 <= n <= self.live.len(),
            forall|j: int| 0 <= j < n ==> (#[trigger] self.live[j]).core.before(core),
        ensures
            exists|p: int| self.splits_at(core, p),
        decreases self.live.len() - n,
    {
        if n == self.live.len() {
            assert(self.splits_at(core, n));
        } else if self.live[n].core.before(core) {
            self.lemma_position_exists(core, n + 1);
        } else {
            assert forall|j: int| n <= j < self.live.len() implies !(
            #[trigger] self.live[j]).core.before(core) by {
                if n < j {
                    assert(self.live[n].core.before(self.live[j].core));
                }
            }
            assert(self.splits_at(core, n));
        }
    }

    /// A registration keeps the registry well-formed. The new service is
    /// registered under the next identity, and nothing changes for any other
    /// identity.
    pub proof fn lemma_register(
        self,
        type_id: TypeId,
        name: Seq<char>,
        object: S,
        ranking: i32,
        owner_id: u32,
    )
        requires
            self.wf(),
            self.curr_id < u32::MAX,
        ensures
            ({
                let w = self.register(type_id, name, object, ranking, owner_id);
                let e = self.new_entry(type_id, name, object, ranking, owner_id);
                &&& w.wf()
                &&& e.core.id == self.curr_id + 1
                &&& w.is_live(e.core.id)
                &&& w.entry(e.core.id) == e
                &&& !self.resolvable(e.core.id)
                &&& forall|other: u32|
                    other != e.core.id ==> #[trigger] w.is_live(other) == self.is_live(other)
                &&& forall|other: u32| #[trigger] w.is_zombie(other) == self.is_zombie(other)
                &&& forall|other: u32|
                    self.resolvable(other) ==> #[trigger] w.entry(other) == self.entry(other)
            }),
    {
        let w = self.register(type_id, name, object, ranking, owner_id);
        let e = self.new_entry(type_id, name, object, ranking, owner_id);
        let core = e.core;
        self.lemma_position_exists(core, 0);
        let p = self.position(core);
        assert(self.splits_at(core, p));
        assert forall|i: int, j: int| 0 <= i < j < w.live.len() implies (
        #[trigger] w.live[i]).core.before((#[trigger] w.live[j]).core) by {
            if j == p {
                assert(self.live[i].core.before(core));
            } else if i == p {
                assert(!self.live[j - 1].core.before(core));
                assert(self.live[j - 1].core.id <= self.curr_id);
            } else if i < p && j > p {
                assert(self.live[i].core.before(self.live[j - 1].core));
            } else if i > p {
                assert(self.live[i - 1].core.before(self.live[j - 1].core));
            } else {
                assert(self.live[i].core.before(self.live[j].core));
            }
        }
        assert forall|i: int| 0 <= i < w.live.len() implies 1 <= (#[trigger] w.live[i]).core.id
            <= w.curr_id by {
            if i < p {
                assert(self.live[i].core.id <= self.curr_id);
            } else if i > p {
                assert(self.live[i - 1].core.id <= self.curr_id);
            }
        }
        assert forall|i: int, j: int| 0 <= i < j < w.live.len() implies (
        #[trigger] w.live[i]).core.id != (#[trigger] w.live[j]).core.id by {
            let a = if i < p {
                i
            } else {
                i - 1
            };
            let b = if j < p {
                j
            } else {
                j - 1
            };
            if i != p {
                assert(self.live[a].core.id <= self.curr_id);
            }
            if j != p {
                assert(self.live[b].core.id <= self.curr_id);
            }
            if i != p && j != p {
                assert(self.live[a].core.id != self.live[b].core.id);
            }
        }
        assert forall|i: int, j: int|
            0 <= i < w.zombies.len() && 0 <= j < w.live.len() implies (
        #[trigger] w.zombies[i]).core.id != (#[trigger] w.live[j]).core.id by {
            assert(self.zombies[i].core.id <= self.curr_id);
            if j < p {
                assert(self.zombies[i].core.id != self.live[j].core.id);
            } else if j > p {
                assert(self.zombies[i].core.id != self.live[j - 1].core.id);
            }
        }
        assert forall|i: int| 0 <= i < w.zombies.len() implies 1 <= (
        #[trigger] w.zombies[i]).core.id <= w.curr_id by {
            assert(self.zombies[i].core.id <= self.curr_id);
        }
        assert(w.wf());
        assert(w.live[p] == e);
        w.lemma_live_index(e.core.id, p);
        if self.is_live(e.core.id) {
            assert(self.live[self.live_index(e.core.id)].core.id <= self.curr_id);
        }
        if self.is_zombie(e.core.id) {
            assert(self.zombies[self.zombie_index(e.core.id)].core.id <= self.curr_id);
        }
        assert forall|other: u32| other != e.core.id implies #[trigger] w.is_live(other)
            == self.is_live(other) by {
            if self.is_live(other) {
                let i = self.live_index(other);
                let k = if i < p {
                    i
                } else {
                    i + 1
                };
                assert(w.live[k] == self.live[i]);
            }
            if w.is_live(other) {
                let k = w.live_index(other);
                let i = if k < p {
                    k
                } else {
                    k - 1
                };
                assert(self.live[i] == w.live[k]);
            }
        }
        assert forall|other: u32| #[trigger] w.is_zombie(other) == self.is_zombie(other) by {
            assert(w.zombies == self.zombies);
            if self.is_zombie(other) {
                assert(w.zombies[self.zombie_index(other)].core.id == other);
            }
            if w.is_zombie(other) {
                assert(self.zombies[w.zombie_index(other)].core.id == other);
            }
        }
        assert forall|other: u32| self.resolvable(other) implies #[trigger] w.entry(other)
            == self.entry(other) by {
            if self.is_live(other) {
                let i = self.live_index(other);
                let k = if i < p {
                    i
                } else {
                    i + 1
                };
                assert(w.live[k] == self.live[i]);
                self.lemma_live_index(other, i);
                w.lemma_live_index(other, k);
            } else {
                let j = self.zombie_index(other);
                self.lemma_zombie_index(other, j);
                w.lemma_zombie_index(other, j);
            }
        }
    }

    /// Unregistering keeps the registry well-formed. The service is
    /// registered no longer; it is kept as a zombie exactly if a handle to it
    /// is outstanding, and then with the entry it had. Nothing changes for
    /// any other identity.
    pub proof fn lemma_unregister(self, id: u32)
        requires
            self.wf(),
        ensures
            ({
                let w = self.unregister(id);
                &&& w.wf()
                &&& !w.is_live(id)
                &&& self.is_live(id) ==> (w.is_zombie(id) <==> self.handles(id) > 0)
                &&& self.is_live(id) && self.handles(id) > 0 ==> w.entry(id) == self.entry(id)
                &&& !self.is_live(id) ==> w == self
                &&& forall|other: u32|
                    other != id ==> #[trigger] w.is_live(other) == self.is_live(other)
                &&& forall|other: u32|
                    other != id ==> #[trigger] w.is_zombie(other) == self.is_zombie(other)
                &&& forall|other: u32|
                    other != id && self.resolvable(other) ==> #[trigger] w.entry(other)
                        == self.entry(other)
            }),
    {
        let w = self.unregister(id);
        if self.is_live(id) {
            let i = self.live_index(id);
            self.lemma_live_index(id, i);
            let e = self.live[i];
            assert forall|a: int, b: int| 0 <= a < b < w.live.len() implies (
            #[trigger] w.live[a]).core.before((#[trigger] w.live[b]).core) && w.live[a].core.id
                != w.live[b].core.id by {
                let a0 = if a < i {
                    a
                } else {
                    a + 1
                };
                let b0 = if b < i {
                    b
                } else {
                    b + 1
                };
                assert(self.live[a0].core.before(self.live[b0].core));
                assert(self.live[a0].core.id != self.live[b0].core.id);
            }
            assert forall|a: int| 0 <= a < w.live.len() implies 1 <= (
            #[trigger] w.live[a]).core.id <= w.curr_id && w.live[a].core.id != id by {
                let a0 = if a < i {
                    a
                } else {
                    a + 1
                };
                assert(1 <= self.live[a0].core.id <= self.curr_id);
                if a0 < i {
                    assert(self.live[a0].core.id != self.live[i].core.id);
                } else {
                    assert(self.live[i].core.id != self.live[a0].core.id);
                }
            }
            assert forall|a: int| 0 <= a < w.zombies.len() implies 1 <= (
            #[trigger] w.zombies[a]).core.id <= w.curr_id && w.zombies[a].uses.len() > 0 by {
                if a < self.zombies.len() {
                    assert(1 <= self.zombies[a].core.id <= self.curr_id);
                } else {
                    assert(1 <= self.live[i].core.id <= self.curr_id);
                }
            }
            assert forall|a: int, b: int| 0 <= a < b < w.zombies.len() implies (
            #[trigger] w.zombies[a]).core.id != (#[trigger] w.zombies[b]).core.id by {
                if b < self.zombies.len() {
                    assert(self.zombies[a].core.id != self.zombies[b].core.id);
                } else {
                    assert(self.zombies[a].core.id != self.live[i].core.id);
                }
            }
            assert forall|a: int, b: int|
                0 <= a < w.zombies.len() && 0 <= b < w.live.len() implies (
            #[trigger] w.zombies[a]).core.id != (#[trigger] w.live[b]).core.id by {
                let b0 = if b < i {
                    b
                } else {
                    b + 1
                };
                if a < self.zombies.len() {
                    assert(self.zombies[a].core.id != self.live[b0].core.id);
                } else if b0 < i {
                    assert(self.live[b0].core.id != self.live[i].core.id);
                } else {
                    assert(self.live[i].core.id != self.live[b0].core.id);
                }
            }
            assert(w.wf());
            if w.is_live(id) {
                let k = w.live_index(id);
                assert(w.live[k].core.id != id);
            }
            if e.uses.len() > 0 {
                assert(w.zombies[self.zombies.len() as int] == e);
                w.lemma_zombie_index(id, self.zombies.len() as int);
            } else if w.is_zombie(id) {
                let z = w.zombie_index(id);
                assert(self.zombies[z].core.id != self.live[i].core.id);
            }
            assert forall|other: u32| other != id implies #[trigger] w.is_live(other)
                == self.is_live(other) by {
                if self.is_live(other) {
                    let a = self.live_index(other);
                    let k = if a < i {
                        a
                    } else {
                        a - 1
                    };
                    assert(w.live[k] == self.live[a]);
                }
                if w.is_live(other) {
                    let k = w.live_index(other);
                    let a = if k < i {
                        k
                    } else {
                        k + 1
                    };
                    assert(self.live[a] == w.live[k]);
                }
            }
            assert forall|other: u32| other != id implies #[trigger] w.is_zombie(other)
                == self.is_zombie(other) by {
                if self.is_zombie(other) {
                    let j = self.zombie_index(other);
                    assert(w.zombies[j] == self.zombies[j]);
                }
                if w.is_zombie(other) {
                    let j = w.zombie_index(other);
                    assert(j < self.zombies.len());
                    assert(self.zombies[j] == w.zombies[j]);
                }
            }
            assert forall|other: u32| other != id
                && self.resolvable(other) implies #[trigger] w.entry(
                other,
            ) == self.entry(other) by {
                if self.is_live(other) {
                    let a = self.live_index(other);
                    let k = if a < i {
                        a
                    } else {
                        a - 1
                    };
                    assert(w.live[k] == self.live[a]);
                    self.lemma_live_index(other, a);
                    w.lemma_live_index(other, k);
                } else {
                    let j = self.zombie_index(other);
                    self.lemma_zombie_index(other, j);
                    assert(w.zombies[j] == self.zombies[j]);
                    w.lemma_zombie_index(other, j);
                }
            }
        }
    }

    /// A registry that differs from a well-formed one only in the handles of
    /// its registered services is well-formed, and knows the same identities.
    pub proof fn lemma_same_keys(self, w: RegistryView<S>)
        requires
            self.wf(),
            w.curr_id == self.curr_id,
            w.zombies == self.zombies,
            w.live.len() == self.live.len(),
            forall|k: int|
                0 <= k < self.live.len() ==> (#[trigger] w.live[k]).core == self.live[k].core,
        ensures
            w.wf(),
            forall|id: u32| #[trigger] w.is_live(id) == self.is_live(id),
            forall|id: u32| #[trigger] w.is_zombie(id) == self.is_zombie(id),
            forall|id: u32|
                self.is_live(id) ==> #[trigger] w.live_index(id) == self.live_index(id),
            forall|id: u32| self.is_zombie(id) ==> #[trigger] w.entry(id) == self.entry(id),
    {
        assert forall|i: int, j: int| 0 <= i < j < w.live.len() implies (
        #[trigger] w.live[i]).core.before((#[trigger] w.live[j]).core) && w.live[i].core.id
            != w.live[j].core.id by {
            assert(self.live[i].core.before(self.live[j].core));
            assert(self.live[i].core.id != self.live[j].core.id);
        }
        assert forall|i: int| 0 <= i < w.live.len() implies 1 <= (#[trigger] w.live[i]).core.id
            <= w.curr_id by {
            assert(1 <= self.live[i].core.id <= self.curr_id);
        }
        assert forall|i: int, j: int|
            0 <= i < w.zombies.len() && 0 <= j < w.live.len() implies (
        #[trigger] w.zombies[i]).core.id != (#[trigger] w.live[j]).core.id by {
            assert(self.zombies[i].core.id != self.live[j].core.id);
        }
        assert(w.wf());
        assert forall|id: u32| #[trigger] w.is_live(id) == self.is_live(id) by {
            if self.is_live(id) {
                let i = self.live_index(id);
                assert(w.live[i].core.id == id);
            }
            if w.is_live(id) {
                let i = w.live_index(id);
                assert(self.live[i].core.id == id);
            }
        }
        assert forall|id: u32| self.is_live(id) implies #[trigger] w.live_index(id)
            == self.live_index(id) by {
            let i = self.live_index(id);
            assert(w.live[i].core.id == id);
            w.lemma_live_index(id, i);
        }
        assert forall|id: u32| self.is_zombie(id) implies #[trigger] w.entry(id) == self.entry(
            id,
        ) by {
            let j = self.zombie_index(id);
            self.lemma_zombie_index(id, j);
            w.lemma_zombie_index(id, j);
        }
    }

    /// Taking a handle keeps the registry well-formed. A registered service
    /// has one more handle in the hands of `who`; nothing else changes.
    pub proof fn lemma_checkout(self, id: u32, who: u32)
        requires
            self.wf(),
        ensures
            ({
                let w = self.checkout(id, who);
                &&& w.wf()
                &&& !self.is_live(id) ==> w == self
                &&& self.is_live(id) ==> w.is_live(id) && w.entry(id) == self.entry(id).taken_by(
                    who,
                )
                &&& self.is_live(id) ==> w.use_count(id, who) == self.use_count(id, who) + 1
                &&& self.is_live(id) ==> w.handles(id) == self.handles(id) + 1
                &&& forall|other: u32| #[trigger] w.is_live(other) == self.is_live(other)
                &&& forall|other: u32| #[trigger] w.is_zombie(other) == self.is_zombie(other)
                &&& forall|other: u32|
                    other != id && self.resolvable(other) ==> #[trigger] w.entry(other)
                        == self.entry(other)
            }),
    {
        broadcast use group_multiset_axioms;

        let w = self.checkout(id, who);
        if self.is_live(id) {
            let i = self.live_index(id);
            self.lemma_live_index(id, i);
            self.lemma_same_keys(w);
            w.lemma_live_index(id, i);
            assert forall|other: u32| other != id
                && self.resolvable(other) implies #[trigger] w.entry(
                other,
            ) == self.entry(other) by {
                if self.is_live(other) {
                    let k = self.live_index(other);
                    self.lemma_live_index(other, k);
                    w.lemma_live_index(other, k);
                }
            }
        }
    }

    /// Giving a handle back keeps the registry well-formed. A registered
    /// service stays registered with one handle less. A zombie stays exactly
    /// if a handle is left. Nothing changes for any other identity.
    pub proof fn lemma_release(self, id: u32, who: u32)
        requires
            self.wf(),
        ensures
            ({
                let w = self.release(id, who);
                &&& w.wf()
                &&& w.is_live(id) == self.is_live(id)
                &&& self.resolvable(id) ==> (w.resolvable(id) <==> self.is_live(id)
                    || self.entry(id).uses.remove(who).len() > 0)
                &&& self.resolvable(id) && w.resolvable(id) ==> w.entry(id) == self.entry(
                    id,
                ).given_back_by(who)
                &&& !self.resolvable(id) ==> w == self
                &&& forall|other: u32|
                    other != id ==> #[trigger] w.is_live(other) == self.is_live(other)
                &&& forall|other: u32|
                    other != id ==> #[trigger] w.is_zombie(other) == self.is_zombie(other)
                &&& forall|other: u32|
                    other != id && self.resolvable(other) ==> #[trigger] w.entry(other)
                        == self.entry(other)
            }),
    {
        broadcast use group_multiset_axioms;

        let w = self.release(id, who);
        if self.is_live(id) {
            let i = self.live_index(id);
            self.lemma_live_index(id, i);
            self.lemma_same_keys(w);
            w.lemma_live_index(id, i);
            assert forall|other: u32| other != id
                && self.resolvable(other) implies #[trigger] w.entry(
                other,
            ) == self.entry(other) by {
                if self.is_live(other) {
                    let k = self.live_index(other);
                    self.lemma_live_index(other, k);
                    w.lemma_live_index(other, k);
                }
            }
        } else if self.is_zombie(id) {
            let j = self.zombie_index(id);
            self.lemma_zombie_index(id, j);
            let z = self.zombies[j].given_back_by(who);
            let last = z.uses.len() == 0;
            assert forall|a: int| 0 <= a < w.zombies.len() implies 1 <= (
            #[trigger] w.zombies[a]).core.id <= w.curr_id && w.zombies[a].uses.len() > 0 && (last
                ==> w.zombies[a].core.id != id) by {
                let a0 = if last && a >= j {
                    a + 1
                } else {
                    a
                };
                assert(1 <= self.zombies[a0].core.id <= self.curr_id);
                assert(self.zombies[a0].uses.len() > 0);
                if a0 < j {
                    assert(self.zombies[a0].core.id != self.zombies[j].core.id);
                } else if a0 > j {
                    assert(self.zombies[j].core.id != self.zombies[a0].core.id);
                }
            }
            assert forall|a: int, b: int| 0 <= a < b < w.zombies.len() implies (
            #[trigger] w.zombies[a]).core.id != (#[trigger] w.zombies[b]).core.id by {
                let a0 = if last && a >= j {
                    a + 1
                } else {
                    a
                };
                let b0 = if last && b >= j {
                    b + 1
                } else {
                    b
                };
                assert(self.zombies[a0].core.id != self.zombies[b0].core.id);
            }
            assert forall|a: int, b: int|
                0 <= a < w.zombies.len() && 0 <= b < w.live.len() implies (
            #[trigger] w.zombies[a]).core.id != (#[trigger] w.live[b]).core.id by {
                let a0 = if last && a >= j {
                    a + 1
                } else {
                    a
                };
                assert(self.zombies[a0].core.id != self.live[b].core.id);
            }
            assert(w.wf());
            if last {
                if w.is_zombie(id) {
                    let k = w.zombie_index(id);
                    assert(w.zombies[k].core.id != id);
                }
            } else {
                assert(w.zombies[j] == z);
                w.lemma_zombie_index(id, j);
            }
            assert forall|other: u32| other != id implies #[trigger] w.is_live(other)
                == self.is_live(other) by {
                assert(w.live == self.live);
                if self.is_live(other) {
                    assert(w.live[self.live_index(other)].core.id == other);
                }
                if w.is_live(other) {
                    assert(self.live[w.live_index(other)].core.id == other);
                }
            }
            assert forall|other: u32| other != id implies #[trigger] w.is_zombie(other)
                == self.is_zombie(other) by {
                if self.is_zombie(other) {
                    let a = self.zombie_index(other);
                    let k = if last && a > j {
                        a - 1
                    } else {
                        a
                    };
                    assert(w.zombies[k] == self.zombies[a]);
                }
                if w.is_zombie(other) {
                    let k = w.zombie_index(other);
                    let a = if last && k >= j {
                        k + 1
                    } else {
                        k
                    };
                    assert(self.zombies[a].core.id == other);
                }
            }
            assert forall|other: u32| other != id
                && self.resolvable(other) implies #[trigger] w.entry(
                other,
            ) == self.entry(other) by {
                if self.is_live(other) {
                    let k = self.live_index(other);
                    self.lemma_live_index(other, k);
                    w.lemma_live_index(other, k);
                } else {
                    let a = self.zombie_index(other);
                    let k = if last && a > j {
                        a - 1
                    } else {
                        a
                    };
                    assert(w.zombies[k] == self.zombies[a]);
                    self.lemma_zombie_index(other, a);
                    w.lemma_zombie_index(other, k);
                }
            }
        }
    }

    /// Taking a handle to every service that answers a query keeps the
    /// registry well-formed. Each of those services has one more handle in
    /// the hands of `who`; nothing else changes.
    pub proof fn lemma_checkout_matching(self, query: QueryView, who: u32)
        requires
            self.wf(),
        ensures
            ({
                let w = self.checkout_matching(query, who);
                &&& w.wf()
                &&& forall|id: u32| #[trigger] w.is_live(id) == self.is_live(id)
                &&& forall|id: u32| #[trigger] w.is_zombie(id) == self.is_zombie(id)
                &&& forall|id: u32|
                    self.resolvable(id) ==> #[trigger] w.entry(id) == if self.is_live(id) {
                        Self::taken_if(self.entry(id), query, who)
                    } else {
                        self.entry(id)
                    }
            }),
    {
        let w = self.checkout_matching(query, who);
        self.lemma_same_keys(w);
        assert forall|id: u32| self.resolvable(id) implies #[trigger] w.entry(id)
            == if self.is_live(
            id,
        ) {
            Self::taken_if(self.entry(id), query, who)
        } else {
            self.entry(id)
        } by {
            if self.is_live(id) {
                let i = self.live_index(id);
                self.lemma_live_index(id, i);
                w.lemma_live_index(id, i);
            }
        }
    }

    /// Taking a handle to each of the chosen services keeps the registry
    /// well-formed. Each of them has one more handle in the hands of `who`;
    /// nothing else changes.
    pub proof fn lemma_checkout_chosen(
        self,
        query: QueryView,
        who: u32,
        flags: Seq<bool>,
    )
        requires
            self.wf(),
        ensures
            ({
                let w = self.checkout_chosen(query, who, flags);
                &&& w.wf()
                &&& forall|id: u32| #[trigger] w.is_live(id) == self.is_live(id)
                &&& forall|id: u32| #[trigger] w.is_zombie(id) == self.is_zombie(id)
                &&& forall|id: u32|
                    self.resolvable(id) ==> #[trigger] w.entry(id) == if self.is_live(id)
                        && self.chosen_at(query, flags, self.live_index(id)) {
                        self.entry(id).taken_by(who)
                    } else {
                        self.entry(id)
                    }
            }),
    {
        let w = self.checkout_chosen(query, who, flags);
        self.lemma_same_keys(w);
        assert forall|id: u32| self.resolvable(id) implies #[trigger] w.entry(id)
            == if self.is_live(
            id,
        ) && self.chosen_at(query, flags, self.live_index(id)) {
            self.entry(id).taken_by(who)
        } else {
            self.entry(id)
        } by {
            if self.is_live(id) {
                let i = self.live_index(id);
                self.lemma_live_index(id, i);
                w.lemma_live_index(id, i);
            }
        }
    }

    /// Giving a handle back undoes taking it: the registry is the one it was.
    pub proof fn law_release_undoes_checkout(self, id: u32, who: u32)
        requires
            self.wf(),
            self.is_live(id),
        ensures
            self.checkout(id, who).release(id, who) == self,
    {
        broadcast use group_multiset_axioms;

        let taken = self.checkout(id, who);
        self.lemma_checkout(id, who);
        let i = self.live_index(id);
        self.lemma_live_index(id, i);
        taken.lemma_live_index(id, i);
        assert(self.live[i].uses.insert(who).remove(who) =~= self.live[i].uses);
        assert(taken.release(id, who).live =~= self.live);
    }

    /// One handle less is outstanding once a handle that `who` holds was
    /// given back.
    pub proof fn lemma_release_counts(self, id: u32, who: u32)
        requires
            self.wf(),
            self.use_count(id, who) > 0,
        ensures
            self.release(id, who).handles(id) == self.handles(id) - 1,
            self.release(id, who).use_count(id, who) == self.use_count(id, who) - 1,
            self.release(id, who).resolvable(id) <==> self.is_live(id) || self.handles(id) > 1,
    {
        broadcast use group_multiset_axioms;

        self.lemma_release(id, who);
        let uses = self.entry(id).uses;
        assert(Multiset::singleton(who).subset_of(uses));
        assert(uses.remove(who).len() == uses.len() - 1);
    }

    /// A count never goes below zero: where `who` holds no handle to the
    /// service `id`, giving one back changes nothing.
    pub proof fn law_release_needs_a_handle(self, id: u32, who: u32)
        requires
            self.wf(),
            self.use_count(id, who) == 0,
        ensures
            self.release(id, who) == self,
    {
        broadcast use group_multiset_axioms;

        let w = self.release(id, who);
        if self.is_live(id) {
            let i = self.live_index(id);
            self.lemma_live_index(id, i);
            assert(self.live[i].uses.remove(who) =~= self.live[i].uses);
            assert(w.live =~= self.live);
        } else if self.is_zombie(id) {
            let j = self.zombie_index(id);
            self.lemma_zombie_index(id, j);
            assert(self.zombies[j].uses.remove(who) =~= self.zombies[j].uses);
            assert(w.zombies =~= self.zombies);
        }
    }

    /// The registry gives up a service object at one of two moments only:
    /// when the service is unregistered while no handle to it is
    /// outstanding, or when the last handle to a zombie is given back.
    /// Until then every handle to the service resolves.
    pub proof fn law_object_kept_while_used(self, id: u32, other: u32, who: u32)
        requires
            self.wf(),
            self.resolvable(id),
        ensures
            self.checkout(other, who).resolvable(id),
            self.unregister(other).resolvable(id) <==> !(other == id && self.is_live(id)
                && self.handles(id) == 0),
            self.release(other, who).resolvable(id) <==> !(other == id && self.is_zombie(id)
                && self.use_count(id, who) > 0 && self.handles(id) == 1),
    {
        broadcast use group_multiset_axioms;

        self.lemma_checkout(other, who);
        self.lemma_unregister(other);
        self.lemma_release(other, who);
        if self.is_live(id) {
            self.lemma_live_index(id, self.live_index(id));
        } else {
            self.lemma_zombie_index(id, self.zombie_index(id));
        }
        if other == id && self.is_zombie(id) {
            if self.use_count(id, who) > 0 {
                self.lemma_release_counts(id, who);
            } else {
                self.law_release_needs_a_handle(id, who);
            }
        }
    }

    /// A registration gives up no service object.
    pub proof fn law_registration_keeps_objects(
        self,
        id: u32,
        type_id: TypeId,
        name: Seq<char>,
        object: S,
        ranking: i32,
        owner_id: u32,
    )
        requires
            self.wf(),
            self.curr_id < u32::MAX,
            self.resolvable(id),
        ensures
            self.register(type_id, name, object, ranking, owner_id).resolvable(id),
            self.register(type_id, name, object, ranking, owner_id).entry(id) == self.entry(id),
    {
        self.lemma_register(type_id, name, object, ranking, owner_id);
    }

    /// A service object is given up once: an identity that was handed out and
    /// is known no longer stays unknown, whatever is done next.
    pub proof fn law_dropped_stays_dropped(
        self,
        id: u32,
        other: u32,
        who: u32,
        type_id: TypeId,
        name: Seq<char>,
        object: S,
        ranking: i32,
        owner_id: u32,
    )
        requires
            self.wf(),
            1 <= id <= self.curr_id,
            !self.resolvable(id),
        ensures
            !self.checkout(other, who).resolvable(id),
            !self.release(other, who).resolvable(id),
            !self.unregister(other).resolvable(id),
            self.curr_id < u32::MAX ==> !self.register(
                type_id,
                name,
                object,
                ranking,
                owner_id,
            ).resolvable(id),
    {
        self.lemma_checkout(other, who);
        self.lemma_unregister(other);
        self.lemma_release(other, who);
        if self.curr_id < u32::MAX {
            self.lemma_register(type_id, name, object, ranking, owner_id);
        }
    }

    /// Each member of `users`, in turn, holds a handle to the service `id`
    /// at the moment at which it gives one back.
    pub open spec fn held_in_turn(self, id: u32, users: Seq<u32>) -> bool
        decreases users.len(),
    {
        users.len() == 0 || (self.held_in_turn(id, users.drop_last()) && self.release_all(
            id,
            users.drop_last(),
        ).use_count(id, users.last()) > 0)
    }

    /// While fewer handles were given back than are outstanding, a zombie
    /// stays; with the last one it goes.
    pub proof fn lemma_release_all(self, id: u32, users: Seq<u32>)
        requires
            self.wf(),
            self.is_zombie(id),
            self.held_in_turn(id, users),
        ensures
            users.len() <= self.handles(id),
            self.release_all(id, users).wf(),
            self.release_all(id, users).handles(id) == self.handles(id) - users.len(),
            !self.release_all(id, users).is_live(id),
            self.release_all(id, users).is_zombie(id) <==> users.len() < self.handles(id),
        decreases users.len(),
    {
        self.lemma_zombie_index(id, self.zombie_index(id));
        if users.len() > 0 {
            let before = self.release_all(id, users.drop_last());
            self.lemma_release_all(id, users.drop_last());
            before.lemma_release(id, users.last());
            before.lemma_release_counts(id, users.last());
        }
    }

    /// A service that is unregistered while `n` handles to it are outstanding
    /// stays resolvable while fewer than `n` of them were given back, in
    /// whatever order their holders do so. When the last one is given back
    /// the registry drops the service.
    pub proof fn law_zombie_outlives_handles(self, id: u32, users: Seq<u32>, k: int)
        requires
            self.wf(),
            self.is_live(id),
            self.unregister(id).held_in_turn(id, users),
            users.len() == self.handles(id),
            0 <= k <= users.len(),
        ensures
            !self.unregister(id).is_live(id),
            k < users.len() ==> self.unregister(id).release_all(id, users.take(k)).resolvable(id),
            k < users.len() ==> self.unregister(id).release_all(id, users.take(k)).entry(
                id,
            ).object == self.entry(id).object,
            !self.unregister(id).release_all(id, users).resolvable(id),
    {
        let z = self.unregister(id);
        self.lemma_unregister(id);
        if users.len() == 0 {
            assert(!z.resolvable(id));
        } else {
            z.lemma_release_all(id, users);
            z.lemma_held_prefix(id, users, k);
            z.lemma_release_all(id, users.take(k));
            if k < users.len() {
                z.lemma_release_all_entry(id, users.take(k));
            }
        }
    }

    /// Who gives back in turn did so in every shorter run.
    pub proof fn lemma_held_prefix(self, id: u32, users: Seq<u32>, k: int)
        requires
            self.held_in_turn(id, users),
            0 <= k <= users.len(),
        ensures
            self.held_in_turn(id, users.take(k)),
        decreases users.len(),
    {
        if k == users.len() {
            assert(users.take(k) =~= users);
        } else {
            self.lemma_held_prefix(id, users.drop_last(), k);
            assert(users.drop_last().take(k) =~= users.take(k));
        }
    }

    /// Giving handles back changes nothing of a zombie but its handles.
    pub proof fn lemma_release_all_entry(self, id: u32, users: Seq<u32>)
        requires
            self.wf(),
            self.is_zombie(id),
            self.held_in_turn(id, users),
            users.len() < self.handles(id),
        ensures
            self.release_all(id, users).entry(id).object == self.entry(id).object,
            self.release_all(id, users).entry(id).service_ref() == self.entry(id).service_ref(),
        decreases users.len(),
    {
        if users.len() > 0 {
            let before = self.release_all(id, users.drop_last());
            self.lemma_release_all(id, users.drop_last());
            self.lemma_release_all(id, users);
            self.lemma_release_all_entry(id, users.drop_last());
            before.lemma_release(id, users.last());
        }
    }
}

} // verus!
