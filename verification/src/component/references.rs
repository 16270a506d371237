//! The services that currently answer the references of a component.

use crate::service::reference::{ServiceCoreProps, ServiceRanking};
use crate::service::service::ServiceId;
use vstd::prelude::*;

verus! {

/// `im::OrdSet`: an ordered set that is cheap to copy.
#[verifier::external_type_specification]
#[verifier::external_body]
#[verifier::reject_recursive_types(A)]
pub struct ExOrdSet<A>(im::OrdSet<A>);

/// The members of a set of candidates: each as its ranking and its identity.
pub uninterp spec fn ord_set_items(s: im::OrdSet<(i32, u32)>) -> Set<(i32, u32)>;

/// `a` comes before `b`, or is `b`, in the order of pairs: by the first
/// component, then by the second.
pub open spec fn pair_le(a: (i32, u32), b: (i32, u32)) -> bool {
    a.0 < b.0 || (a.0 == b.0 && a.1 <= b.1)
}

/// The order of pairs is the order of candidates: a pair comes before
/// another, or is the other, exactly when the candidate that it stands for
/// does.
pub proof fn law_pairs_order_as_candidates(a: ServiceCoreProps, b: ServiceCoreProps)
    ensures
        pair_le(a.key(), b.key()) <==> a.before(b) || a == b,
{
}

/// `OrdSet::new`: a set without members.
#[verifier::external_body]
fn ord_set_new() -> (r: im::OrdSet<(i32, u32)>)
    ensures
        ord_set_items(r).is_empty(),
{
    im::OrdSet::new()
}

/// `OrdSet::insert`: adds `value` to the set; a set that holds it already
/// stays as it is.
#[verifier::external_body]
fn ord_set_insert(s: &mut im::OrdSet<(i32, u32)>, value: (i32, u32))
    ensures
        ord_set_items(*final(s)) == ord_set_items(*old(s)).insert(value),
{
    s.insert(value);
}

/// `OrdSet::remove`: takes `value` out of the set; a set that does not hold
/// it stays as it is.
#[verifier::external_body]
fn ord_set_remove(s: &mut im::OrdSet<(i32, u32)>, value: (i32, u32))
    ensures
        ord_set_items(*final(s)) == ord_set_items(*old(s)).remove(value),
{
    s.remove(&value);
}

/// `OrdSet::is_empty`: whether the set has no member.
#[verifier::external_body]
fn ord_set_is_empty(s: &im::OrdSet<(i32, u32)>) -> (r: bool)
    ensures
        r == ord_set_items(*s).is_empty(),
{
    s.is_empty()
}

/// `OrdSet::get_min`: the least member in the order of pairs, or `None` if
/// the set is empty.
#[verifier::external_body]
fn ord_set_get_min(s: &im::OrdSet<(i32, u32)>) -> (r: Option<(i32, u32)>)
    ensures
        r is None <==> ord_set_items(*s).is_empty(),
        r is Some ==> ord_set_items(*s).contains(r->0),
        r is Some ==> forall|x: (i32, u32)| ord_set_items(*s).contains(x) ==> pair_le(r->0, x),
{
    s.get_min().copied()
}

/// `OrdSet::clone`: a set with the same members.
#[verifier::external_body]
fn ord_set_clone(s: &im::OrdSet<(i32, u32)>) -> (r: im::OrdSet<(i32, u32)>)
    ensures
        ord_set_items(r) == ord_set_items(*s),
{
    s.clone()
}

/// The candidates of one reference.
struct Slot {
    name: String,
    matches: im::OrdSet<(ServiceRanking, ServiceId)>,
}

/// For each reference of a component, by its name, the registered services
/// that answer it.
pub struct ComponentReferences {
    inner: Vec<Slot>,
}

/// The candidates under `name` after `key` was added to them or taken from
/// them. A name that had no candidates has an entry from now on.
pub open spec fn touch(
    refs: Map<Seq<char>, Set<(i32, u32)>>,
    name: Seq<char>,
    key: (i32, u32),
    add: bool,
) -> Map<Seq<char>, Set<(i32, u32)>> {
    let cur = if refs.contains_key(name) {
        refs[name]
    } else {
        Set::empty()
    };
    refs.insert(
        name,
        if add {
            cur.insert(key)
        } else {
            cur.remove(key)
        },
    )
}

impl View for ComponentReferences {
    type V = Map<Seq<char>, Set<(i32, u32)>>;

    closed spec fn view(&self) -> Map<Seq<char>, Set<(i32, u32)>> {
        Map::new(
            |n: Seq<char>| self.has(n),
            |n: Seq<char>| ord_set_items(self.inner@[self.slot(n)].matches),
        )
    }
}

impl ComponentReferences {
    spec fn has(&self, n: Seq<char>) -> bool {
        exists|i: int| 0 <= i < self.inner@.len() && (#[trigger] self.inner@[i]).name@ == n
    }

    spec fn slot(&self, n: Seq<char>) -> int {
        choose|i: int| 0 <= i < self.inner@.len() && (#[trigger] self.inner@[i]).name@ == n
    }

    /// No name stands twice.
    pub closed spec fn wf(&self) -> bool {
        forall|i: int, j: int|
            0 <= i < j < self.inner@.len() ==> (#[trigger] self.inner@[i]).name@ != (
            #[trigger] self.inner@[j]).name@
    }

    proof fn lemma_slot(&self, i: int)
        requires
            self.wf(),
            0 <= i < self.inner@.len(),
        ensures
            self.has(self.inner@[i].name@),
            self.slot(self.inner@[i].name@) == i,
            self@.contains_key(self.inner@[i].name@),
            self@[self.inner@[i].name@] == ord_set_items(self.inner@[i].matches),
    {
        let n = self.inner@[i].name@;
        let k = self.slot(n);
        if k < i {
            assert(self.inner@[k].name@ != self.inner@[i].name@);
        } else if i < k {
            assert(self.inner@[i].name@ != self.inner@[k].name@);
        }
    }

    /// No reference has a candidate.
    pub fn new() -> (r: ComponentReferences)
        ensures
            r.wf(),
            r@ == Map::<Seq<char>, Set<(i32, u32)>>::empty(),
    {
        let r = ComponentReferences { inner: Vec::new() };
        assert(r@ =~= Map::<Seq<char>, Set<(i32, u32)>>::empty());
        r
    }

    fn find(&self, name: &String) -> (r: Option<usize>)
        requires
            self.wf(),
        ensures
            match r {
                Some(i) => i < self.inner@.len() && self.inner@[i as int].name@ == name@
                    && self@.contains_key(name@) && self@[name@] == ord_set_items(
                    self.inner@[i as int].matches,
                ) && self.slot(name@) == i,
                None => !self@.contains_key(name@) && !self.has(name@),
            },
    {
        let mut i: usize = 0;
        while i < self.inner.len()
            invariant
                self.wf(),
                i <= self.inner@.len(),
                forall|k: int| 0 <= k < i ==> (#[trigger] self.inner@[k]).name@ != name@,
            decreases self.inner@.len() - i,
        {
            if self.inner[i].name == *name {
                proof {
                    self.lemma_slot(i as int);
                }
                return Some(i);
            }
            i = i + 1;
        }
        None
    }

    /// Adds the service `core` to the candidates of the reference `name`, or
    /// takes it from them.
    fn change(&mut self, name: &str, core: ServiceCoreProps, add: bool)
        requires
            old(self).wf(),
        ensures
            final(self).wf(),
            final(self)@ == touch(old(self)@, name@, core.key(), add),
    {
        let owned = name.to_owned();
        let key = core.as_pair();
        match self.find(&owned) {
            Some(i) => {
                if add {
                    ord_set_insert(&mut self.inner[i].matches, key);
                } else {
                    ord_set_remove(&mut self.inner[i].matches, key);
                }
                proof {
                    assert forall|a: int, b: int| 0 <= a < b < self.inner@.len() implies (
                    #[trigger] self.inner@[a]).name@ != (#[trigger] self.inner@[b]).name@ by {
                        assert(self.inner@[a].name@ == old(self).inner@[a].name@);
                        assert(self.inner@[b].name@ == old(self).inner@[b].name@);
                    }
                    self.lemma_slot(i as int);
                    let want = touch(old(self)@, name@, core.key(), add);
                    assert forall|n: Seq<char>| self@.contains_key(n) == want.contains_key(n) by {
                        if old(self).has(n) {
                            let k = old(self).slot(n);
                            assert(self.inner@[k].name@ == n);
                        }
                        if self.has(n) {
                            let k = self.slot(n);
                            assert(old(self).inner@[k].name@ == n);
                        }
                    }
                    assert forall|n: Seq<char>| self@.contains_key(n) implies self@[n]
                        == want[n] by {
                        let k = self.slot(n);
                        self.lemma_slot(k);
                        old(self).lemma_slot(k);
                        if k != i {
                            assert(self.inner@[k] == old(self).inner@[k]);
                        }
                    }
                    assert(self@ =~= want);
                }
            },
            None => {
                let mut matches = ord_set_new();
                if add {
                    ord_set_insert(&mut matches, key);
                } else {
                    ord_set_remove(&mut matches, key);
                }
                self.inner.push(Slot { name: owned, matches });
                proof {
                    let last = self.inner@.len() - 1;
                    assert forall|a: int, b: int| 0 <= a < b < self.inner@.len() implies (
                    #[trigger] self.inner@[a]).name@ != (#[trigger] self.inner@[b]).name@ by {
                        if b < last {
                            assert(self.inner@[a] == old(self).inner@[a]);
                            assert(self.inner@[b] == old(self).inner@[b]);
                        } else {
                            assert(self.inner@[a] == old(self).inner@[a]);
                            assert(old(self).has(old(self).inner@[a].name@));
                        }
                    }
                    self.lemma_slot(last);
                    let want = touch(old(self)@, name@, core.key(), add);
                    assert forall|n: Seq<char>| self@.contains_key(n) == want.contains_key(n) by {
                        if old(self).has(n) {
                            let k = old(self).slot(n);
                            assert(self.inner@[k] == old(self).inner@[k]);
                        }
                        if self.has(n) && n != name@ {
                            let k = self.slot(n);
                            assert(old(self).inner@[k].name@ == n);
                        }
                    }
                    assert forall|n: Seq<char>| self@.contains_key(n) implies self@[n]
                        == want[n] by {
                        let k = self.slot(n);
                        self.lemma_slot(k);
                        if k != last {
                            assert(self.inner@[k] == old(self).inner@[k]);
                            old(self).lemma_slot(k);
                        }
                    }
                    assert(self@ =~= want);
                }
            },
        }
    }

    /// Adds the service `core` to the candidates of the reference `name`.
    pub fn insert(&mut self, name: &str, core: ServiceCoreProps)
        requires
            old(self).wf(),
        ensures
            final(self).wf(),
            final(self)@ == touch(old(self)@, name@, core.key(), true),
    {
        self.change(name, core, true);
    }

    /// Takes the service `core` from the candidates of the reference `name`.
    pub fn remove(&mut self, name: &str, core: ServiceCoreProps)
        requires
            old(self).wf(),
        ensures
            final(self).wf(),
            final(self)@ == touch(old(self)@, name@, core.key(), false),
    {
        self.change(name, core, false);
    }

    /// Whether a service answers the reference `name`.
    pub fn is_bound(&self, name: &str) -> (r: bool)
        requires
            self.wf(),
        ensures
            r == (self@.contains_key(name@) && !self@[name@].is_empty()),
    {
        let owned = name.to_owned();
        match self.find(&owned) {
            Some(i) => !ord_set_is_empty(&self.inner[i].matches),
            None => false,
        }
    }

    /// The first candidate of the reference `name`: the one with the lowest
    /// ranking, and among several of that ranking the one with the lowest
    /// identity. `None` if no service answers the reference.
    pub fn first(&self, name: &str) -> (r: Option<ServiceCoreProps>)
        requires
            self.wf(),
        ensures
            r is Some <==> self@.contains_key(name@) && !self@[name@].is_empty(),
            r is Some ==> self@[name@].contains(r->0.key()),
            r is Some ==> forall|x: (i32, u32)| self@[name@].contains(x) ==> pair_le(r->0.key(), x),
    {
        let owned = name.to_owned();
        match self.find(&owned) {
            Some(i) => match ord_set_get_min(&self.inner[i].matches) {
                Some(pair) => Some(ServiceCoreProps::from_pair(pair)),
                None => None,
            },
            None => None,
        }
    }
}

impl Clone for ComponentReferences {
    /// A copy with the same candidates: what an instance is made from,
    /// whatever happens to this table meanwhile.
    fn clone(&self) -> (r: ComponentReferences)
        ensures
            self.wf() ==> r.wf() && r@ == self@,
    {
        let mut inner: Vec<Slot> = Vec::new();
        let mut i: usize = 0;
        while i < self.inner.len()
            invariant
                i <= self.inner@.len(),
                inner@.len() == i,
                forall|k: int|
                    0 <= k < i ==> (#[trigger] inner@[k]).name@ == self.inner@[k].name@
                        && ord_set_items(inner@[k].matches) == ord_set_items(
                        self.inner@[k].matches,
                    ),
            decreases self.inner@.len() - i,
        {
            inner.push(
                Slot {
                    name: self.inner[i].name.clone(),
                    matches: ord_set_clone(&self.inner[i].matches),
                },
            );
            i = i + 1;
        }
        let r = ComponentReferences { inner };
        proof {
            if self.wf() {
                assert forall|a: int, b: int| 0 <= a < b < r.inner@.len() implies (
                #[trigger] r.inner@[a]).name@ != (#[trigger] r.inner@[b]).name@ by {
                    assert(self.inner@[a].name@ != self.inner@[b].name@);
                }
                assert forall|n: Seq<char>| r@.contains_key(n) == self@.contains_key(n) by {
                    if self.has(n) {
                        let k = self.slot(n);
                        assert(r.inner@[k].name@ == n);
                    }
                    if r.has(n) {
                        let k = r.slot(n);
                        assert(self.inner@[k].name@ == n);
                    }
                }
                assert forall|n: Seq<char>| r@.contains_key(n) implies r@[n] == self@[n] by {
                    let k = r.slot(n);
                    r.lemma_slot(k);
                    self.lemma_slot(k);
                }
                assert(r@ =~= self@);
            }
        }
        r
    }
}

impl Default for ComponentReferences {
    /// No reference has a candidate.
    fn default() -> (r: ComponentReferences)
        ensures
            r.wf(),
            r@ == Map::<Seq<char>, Set<(i32, u32)>>::empty(),
    {
        ComponentReferences::new()
    }
}

} // verus!
