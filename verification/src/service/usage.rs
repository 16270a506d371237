//! The usage counts of one service: who holds how many handles to it.

use vstd::multiset::*;
use vstd::prelude::*;

verus! {

/// How often each consumer holds one service: a `hashbrown::HashMap` from the
/// consumer's module identity to the number of handles it has outstanding.
#[verifier::external_body]
pub struct UsageCounts {
    counts: hashbrown::HashMap<u32, u32>,
}

/// The entries of the map inside a `UsageCounts`.
pub uninterp spec fn usage_counts(u: UsageCounts) -> Map<u32, u32>;

/// `HashMap::new`: a map without entries.
#[verifier::external_body]
fn counts_new() -> (r: UsageCounts)
    ensures
        forall|who: u32| !usage_counts(r).contains_key(who),
{
    UsageCounts { counts: hashbrown::HashMap::new() }
}

/// `HashMap::get`: the value stored under `who`, if there is one.
#[verifier::external_body]
fn counts_get(u: &UsageCounts, who: u32) -> (r: Option<u32>)
    ensures
        r == if usage_counts(*u).contains_key(who) {
            Some(usage_counts(*u)[who])
        } else {
            None
        },
{
    u.counts.get(&who).copied()
}

/// `HashMap::insert`: stores `count` under `who`, replacing what was stored
/// there.
#[verifier::external_body]
fn counts_insert(u: &mut UsageCounts, who: u32, count: u32)
    ensures
        usage_counts(*final(u)) == usage_counts(*old(u)).insert(who, count),
{
    u.counts.insert(who, count);
}

/// `HashMap::remove`: takes out the entry under `who`, if there is one.
#[verifier::external_body]
fn counts_remove(u: &mut UsageCounts, who: u32)
    ensures
        usage_counts(*final(u)) == usage_counts(*old(u)).remove(who),
{
    u.counts.remove(&who);
}

/// `HashMap::is_empty`: whether the map has no entry.
#[verifier::external_body]
fn counts_is_empty(u: &UsageCounts) -> (r: bool)
    ensures
        r == (forall|who: u32| !usage_counts(*u).contains_key(who)),
{
    u.counts.is_empty()
}

impl UsageCounts {
    /// The map is finite and holds no count of zero: a consumer that has
    /// given back its last handle has no entry.
    pub open spec fn wf(self) -> bool {
        &&& usage_counts(self).dom().finite()
        &&& forall|who: u32| #[trigger]
            usage_counts(self).contains_key(who) ==> usage_counts(self)[who] > 0
    }

    /// The outstanding handles: each consumer as often as it holds one.
    pub open spec fn uses(self) -> Multiset<u32> {
        Multiset::from_map(
            Map::new(
                |who: u32| usage_counts(self).contains_key(who),
                |who: u32| usage_counts(self)[who] as nat,
            ),
        )
    }

    proof fn lemma_count(self, who: u32)
        requires
            self.wf(),
        ensures
            self.uses().count(who) == if usage_counts(self).contains_key(who) {
                usage_counts(self)[who] as nat
            } else {
                0
            },
    {
        broadcast use group_multiset_axioms;

        let m = Map::new(
            |who: u32| usage_counts(self).contains_key(who),
            |who: u32| usage_counts(self)[who] as nat,
        );
        assert(m.dom() =~= usage_counts(self).dom());
    }

    /// No handle is outstanding.
    pub fn new() -> (r: UsageCounts)
        ensures
            r.wf(),
            r.uses() == Multiset::<u32>::empty(),
    {
        let r = counts_new();
        proof {
            broadcast use group_multiset_axioms;

            assert(usage_counts(r).dom() =~= Set::<u32>::empty());

            assert forall|who: u32| r.uses().count(who) == 0 by {
                r.lemma_count(who);
            }
            assert(r.uses() =~= Multiset::<u32>::empty());
        }
        r
    }

    /// The number of handles that `who` holds.
    pub fn count(&self, who: u32) -> (r: u32)
        requires
            self.wf(),
        ensures
            r == self.uses().count(who),
    {
        proof {
            self.lemma_count(who);
        }
        match counts_get(self, who) {
            Some(n) => n,
            None => 0,
        }
    }

    /// Whether no handle is outstanding.
    pub fn is_unused(&self) -> (r: bool)
        requires
            self.wf(),
        ensures
            r == (self.uses().len() == 0),
    {
        let r = counts_is_empty(self);
        proof {
            broadcast use group_multiset_axioms;

            lemma_multiset_empty_len(self.uses());
            if r {
                assert forall|who: u32| self.uses().count(who) == 0 by {
                    self.lemma_count(who);
                }
                assert(self.uses() =~= Multiset::<u32>::empty());
            } else {
                let who = choose|who: u32| usage_counts(*self).contains_key(who);
                self.lemma_count(who);
                assert(self.uses().count(who) > 0);
            }
        }
        r
    }

    /// Notes one more handle in the hands of `who`.
    pub fn add_use(&mut self, who: u32)
        requires
            old(self).wf(),
            old(self).uses().count(who) < u32::MAX,
        ensures
            final(self).wf(),
            final(self).uses() == old(self).uses().insert(who),
    {
        proof {
            self.lemma_count(who);
        }
        let held: u32 = match counts_get(self, who) {
            Some(n) => n,
            None => 0,
        };
        counts_insert(self, who, held + 1);
        proof {
            broadcast use group_multiset_axioms;

            assert(usage_counts(*self).dom() =~= usage_counts(*old(self)).dom().insert(who));
            assert forall|w: u32|
                self.uses().count(w) == old(self).uses().insert(who).count(w) by {
                self.lemma_count(w);
                old(self).lemma_count(w);
            }
            assert(self.uses() =~= old(self).uses().insert(who));
        }
    }

    /// Notes that `who` gave one handle back, and says whether it held one.
    /// A consumer that holds none leaves the counts as they are.
    pub fn remove_use(&mut self, who: u32) -> (r: bool)
        requires
            old(self).wf(),
        ensures
            final(self).wf(),
            final(self).uses() == old(self).uses().remove(who),
            r == old(self).uses().contains(who),
    {
        proof {
            self.lemma_count(who);
        }
        let r = match counts_get(self, who) {
            Some(n) => {
                if n == 1 {
                    counts_remove(self, who);
                } else {
                    counts_insert(self, who, n - 1);
                }
                true
            },
            None => false,
        };
        proof {
            broadcast use group_multiset_axioms;

            if r {
                assert(usage_counts(*self).dom().subset_of(usage_counts(*old(self)).dom()));
                vstd::set_lib::lemma_len_subset(
                    usage_counts(*self).dom(),
                    usage_counts(*old(self)).dom(),
                );
            }
            assert forall|w: u32|
                self.uses().count(w) == old(self).uses().remove(who).count(w) by {
                self.lemma_count(w);
                old(self).lemma_count(w);
            }
            assert(self.uses() =~= old(self).uses().remove(who));
        }
        r
    }
}

} // verus!
