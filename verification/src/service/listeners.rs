//! The table of subscribers to the events of the registry.

use super::event::ServiceEvent;
use vstd::prelude::*;

verus! {

/// The identity of a subscription. Identities are handed out in rising order
/// and never used twice.
pub type ListenerId = u32;

/// `im::Vector`: a sequence that is cheap to copy.
#[verifier::external_type_specification]
#[verifier::external_body]
#[verifier::reject_recursive_types(A)]
pub struct ExVector<A>(im::Vector<A>);

/// The members of a vector of subscriptions, first to last.
pub uninterp spec fn vector_items(v: im::Vector<u32>) -> Seq<u32>;

/// `Vector::new`: a vector without members.
#[verifier::external_body]
fn vector_new() -> (r: im::Vector<u32>)
    ensures
        vector_items(r).len() == 0,
{
    im::Vector::new()
}

/// `Vector::len`: the number of members.
#[verifier::external_body]
fn vector_len(v: &im::Vector<u32>) -> (r: usize)
    ensures
        r == vector_items(*v).len(),
{
    v.len()
}

/// `Vector::get`: the member at `index`, or `None` if `index` is out of
/// bounds.
#[verifier::external_body]
fn vector_get(v: &im::Vector<u32>, index: usize) -> (r: Option<u32>)
    ensures
        r == if index < vector_items(*v).len() {
            Some(vector_items(*v)[index as int])
        } else {
            None
        },
{
    v.get(index).copied()
}

/// `Vector::push_back`: appends `value` behind the last member.
#[verifier::external_body]
fn vector_push_back(v: &mut im::Vector<u32>, value: u32)
    ensures
        vector_items(*final(v)) == vector_items(*old(v)).push(value),
{
    v.push_back(value)
}

/// `Vector::clone`: a vector with the same members.
#[verifier::external_body]
fn vector_clone(v: &im::Vector<u32>) -> (r: im::Vector<u32>)
    ensures
        vector_items(r) == vector_items(*v),
{
    v.clone()
}

/// The subscriptions, in the order in which they were made.
///
/// The table holds identities only. Who delivers an event passes a function
/// that reaches the subscriber behind an identity and says whether it was
/// still there.
pub struct ServiceListeners {
    next_id: ListenerId,
    listeners: im::Vector<ListenerId>,
}

impl ServiceListeners {
    /// The subscriptions, oldest first.
    pub closed spec fn ids(&self) -> Seq<ListenerId> {
        vector_items(self.listeners)
    }

    /// The identity that the next subscription gets.
    pub closed spec fn next_id(&self) -> ListenerId {
        self.next_id
    }

    /// No subscription stands twice in the table, and each has an identity
    /// that was handed out.
    pub open spec fn wf(&self) -> bool {
        &&& self.ids().no_duplicates()
        &&& forall|i: int| 0 <= i < self.ids().len() ==> self.ids()[i] < self.next_id()
    }

    /// A table without subscriptions.
    pub fn new() -> (r: ServiceListeners)
        ensures
            r.wf(),
            r.ids() == Seq::<ListenerId>::empty(),
            r.next_id() == 0,
    {
        let r = ServiceListeners { next_id: 0, listeners: vector_new() };
        assert(r.ids() =~= Seq::<ListenerId>::empty());
        r
    }

    /// A copy of the table as it stands: what an event is delivered to,
    /// whatever happens to the table meanwhile.
    pub fn snapshot(&self) -> (r: ServiceListeners)
        ensures
            r.ids() == self.ids(),
            r.next_id() == self.next_id(),
    {
        ServiceListeners { next_id: self.next_id, listeners: vector_clone(&self.listeners) }
    }

    /// The identity that the next subscription gets.
    pub fn next_listener_id(&self) -> (r: ListenerId)
        ensures
            r == self.next_id(),
    {
        self.next_id
    }

    /// The number of subscriptions.
    pub fn len(&self) -> (r: usize)
        ensures
            r == self.ids().len(),
    {
        vector_len(&self.listeners)
    }

    /// The subscriptions, oldest first.
    pub fn listener_ids(&self) -> (r: Vec<ListenerId>)
        ensures
            r@ == self.ids(),
    {
        let mut out: Vec<ListenerId> = Vec::new();
        let n = vector_len(&self.listeners);
        let mut i: usize = 0;
        while i < n
            invariant
                n == self.ids().len(),
                i <= n,
                out@ == self.ids().take(i as int),
            decreases n - i,
        {
            match vector_get(&self.listeners, i) {
                Some(id) => {
                    out.push(id);
                    assert(out@ =~= self.ids().take(i + 1));
                },
                None => {},
            }
            i = i + 1;
        }
        assert(self.ids().take(n as int) =~= self.ids());
        out
    }

    /// `kept` holds, for each subscription of `ids` in turn, an answer that
    /// `keep` gave for it.
    pub open spec fn answers<F: Fn(ListenerId) -> bool>(
        keep: F,
        ids: Seq<ListenerId>,
        kept: Seq<bool>,
    ) -> bool {
        &&& kept.len() == ids.len()
        &&& forall|i: int|
            0 <= i < kept.len() ==> call_ensures(keep, (ids[i],), #[trigger] kept[i])
    }

    /// Asks `is_alive` of every subscription, oldest first, and drops those
    /// for which it answers `false`. The others keep their order.
    pub fn clean_up<F: Fn(ListenerId) -> bool>(&mut self, is_alive: F)
        requires
            old(self).wf(),
            forall|i: int|
                0 <= i < old(self).ids().len() ==> call_requires(
                    is_alive,
                    (old(self).ids()[i],),
                ),
        ensures
            final(self).wf(),
            final(self).next_id() == old(self).next_id(),
            exists|kept: Seq<bool>|
                Self::answers(is_alive, old(self).ids(), kept) && final(self).ids()
                    == Self::chosen(old(self).ids(), kept),
    {
        let mut out = vector_new();
        let n = vector_len(&self.listeners);
        let ghost ids = self.ids();
        let ghost mut kept: Seq<bool> = Seq::empty();
        let mut i: usize = 0;
        assert(vector_items(out) =~= Self::chosen(ids.take(0), kept));
        while i < n
            invariant
                ids == self.ids(),
                *self == *old(self),
                n == ids.len(),
                i <= n,
                kept.len() == i,
                forall|k: int| 0 <= k < ids.len() ==> call_requires(is_alive, (ids[k],)),
                forall|k: int|
                    0 <= k < i ==> call_ensures(is_alive, (ids[k],), #[trigger] kept[k]),
                vector_items(out) == Self::chosen(ids.take(i as int), kept),
            decreases n - i,
        {
            match vector_get(&self.listeners, i) {
                Some(id) => {
                    let stays = is_alive(id);
                    proof {
                        let longer = kept.push(stays);
                        assert(ids.take(i + 1).drop_last() =~= ids.take(i as int));
                        assert(longer.drop_last() =~= kept);
                        kept = longer;
                    }
                    if stays {
                        vector_push_back(&mut out, id);
                    }
                },
                None => {},
            }
            i = i + 1;
        }
        assert(ids.take(n as int) =~= ids);
        self.listeners = out;
        proof {
            Self::lemma_chosen(ids, kept);
            assert(Self::answers(is_alive, ids, kept));
            assert forall|i: int| 0 <= i < self.ids().len() implies self.ids()[i]
                < self.next_id() by {
                assert(self.ids().contains(self.ids()[i]));
                let j = choose|j: int| 0 <= j < ids.len() && ids[j] == self.ids()[i];
            }
        }
    }

    /// What is chosen from a table without repetitions is a part of it, and
    /// holds exactly the members whose flag is set.
    pub proof fn lemma_chosen(ids: Seq<ListenerId>, kept: Seq<bool>)
        requires
            kept.len() == ids.len(),
        ensures
            Self::chosen(ids, kept).len() <= ids.len(),
            forall|x: ListenerId| #[trigger] Self::chosen(ids, kept).contains(x)
                ==> ids.contains(x),
            forall|i: int| 0 <= i < ids.len() && kept[i] ==> Self::chosen(ids, kept).contains(
                #[trigger] ids[i],
            ),
            ids.no_duplicates() ==> Self::chosen(ids, kept).no_duplicates(),
            ids.no_duplicates() ==> forall|i: int|
                0 <= i < ids.len() && !kept[i] ==> !Self::chosen(ids, kept).contains(
                    #[trigger] ids[i],
                ),
        decreases ids.len(),
    {
        if ids.len() > 0 {
            let front = ids.drop_last();
            let flags = kept.drop_last();
            let inner = Self::chosen(front, flags);
            let all = Self::chosen(ids, kept);
            Self::lemma_chosen(front, flags);
            assert forall|x: ListenerId| #[trigger] all.contains(x) implies ids.contains(x) by {
                let k = choose|k: int| 0 <= k < all.len() && all[k] == x;
                if k < inner.len() {
                    assert(inner.contains(all[k]));
                    let j = choose|j: int| 0 <= j < front.len() && front[j] == x;
                    assert(ids[j] == x);
                } else {
                    assert(ids[ids.len() - 1] == x);
                }
            }
            assert forall|i: int| 0 <= i < ids.len() && kept[i] implies all.contains(
                #[trigger] ids[i],
            ) by {
                if i < front.len() {
                    assert(front[i] == ids[i]);
                    assert(inner.contains(front[i]));
                    let k = choose|k: int| 0 <= k < inner.len() && inner[k] == ids[i];
                    assert(all[k] == ids[i]);
                } else {
                    assert(all[all.len() - 1] == ids[i]);
                }
            }
            if ids.no_duplicates() {
                assert(front.no_duplicates());
                assert(!inner.contains(ids.last())) by {
                    if inner.contains(ids.last()) {
                        let j = choose|j: int| 0 <= j < front.len() && front[j] == ids.last();
                        assert(ids[j] == ids[ids.len() - 1]);
                    }
                }
                assert(all.no_duplicates()) by {
                    assert forall|a: int, b: int|
                        0 <= a < all.len() && 0 <= b < all.len() && a != b implies all[a]
                        != all[b] by {
                        if a < inner.len() && b < inner.len() {
                            assert(inner[a] != inner[b]);
                        } else if a < inner.len() {
                            assert(inner.contains(inner[a]));
                        } else if b < inner.len() {
                            assert(inner.contains(inner[b]));
                        }
                    }
                }
                assert forall|i: int| 0 <= i < ids.len() && !kept[i] implies !all.contains(
                    #[trigger] ids[i],
                ) by {
                    if all.contains(ids[i]) {
                        let k = choose|k: int| 0 <= k < all.len() && all[k] == ids[i];
                        if i < front.len() {
                            assert(front[i] == ids[i]);
                            if k < inner.len() {
                                assert(inner.contains(front[i]));
                            } else {
                                assert(ids[ids.len() - 1] == ids[i]);
                            }
                        } else {
                            assert(inner.contains(ids.last()));
                        }
                    }
                }
            }
        }
    }

    /// Choosing by a test on the member itself is filtering by that test.
    pub proof fn lemma_chosen_by_test(
        ids: Seq<ListenerId>,
        kept: Seq<bool>,
        test: spec_fn(ListenerId) -> bool,
    )
        requires
            kept.len() == ids.len(),
            forall|i: int| 0 <= i < ids.len() ==> kept[i] == test(ids[i]),
        ensures
            Self::chosen(ids, kept) == ids.filter(test),
        decreases ids.len(),
    {
        reveal(Seq::filter);
        if ids.len() > 0 {
            Self::lemma_chosen_by_test(ids.drop_last(), kept.drop_last(), test);
        }
    }

    /// Makes a subscription and returns its identity. The subscription
    /// stands behind all earlier ones.
    pub fn insert_listener(&mut self) -> (r: ListenerId)
        requires
            old(self).wf(),
            old(self).next_id() < u32::MAX,
        ensures
            final(self).wf(),
            r == old(self).next_id(),
            final(self).next_id() == r + 1,
            final(self).ids() == old(self).ids().push(r),
    {
        let id = self.next_id;
        vector_push_back(&mut self.listeners, id);
        self.next_id = id + 1;
        id
    }

    /// Ends the subscription `id`. The other subscriptions keep their order.
    /// An identity that stands for no subscription changes nothing.
    pub fn remove_listener(&mut self, id: ListenerId)
        requires
            old(self).wf(),
        ensures
            final(self).wf(),
            final(self).next_id() == old(self).next_id(),
            final(self).ids() == old(self).ids().filter(|x: ListenerId| x != id),
            !final(self).ids().contains(id),
    {
        let others = |x: ListenerId| -> (r: bool)
            ensures
                r == (x != id),
            { x != id };
        self.clean_up(others);
        proof {
            let kept = choose|kept: Seq<bool>|
                Self::answers(others, old(self).ids(), kept) && self.ids() == Self::chosen(
                    old(self).ids(),
                    kept,
                );
            Self::lemma_chosen_by_test(old(self).ids(), kept, |x: ListenerId| x != id);
            Self::lemma_chosen(old(self).ids(), kept);
            if self.ids().contains(id) {
                let k = choose|k: int| 0 <= k < self.ids().len() && self.ids()[k] == id;
                old(self).ids().lemma_filter_pred(|x: ListenerId| x != id, k);
            }
        }
    }

    /// Delivers `event` to every subscription of the table, oldest first, by
    /// calling `deliver` once for each, and says whether a call answered
    /// `false`: that the subscriber was gone.
    ///
    /// `deliver` is called for the subscriptions of this table and for no
    /// other identity.
    pub fn fire_event<F: Fn(ListenerId, &ServiceEvent) -> bool>(
        &self,
        event: &ServiceEvent,
        deliver: F,
    ) -> (dirty: bool)
        requires
            forall|i: int|
                0 <= i < self.ids().len() ==> call_requires(deliver, (self.ids()[i], event)),
        ensures
            exists|reached: Seq<bool>|
                {
                    &&& reached.len() == self.ids().len()
                    &&& forall|i: int|
                        0 <= i < reached.len() ==> call_ensures(
                            deliver,
                            (self.ids()[i], event),
                            #[trigger] reached[i],
                        )
                    &&& dirty == reached.contains(false)
                },
    {
        let n = vector_len(&self.listeners);
        let ghost mut reached: Seq<bool> = Seq::empty();
        let mut dirty = false;
        let mut i: usize = 0;
        while i < n
            invariant
                n == self.ids().len(),
                i <= n,
                reached.len() == i,
                forall|k: int|
                    0 <= k < self.ids().len() ==> call_requires(deliver, (self.ids()[k], event)),
                forall|k: int|
                    0 <= k < i ==> call_ensures(
                        deliver,
                        (self.ids()[k], event),
                        #[trigger] reached[k],
                    ),
                dirty == reached.contains(false),
            decreases n - i,
        {
            match vector_get(&self.listeners, i) {
                Some(id) => {
                    let was_fired = deliver(id, event);
                    proof {
                        let longer = reached.push(was_fired);
                        assert(longer.drop_last() =~= reached);
                        if reached.contains(false) {
                            let k = choose|k: int| 0 <= k < reached.len() && reached[k] == false;
                            assert(longer[k] == false);
                        }
                        if !was_fired {
                            assert(longer[i as int] == false);
                        }
                        if longer.contains(false) && was_fired {
                            let k = choose|k: int| 0 <= k < longer.len() && longer[k] == false;
                            assert(reached[k] == false);
                        }
                        reached = longer;
                    }
                    if !was_fired {
                        dirty = true;
                    }
                },
                None => {},
            }
            i = i + 1;
        }
        dirty
    }

    /// The members of `ids` whose flag in `kept` is set, in their order.
    pub open spec fn chosen(ids: Seq<ListenerId>, kept: Seq<bool>) -> Seq<ListenerId>
        decreases ids.len(),
    {
        if ids.len() == 0 || kept.len() != ids.len() {
            Seq::empty()
        } else if kept.last() {
            Self::chosen(ids.drop_last(), kept.drop_last()).push(ids.last())
        } else {
            Self::chosen(ids.drop_last(), kept.drop_last())
        }
    }
}

impl Default for ServiceListeners {
    /// A table without subscriptions.
    fn default() -> (r: ServiceListeners)
        ensures
            r.wf(),
            r.ids() == Seq::<ListenerId>::empty(),
            r.next_id() == 0,
    {
        ServiceListeners::new()
    }
}

/// `first` stands before `second` in `ids`.
pub open spec fn in_order(ids: Seq<ListenerId>, first: ListenerId, second: ListenerId) -> bool {
    exists|a: int, b: int| 0 <= a < b < ids.len() && ids[a] == first && ids[b] == second
}

/// Filtering keeps the order: of two members that are kept, the one that
/// stood first still stands first.
pub proof fn lemma_filter_keeps_order(
    ids: Seq<ListenerId>,
    test: spec_fn(ListenerId) -> bool,
    i: int,
    j: int,
)
    requires
        0 <= i < j < ids.filter(test).len(),
    ensures
        in_order(ids, ids.filter(test)[i], ids.filter(test)[j]),
    decreases ids.len(),
{
    reveal(Seq::filter);
    let kept = ids.filter(test);
    if ids.len() > 0 {
        let front = ids.drop_last();
        let inner = front.filter(test);
        if j < inner.len() {
            lemma_filter_keeps_order(front, test, i, j);
            let (a, b) = choose|a: int, b: int|
                0 <= a < b < front.len() && front[a] == inner[i] && front[b] == inner[j];
            assert(ids[a] == kept[i] && ids[b] == kept[j]);
        } else {
            assert(kept[j] == ids[ids.len() - 1]);
            front.lemma_filter_len(test);
            lemma_filter_member(front, test, i);
            let a = choose|a: int| 0 <= a < front.len() && front[a] == inner[i];
            assert(ids[a] == kept[i] && ids[ids.len() - 1] == kept[j]);
        }
    }
}

/// What filtering keeps was there before.
pub proof fn lemma_filter_member(ids: Seq<ListenerId>, test: spec_fn(ListenerId) -> bool, i: int)
    requires
        0 <= i < ids.filter(test).len(),
    ensures
        exists|a: int| 0 <= a < ids.len() && ids[a] == ids.filter(test)[i],
    decreases ids.len(),
{
    reveal(Seq::filter);
    if ids.len() > 0 {
        let front = ids.drop_last();
        let inner = front.filter(test);
        if i < inner.len() {
            lemma_filter_member(front, test, i);
            let a = choose|a: int| 0 <= a < front.len() && front[a] == inner[i];
            assert(ids[a] == ids.filter(test)[i]);
        } else {
            assert(ids[ids.len() - 1] == ids.filter(test)[i]);
        }
    }
}

/// When the guard of a subscription is given up, the subscription leaves
/// the table and the others stay, in their order: an event that is taken
/// up afterwards is delivered to them and not to it. An event that was
/// taken up before is delivered to the subscribers as they stood then, the
/// subscription among them.
pub proof fn law_guard_drop_stops_delivery(before: Seq<ListenerId>, id: ListenerId)
    requires
        before.no_duplicates(),
    ensures
        ({
            let after = before.filter(|x: ListenerId| x != id);
            &&& !after.contains(id)
            &&& after.no_duplicates()
            &&& forall|x: ListenerId| x != id
                ==> (#[trigger] after.contains(x) <==> before.contains(x))
            &&& forall|i: int, j: int|
                0 <= i < j < after.len() ==> #[trigger] in_order(before, after[i], after[j])
        }),
{
    let test = |x: ListenerId| x != id;
    let after = before.filter(test);
    if after.contains(id) {
        let k = choose|k: int| 0 <= k < after.len() && after[k] == id;
        before.lemma_filter_pred(test, k);
    }
    assert forall|x: ListenerId| x != id implies (#[trigger] after.contains(x) <==> before.contains(
        x,
    )) by {
        if after.contains(x) {
            let k = choose|k: int| 0 <= k < after.len() && after[k] == x;
            lemma_filter_member(before, test, k);
        }
        if before.contains(x) {
            let k = choose|k: int| 0 <= k < before.len() && before[k] == x;
            before.lemma_filter_contains(test, k);
        }
    }
    assert forall|i: int, j: int| 0 <= i < j < after.len() implies #[trigger] in_order(
        before,
        after[i],
        after[j],
    ) by {
        lemma_filter_keeps_order(before, test, i, j);
    }
    assert forall|i: int, j: int| 0 <= i < after.len()
        && 0 <= j < after.len()
        && i != j implies after[i]
        != after[j] by {
        if i < j {
            lemma_filter_keeps_order(before, test, i, j);
        } else {
            lemma_filter_keeps_order(before, test, j, i);
        }
    }
    assert(after.no_duplicates());
}

} // verus!
