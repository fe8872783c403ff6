use vstd::prelude::*;
use vstd::hash_map::StringHashMap;
use std::marker::PhantomData;
use crate::traits::{Comparator, ID, strict_weak_order};

verus! {

/// A comparator made of a closure, together with the relation that the closure decides.
#[verifier::reject_recursive_types(T)]
pub struct PQComparator<F, T> where F: Fn(&T, &T) -> bool {
    pub func: F,
    /// The relation that the closure decides.
    pub relation: Ghost<spec_fn(T, T) -> bool>,
    pub _marker: PhantomData<T>,
}

/// The relation of the pairs on which a closure can answer `true`.
pub open spec fn answers_true<F, T>(f: F) -> spec_fn(T, T) -> bool where F: Fn(&T, &T) -> bool {
    |a: T, b: T| call_ensures(f, (&a, &b), true)
}

impl<F, T> Comparator<T> for PQComparator<F, T> where F: Fn(&T, &T) -> bool {
    /// The closure accepts every pair, and what it answers is what the relation says.
    open spec fn well_formed(&self) -> bool {
        &&& forall|a: &T, b: &T| call_requires(self.func, (a, b))
        &&& forall|a: &T, b: &T, r: bool| #[trigger]
            call_ensures(self.func, (a, b), r) ==> r == (self.relation@)(*a, *b)
    }

    open spec fn precedes(&self, a: &T, b: &T) -> bool {
        (self.relation@)(*a, *b)
    }

    fn compare(&self, a: &T, b: &T) -> (r: bool) {
        (self.func)(a, b)
    }
}

impl<F, T> PQComparator<F, T> where F: Fn(&T, &T) -> bool {
    /// A comparator by which `a` goes before `b` when the closure can answer `true` on them.
    ///
    /// Nothing is known here of what the closure answers, so nothing is stated of the
    /// relation but what it is. A queue asks for a comparator that can be called on every pair
    /// and whose relation is a strict weak order: `lemma_comparator_of_closure` gives the
    /// first for a closure that accepts every pair and never answers both ways on one. A
    /// caller who knows the relation that the closure decides makes the comparator with
    /// `with_relation`, and has both from `lemma_comparator_of_relation`.
    pub fn new(comparator: F) -> (c: Self)
        ensures
            c.func == comparator,
            c.relation@ == answers_true::<F, T>(comparator),
    {
        PQComparator {
            func: comparator,
            relation: Ghost(answers_true::<F, T>(comparator)),
            _marker: PhantomData,
        }
    }

    /// A comparator for a closure that decides the given relation.
    pub fn with_relation(comparator: F, relation: Ghost<spec_fn(T, T) -> bool>) -> (c: Self)
        ensures
            c.func == comparator,
            c.relation == relation,
    {
        PQComparator { func: comparator, relation, _marker: PhantomData }
    }
}

/// `<[T]>::swap`: exchanges the items at two positions of the vector and leaves the
/// others where they are. Both positions must be inside the vector.
#[verifier::external_body]
fn swap_items<T>(v: &mut Vec<T>, i: usize, j: usize)
    requires
        i < old(v)@.len(),
        j < old(v)@.len(),
    ensures
        final(v)@ == old(v)@.update(i as int, old(v)@[j as int]).update(
            j as int,
            old(v)@[i as int],
        ),
{
    v.swap(i, j);
}

/// The position above `i` in the tree that the heap lays out in a sequence.
pub open spec fn parent(i: int) -> int {
    (i - 1) / 2
}

/// Every id in the tracker leads to the item that carries it, and every item is tracked.
spec fn indexed<T: ID>(heap: Seq<T>, tracker: Map<Seq<char>, usize>) -> bool {
    &&& tracker.dom().finite()
    &&& tracker.len() == heap.len()
    &&& forall|i: int|
        0 <= i < heap.len() ==> tracker.contains_key((#[trigger] heap[i]).id_view())
            && tracker[heap[i].id_view()] == i
    &&& forall|id: Seq<char>| #[trigger]
        tracker.contains_key(id) ==> tracker[id] < heap.len() && heap[tracker[id] as int].id_view()
            == id
}

/// No item goes before the one above it, but perhaps where `k` is the lower or the upper
/// of the two.
spec fn ordered_except<T, C: Comparator<T>>(heap: Seq<T>, c: &C, k: int) -> bool {
    forall|i: int|
        0 < i < heap.len() && i != k && parent(i) != k ==> !c.precedes(
            &#[trigger] heap[i],
            &heap[parent(i)],
        )
}

/// The item at `k` does not go before the one above it.
spec fn node_ok<T, C: Comparator<T>>(heap: Seq<T>, c: &C, k: int) -> bool {
    0 < k < heap.len() ==> !c.precedes(&heap[k], &heap[parent(k)])
}

/// No item directly below `k` goes before the one at `k`.
spec fn children_ok<T, C: Comparator<T>>(heap: Seq<T>, c: &C, k: int) -> bool {
    forall|i: int|
        0 < i < heap.len() && parent(i) == k ==> !c.precedes(&#[trigger] heap[i], &heap[k])
}

/// No item directly below `k` goes before the one above `k`.
spec fn grand_ok<T, C: Comparator<T>>(heap: Seq<T>, c: &C, k: int) -> bool {
    0 < k ==> forall|i: int|
        0 < i < heap.len() && parent(i) == k ==> !c.precedes(
            &#[trigger] heap[i],
            &heap[parent(k)],
        )
}

/// The heap order: no item goes before the one above it.
spec fn ordered<T, C: Comparator<T>>(heap: Seq<T>, c: &C) -> bool {
    forall|i: int| 0 < i < heap.len() ==> !c.precedes(&#[trigger] heap[i], &heap[parent(i)])
}

/// The map from id to item that a heap and its tracker stand for.
spec fn contents<T>(heap: Seq<T>, tracker: Map<Seq<char>, usize>) -> Map<Seq<char>, T> {
    Map::new(|id: Seq<char>| tracker.contains_key(id), |id: Seq<char>| heap[tracker[id] as int])
}

/// In an ordered heap nothing goes before the first item.
proof fn lemma_root_is_least<T, C: Comparator<T>>(heap: Seq<T>, c: &C, i: int)
    requires
        ordered(heap, c),
        strict_weak_order(c),
        0 <= i < heap.len(),
    ensures
        !c.precedes(&heap[i], &heap[0]),
    decreases i,
{
    if i > 0 {
        lemma_root_is_least(heap, c, parent(i));
        assert(!c.precedes(&heap[i], &heap[parent(i)]));
    } else {
        assert(c.precedes(&heap[0], &heap[0]) ==> !c.precedes(&heap[0], &heap[0]));
    }
}

/// The sequence in which the items at `i` and `j` have changed places.
spec fn exchanged<T>(h: Seq<T>, i: int, j: int) -> Seq<T> {
    h.update(i, h[j]).update(j, h[i])
}

/// Moving an item up over the one above it, which it goes before, leaves the heap ordered
/// but perhaps between the moved item and what is now above it.
proof fn lemma_exchange_up<T, C: Comparator<T>>(h: Seq<T>, c: &C, k: int)
    requires
        strict_weak_order(c),
        0 < k < h.len(),
        ordered_except(h, c, k),
        grand_ok(h, c, k),
        c.precedes(&h[k], &h[parent(k)]),
    ensures
        ordered_except(exchanged(h, k, parent(k)), c, parent(k)),
        grand_ok(exchanged(h, k, parent(k)), c, parent(k)),
        children_ok(exchanged(h, k, parent(k)), c, parent(k)),
{
    let p = parent(k);
    let h2 = exchanged(h, k, p);
    assert forall|i: int| 0 < i < h2.len() && i != p && parent(i) != p implies !c.precedes(
        &#[trigger] h2[i],
        &h2[parent(i)],
    ) by {
        if parent(i) == k {
            assert(!c.precedes(&h[i], &h[p]));
        } else {
            assert(!c.precedes(&h[i], &h[parent(i)]));
        }
    }
    assert forall|i: int| 0 < i < h2.len() && parent(i) == p implies !c.precedes(
        &#[trigger] h2[i],
        &h2[p],
    ) by {
        if i != k {
            assert(!c.precedes(&h[i], &h[p]));
            assert(!c.precedes(&h[p], &h[k]));
        }
    }
    if p > 0 {
        assert(!c.precedes(&h[p], &h[parent(p)]));
        assert forall|i: int| 0 < i < h2.len() && parent(i) == p implies !c.precedes(
            &#[trigger] h2[i],
            &h2[parent(p)],
        ) by {
            if i != k {
                assert(!c.precedes(&h[i], &h[p]));
            }
        }
    }
}

/// Moving an item down under the least of those directly below it, which goes before it,
/// leaves the heap ordered but perhaps between the moved item and what is now below it.
proof fn lemma_exchange_down<T, C: Comparator<T>>(h: Seq<T>, c: &C, k: int, m: int)
    requires
        strict_weak_order(c),
        0 <= k,
        0 < m < h.len(),
        parent(m) == k,
        ordered_except(h, c, k),
        node_ok(h, c, k),
        grand_ok(h, c, k),
        c.precedes(&h[m], &h[k]),
        forall|i: int| 0 < i < h.len() && parent(i) == k ==> !c.precedes(&#[trigger] h[i], &h[m]),
    ensures
        ordered_except(exchanged(h, k, m), c, m),
        node_ok(exchanged(h, k, m), c, m),
        grand_ok(exchanged(h, k, m), c, m),
{
    let h2 = exchanged(h, k, m);
    assert forall|i: int| 0 < i < h2.len() && i != m && parent(i) != m implies !c.precedes(
        &#[trigger] h2[i],
        &h2[parent(i)],
    ) by {
        if i == k {
            assert(!c.precedes(&h[m], &h[parent(k)]));
        } else if parent(i) == k {
            assert(!c.precedes(&h[i], &h[m]));
        } else {
            assert(!c.precedes(&h[i], &h[parent(i)]));
        }
    }
    assert forall|i: int| 0 < i < h2.len() && parent(i) == m implies !c.precedes(
        &#[trigger] h2[i],
        &h2[parent(m)],
    ) by {
        assert(!c.precedes(&h[i], &h[m]));
    }
}

/// A heap that is ordered everywhere but under `k`, and there too, is ordered.
proof fn lemma_ordered_from_parts<T, C: Comparator<T>>(h: Seq<T>, c: &C, k: int)
    requires
        ordered_except(h, c, k),
        node_ok(h, c, k),
        children_ok(h, c, k),
    ensures
        ordered(h, c),
{
    assert forall|i: int| 0 < i < h.len() implies !c.precedes(&#[trigger] h[i], &h[parent(i)]) by {
        if i == k {
        } else if parent(i) == k {
        } else {
        }
    }
}

/// In an ordered heap every position meets the three partial conditions.
proof fn lemma_parts_from_ordered<T, C: Comparator<T>>(h: Seq<T>, c: &C, k: int)
    requires
        strict_weak_order(c),
        ordered(h, c),
        0 <= k < h.len(),
    ensures
        ordered_except(h, c, k),
        node_ok(h, c, k),
        children_ok(h, c, k),
        grand_ok(h, c, k),
{
    if k > 0 {
        assert(!c.precedes(&h[k], &h[parent(k)]));
        assert forall|i: int| 0 < i < h.len() && parent(i) == k implies !c.precedes(
            &#[trigger] h[i],
            &h[parent(k)],
        ) by {
            assert(!c.precedes(&h[i], &h[k]));
        }
    }
}

/// What it is to hand out an item of a queue: the queue held the item under its id, nothing
/// that it held goes before the item, and afterwards it holds the rest.
pub open spec fn hands_out<T: ID, C: Comparator<T>>(
    c: C,
    before: Map<Seq<char>, T>,
    item: T,
    after: Map<Seq<char>, T>,
) -> bool {
    &&& before.contains_key(item.id_view())
    &&& before[item.id_view()] == item
    &&& forall|id: Seq<char>| #[trigger] before.contains_key(id) ==> !c.precedes(&before[id], &item)
    &&& after == before.remove(item.id_view())
}

/// A min-heap of items that carry an id, with a map from each id to the position of its
/// item. The comparator decides which item comes out first.
pub struct PriorityQueue<T: ID, C: Comparator<T>> {
    heap: Vec<T>,
    tracker: StringHashMap<usize>,
    comparator: C,
}

impl<T: ID, C: Comparator<T>> View for PriorityQueue<T, C> {
    type V = Map<Seq<char>, T>;

    /// The items of the queue, each under its id.
    closed spec fn view(&self) -> Map<Seq<char>, T> {
        contents(self.heap@, self.tracker@)
    }
}

impl<T: ID, C: Comparator<T>> PriorityQueue<T, C> {
    /// The comparator that the queue was made with.
    pub closed spec fn order(&self) -> C {
        self.comparator
    }

    /// The items in the order in which the heap holds them.
    pub closed spec fn slots(&self) -> Seq<T> {
        self.heap@
    }

    /// The position that the tracker records for each id.
    pub closed spec fn positions(&self) -> Map<Seq<char>, usize> {
        self.tracker@
    }

    /// The invariant of the queue: the tracker and the heap agree, the heap is ordered, and
    /// the comparator is a strict weak order that can be called.
    pub closed spec fn wf(&self) -> bool {
        &&& self.comparator.well_formed()
        &&& strict_weak_order(&self.comparator)
        &&& indexed(self.heap@, self.tracker@)
        &&& ordered(self.heap@, &self.comparator)
    }

    /// Nothing in the queue goes before `v`.
    pub open spec fn is_least(&self, v: T) -> bool {
        forall|id: Seq<char>| #[trigger]
            self@.contains_key(id) ==> !self.order().precedes(&self@[id], &v)
    }

    /// What the invariant says in terms of the heap and the tracker: every tracked id leads to
    /// the slot of the item that carries it, every slot is tracked, and no item goes before
    /// the one in the slot above it.
    pub proof fn lemma_invariant(&self)
        requires
            self.wf(),
        ensures
            self@.dom().finite(),
            self@.len() == self.slots().len(),
            self@.dom() == self.positions().dom(),
            forall|id: Seq<char>| #[trigger]
                self.positions().contains_key(id) ==> self.positions()[id] < self.slots().len()
                    && self.slots()[self.positions()[id] as int].id_view() == id
                    && self@[id] == self.slots()[self.positions()[id] as int],
            forall|i: int|
                0 <= i < self.slots().len() ==> self.positions().contains_key(
                    (#[trigger] self.slots()[i]).id_view(),
                ) && self.positions()[self.slots()[i].id_view()] == i,
            forall|i: int|
                0 < i < self.slots().len() ==> !self.order().precedes(
                    &#[trigger] self.slots()[i],
                    &self.slots()[parent(i)],
                ),
            forall|id: Seq<char>| #[trigger] self@.contains_key(id) ==> self@[id].id_view() == id,
    {
        assert(self@.dom() =~= self.tracker@.dom());
    }

    pub fn new(comparator: C) -> (pq: PriorityQueue<T, C>)
        requires
            comparator.well_formed(),
            strict_weak_order(&comparator),
        ensures
            pq.wf(),
            pq@ == Map::<Seq<char>, T>::empty(),
            pq.order() == comparator,
    {
        let pq = PriorityQueue { heap: Vec::new(), tracker: StringHashMap::new(), comparator };
        assert(pq@ =~= Map::<Seq<char>, T>::empty());
        pq
    }

    pub fn size(&self) -> (n: usize)
        requires
            self.wf(),
        ensures
            n == self@.len(),
    {
        proof {
            self.lemma_invariant();
        }
        self.heap.len()
    }

    pub fn is_empty(&self) -> (r: bool)
        requires
            self.wf(),
        ensures
            r == (self@.len() == 0),
    {
        proof {
            self.lemma_invariant();
        }
        self.heap.len() == 0
    }

    /// The item that goes before all others and that the next `dequeue` hands out: the one in
    /// the first slot.
    pub fn peek(&self) -> (r: Option<&T>)
        requires
            self.wf(),
        ensures
            match r {
                Some(v) => self.slots().len() > 0 && *v == self.slots()[0] && self@.contains_key(
                    v.id_view(),
                ) && self@[v.id_view()] == *v && self.is_least(*v),
                None => self@.len() == 0,
            },
    {
        proof {
            self.lemma_invariant();
        }
        if self.heap.len() == 0 {
            return None;
        }
        let v = &self.heap[0];
        proof {
            assert(self.heap@[0].id_view() == v.id_view());
            assert forall|id: Seq<char>| #[trigger] self@.contains_key(id) implies !self.order().precedes(
                &self@[id],
                v,
            ) by {
                lemma_root_is_least(self.heap@, &self.comparator, self.tracker@[id] as int);
            }
        }
        Some(v)
    }

    pub fn find(&self, id: String) -> (r: Option<&T>)
        requires
            self.wf(),
        ensures
            match r {
                Some(v) => self@.contains_key(id@) && *v == self@[id@],
                None => !self@.contains_key(id@),
            },
    {
        proof {
            self.lemma_invariant();
        }
        match self.tracker.get(id.as_str()) {
            Some(index) => Some(&self.heap[*index]),
            None => None,
        }
    }

    /// Exchanges the items in two slots and records their new positions.
    fn exchange(&mut self, i: usize, j: usize)
        requires
            i < old(self).heap@.len(),
            j < old(self).heap@.len(),
            i != j,
            indexed(old(self).heap@, old(self).tracker@),
        ensures
            final(self).comparator == old(self).comparator,
            final(self).heap@ == exchanged(old(self).heap@, i as int, j as int),
            indexed(final(self).heap@, final(self).tracker@),
            final(self)@ == old(self)@,
    {
        let ghost heap0 = self.heap@;
        let ghost tracker0 = self.tracker@;
        swap_items(&mut self.heap, i, j);
        let id_i = self.heap[i].get_id();
        self.tracker.insert(id_i, i);
        let id_j = self.heap[j].get_id();
        self.tracker.insert(id_j, j);
        proof {
            assert(heap0[i as int].id_view() != heap0[j as int].id_view());
            assert(self.tracker@.dom() =~= tracker0.dom());
            assert(self@ =~= old(self)@);
        }
    }

    /// Moves the item at `from` up until it no longer goes before the one above it.
    fn siftup(&mut self, from: usize)
        requires
            from < old(self).heap@.len(),
            old(self).comparator.well_formed(),
            strict_weak_order(&old(self).comparator),
            indexed(old(self).heap@, old(self).tracker@),
            ordered_except(old(self).heap@, &old(self).comparator, from as int),
            grand_ok(old(self).heap@, &old(self).comparator, from as int),
        ensures
            final(self).comparator == old(self).comparator,
            final(self).heap@.len() == old(self).heap@.len(),
            indexed(final(self).heap@, final(self).tracker@),
            final(self)@ == old(self)@,
            ordered_except(final(self).heap@, &final(self).comparator, from as int),
            node_ok(final(self).heap@, &final(self).comparator, from as int),
            grand_ok(final(self).heap@, &final(self).comparator, from as int),
    {
        let mut node = from;
        let mut settled = false;
        while node > 0 && !settled
            invariant
                node <= from < self.heap@.len(),
                self.comparator == old(self).comparator,
                self.comparator.well_formed(),
                strict_weak_order(&self.comparator),
                self.heap@.len() == old(self).heap@.len(),
                indexed(self.heap@, self.tracker@),
                self@ == old(self)@,
                ordered_except(self.heap@, &self.comparator, node as int),
                grand_ok(self.heap@, &self.comparator, node as int),
                node != from ==> children_ok(self.heap@, &self.comparator, node as int),
                settled ==> node_ok(self.heap@, &self.comparator, node as int),
            decreases node, (if settled { 0int } else { 1int }),
        {
            let above = (node - 1) / 2;
            if self.comparator.compare(&self.heap[node], &self.heap[above]) {
                proof {
                    lemma_exchange_up(self.heap@, &self.comparator, node as int);
                }
                self.exchange(node, above);
                node = above;
            } else {
                settled = true;
            }
        }
        proof {
            if node != from {
                lemma_ordered_from_parts(self.heap@, &self.comparator, node as int);
                lemma_parts_from_ordered(self.heap@, &self.comparator, from as int);
            }
        }
    }

    /// Moves the item at `from` down until none of those directly below it goes before it.
    fn siftdown(&mut self, from: usize)
        requires
            from < old(self).heap@.len(),
            old(self).comparator.well_formed(),
            strict_weak_order(&old(self).comparator),
            indexed(old(self).heap@, old(self).tracker@),
            ordered_except(old(self).heap@, &old(self).comparator, from as int),
            node_ok(old(self).heap@, &old(self).comparator, from as int),
            grand_ok(old(self).heap@, &old(self).comparator, from as int),
        ensures
            final(self).comparator == old(self).comparator,
            final(self).heap@.len() == old(self).heap@.len(),
            indexed(final(self).heap@, final(self).tracker@),
            final(self)@ == old(self)@,
            ordered(final(self).heap@, &final(self).comparator),
    {
        let len = self.heap.len();
        let mut node = from;
        let mut settled = false;
        while node < len / 2 && !settled
            invariant
                node < len,
                len == self.heap@.len(),
                self.comparator == old(self).comparator,
                self.comparator.well_formed(),
                strict_weak_order(&self.comparator),
                self.heap@.len() == old(self).heap@.len(),
                indexed(self.heap@, self.tracker@),
                self@ == old(self)@,
                ordered_except(self.heap@, &self.comparator, node as int),
                node_ok(self.heap@, &self.comparator, node as int),
                grand_ok(self.heap@, &self.comparator, node as int),
                settled ==> children_ok(self.heap@, &self.comparator, node as int),
            decreases len - node, (if settled { 0int } else { 1int }),
        {
            let left = 2 * node + 1;
            let right = left + 1;
            let mut least = node;
            if self.comparator.compare(&self.heap[left], &self.heap[least]) {
                least = left;
            }
            if right < len && self.comparator.compare(&self.heap[right], &self.heap[least]) {
                least = right;
            }
            if least == node {
                settled = true;
                proof {
                    assert forall|i: int|
                        0 < i < self.heap@.len() && parent(i) == node implies !self.comparator.precedes(
                        &#[trigger] self.heap@[i],
                        &self.heap@[node as int],
                    ) by {
                        assert(i == left || i == right);
                    }
                }
            } else {
                proof {
                    let h = self.heap@;
                    let c = &self.comparator;
                    if least == right && c.precedes(&h[left as int], &h[node as int]) {
                        crate::traits::lemma_strict_weak_order_transitive(
                            c,
                            &h[right as int],
                            &h[left as int],
                            &h[node as int],
                        );
                    }
                    if least == right && c.precedes(&h[left as int], &h[right as int]) {
                        crate::traits::lemma_strict_weak_order_transitive(
                            c,
                            &h[left as int],
                            &h[right as int],
                            &h[node as int],
                        );
                    }
                    assert forall|i: int| 0 < i < h.len() && parent(i) == node implies !c.precedes(
                        &#[trigger] h[i],
                        &h[least as int],
                    ) by {
                        assert(i == left || i == right);
                    }
                    lemma_exchange_down(h, c, node as int, least as int);
                }
                self.exchange(node, least);
                node = least;
            }
        }
        proof {
            if !settled {
                assert forall|i: int|
                    0 < i < self.heap@.len() && parent(i) == node implies !self.comparator.precedes(
                    &#[trigger] self.heap@[i],
                    &self.heap@[node as int],
                ) by {
                    assert(i >= 2 * node + 1);
                }
            }
            lemma_ordered_from_parts(self.heap@, &self.comparator, node as int);
        }
    }

    /// Adds an item under its id, which the queue must not hold yet.
    pub fn enqueue(&mut self, value: T)
        requires
            old(self).wf(),
            !old(self)@.contains_key(value.id_view()),
        ensures
            final(self).wf(),
            final(self).order() == old(self).order(),
            final(self)@ == old(self)@.insert(value.id_view(), value),
    {
        proof {
            self.lemma_invariant();
        }
        let ghost heap0 = self.heap@;
        let ghost tracker0 = self.tracker@;
        let id = value.get_id();
        self.heap.push(value);
        let last = self.heap.len() - 1;
        self.tracker.insert(id, last);
        proof {
            assert(self.tracker@.dom() =~= tracker0.dom().insert(value.id_view()));
            assert forall|i: int| 0 <= i < self.heap@.len() implies self.tracker@.contains_key(
                (#[trigger] self.heap@[i]).id_view(),
            ) && self.tracker@[self.heap@[i].id_view()] == i by {
                if i < last {
                    assert(heap0[i].id_view() != value.id_view());
                }
            }
            assert forall|i: int|
                0 < i < self.heap@.len() && i != last && parent(i) != last implies !self.comparator.precedes(
                &#[trigger] self.heap@[i],
                &self.heap@[parent(i)],
            ) by {
                assert(!self.comparator.precedes(&heap0[i], &heap0[parent(i)]));
            }
            assert(self@ =~= old(self)@.insert(value.id_view(), value));
        }
        self.siftup(last);
        proof {
            lemma_ordered_from_parts(self.heap@, &self.comparator, last as int);
        }
    }

    /// Takes out the item that goes before all others: the one in the first slot, which `peek`
    /// shows.
    pub fn dequeue(&mut self) -> (r: Option<T>)
        requires
            old(self).wf(),
        ensures
            final(self).wf(),
            final(self).order() == old(self).order(),
            match r {
                Some(v) => old(self).slots().len() > 0 && v == old(self).slots()[0] && hands_out(
                    old(self).order(),
                    old(self)@,
                    v,
                    final(self)@,
                ) && old(self).is_least(v),
                None => old(self)@.len() == 0 && final(self)@ == old(self)@,
            },
    {
        proof {
            self.lemma_invariant();
        }
        if self.heap.len() == 0 {
            return None;
        }
        let ghost heap0 = self.heap@;
        let ghost tracker0 = self.tracker@;
        // remove the first element and put the last element in its place
        let root = self.heap.swap_remove(0);
        // stop tracking the removed element
        let root_id = root.get_id();
        self.tracker.remove(root_id.as_str());
        proof {
            assert forall|id: Seq<char>| #[trigger]
                old(self)@.contains_key(id) implies !old(self).order().precedes(
                &old(self)@[id],
                &root,
            ) by {
                lemma_root_is_least(heap0, &self.comparator, tracker0[id] as int);
            }
        }
        if self.heap.len() > 0 {
            // update the tracker with the new position of the formerly last element
            let head_id = self.heap[0].get_id();
            self.tracker.insert(head_id, 0);
            proof {
                let last = heap0.len() - 1;
                assert(heap0[last].id_view() != heap0[0].id_view());
                assert(self.tracker@.dom() =~= tracker0.dom().remove(root.id_view()));
                assert forall|i: int| 0 <= i < self.heap@.len() implies self.tracker@.contains_key(
                    (#[trigger] self.heap@[i]).id_view(),
                ) && self.tracker@[self.heap@[i].id_view()] == i by {
                    if i > 0 {
                        assert(heap0[i].id_view() != heap0[0].id_view());
                        assert(heap0[i].id_view() != heap0[last].id_view());
                    }
                }
                assert forall|i: int|
                    0 < i < self.heap@.len() && i != 0 && parent(i) != 0 implies !self.comparator.precedes(
                    &#[trigger] self.heap@[i],
                    &self.heap@[parent(i)],
                ) by {
                    assert(!self.comparator.precedes(&heap0[i], &heap0[parent(i)]));
                }
                assert(self@ =~= old(self)@.remove(root.id_view()));
            }
            self.siftdown(0);
        } else {
            proof {
                assert(self.tracker@.dom() =~= tracker0.dom().remove(root.id_view()));
                assert(self@ =~= old(self)@.remove(root.id_view()));
            }
        }
        Some(root)
    }

    /// Takes out the item with the given id, if the queue holds one.
    pub fn remove(&mut self, id: String) -> (r: Option<T>)
        requires
            old(self).wf(),
        ensures
            final(self).wf(),
            final(self).order() == old(self).order(),
            match r {
                Some(v) => old(self)@.contains_key(id@) && old(self)@[id@] == v,
                None => !old(self)@.contains_key(id@),
            },
            final(self)@ == old(self)@.remove(id@),
    {
        proof {
            self.lemma_invariant();
        }
        let ghost heap0 = self.heap@;
        let ghost tracker0 = self.tracker@;
        let index = match self.tracker.get(id.as_str()) {
            Some(index) => *index,
            None => {
                proof {
                    assert(self@ =~= old(self)@.remove(id@));
                }
                return None;
            },
        };
        self.tracker.remove(id.as_str());
        let item = self.heap.swap_remove(index);
        proof {
            assert(self.tracker@.dom() =~= tracker0.dom().remove(id@));
        }
        if index < self.heap.len() {
            let moved_id = self.heap[index].get_id();
            self.tracker.insert(moved_id, index);
            proof {
                let last = heap0.len() - 1;
                assert(heap0[last].id_view() != heap0[index as int].id_view());
                assert(self.tracker@.dom() =~= tracker0.dom().remove(id@));
                assert forall|i: int| 0 <= i < self.heap@.len() implies self.tracker@.contains_key(
                    (#[trigger] self.heap@[i]).id_view(),
                ) && self.tracker@[self.heap@[i].id_view()] == i by {
                    if i != index {
                        assert(heap0[i].id_view() != heap0[index as int].id_view());
                        assert(heap0[i].id_view() != heap0[last].id_view());
                    }
                }
                lemma_parts_from_ordered(heap0, &self.comparator, index as int);
                assert forall|i: int|
                    0 < i < self.heap@.len() && i != index && parent(i) != index implies !self.comparator.precedes(
                    &#[trigger] self.heap@[i],
                    &self.heap@[parent(i)],
                ) by {
                    assert(!self.comparator.precedes(&heap0[i], &heap0[parent(i)]));
                }
                if index > 0 {
                    assert forall|i: int|
                        0 < i < self.heap@.len() && parent(i) == index implies !self.comparator.precedes(
                        &#[trigger] self.heap@[i],
                        &self.heap@[parent(index as int)],
                    ) by {
                        assert(!self.comparator.precedes(&heap0[i], &heap0[parent(index as int)]));
                    }
                }
                assert(self@ =~= old(self)@.remove(id@));
            }
            self.siftup(index);
            self.siftdown(index);
        } else {
            proof {
                assert forall|i: int| 0 <= i < self.heap@.len() implies self.tracker@.contains_key(
                    (#[trigger] self.heap@[i]).id_view(),
                ) && self.tracker@[self.heap@[i].id_view()] == i by {
                    assert(heap0[i].id_view() != heap0[index as int].id_view());
                }
                assert forall|i: int| 0 < i < self.heap@.len() implies !self.comparator.precedes(
                    &#[trigger] self.heap@[i],
                    &self.heap@[parent(i)],
                ) by {
                    assert(!self.comparator.precedes(&heap0[i], &heap0[parent(i)]));
                }
                assert(self@ =~= old(self)@.remove(id@));
            }
        }
        Some(item)
    }
}

/// Items leave the queue in the order of the comparator: of two items that `dequeue` hands
/// out one after the other, the second does not go before the first.
pub proof fn lemma_dequeue_in_order<T: ID, C: Comparator<T>>(
    before: PriorityQueue<T, C>,
    first: T,
    between: PriorityQueue<T, C>,
    second: T,
)
    requires
        before.wf(),
        before.is_least(first),
        between@ == before@.remove(first.id_view()),
        between.order() == before.order(),
        between@.contains_key(second.id_view()),
        between@[second.id_view()] == second,
    ensures
        !before.order().precedes(&second, &first),
{
    assert(before@.contains_key(second.id_view()));
}

/// In a run of items handed out one after the other, what is held later was held before.
proof fn lemma_held_before<T: ID, C: Comparator<T>>(
    c: C,
    held: Seq<Map<Seq<char>, T>>,
    out: Seq<T>,
    i: int,
    j: int,
)
    requires
        held.len() == out.len() + 1,
        forall|k: int| 0 <= k < out.len() ==> hands_out(c, #[trigger] held[k], out[k], held[k + 1]),
        0 <= i <= j < held.len(),
    ensures
        forall|id: Seq<char>| #[trigger]
            held[j].contains_key(id) ==> held[i].contains_key(id) && held[i][id] == held[j][id],
    decreases j - i,
{
    if i < j {
        lemma_held_before(c, held, out, i, j - 1);
        assert(hands_out(c, held[j - 1], out[j - 1], held[j]));
    }
}

/// In a run of items handed out one after the other, what was held at first and is held no
/// more has come out.
proof fn lemma_gone_came_out<T: ID, C: Comparator<T>>(
    c: C,
    held: Seq<Map<Seq<char>, T>>,
    out: Seq<T>,
    id: Seq<char>,
    k: int,
)
    requires
        held.len() == out.len() + 1,
        forall|k: int| 0 <= k < out.len() ==> hands_out(c, #[trigger] held[k], out[k], held[k + 1]),
        0 <= k < held.len(),
        held[0].contains_key(id),
        !held[k].contains_key(id),
    ensures
        exists|i: int| 0 <= i < k && (#[trigger] out[i]).id_view() == id,
    decreases k,
{
    assert(k > 0);
    assert(hands_out(c, held[k - 1], out[k - 1], held[k]));
    if held[k - 1].contains_key(id) {
        assert(out[k - 1].id_view() == id);
    } else {
        lemma_gone_came_out(c, held, out, id, k - 1);
    }
}

/// Items leave a queue in ascending order. Of a run of items that `dequeue` hands out one
/// after the other, `held` being what the queue holds before, between and after: each item
/// was held at first, under its id; none comes out twice; none goes before one that came out
/// earlier; and once the queue is empty, all that it held at first have come out.
pub proof fn lemma_dequeue_ascending<T: ID, C: Comparator<T>>(
    c: C,
    held: Seq<Map<Seq<char>, T>>,
    out: Seq<T>,
)
    requires
        held.len() == out.len() + 1,
        forall|k: int| 0 <= k < out.len() ==> hands_out(c, #[trigger] held[k], out[k], held[k + 1]),
    ensures
        forall|i: int|
            0 <= i < out.len() ==> held[0].contains_key((#[trigger] out[i]).id_view())
                && held[0][out[i].id_view()] == out[i],
        forall|i: int, j: int|
            0 <= i < j < out.len() ==> (#[trigger] out[i]).id_view() != (#[trigger] out[j]).id_view(),
        forall|i: int, j: int|
            0 <= i < j < out.len() ==> !c.precedes(&#[trigger] out[j], &#[trigger] out[i]),
        held.last() == Map::<Seq<char>, T>::empty() ==> forall|id: Seq<char>| #[trigger]
            held[0].contains_key(id) ==> exists|i: int|
                0 <= i < out.len() && (#[trigger] out[i]).id_view() == id,
{
    assert forall|i: int| 0 <= i < out.len() implies held[0].contains_key(
        (#[trigger] out[i]).id_view(),
    ) && held[0][out[i].id_view()] == out[i] by {
        assert(hands_out(c, held[i], out[i], held[i + 1]));
        lemma_held_before(c, held, out, 0, i);
    }
    assert forall|i: int, j: int| 0 <= i < j < out.len() implies (#[trigger] out[i]).id_view() != (
    #[trigger] out[j]).id_view() && !c.precedes(&out[j], &out[i]) by {
        assert(hands_out(c, held[i], out[i], held[i + 1]));
        assert(hands_out(c, held[j], out[j], held[j + 1]));
        lemma_held_before(c, held, out, i + 1, j);
        lemma_held_before(c, held, out, i, j);
        assert(held[i + 1].contains_key(out[j].id_view()));
        assert(held[i].contains_key(out[j].id_view()));
    }
    if held.last() == Map::<Seq<char>, T>::empty() {
        assert forall|id: Seq<char>| #[trigger] held[0].contains_key(id) implies exists|i: int|
            0 <= i < out.len() && (#[trigger] out[i]).id_view() == id by {
            lemma_gone_came_out(c, held, out, id, held.len() - 1);
        }
    }
}

/// To take an item out and put it in again leaves the queue with what it held: the same
/// items under the same ids, and so the same items that may come out first.
pub proof fn lemma_remove_then_enqueue<T: ID, C: Comparator<T>>(
    before: PriorityQueue<T, C>,
    id: Seq<char>,
    removed: T,
    between: PriorityQueue<T, C>,
    after: PriorityQueue<T, C>,
)
    requires
        before.wf(),
        before@.contains_key(id),
        before@[id] == removed,
        between@ == before@.remove(id),
        after@ == between@.insert(removed.id_view(), removed),
        after.order() == before.order(),
    ensures
        after@ == before@,
        forall|v: T| after.is_least(v) == before.is_least(v),
{
    before.lemma_invariant();
    assert(removed.id_view() == id);
    assert(after@ =~= before@);
}

/// A closure that accepts every pair and never answers both ways on one decides the relation
/// of the pairs on which it can answer `true`: the comparator that `new` makes of it can be
/// called on every pair, and answers as its relation says.
pub proof fn lemma_comparator_of_closure<F, T>(c: PQComparator<F, T>) where F: Fn(&T, &T) -> bool
    requires
        c.relation@ == answers_true::<F, T>(c.func),
        forall|a: &T, b: &T| #[trigger] call_requires(c.func, (a, b)),
        forall|a: &T, b: &T| !(#[trigger] call_ensures(c.func, (a, b), true) && call_ensures(
            c.func,
            (a, b),
            false,
        )),
    ensures
        c.well_formed(),
{
    assert forall|a: &T, b: &T, r: bool| #[trigger]
        call_ensures(c.func, (a, b), r) implies r == (c.relation@)(*a, *b) by {
        assert((c.relation@)(*a, *b) == call_ensures(c.func, (&*a, &*b), true));
        assert(call_ensures(c.func, (a, b), true) || !call_ensures(c.func, (a, b), true));
    }
}

/// A closure that accepts every pair and answers as a strict weak order says makes a
/// comparator that a queue can be made with.
pub proof fn lemma_comparator_of_relation<F, T>(c: PQComparator<F, T>) where F: Fn(&T, &T) -> bool
    requires
        forall|a: &T, b: &T| #[trigger] call_requires(c.func, (a, b)),
        forall|a: &T, b: &T, r: bool| #[trigger]
            call_ensures(c.func, (a, b), r) ==> r == (c.relation@)(*a, *b),
        forall|a: T, b: T| #[trigger] (c.relation@)(a, b) ==> !(c.relation@)(b, a),
        forall|a: T, x: T, b: T|
            !#[trigger] (c.relation@)(a, x) && !#[trigger] (c.relation@)(x, b) ==> !(
            c.relation@)(a, b),
    ensures
        c.well_formed(),
        strict_weak_order(&c),
{
    assert forall|a: &T, b: &T| #[trigger] c.precedes(a, b) implies !c.precedes(b, a) by {
        assert((c.relation@)(*a, *b));
    }
    assert forall|a: &T, x: &T, b: &T|
        !#[trigger] c.precedes(a, x) && !#[trigger] c.precedes(x, b) implies !c.precedes(a, b) by {
        assert(!(c.relation@)(*a, *x));
        assert(!(c.relation@)(*x, *b));
    }
}

} // verus!
