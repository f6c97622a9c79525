//! A priority queue that keeps a limited number of items: the smallest ones.

use crate::order::TotalOrder;
use vstd::multiset::Multiset;
use vstd::prelude::*;

verus! {

/// Index of the parent of the heap node at index `i`.
pub open spec fn parent(i: int) -> int {
    (i - 1) / 2
}

/// The item at index `i` comes no later than the item at its parent.
pub open spec fn below_parent<T: TotalOrder>(s: Seq<T>, i: int) -> bool {
    s[i].le(&s[parent(i)])
}

/// The first `end` items of `s` form a max-heap: no item comes later than its
/// parent.
pub open spec fn is_heap<T: TotalOrder>(s: Seq<T>, end: int) -> bool {
    forall|i: int| 0 < i < end ==> #[trigger] below_parent(s, i)
}

/// The first `end` items of `s` form a max-heap but for the item at `pos`,
/// which may come earlier than its children; these still come no later than
/// the parent of `pos`.
pub open spec fn is_heap_except<T: TotalOrder>(s: Seq<T>, end: int, pos: int) -> bool {
    &&& forall|i: int| 0 < i < end && parent(i) != pos ==> #[trigger] below_parent(s, i)
    &&& pos > 0 ==> forall|i: int|
        0 < i < end && parent(i) == pos ==> (#[trigger] s[i]).le(&s[parent(pos)])
}

/// The items of `s` come in ascending order.
pub open spec fn is_sorted<T: TotalOrder>(s: Seq<T>) -> bool {
    forall|i: int, j: int| 0 <= i <= j < s.len() ==> (#[trigger] s[i]).le(#[trigger] &s[j])
}

/// `m` is one of `items` and none of them comes later.
pub open spec fn is_max_of<T: TotalOrder>(m: T, items: Multiset<T>) -> bool {
    &&& items.contains(m)
    &&& forall|x: T| items.contains(x) ==> #[trigger] x.le(&m)
}

/// `after` is what a queue of the given limit holds once `item` was pushed
/// into one that held `before`. Below the limit the item is added. At the
/// limit it takes the place of an item that comes last, unless it comes even
/// later itself; which of several last items leaves is left open. A queue
/// with limit zero stays empty.
pub open spec fn pushed<T: TotalOrder>(
    before: Multiset<T>,
    limit: nat,
    item: T,
    after: Multiset<T>,
) -> bool {
    if before.len() < limit {
        after == before.insert(item)
    } else if before.len() == 0 {
        after == before
    } else {
        exists|m: T|
            #![trigger is_max_of(m, before)]
            is_max_of(m, before) && after == if item.le(&m) {
                before.remove(m).insert(item)
            } else {
                before
            }
    }
}

/// `held` is a choice of the `limit` smallest items of `seen`: it is part of
/// `seen` and has at most `limit` items; where it has fewer, nothing was left
/// out; and none of its items comes later than one that was left out.
pub open spec fn holds_smallest<T: TotalOrder>(
    seen: Multiset<T>,
    limit: nat,
    held: Multiset<T>,
) -> bool {
    &&& held.subset_of(seen)
    &&& held.len() <= limit
    &&& held.len() < limit ==> held == seen
    &&& forall|x: T, y: T|
        #![trigger held.contains(x), seen.sub(held).contains(y)]
        held.contains(x) && seen.sub(held).contains(y) ==> x.le(&y)
}

/// What `states` go through is a run of pushes: the queue starts empty, and
/// each state arises from the one before by pushing the next item of
/// `stream`.
pub open spec fn is_run_of_pushes<T: TotalOrder>(
    stream: Seq<T>,
    limit: nat,
    states: Seq<Multiset<T>>,
) -> bool {
    &&& states.len() == stream.len() + 1
    &&& states[0] == Multiset::<T>::empty()
    &&& forall|i: int|
        0 <= i < stream.len() ==> #[trigger] pushed(states[i], limit, stream[i], states[i + 1])
}

/// One push keeps the smallest: if the queue held a choice of the `limit`
/// smallest items seen so far, then after the push of `item` it holds a choice
/// of the `limit` smallest of these and `item`.
pub proof fn lemma_push_keeps_smallest<T: TotalOrder>(
    seen: Multiset<T>,
    limit: nat,
    held: Multiset<T>,
    item: T,
    after: Multiset<T>,
)
    requires
        holds_smallest(seen, limit, held),
        pushed(held, limit, item, after),
    ensures
        holds_smallest(seen.insert(item), limit, after),
{
    broadcast use vstd::multiset::group_multiset_axioms;

    let seen_after = seen.insert(item);
    if held.len() < limit {
        assert(after =~= seen_after);
        assert forall|x: T, y: T|
            #![trigger after.contains(x), seen_after.sub(after).contains(y)]
            after.contains(x) && seen_after.sub(after).contains(y) implies x.le(&y) by {
            assert(seen_after.sub(after).count(y) == 0);
        }
    } else if held.len() == 0 {
        assert(after.len() == 0);
        assert forall|x: T, y: T|
            #![trigger after.contains(x), seen_after.sub(after).contains(y)]
            after.contains(x) && seen_after.sub(after).contains(y) implies x.le(&y) by {
            assert(after.count(x) <= after.len());
        }
    } else {
        let m = choose|m: T|
            #![trigger is_max_of(m, held)]
            is_max_of(m, held) && after == if item.le(&m) {
                held.remove(m).insert(item)
            } else {
                held
            };
        T::le_total(&item, &m);
        assert(held.len() == held.remove(m).len() + 1) by {
            assert(held =~= held.remove(m).insert(m));
        }
        assert forall|x: T, y: T|
            #![trigger after.contains(x), seen_after.sub(after).contains(y)]
            after.contains(x) && seen_after.sub(after).contains(y) implies x.le(&y) by {
            if item.le(&m) {
                if x != item {
                    assert(held.contains(x));
                }
                if y == m {
                    assert(x.le(&m));
                } else {
                    assert(seen.sub(held).contains(y));
                    assert(held.contains(m));
                    assert(m.le(&y));
                    if x == item {
                        T::le_transitive(&item, &m, &y);
                    }
                }
            } else {
                assert(x.le(&m));
                if seen.sub(held).contains(y) {
                } else {
                    assert(y == item);
                    T::le_transitive(&x, &m, &item);
                }
            }
        }
    }
}

/// A queue holds the smallest of what was pushed into it: after any run of
/// pushes into an empty queue of the given limit, the queue holds a choice of
/// the `limit` smallest items of the stream.
pub proof fn lemma_queue_holds_smallest_of_stream<T: TotalOrder>(
    stream: Seq<T>,
    limit: nat,
    states: Seq<Multiset<T>>,
)
    requires
        is_run_of_pushes(stream, limit, states),
    ensures
        holds_smallest(stream.to_multiset(), limit, states.last()),
    decreases stream.len(),
{
    broadcast use vstd::multiset::group_multiset_axioms;

    if stream.len() == 0 {
        lemma_empty_holds_nothing::<T>();
        assert(stream =~= Seq::<T>::empty());
        assert(states.last() == states[0]);
    } else {
        let earlier = stream.drop_last();
        let earlier_states = states.drop_last();
        assert forall|i: int| 0 <= i < earlier.len() implies #[trigger] pushed(
            earlier_states[i],
            limit,
            earlier[i],
            earlier_states[i + 1],
        ) by {
            assert(pushed(states[i], limit, stream[i], states[i + 1]));
        }
        lemma_queue_holds_smallest_of_stream(earlier, limit, earlier_states);
        let n = stream.len() as int;
        assert(pushed(states[n - 1], limit, stream[n - 1], states[n]));
        assert(earlier_states.last() == states[n - 1]);
        lemma_push_keeps_smallest(
            earlier.to_multiset(),
            limit,
            states[n - 1],
            stream.last(),
            states[n],
        );
        vstd::seq_lib::to_multiset_build(earlier, stream.last());
        assert(stream =~= earlier.push(stream.last()));
    }
}

/// The empty sequence holds nothing.
pub proof fn lemma_empty_holds_nothing<T>()
    ensures
        Seq::<T>::empty().to_multiset() == Multiset::<T>::empty(),
{
    broadcast use vstd::multiset::group_multiset_axioms;

    Seq::<T>::empty().to_multiset_ensures();
    assert(Seq::<T>::empty().to_multiset() =~= Multiset::<T>::empty());
}

/// Swapping two items of a sequence keeps what it holds.
pub proof fn lemma_swap_keeps_items<T>(s: Seq<T>, i: int, j: int)
    requires
        0 <= i < s.len(),
        0 <= j < s.len(),
    ensures
        s.update(i, s[j]).update(j, s[i]).to_multiset() == s.to_multiset(),
{
    broadcast use vstd::multiset::group_multiset_axioms;

    vstd::seq_lib::to_multiset_update(s, i, s[j]);
    vstd::seq_lib::to_multiset_update(s.update(i, s[j]), j, s[i]);
    s.to_multiset_ensures();
    assert(s.to_multiset().count(s[i]) > 0) by {
        assert(s.contains(s[i]));
    }
    assert(s.to_multiset().count(s[j]) > 0) by {
        assert(s.contains(s[j]));
    }
    assert(s.update(i, s[j]).update(j, s[i]).to_multiset() =~= s.to_multiset());
}

/// The root of a max-heap comes last.
pub proof fn lemma_heap_root_is_max<T: TotalOrder>(s: Seq<T>, end: int, i: int)
    requires
        is_heap(s, end),
        0 <= i < end <= s.len(),
    ensures
        s[i].le(&s[0]),
    decreases i,
{
    if i == 0 {
        T::le_total(&s[0], &s[0]);
    } else {
        assert(below_parent(s, i));
        lemma_heap_root_is_max(s, end, parent(i));
        T::le_transitive(&s[i], &s[parent(i)], &s[0]);
    }
}

/// Swaps the items at two different indices, with `spare` as the third hand.
fn swap_items<T>(v: &mut Vec<T>, i: usize, j: usize, spare: &mut T)
    requires
        i < old(v).len(),
        j < old(v).len(),
        i != j,
    ensures
        final(v)@ == old(v)@.update(i as int, old(v)@[j as int]).update(j as int, old(v)@[i as int]),
        final(v)@.to_multiset() == old(v)@.to_multiset(),
        *final(spare) == *old(spare),
{
    v.set_and_swap(i, spare);
    v.set_and_swap(j, spare);
    v.set_and_swap(i, spare);
    proof {
        assert(v@ =~= old(v)@.update(i as int, old(v)@[j as int]).update(
            j as int,
            old(v)@[i as int],
        ));
        lemma_swap_keeps_items(old(v)@, i as int, j as int);
    }
}

/// Lets the item at `pos` sink until the first `end` items form a max-heap
/// again.
fn sift_down<T: TotalOrder>(v: &mut Vec<T>, pos: usize, end: usize, spare: &mut T)
    requires
        pos < end <= old(v).len(),
        is_heap_except(old(v)@, end as int, pos as int),
    ensures
        final(v).len() == old(v).len(),
        is_heap(final(v)@, end as int),
        final(v)@.to_multiset() == old(v)@.to_multiset(),
        final(v)@.take(end as int).to_multiset() == old(v)@.take(end as int).to_multiset(),
        forall|i: int| end <= i < old(v).len() ==> final(v)@[i] == old(v)@[i],
        *final(spare) == *old(spare),
{
    let mut pos = pos;
    loop
        invariant
            pos < end <= v.len(),
            v.len() == old(v).len(),
            is_heap_except(v@, end as int, pos as int),
            v@.to_multiset() == old(v)@.to_multiset(),
            v@.take(end as int).to_multiset() == old(v)@.take(end as int).to_multiset(),
            forall|i: int| end <= i < old(v).len() ==> v@[i] == old(v)@[i],
            *spare == *old(spare),
        ensures
            v.len() == old(v).len(),
            is_heap(v@, end as int),
            v@.to_multiset() == old(v)@.to_multiset(),
            v@.take(end as int).to_multiset() == old(v)@.take(end as int).to_multiset(),
            forall|i: int| end <= i < old(v).len() ==> v@[i] == old(v)@[i],
            *spare == *old(spare),
        decreases end - pos,
    {
        if pos >= (end - 1) / 2 + 1 || 2 * pos + 1 >= end {
            assert forall|i: int| 0 < i < end implies #[trigger] below_parent(v@, i) by {
                assert(parent(i) != pos);
            }
            break;
        }
        let left = 2 * pos + 1;
        let right = left + 1;
        let child = if right < end && !v[right].is_le(&v[left]) {
            right
        } else {
            left
        };
        proof {
            T::le_total(&v@[left as int], &v@[left as int]);
            if right < end {
                T::le_total(&v@[right as int], &v@[left as int]);
                T::le_total(&v@[right as int], &v@[right as int]);
            }
        }
        if v[child].is_le(&v[pos]) {
            assert forall|i: int| 0 < i < end implies #[trigger] below_parent(v@, i) by {
                if parent(i) == pos {
                    assert(i == left || i == right);
                    T::le_transitive(&v@[i], &v@[child as int], &v@[pos as int]);
                }
            }
            break;
        }
        let ghost before = v@;
        proof {
            T::le_total(&before[child as int], &before[pos as int]);
            lemma_swap_keeps_items(before.take(end as int), pos as int, child as int);
        }
        swap_items(v, pos, child, spare);
        proof {
            assert(v@.take(end as int) =~= before.take(end as int).update(
                pos as int,
                before.take(end as int)[child as int],
            ).update(child as int, before.take(end as int)[pos as int]));
            assert forall|i: int| 0 < i < end && parent(i) != child implies #[trigger] below_parent(
                v@,
                i,
            ) by {
                if i == child {
                } else if parent(i) == pos {
                    assert(i == left || i == right);
                    assert(v@[i] == before[i]);
                } else if i == pos {
                    assert(before[child as int].le(&before[parent(pos as int)]));
                } else {
                    assert(below_parent(before, i));
                }
            }
            assert forall|i: int| 0 < i < end && parent(i) == child implies (#[trigger] v@[i]).le(
                &v@[parent(child as int)],
            ) by {
                assert(below_parent(before, i));
            }
        }
        pos = child;
    }
}

/// Lets `carry` pass down the path from the root to `pos`: wherever it comes
/// later than the item on the path, the two change places. What is left in
/// `carry` comes no later than the item at `pos`.
fn sink_along<T: TotalOrder>(v: &mut Vec<T>, pos: usize, carry: &mut T)
    requires
        pos < old(v).len(),
        is_heap(old(v)@, old(v).len() as int),
    ensures
        final(v).len() == old(v).len(),
        is_heap(final(v)@, final(v).len() as int),
        final(v)@.to_multiset().insert(*final(carry)) == old(v)@.to_multiset().insert(*old(carry)),
        final(carry).le(&final(v)@[pos as int]),
    decreases pos,
{
    broadcast use vstd::multiset::group_multiset_axioms;

    if pos > 0 {
        sink_along(v, (pos - 1) / 2, carry);
    }
    let ghost before = v@;
    let ghost carried = *carry;
    if !carry.is_le(&v[pos]) {
        proof {
            T::le_total(&carried, &before[pos as int]);
            vstd::seq_lib::to_multiset_update(before, pos as int, carried);
            before.to_multiset_ensures();
            assert(before.contains(before[pos as int]));
        }
        v.set_and_swap(pos, carry);
        proof {
            assert(v@.to_multiset().insert(*carry) =~= before.to_multiset().insert(carried));
            assert forall|i: int| 0 < i < v.len() implies #[trigger] below_parent(v@, i) by {
                assert(below_parent(before, i));
                if parent(i) == pos {
                    T::le_transitive(&before[i], &before[pos as int], &carried);
                }
            }
            T::le_total(carry, carry);
        }
    }
}

/// A priority queue that keeps a limited amount of items.
///
/// Discards the largest items, by the order of [`TotalOrder`], once the limit
/// is reached. Its view is the multiset of the items that it holds.
#[derive(Debug)]
pub struct CachePriorityQueue<T: TotalOrder> {
    heap: Vec<T>,
    limit: usize,
}

impl<T: TotalOrder> View for CachePriorityQueue<T> {
    type V = Multiset<T>;

    closed spec fn view(&self) -> Multiset<T> {
        self.heap@.to_multiset()
    }
}

impl<T: TotalOrder> CachePriorityQueue<T> {
    #[verifier::type_invariant]
    spec fn well_formed(self) -> bool {
        &&& self.heap.len() <= self.limit
        &&& is_heap(self.heap@, self.heap.len() as int)
    }

    /// The number of items that the queue keeps at most.
    pub closed spec fn limit(&self) -> nat {
        self.limit as nat
    }

    /// The number of items in the queue, which is never above the limit.
    pub fn len(&self) -> (n: usize)
        ensures
            n == self@.len(),
            n <= self.limit(),
    {
        proof {
            use_type_invariant(self);
            self.heap@.to_multiset_ensures();
        }
        self.heap.len()
    }

    /// Removes all items from the queue.
    pub fn clear(&mut self)
        ensures
            final(self)@ == Multiset::<T>::empty(),
            final(self).limit() == old(self).limit(),
    {
        let mut heap: Vec<T> = Vec::new();
        proof {
            assert(heap@ =~= Seq::<T>::empty());
            lemma_empty_holds_nothing::<T>();
        }
        core::mem::swap(&mut self.heap, &mut heap);
    }

    /// Creates an empty queue that keeps at most `limit` items.
    #[must_use]
    pub fn new(limit: usize) -> (q: Self)
        ensures
            q@ == Multiset::<T>::empty(),
            q.limit() == limit,
    {
        let q = CachePriorityQueue { heap: Vec::new(), limit };
        proof {
            assert(q.heap@ =~= Seq::<T>::empty());
            lemma_empty_holds_nothing::<T>();
        }
        q
    }

    /// Creates an empty queue with room for `capacity` items.
    #[must_use]
    pub fn with_capacity(capacity: usize, limit: usize) -> (q: Self)
        requires
            capacity <= limit,
        ensures
            q@ == Multiset::<T>::empty(),
            q.limit() == limit,
    {
        let q = CachePriorityQueue { heap: Vec::with_capacity(capacity), limit };
        proof {
            assert(q.heap@ =~= Seq::<T>::empty());
            lemma_empty_holds_nothing::<T>();
        }
        q
    }

    /// Pushes an item into the queue.
    ///
    /// If the limit is reached, an item that comes last leaves the queue
    /// before the new `item` enters. If the new item comes later than any item
    /// in the queue, it is dropped instead.
    pub fn push(&mut self, item: T)
        ensures
            pushed(old(self)@, old(self).limit(), item, final(self)@),
            final(self).limit() == old(self).limit(),
    {
        proof {
            use_type_invariant(&*self);
        }
        let mut heap: Vec<T> = Vec::new();
        core::mem::swap(&mut self.heap, &mut heap);
        insert_bounded(&mut heap, self.limit, item);
        core::mem::swap(&mut self.heap, &mut heap);
    }

    /// Consumes the queue and returns its items in ascending order.
    pub fn into_sorted_vec(self) -> (sorted: Vec<T>)
        ensures
            is_sorted(sorted@),
            sorted@.to_multiset() == self@,
    {
        proof {
            use_type_invariant(&self);
        }
        let mut v = self.heap;
        sort_heap(&mut v);
        v
    }
}

/// Pushes `item` into the max-heap `heap`, which keeps at most `limit` items.
fn insert_bounded<T: TotalOrder>(heap: &mut Vec<T>, limit: usize, item: T)
    requires
        old(heap).len() <= limit,
        is_heap(old(heap)@, old(heap).len() as int),
    ensures
        final(heap).len() <= limit,
        is_heap(final(heap)@, final(heap).len() as int),
        pushed(old(heap)@.to_multiset(), limit as nat, item, final(heap)@.to_multiset()),
{
    broadcast use vstd::multiset::group_multiset_axioms;

    let ghost before = heap@;
    let ghost entered = item;
    proof {
        before.to_multiset_ensures();
    }
    let mut item = item;
    if heap.len() >= limit {
        if heap.len() == 0 {
            return ;
        }
        proof {
            assert(before.contains(before[0]));
            assert forall|x: T| before.to_multiset().contains(x) implies #[trigger] x.le(
                &before[0],
            ) by {
                assert(before.contains(x));
                let i = choose|i: int| 0 <= i < before.len() && before[i] == x;
                lemma_heap_root_is_max(before, before.len() as int, i);
            }
            assert(is_max_of(before[0], before.to_multiset()));
        }
        if !item.is_le(&heap[0]) {
            return ;
        }
        heap.set_and_swap(0, &mut item);
        proof {
            vstd::seq_lib::to_multiset_update(before, 0, entered);
            assert(heap@.to_multiset() =~= before.to_multiset().remove(before[0]).insert(entered));
            assert forall|i: int|
                0 < i < heap.len() && parent(i) != 0 implies #[trigger] below_parent(heap@, i) by {
                assert(below_parent(before, i));
            }
            assert(heap@.take(heap.len() as int) =~= heap@);
        }
        sift_down(heap, 0, heap.len(), &mut item);
    } else {
        let n = heap.len();
        if n > 0 {
            sink_along(heap, (n - 1) / 2, &mut item);
        }
        let ghost settled = heap@;
        heap.push(item);
        proof {
            vstd::seq_lib::to_multiset_build(settled, item);
            assert(heap@.to_multiset() =~= before.to_multiset().insert(entered));
            assert forall|i: int| 0 < i < heap.len() implies #[trigger] below_parent(heap@, i) by {
                if i < n {
                    assert(below_parent(settled, i));
                }
            }
        }
    }
}

/// Turns a max-heap into the ascending sequence of its items.
fn sort_heap<T: TotalOrder>(v: &mut Vec<T>)
    requires
        is_heap(old(v)@, old(v).len() as int),
    ensures
        is_sorted(final(v)@),
        final(v)@.to_multiset() == old(v)@.to_multiset(),
{
    broadcast use vstd::multiset::group_multiset_axioms;

    let ghost whole = v@;
    proof {
        whole.to_multiset_ensures();
    }
    let mut spare = match v.pop() {
        Some(last) => last,
        None => {
            return ;
        },
    };
    let ghost rest = v@;
    let ghost last_leaf = spare;
    proof {
        assert(whole =~= rest.push(spare));
        vstd::seq_lib::to_multiset_build(rest, spare);
        assert forall|i: int| 0 < i < rest.len() implies #[trigger] below_parent(rest, i) by {
            assert(below_parent(whole, i));
        }
    }
    let mut end = v.len();
    while end > 1
        invariant
            end <= v.len(),
            v.len() == rest.len(),
            spare == last_leaf,
            is_heap(v@, end as int),
            v@.to_multiset() == rest.to_multiset(),
            forall|i: int, j: int| end <= i <= j < v.len() ==> (#[trigger] v@[i]).le(#[trigger] &v@[j]),
            forall|i: int, j: int|
                0 <= i < end <= j < v.len() ==> (#[trigger] v@[i]).le(#[trigger] &v@[j]),
        decreases end,
    {
        let ghost before = v@;
        let last = end - 1;
        proof {
            assert forall|i: int| 0 <= i < end implies (#[trigger] before[i]).le(&before[0]) by {
                lemma_heap_root_is_max(before, end as int, i);
            }
        }
        swap_items(v, 0, last, &mut spare);
        let ghost swapped = v@;
        proof {
            assert forall|i: int| 0 < i < last && parent(i) != 0 implies #[trigger] below_parent(
                swapped,
                i,
            ) by {
                assert(below_parent(before, i));
            }
        }
        sift_down(v, 0, last, &mut spare);
        proof {
            assert forall|i: int, j: int| last <= i <= j < v.len() implies (#[trigger] v@[i]).le(
                #[trigger] &v@[j],
            ) by {
                if i == last {
                    if j == last {
                        T::le_total(&v@[i], &v@[j]);
                    } else {
                        assert(before[0].le(&before[j]));
                    }
                } else {
                    assert(before[i].le(&before[j]));
                }
            }
            assert forall|i: int, j: int| 0 <= i < last <= j < v.len() implies (#[trigger] v@[i]).le(
                #[trigger] &v@[j],
            ) by {
                let head = v@.take(last as int);
                let head_before = swapped.take(last as int);
                head.to_multiset_ensures();
                head_before.to_multiset_ensures();
                assert(head.contains(v@[i])) by {
                    assert(head[i] == v@[i]);
                }
                assert(head_before.to_multiset().count(v@[i]) > 0);
                assert(head_before.contains(v@[i]));
                let k = choose|k: int| 0 <= k < head_before.len() && head_before[k] == v@[i];
                assert(swapped[k] == v@[i]);
                if j == last {
                    if k == 0 {
                        assert(before[last as int].le(&before[0]));
                    } else {
                        assert(before[k].le(&before[0]));
                    }
                } else {
                    if k == 0 {
                        assert(before[last as int].le(&before[j]));
                    } else {
                        assert(before[k].le(&before[j]));
                    }
                }
            }
        }
        end = last;
    }
    proof {
        assert forall|i: int, j: int| 0 <= i <= j < v.len() implies (#[trigger] v@[i]).le(
            #[trigger] &v@[j],
        ) by {
            if i < end {
                if j < end {
                    T::le_total(&v@[i], &v@[j]);
                }
            }
        }
    }
    insert_sorted(v, spare);
    proof {
        assert(whole.to_multiset() == rest.to_multiset().insert(spare));
        assert(v@.to_multiset() =~= whole.to_multiset());
    }
}

/// Inserts `item` into the ascending `v` behind the last item that comes no
/// later.
fn insert_sorted<T: TotalOrder>(v: &mut Vec<T>, item: T)
    requires
        is_sorted(old(v)@),
    ensures
        is_sorted(final(v)@),
        final(v)@.to_multiset() == old(v)@.to_multiset().insert(item),
{
    let mut pos = v.len();
    while pos > 0 && !v[pos - 1].is_le(&item)
        invariant
            pos <= v.len(),
            v@ == old(v)@,
            forall|i: int| pos <= i < v.len() ==> item.le(#[trigger] &v@[i]),
        decreases pos,
    {
        proof {
            T::le_total(&v@[pos - 1], &item);
        }
        pos = pos - 1;
    }
    let ghost before = v@;
    v.insert(pos, item);
    proof {
        vstd::seq_lib::to_multiset_insert(before, pos as int, item);
        assert forall|i: int, j: int| 0 <= i <= j < v.len() implies (#[trigger] v@[i]).le(
            #[trigger] &v@[j],
        ) by {
            T::le_total(&item, &item);
            if i < pos {
                if j < pos {
                    assert(before[i].le(&before[j]));
                } else if j == pos {
                    assert(before[i].le(&before[pos - 1]));
                    T::le_transitive(&before[i], &before[pos - 1], &item);
                } else {
                    assert(before[i].le(&before[j - 1]));
                }
            } else if i == pos {
                if j > pos {
                    assert(item.le(&before[j - 1]));
                }
            } else {
                assert(before[i - 1].le(&before[j - 1]));
            }
        }
    }
}

} // verus!
