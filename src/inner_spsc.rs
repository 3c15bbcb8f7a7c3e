//! Fixed-capacity ring buffer with a producer index and a consumer index.
//!
//! One slot always stays free, so that `next_head == tail` means empty and
//! `advance(next_head) == tail` means full.
use vstd::prelude::*;

use crate::fifo::{accepted, delivered, is_run, lemma_empty_iff_drained, lemma_fifo, step_ok, Step};

verus! {

/// The slot after `i` in a ring of `cap` slots.
pub open spec fn ring_next(i: int, cap: int) -> int {
    if i + 1 < cap {
        i + 1
    } else {
        0
    }
}

/// The slot `k` places past `tail` in a ring of `cap` slots (for `k < cap`).
pub open spec fn ring_slot(tail: int, k: int, cap: int) -> int {
    if tail + k < cap {
        tail + k
    } else {
        tail + k - cap
    }
}

/// How many slots lie from `tail` (inclusive) to `head` (exclusive), in ring order.
pub open spec fn ring_len(head: int, tail: int, cap: int) -> int {
    if tail <= head {
        head - tail
    } else {
        head + cap - tail
    }
}

/// How far slot `i` lies past `tail`, in ring order.
pub open spec fn ring_offset(i: int, tail: int, cap: int) -> int {
    ring_len(i, tail, cap)
}

/// What a push of `value` that returned `r` did to the bounded queue `pre`,
/// leaving `post`: it fails, handing `value` back and changing nothing,
/// exactly when `pre` holds `capacity - 1` values; otherwise `value` is
/// appended.
pub open spec fn push_result<T>(
    pre: BoundedSpsc<T>,
    value: T,
    r: Result<(), T>,
    post: BoundedSpsc<T>,
) -> bool {
    &&& post.wf()
    &&& post.cap() == pre.cap()
    &&& post@.len() <= post.cap() - 1
    &&& (r is Err <==> pre@.len() == pre.cap() - 1)
    &&& (r is Ok ==> post@ == pre@.push(value))
    &&& (r is Ok ==> post.tail_index() == pre.tail_index())
    &&& (r is Ok ==> post.head_index() == ring_next(pre.head_index(), pre.cap() as int))
    &&& (r is Ok ==> post.occupied(pre.head_index()) && post.slot_value(pre.head_index()) == value)
    &&& (r is Ok ==> forall|i: int|
        0 <= i < pre.cap() && i != pre.head_index() ==> (#[trigger] post.occupied(i)
            == pre.occupied(i) && post.slot_value(i) == pre.slot_value(i)))
    &&& (r matches Err(v) ==> v == value && post == pre)
}

/// What a pop that returned `r` did to the bounded queue `pre`, leaving
/// `post`: nothing, when `pre` is empty; otherwise the oldest value came out.
pub open spec fn pop_result<T>(pre: BoundedSpsc<T>, r: Option<T>, post: BoundedSpsc<T>) -> bool {
    &&& post.wf()
    &&& post.cap() == pre.cap()
    &&& post@.len() <= post.cap() - 1
    &&& (r is None <==> pre@.len() == 0)
    &&& (r is None ==> post == pre)
    &&& (r matches Some(v) ==> v == pre@[0] && post@ == pre@.drop_first())
    &&& (r is Some ==> post.head_index() == pre.head_index())
    &&& (r is Some ==> post.tail_index() == ring_next(pre.tail_index(), pre.cap() as int))
    &&& (r is Some ==> !post.occupied(pre.tail_index()))
    &&& (r is Some ==> forall|i: int|
        0 <= i < pre.cap() && i != pre.tail_index() ==> (#[trigger] post.occupied(i)
            == pre.occupied(i) && post.slot_value(i) == pre.slot_value(i)))
}

/// A bounded single-producer single-consumer ring buffer.
///
/// `next_head` is the slot the producer writes next; `tail` is the slot the
/// consumer reads next. A slot holds a value exactly when it lies between
/// `tail` and `next_head` in ring order, so dropping the queue destroys
/// exactly the values that were pushed and not popped.
pub struct BoundedSpsc<T> {
    next_head: usize,
    tail: usize,
    buffer: Vec<Option<T>>,
}

impl<T> BoundedSpsc<T> {
    /// Number of slots, one of which always stays free.
    pub closed spec fn cap(&self) -> nat {
        self.buffer@.len()
    }

    /// The slot the producer writes next.
    pub closed spec fn head_index(&self) -> int {
        self.next_head as int
    }

    /// The slot the consumer reads next.
    pub closed spec fn tail_index(&self) -> int {
        self.tail as int
    }

    /// Whether slot `i` holds a live value.
    pub closed spec fn occupied(&self, i: int) -> bool {
        self.buffer@[i] is Some
    }

    /// The value held in slot `i`.
    pub closed spec fn slot_value(&self, i: int) -> T {
        self.buffer@[i]->Some_0
    }

    /// At least two slots, both indices in range, and a value in exactly the
    /// slots from `tail` up to `next_head`.
    pub closed spec fn wf(&self) -> bool {
        &&& self.buffer@.len() >= 2
        &&& self.buffer@.len() <= usize::MAX
        &&& self.next_head < self.buffer@.len()
        &&& self.tail < self.buffer@.len()
        &&& forall|i: int|
            0 <= i < self.buffer@.len() ==> (#[trigger] self.buffer@[i] is Some <==> ring_offset(
                i,
                self.tail as int,
                self.buffer@.len() as int,
            ) < ring_len(self.next_head as int, self.tail as int, self.buffer@.len() as int))
    }

}

impl<T> View for BoundedSpsc<T> {
    type V = Seq<T>;

    /// The values in the queue, oldest first.
    closed spec fn view(&self) -> Seq<T> {
        let cap = self.buffer@.len() as int;
        Seq::new(
            ring_len(self.next_head as int, self.tail as int, cap) as nat,
            |k: int| self.buffer@[ring_slot(self.tail as int, k, cap)]->Some_0,
        )
    }
}

impl<T> BoundedSpsc<T> {
    /// Creates an empty queue of `capacity` slots, which holds at most
    /// `capacity - 1` values.
    pub fn new(capacity: usize) -> (q: Self)
        requires
            capacity > 1,
        ensures
            q.wf(),
            q.cap() == capacity,
            q@ == Seq::<T>::empty(),
            q.head_index() == 0,
            q.tail_index() == 0,
    {
        let mut buffer: Vec<Option<T>> = Vec::with_capacity(capacity);
        let mut i: usize = 0;
        while i < capacity
            invariant
                i <= capacity,
                buffer@.len() == i,
                forall|j: int| 0 <= j < i ==> #[trigger] buffer@[j] is None,
            decreases capacity - i,
        {
            buffer.push(None);
            i = i + 1;
        }
        let q = BoundedSpsc { next_head: 0, tail: 0, buffer };
        assert(q@ =~= Seq::<T>::empty());
        q
    }

    /// The slot after `i`: the incremented index, reset to zero when it
    /// reaches the capacity.
    fn advance(&self, i: usize) -> (r: usize)
        requires
            self.wf(),
            i < self.cap(),
        ensures
            r == ring_next(i as int, self.cap() as int),
    {
        let n = i + 1;
        if n < self.buffer.len() {
            n
        } else {
            0
        }
    }

    /// Producer side: appends `value`, or hands it back unchanged when the
    /// queue already holds `capacity - 1` values.
    pub fn push(&mut self, value: T) -> (r: Result<(), T>)
        requires
            old(self).wf(),
        ensures
            push_result(*old(self), value, r, *final(self)),
    {
        let curr_head = self.next_head;
        let next_head = self.advance(curr_head);
        if next_head == self.tail {
            return Err(value);
        }
        self.buffer.set(curr_head, Some(value));
        self.next_head = next_head;
        assert(self@ =~= old(self)@.push(value));
        Ok(())
    }

    /// Consumer side: removes and returns the oldest value, or `None` when
    /// the queue is empty.
    pub fn pop(&mut self) -> (r: Option<T>)
        requires
            old(self).wf(),
        ensures
            pop_result(*old(self), r, *final(self)),
    {
        let curr_tail = self.tail;
        if self.next_head == curr_tail {
            return None;
        }
        let next_tail = self.advance(curr_tail);
        let value = self.buffer[curr_tail].take();
        self.tail = next_tail;
        assert(self@ =~= old(self)@.drop_first());
        value
    }

    /// Whether the queue holds no value.
    pub fn is_empty(&self) -> (r: bool)
        requires
            self.wf(),
        ensures
            r == (self@.len() == 0),
    {
        self.next_head == self.tail
    }

    /// Whether the queue holds `capacity - 1` values, so that a push fails.
    pub fn is_full(&self) -> (r: bool)
        requires
            self.wf(),
        ensures
            r == (self@.len() == self.cap() - 1),
    {
        let next_head = self.advance(self.next_head);
        next_head == self.tail
    }

    /// The number of slots the queue was created with.
    pub fn capacity(&self) -> (r: usize)
        requires
            self.wf(),
        ensures
            r == self.cap(),
    {
        self.buffer.len()
    }
}

/// Whether `step` takes the bounded queue `pre` to `post`, as `push` and
/// `pop` promise.
pub open spec fn bounded_step<T>(pre: BoundedSpsc<T>, step: Step<T>, post: BoundedSpsc<T>) -> bool {
    match step {
        Step::Push(v, r) => push_result(pre, v, r, post),
        Step::Pop(r) => pop_result(pre, r, post),
    }
}

/// First in, first out, for the bounded queue: over any run of pushes and
/// pops from an empty queue, the accepted values are the popped values
/// followed by those still queued, and the queue is empty exactly when
/// everything accepted has been popped.
pub proof fn lemma_bounded_fifo<T>(qs: Seq<BoundedSpsc<T>>, steps: Seq<Step<T>>)
    requires
        qs.len() == steps.len() + 1,
        qs[0].wf(),
        qs[0]@.len() == 0,
        forall|i: int| 0 <= i < steps.len() ==> bounded_step(qs[i], steps[i], #[trigger] qs[i + 1]),
    ensures
        accepted(steps) == delivered(steps) + qs.last()@,
        qs.last()@.len() == 0 <==> accepted(steps).len() == delivered(steps).len(),
{
    let views = Seq::new(qs.len(), |i: int| qs[i]@);
    assert forall|i: int| 0 <= i < steps.len() implies step_ok(
        views[i],
        steps[i],
        #[trigger] views[i + 1],
    ) by {
        assert(bounded_step(qs[i], steps[i], qs[i + 1]));
    }
    assert(is_run(views, steps));
    lemma_fifo(views, steps);
    lemma_empty_iff_drained(views, steps);
}

/// A bounded queue never holds more than `capacity - 1` values: one slot
/// always stays free.
pub proof fn lemma_len_bound<T>(q: BoundedSpsc<T>)
    requires
        q.wf(),
    ensures
        q@.len() <= q.cap() - 1,
{
}

/// Pushing onto an empty bounded queue of capacity `C` succeeds exactly
/// `C - 1` times: push number `i` (from zero) succeeds if and only if
/// `i < C - 1`.
pub proof fn lemma_capacity_distinction<T>(
    qs: Seq<BoundedSpsc<T>>,
    values: Seq<T>,
    results: Seq<Result<(), T>>,
)
    requires
        qs.len() == values.len() + 1,
        results.len() == values.len(),
        qs[0].wf(),
        qs[0]@.len() == 0,
        forall|i: int|
            0 <= i < values.len() ==> push_result(qs[i], values[i], results[i], #[trigger] qs[i + 1]),
    ensures
        forall|i: int|
            0 <= i < values.len() ==> ((#[trigger] results[i]) is Ok <==> i < qs[0].cap() - 1),
{
    assert forall|i: int| 0 <= i <= values.len() implies (#[trigger] qs[i]).cap() == qs[0].cap()
        && qs[i]@.len() == (if i < qs[0].cap() - 1 {
        i
    } else {
        qs[0].cap() - 1
    }) by {
        lemma_capacity_prefix(qs, values, results, i);
    }
    assert forall|i: int| 0 <= i < values.len() implies ((#[trigger] results[i]) is Ok <==> i
        < qs[0].cap() - 1) by {
        assert(push_result(qs[i], values[i], results[i], qs[i + 1]));
    }
}

proof fn lemma_capacity_prefix<T>(
    qs: Seq<BoundedSpsc<T>>,
    values: Seq<T>,
    results: Seq<Result<(), T>>,
    i: int,
)
    requires
        qs.len() == values.len() + 1,
        results.len() == values.len(),
        qs[0].wf(),
        qs[0]@.len() == 0,
        forall|j: int|
            0 <= j < values.len() ==> push_result(qs[j], values[j], results[j], #[trigger] qs[j + 1]),
        0 <= i <= values.len(),
    ensures
        qs[i].cap() == qs[0].cap(),
        qs[i]@.len() == (if i < qs[0].cap() - 1 {
            i
        } else {
            qs[0].cap() - 1
        }),
    decreases i,
{
    if i > 0 {
        lemma_capacity_prefix(qs, values, results, i - 1);
        let j = i - 1;
        assert(push_result(qs[j], values[j], results[j], qs[j + 1]));
    }
}

/// Once a full bounded queue gives up one value, exactly one more push
/// succeeds before it is full again.
pub proof fn lemma_one_more_after_pop<T>(
    full: BoundedSpsc<T>,
    popped: Option<T>,
    after_pop: BoundedSpsc<T>,
    x: T,
    r1: Result<(), T>,
    after_x: BoundedSpsc<T>,
    y: T,
    r2: Result<(), T>,
    after_y: BoundedSpsc<T>,
)
    requires
        full.wf(),
        full@.len() == full.cap() - 1,
        pop_result(full, popped, after_pop),
        push_result(after_pop, x, r1, after_x),
        push_result(after_x, y, r2, after_y),
    ensures
        popped is Some,
        r1 is Ok,
        r2 is Err,
        after_y == after_x,
        after_x@.len() == full.cap() - 1,
{
}

/// A well-formed bounded queue holds a value in exactly the slots of its
/// live items, one slot per item, each holding that item: so dropping the
/// queue destroys exactly the values pushed and not yet popped.
pub proof fn lemma_live_slots<T>(q: BoundedSpsc<T>)
    requires
        q.wf(),
    ensures
        forall|k: int|
            0 <= k < q@.len() ==> {
                let i = ring_slot(q.tail_index(), k, q.cap() as int);
                &&& 0 <= i < q.cap()
                &&& q.occupied(i)
                &&& q.slot_value(i) == #[trigger] q@[k]
            },
        forall|k1: int, k2: int|
            0 <= k1 < k2 < q@.len() ==> #[trigger] ring_slot(q.tail_index(), k1, q.cap() as int) != #[trigger] ring_slot(
                q.tail_index(),
                k2,
                q.cap() as int,
            ),
        forall|i: int|
            0 <= i < q.cap() ==> (q.occupied(i) <==> exists|k: int|
                0 <= k < q@.len() && ring_slot(q.tail_index(), k, q.cap() as int) == i),
{
    let cap = q.cap() as int;
    let t = q.tail_index();
    assert forall|k: int| 0 <= k < q@.len() implies {
        let i = ring_slot(t, k, cap);
        &&& 0 <= i < cap
        &&& q.occupied(i)
        &&& q.slot_value(i) == #[trigger] q@[k]
    } by {
        let i = ring_slot(t, k, cap);
        assert(q.buffer@[i] is Some);
    }
    assert forall|i: int| 0 <= i < cap implies (q.occupied(i) <==> exists|k: int|
        0 <= k < q@.len() && ring_slot(t, k, cap) == i) by {
        if q.occupied(i) {
            let k = ring_offset(i, t, cap);
            assert(ring_slot(t, k, cap) == i);
        }
        if exists|k: int| 0 <= k < q@.len() && ring_slot(t, k, cap) == i {
            let k = choose|k: int| 0 <= k < q@.len() && ring_slot(t, k, cap) == i;
            assert(q.buffer@[i] is Some);
        }
    }
}

} // verus!
