//! Unbounded single-producer single-consumer queue, kept as a chain of
//! fixed-size ring segments.
//!
//! The producer appends to the last segment and links a fresh one behind it
//! when it is full; the consumer pops from the first segment and frees it once
//! it is drained and a successor exists.
use std::collections::VecDeque;
use vstd::prelude::*;

use crate::fifo::{accepted, delivered, is_run, lemma_empty_iff_drained, lemma_fifo, step_ok, Step};
use crate::inner_spsc::{ring_len, ring_next, ring_offset, ring_slot};

verus! {

/// Number of slots in every segment (a power of two).
pub const SEGMENT_SIZE: usize = 128;

/// `SEGMENT_SIZE - 1`, used to wrap an index around a segment.
pub const MASK: usize = 0x7F;

/// Masking the incremented index is the ring successor in a segment.
pub proof fn lemma_mask_next(i: usize)
    requires
        i < SEGMENT_SIZE,
    ensures
        ((((i + 1) as usize) & MASK) as int) == ring_next(i as int, SEGMENT_SIZE as int),
{
    assert(i < 128usize ==> (((i + 1) as usize) & 0x7Fusize) == (if i < 127usize {
        ((i + 1) as usize)
    } else {
        0usize
    })) by (bit_vector);
}

/// A ring buffer of `SEGMENT_SIZE` slots in the unbounded queue's chain.
pub struct Segment<T> {
    next_head: usize,
    tail: usize,
    slots: Vec<Option<T>>,
    next_block: bool,
}

impl<T> Segment<T> {
    /// The slot the producer writes next.
    pub closed spec fn head_index(&self) -> int {
        self.next_head as int
    }

    /// The slot the consumer reads next.
    pub closed spec fn tail_index(&self) -> int {
        self.tail as int
    }

    /// Whether a successor segment has been linked behind this one.
    pub closed spec fn linked(&self) -> bool {
        self.next_block
    }

    /// Both indices in range, and a value in exactly the slots from `tail`
    /// up to `next_head`.
    pub closed spec fn wf(&self) -> bool {
        &&& self.slots@.len() == SEGMENT_SIZE
        &&& self.next_head < SEGMENT_SIZE
        &&& self.tail < SEGMENT_SIZE
        &&& forall|i: int|
            0 <= i < SEGMENT_SIZE ==> (#[trigger] self.slots@[i] is Some <==> ring_offset(
                i,
                self.tail as int,
                SEGMENT_SIZE as int,
            ) < ring_len(self.next_head as int, self.tail as int, SEGMENT_SIZE as int))
    }
}

impl<T> View for Segment<T> {
    type V = Seq<T>;

    /// The values in the segment, oldest first.
    closed spec fn view(&self) -> Seq<T> {
        Seq::new(
            ring_len(self.next_head as int, self.tail as int, SEGMENT_SIZE as int) as nat,
            |k: int| self.slots@[ring_slot(self.tail as int, k, SEGMENT_SIZE as int)]->Some_0,
        )
    }
}

impl<T> Segment<T> {
    /// Creates an empty, unlinked segment.
    pub fn new() -> (s: Self)
        ensures
            s.wf(),
            s@ == Seq::<T>::empty(),
            !s.linked(),
            s.head_index() == 0,
            s.tail_index() == 0,
    {
        let mut slots: Vec<Option<T>> = Vec::with_capacity(SEGMENT_SIZE);
        let mut i: usize = 0;
        while i < SEGMENT_SIZE
            invariant
                i <= SEGMENT_SIZE,
                slots@.len() == i,
                forall|j: int| 0 <= j < i ==> #[trigger] slots@[j] is None,
            decreases SEGMENT_SIZE - i,
        {
            slots.push(None);
            i = i + 1;
        }
        let s = Segment { next_head: 0, tail: 0, slots, next_block: false };
        assert(s@ =~= Seq::<T>::empty());
        s
    }

    /// Appends `value`, or hands it back unchanged when the segment already
    /// holds `SEGMENT_SIZE - 1` values.
    pub fn push(&mut self, value: T) -> (r: Result<(), T>)
        requires
            old(self).wf(),
        ensures
            final(self).wf(),
            final(self).linked() == old(self).linked(),
            final(self)@.len() <= SEGMENT_SIZE - 1,
            r is Err <==> old(self)@.len() == SEGMENT_SIZE - 1,
            r is Ok ==> final(self)@ == old(self)@.push(value),
            r is Ok ==> final(self).tail_index() == old(self).tail_index(),
            r is Ok ==> final(self).head_index() == ((old(self).head_index() + 1) as usize
                & MASK),
            r matches Err(v) ==> v == value && *final(self) == *old(self),
    {
        let curr_head = self.next_head;
        let next_head = (curr_head + 1) & MASK;
        proof {
            lemma_mask_next(curr_head);
        }
        if next_head == self.tail {
            return Err(value);
        }
        self.slots.set(curr_head, Some(value));
        self.next_head = next_head;
        assert(self@ =~= old(self)@.push(value));
        Ok(())
    }

    /// Removes and returns the oldest value, or `None` when the segment is
    /// empty.
    pub fn pop(&mut self) -> (r: Option<T>)
        requires
            old(self).wf(),
        ensures
            final(self).wf(),
            final(self).linked() == old(self).linked(),
            r is None <==> old(self)@.len() == 0,
            r is None ==> *final(self) == *old(self),
            r matches Some(v) ==> v == old(self)@[0] && final(self)@ == old(self)@.drop_first(),
            r is Some ==> final(self).head_index() == old(self).head_index(),
            r is Some ==> final(self).tail_index() == ((old(self).tail_index() + 1) as usize
                & MASK),
    {
        let curr_tail = self.tail;
        if self.next_head == curr_tail {
            return None;
        }
        let next_tail = (curr_tail + 1) & MASK;
        proof {
            lemma_mask_next(curr_tail);
        }
        let value = self.slots[curr_tail].take();
        self.tail = next_tail;
        assert(self@ =~= old(self)@.drop_first());
        value
    }

    /// Whether a successor segment has been linked behind this one.
    fn has_next(&self) -> (r: bool)
        ensures
            r == self.linked(),
    {
        self.next_block
    }

    /// Creates a fresh segment and records it as this segment's successor.
    /// The link is written once: this segment must not have one yet.
    pub fn link_new_block(&mut self) -> (r: Segment<T>)
        requires
            !old(self).linked(),
        ensures
            final(self).linked(),
            final(self)@ == old(self)@,
            old(self).wf() ==> final(self).wf(),
            r.wf(),
            r@ == Seq::<T>::empty(),
            !r.linked(),
    {
        let block = Segment::new();
        self.next_block = true;
        block
    }

    /// Links a fresh successor segment and pushes `value` into it.
    pub fn link_and_push(&mut self, value: T) -> (r: Segment<T>)
        requires
            !old(self).linked(),
        ensures
            final(self).linked(),
            final(self)@ == old(self)@,
            old(self).wf() ==> final(self).wf(),
            r.wf(),
            r@ == seq![value],
            !r.linked(),
    {
        let mut block = self.link_new_block();
        let pushed = block.push(value);
        assert(pushed is Ok);
        assert(block@ =~= seq![value]);
        block
    }
}

/// The values held by a chain of segments, first segment first.
pub open spec fn chain_items<T>(segs: Seq<Segment<T>>) -> Seq<T>
    decreases segs.len(),
{
    if segs.len() == 0 {
        Seq::empty()
    } else {
        chain_items(segs.drop_last()) + segs.last()@
    }
}

/// The chain's values are the first segment's followed by the rest's.
proof fn lemma_chain_front<T>(segs: Seq<Segment<T>>)
    requires
        segs.len() >= 1,
    ensures
        chain_items(segs) == segs[0]@ + chain_items(segs.subrange(1, segs.len() as int)),
    decreases segs.len(),
{
    let rest = segs.subrange(1, segs.len() as int);
    if segs.len() == 1 {
        assert(segs.drop_last() =~= Seq::<Segment<T>>::empty());
        assert(rest =~= Seq::<Segment<T>>::empty());
        assert(chain_items(segs.drop_last()) =~= Seq::<T>::empty());
        assert(chain_items(rest) =~= Seq::<T>::empty());
        assert(segs.last() == segs[0]);
        assert(chain_items(segs) =~= segs[0]@);
    } else {
        lemma_chain_front(segs.drop_last());
        assert(segs.drop_last().subrange(1, segs.len() - 1) =~= rest.drop_last());
        assert(rest.last() == segs.last());
        assert(chain_items(segs) =~= segs[0]@ + chain_items(rest));
    }
}

/// An unbounded single-producer single-consumer queue: a chain of segments
/// whose first segment is the consumer's and whose last is the producer's.
pub struct RawSpsc<T> {
    segments: VecDeque<Segment<T>>,
}

impl<T> RawSpsc<T> {
    /// The segments of the chain, first to last.
    pub closed spec fn chain(&self) -> Seq<Segment<T>> {
        self.segments@
    }

    /// The chain holds at least one segment; every segment but the last has
    /// a successor linked; every segment but the first holds a value, and
    /// every segment between the first and the last is full.
    pub closed spec fn wf(&self) -> bool {
        let segs = self.segments@;
        &&& segs.len() >= 1
        &&& forall|i: int| 0 <= i < segs.len() ==> (#[trigger] segs[i]).wf()
        &&& forall|i: int| 0 <= i < segs.len() ==> ((#[trigger] segs[i]).linked() <==> i < segs.len() - 1)
        &&& forall|i: int| 1 <= i < segs.len() ==> (#[trigger] segs[i])@.len() > 0
        &&& forall|i: int| 1 <= i < segs.len() - 1 ==> (#[trigger] segs[i])@.len() == SEGMENT_SIZE - 1
    }
}

impl<T> View for RawSpsc<T> {
    type V = Seq<T>;

    /// The values in the queue, oldest first.
    closed spec fn view(&self) -> Seq<T> {
        chain_items(self.segments@)
    }
}

impl<T> RawSpsc<T> {
    /// Creates an empty queue of one segment.
    pub fn new() -> (q: Self)
        ensures
            q.wf(),
            q@ == Seq::<T>::empty(),
            q.chain().len() == 1,
            q.chain()[0]@ == Seq::<T>::empty(),
            !q.chain()[0].linked(),
    {
        let mut segments: VecDeque<Segment<T>> = VecDeque::new();
        let first = Segment::new();
        segments.push_back(first);
        let q = RawSpsc { segments };
        assert(q.segments@.drop_last() =~= Seq::<Segment<T>>::empty());
        assert(chain_items(q.segments@.drop_last()) =~= Seq::<T>::empty());
        assert(q@ =~= Seq::<T>::empty());
        q
    }

    /// Producer side: appends `value`, linking a new segment behind the last
    /// one when that one is full. Never fails.
    pub fn push(&mut self, value: T)
        requires
            old(self).wf(),
        ensures
            final(self).wf(),
            final(self)@ == old(self)@.push(value),
            forall|i: int|
                0 <= i < old(self).chain().len() - 1 ==> #[trigger] final(self).chain()[i] == old(
                    self,
                ).chain()[i],
            old(self).chain().last()@.len() == SEGMENT_SIZE - 1 <==> final(self).chain().len()
                == old(self).chain().len() + 1,
            old(self).chain().last()@.len() == SEGMENT_SIZE - 1 ==> {
                &&& final(self).chain().last()@ == seq![value]
                &&& final(self).chain()[old(self).chain().len() - 1]@ == old(self).chain().last()@
            },
            old(self).chain().last()@.len() < SEGMENT_SIZE - 1 ==> {
                &&& final(self).chain().len() == old(self).chain().len()
                &&& final(self).chain().last()@ == old(self).chain().last()@.push(value)
            },
    {
        let ghost segs = self.segments@;
        let mut last = self.segments.pop_back().unwrap();
        assert(self.segments@ =~= segs.drop_last());
        match last.push(value) {
            Ok(()) => {
                self.segments.push_back(last);
                assert(self.segments@.drop_last() =~= segs.drop_last());
                assert(self@ =~= old(self)@.push(value));
            },
            Err(v) => {
                let fresh = last.link_and_push(v);
                self.segments.push_back(last);
                let ghost mid = self.segments@;
                self.segments.push_back(fresh);
                assert(self.segments@.drop_last() =~= mid);
                assert(mid.drop_last() =~= segs.drop_last());
                assert(chain_items(mid) == chain_items(segs.drop_last()) + mid.last()@);
                assert(chain_items(segs) == chain_items(segs.drop_last()) + segs.last()@);
                assert(self@ =~= old(self)@.push(value));
            },
        }
    }

    /// Consumer side: removes and returns the oldest value, or `None` when
    /// the queue is empty. A drained first segment with a successor is freed.
    pub fn pop(&mut self) -> (r: Option<T>)
        requires
            old(self).wf(),
        ensures
            final(self).wf(),
            final(self)@.len() == 0 ==> final(self).chain().len() == 1,
            r is None <==> old(self)@.len() == 0,
            r is None ==> final(self)@ == old(self)@,
            r is None ==> final(self).chain() == old(self).chain(),
            final(self).chain().last().head_index() == old(self).chain().last().head_index(),
            old(self).chain().len() > 1 && (old(self).chain()[0]@.len() > 0
                || old(self).chain().len() > 2) ==> final(self).chain().last() == old(
                self,
            ).chain().last(),
            old(self).chain()[0]@.len() > 0 ==> {
                &&& final(self).chain().len() == old(self).chain().len()
                &&& final(self).chain()[0]@ == old(self).chain()[0]@.drop_first()
                &&& final(self).chain().drop_first() == old(self).chain().drop_first()
            },
            old(self).chain()[0]@.len() == 0 && old(self).chain().len() > 1 ==> {
                &&& final(self).chain().len() == old(self).chain().len() - 1
                &&& final(self).chain()[0]@ == old(self).chain()[1]@.drop_first()
                &&& final(self).chain().drop_first() == old(self).chain().subrange(
                    2,
                    old(self).chain().len() as int,
                )
            },
            r matches Some(v) ==> v == old(self)@[0] && final(self)@ == old(self)@.drop_first(),
    {
        let ghost segs = self.segments@;
        proof {
            lemma_chain_front(segs);
        }
        let mut first = self.segments.pop_front().unwrap();
        let ghost rest = self.segments@;
        match first.pop() {
            Some(v) => {
                self.segments.push_front(first);
                proof {
                    lemma_chain_front(self.segments@);
                    assert(self.segments@.subrange(1, self.segments@.len() as int) =~= rest);
                }
                assert(self@ =~= old(self)@.drop_first());
                Some(v)
            },
            None => {
                if !first.has_next() {
                    self.segments.push_front(first);
                    assert(self.segments@ =~= segs);
                    assert(rest.len() == 0);
                    assert(chain_items(rest) =~= Seq::<T>::empty());
                    return None;
                }
                proof {
                    lemma_chain_front(rest);
                }
                let mut next = self.segments.pop_front().unwrap();
                let ghost rest2 = self.segments@;
                assert(rest.subrange(1, rest.len() as int) =~= rest2);
                let r = next.pop();
                self.segments.push_front(next);
                proof {
                    lemma_chain_front(self.segments@);
                    assert(self.segments@.subrange(1, self.segments@.len() as int) =~= rest2);
                }
                assert(self@ =~= old(self)@.drop_first());
                r
            },
        }
    }
}

proof fn lemma_full_prefix<T>(segs: Seq<Segment<T>>, m: int)
    requires
        1 <= m <= segs.len(),
        forall|i: int| 1 <= i < m ==> (#[trigger] segs[i])@.len() == SEGMENT_SIZE - 1,
    ensures
        chain_items(segs.subrange(0, m)).len() >= (m - 1) * (SEGMENT_SIZE - 1),
    decreases m,
{
    let pre = segs.subrange(0, m);
    if m > 1 {
        lemma_full_prefix(segs, m - 1);
        assert(pre.drop_last() =~= segs.subrange(0, m - 1));
        assert(pre.last() == segs[m - 1]);
    }
}

/// A well-formed chain with no queued value is a single segment: every
/// segment after the first holds a value.
pub proof fn lemma_empty_single_segment<T>(q: RawSpsc<T>)
    requires
        q.wf(),
        q@.len() == 0,
    ensures
        q.chain().len() == 1,
{
    let segs = q.segments@;
    if segs.len() > 1 {
        assert(segs[segs.len() - 1]@.len() > 0);
        assert(chain_items(segs).len() >= segs.last()@.len());
    }
}

/// Segments are freed as the consumer passes them: a chain never holds
/// more than two segments beyond one per `SEGMENT_SIZE - 1` queued values.
pub proof fn lemma_segment_count<T>(q: RawSpsc<T>)
    requires
        q.wf(),
    ensures
        (q.chain().len() - 2) * (SEGMENT_SIZE - 1) <= q@.len(),
{
    let segs = q.segments@;
    let n = segs.len() as int;
    if n >= 2 {
        lemma_full_prefix(segs, n - 1);
        assert(segs.drop_last() =~= segs.subrange(0, n - 1));
    }
}

/// Whether `step` takes the unbounded queue `pre` to `post`, as `push` and
/// `pop` promise; every push is accepted.
pub open spec fn unbounded_step<T>(pre: RawSpsc<T>, step: Step<T>, post: RawSpsc<T>) -> bool {
    &&& post.wf()
    &&& match step {
        Step::Push(v, r) => r is Ok && post@ == pre@.push(v),
        Step::Pop(r) => {
            &&& (r is None <==> pre@.len() == 0)
            &&& (r is None ==> post@ == pre@)
            &&& (r matches Some(v) ==> v == pre@[0] && post@ == pre@.drop_first())
        },
    }
}

/// First in, first out, for the unbounded queue, however many segments the
/// values span: over any run of pushes and pops from an empty queue, every
/// pushed value comes out once, in push order, after those pushed before it.
pub proof fn lemma_unbounded_fifo<T>(qs: Seq<RawSpsc<T>>, steps: Seq<Step<T>>)
    requires
        qs.len() == steps.len() + 1,
        qs[0].wf(),
        qs[0]@.len() == 0,
        forall|i: int| 0 <= i < steps.len() ==> unbounded_step(qs[i], steps[i], #[trigger] qs[i + 1]),
    ensures
        accepted(steps) == delivered(steps) + qs.last()@,
        qs.last()@.len() == 0 <==> accepted(steps).len() == delivered(steps).len(),
{
    let views = Seq::new(qs.len(), |i: int| qs[i]@);
    assert forall|i: int| 0 <= i < steps.len() implies step_ok(
        views[i],
        steps[i],
        #[trigger] views[i + 1],
    ) by {
        assert(unbounded_step(qs[i], steps[i], qs[i + 1]));
    }
    assert(is_run(views, steps));
    lemma_fifo(views, steps);
    lemma_empty_iff_drained(views, steps);
}

} // verus!
