//! The bounded queue that carries samples from the capture side to the
//! analysis side.

use vstd::prelude::*;

verus! {

/// One amplitude value in fixed point: `SAMPLE_ONE` units make up full scale.
/// Values beyond full scale are legal and are carried through unchanged.
pub type Sample = i32;

/// The fixed-point representation of the amplitude 1.0.
pub const SAMPLE_ONE: i32 = 65536;

/// What a queue holding `q` with room for `capacity` samples holds after one
/// sample is offered: the sample is appended if there is room and dropped
/// otherwise.
pub open spec fn offer(q: Seq<Sample>, capacity: nat, s: Sample) -> Seq<Sample> {
    if q.len() < capacity {
        q.push(s)
    } else {
        q
    }
}

/// What the queue holds after every sample of `xs` has been offered in order.
pub open spec fn offer_all(q: Seq<Sample>, capacity: nat, xs: Seq<Sample>) -> Seq<Sample>
    decreases xs.len(),
{
    if xs.len() == 0 {
        q
    } else {
        offer_all(offer(q, capacity, xs[0]), capacity, xs.drop_first())
    }
}

/// The number of free places in a queue holding `q`.
pub open spec fn room(q: Seq<Sample>, capacity: nat) -> nat {
    if q.len() <= capacity {
        (capacity - q.len()) as nat
    } else {
        0
    }
}

/// What is left of `q` after `k` samples have been popped.
pub open spec fn after_pops(q: Seq<Sample>, k: nat) -> Seq<Sample>
    decreases k,
{
    if k == 0 || q.len() == 0 {
        q
    } else {
        after_pops(q.drop_first(), (k - 1) as nat)
    }
}

/// Offering a run of samples admits the longest prefix that fits and drops the
/// rest: what was buffered before stays in place, in order, and the queue
/// never grows beyond its capacity.
pub proof fn lemma_offer_all_admits_prefix(q: Seq<Sample>, capacity: nat, xs: Seq<Sample>)
    requires
        q.len() <= capacity,
    ensures
        offer_all(q, capacity, xs) == q + xs.subrange(
            0,
            if xs.len() <= room(q, capacity) {
                xs.len() as int
            } else {
                room(q, capacity) as int
            },
        ),
        offer_all(q, capacity, xs).len() <= capacity,
    decreases xs.len(),
{
    let kept = if xs.len() <= room(q, capacity) {
        xs.len() as int
    } else {
        room(q, capacity) as int
    };
    if xs.len() == 0 {
        assert(q + xs.subrange(0, kept) =~= q);
    } else {
        let next = offer(q, capacity, xs[0]);
        let rest = xs.drop_first();
        lemma_offer_all_admits_prefix(next, capacity, rest);
        let kept_rest = if rest.len() <= room(next, capacity) {
            rest.len() as int
        } else {
            room(next, capacity) as int
        };
        assert(next + rest.subrange(0, kept_rest) =~= q + xs.subrange(0, kept));
    }
}

/// Samples pushed while there is room are all accepted, and they leave the
/// queue in the order in which they were pushed, behind what was buffered
/// before them.
pub proof fn lemma_pushes_within_capacity_are_fifo(
    q: Seq<Sample>,
    capacity: nat,
    xs: Seq<Sample>,
    i: nat,
)
    requires
        q.len() + xs.len() <= capacity,
        i < q.len() + xs.len(),
    ensures
        offer_all(q, capacity, xs) == q + xs,
        after_pops(offer_all(q, capacity, xs), i).len() > 0,
        after_pops(offer_all(q, capacity, xs), i)[0] == (q + xs)[i as int],
{
    lemma_offer_all_admits_prefix(q, capacity, xs);
    assert(xs.subrange(0, xs.len() as int) =~= xs);
    lemma_after_pops_skips(q + xs, i);
}

/// Popping `k` samples from a queue that holds at least `k` removes exactly
/// its first `k` samples.
pub proof fn lemma_after_pops_skips(q: Seq<Sample>, k: nat)
    requires
        k <= q.len(),
    ensures
        after_pops(q, k) == q.subrange(k as int, q.len() as int),
    decreases k,
{
    if k == 0 || q.len() == 0 {
        assert(q.subrange(k as int, q.len() as int) =~= q);
    } else {
        let rest = q.drop_first();
        lemma_after_pops_skips(rest, (k - 1) as nat);
        assert(rest.subrange(k - 1, rest.len() as int) =~= q.subrange(k as int, q.len() as int));
    }
}

/// Offering a run of samples and then one more is offering the longer run.
pub proof fn lemma_offer_all_push(q: Seq<Sample>, capacity: nat, xs: Seq<Sample>, s: Sample)
    ensures
        offer_all(q, capacity, xs.push(s)) == offer(offer_all(q, capacity, xs), capacity, s),
    decreases xs.len(),
{
    if xs.len() == 0 {
        assert(xs.push(s).drop_first() =~= xs);
        assert(offer_all(offer(q, capacity, s), capacity, xs) == offer(q, capacity, s));
    } else {
        lemma_offer_all_push(offer(q, capacity, xs[0]), capacity, xs.drop_first(), s);
        assert(xs.push(s).drop_first() =~= xs.drop_first().push(s));
    }
}

/// A fixed-capacity first-in first-out queue of samples with non-blocking
/// operations. The storage is a ring: the consumer owns `head`, the producer
/// writes at `head + len`.
pub struct SampleChannel {
    slots: Vec<Sample>,
    head: usize,
    len: usize,
}

impl View for SampleChannel {
    type V = Seq<Sample>;

    /// The buffered samples, oldest first.
    closed spec fn view(&self) -> Seq<Sample> {
        Seq::new(self.len as nat, |i: int| self.slots@[self.slot_of(i)])
    }
}

impl SampleChannel {
    /// The ring is well formed: the cursors lie inside the storage.
    pub closed spec fn wf(&self) -> bool {
        &&& self.len <= self.slots@.len()
        &&& (self.head < self.slots@.len() || (self.head == 0 && self.slots@.len() == 0))
    }

    /// The storage index of the `i`-th buffered sample.
    spec fn slot_of(&self, i: int) -> int {
        if self.head + i < self.slots@.len() {
            self.head + i
        } else {
            self.head + i - self.slots@.len()
        }
    }

    /// The greatest number of samples the channel can hold.
    pub closed spec fn spec_capacity(&self) -> nat {
        self.slots@.len()
    }

    /// A well-formed channel never holds more than its capacity.
    pub proof fn lemma_within_capacity(&self)
        requires
            self.wf(),
        ensures
            self@.len() <= self.spec_capacity(),
    {
    }

    /// An empty channel with room for `capacity` samples.
    pub fn with_capacity(capacity: usize) -> (ch: Self)
        ensures
            ch.wf(),
            ch@ == Seq::<Sample>::empty(),
            ch.spec_capacity() == capacity,
    {
        let mut slots: Vec<Sample> = Vec::new();
        let mut i: usize = 0;
        while i < capacity
            invariant
                i <= capacity,
                slots@.len() == i,
            decreases capacity - i,
        {
            slots.push(0);
            i += 1;
        }
        let ch = SampleChannel { slots, head: 0, len: 0 };
        assert(ch@ =~= Seq::<Sample>::empty());
        ch
    }

    /// A channel for a target latency of `latency` samples: it has room for
    /// twice as many and starts out holding `latency` samples of silence, so
    /// that the consumer runs that far behind the producer.
    pub fn new(latency: usize) -> (ch: Self)
        requires
            2 * latency <= usize::MAX,
        ensures
            ch.wf(),
            ch@ == Seq::new(latency as nat, |i: int| 0i32),
            ch.spec_capacity() == 2 * latency,
    {
        let mut ch = SampleChannel::with_capacity(2 * latency);
        let mut i: usize = 0;
        while i < latency
            invariant
                i <= latency,
                ch.wf(),
                ch.spec_capacity() == 2 * latency,
                ch@ == Seq::new(i as nat, |j: int| 0i32),
            decreases latency - i,
        {
            let ghost before = ch@;
            ch.try_push(0);
            i += 1;
            assert(before.push(0i32) =~= Seq::new(i as nat, |j: int| 0i32));
        }
        ch
    }

    /// The number of samples the channel can hold.
    pub fn capacity(&self) -> (c: usize)
        ensures
            c == self.spec_capacity(),
    {
        self.slots.len()
    }

    /// The number of buffered samples.
    pub fn len(&self) -> (n: usize)
        requires
            self.wf(),
        ensures
            n == self@.len(),
            n <= self.spec_capacity(),
    {
        self.len
    }

    /// Whether nothing is buffered.
    pub fn is_empty(&self) -> (b: bool)
        ensures
            b == (self@.len() == 0),
    {
        self.len == 0
    }

    /// Whether the next push would be dropped.
    pub fn is_full(&self) -> (b: bool)
        requires
            self.wf(),
        ensures
            b == (self@.len() >= self.spec_capacity()),
    {
        self.len == self.slots.len()
    }

    /// Appends `sample` if there is room and reports whether it was accepted.
    /// On a full channel the sample is dropped and nothing changes.
    pub fn try_push(&mut self, sample: Sample) -> (accepted: bool)
        requires
            old(self).wf(),
        ensures
            final(self).wf(),
            accepted == (old(self)@.len() < old(self).spec_capacity()),
            final(self)@ == offer(old(self)@, old(self).spec_capacity(), sample),
            final(self).spec_capacity() == old(self).spec_capacity(),
            final(self)@.len() <= final(self).spec_capacity(),
    {
        let cap = self.slots.len();
        if self.len == cap {
            return false;
        }
        let gap = cap - self.len;
        let at = if self.head >= gap {
            self.head - gap
        } else {
            self.head + self.len
        };
        let ghost before = *self;
        self.slots.set(at, sample);
        self.len = self.len + 1;
        assert(self@ =~= before@.push(sample));
        true
    }

    /// Removes and returns the oldest buffered sample, or `None` when the
    /// channel is empty.
    pub fn try_pop(&mut self) -> (popped: Option<Sample>)
        requires
            old(self).wf(),
        ensures
            final(self).wf(),
            final(self).spec_capacity() == old(self).spec_capacity(),
            final(self)@.len() <= final(self).spec_capacity(),
            final(self)@ == after_pops(old(self)@, 1),
            popped == (if old(self)@.len() > 0 {
                Some(old(self)@[0])
            } else {
                None
            }),
            final(self)@ == (if old(self)@.len() > 0 {
                old(self)@.drop_first()
            } else {
                old(self)@
            }),
    {
        if self.len == 0 {
            return None;
        }
        let ghost before = *self;
        let cap = self.slots.len();
        let s = self.slots[self.head];
        let next = if self.head + 1 == cap {
            0
        } else {
            self.head + 1
        };
        self.head = next;
        self.len = self.len - 1;
        assert(self@ =~= before@.drop_first());
        assert(after_pops(before@, 1) == after_pops(before@.drop_first(), 0));
        Some(s)
    }
}

} // verus!
