//! A bounded first-in first-out queue of audio sample words between the
//! capture callback and the per-frame update.

use vstd::prelude::*;
use ringbuf::{Consumer, Producer, RingBuffer};

verus! {

/// Largest capacity a channel can be created with.
pub const MAX_CAPACITY: usize = 0x100_0000;

/// The two halves of a lock-free ring buffer of sample words.
#[verifier::external_body]
pub struct SampleRing {
    producer: Producer<u32>,
    consumer: Consumer<u32>,
}

/// The samples held by a ring, oldest first.
pub uninterp spec fn ring_contents(r: SampleRing) -> Seq<u32>;

/// The number of samples a ring can hold at once.
pub uninterp spec fn ring_capacity(r: SampleRing) -> nat;

/// Relies on ringbuf's `RingBuffer::new` and `split`: an empty buffer of the
/// given capacity.
#[verifier::external_body]
fn ring_new(capacity: usize) -> (r: SampleRing)
    requires
        capacity <= MAX_CAPACITY,
    ensures
        ring_contents(r) == Seq::<u32>::empty(),
        ring_capacity(r) == capacity as nat,
{
    let (producer, consumer) = RingBuffer::<u32>::new(capacity).split();
    SampleRing { producer, consumer }
}

/// Relies on ringbuf's `Producer::push`: appends unless the buffer is full,
/// in which case the sample is handed back and nothing changes.
#[verifier::external_body]
fn ring_push(r: &mut SampleRing, sample: u32) -> (ok: bool)
    ensures
        ring_capacity(*final(r)) == ring_capacity(*old(r)),
        ok == (ring_contents(*old(r)).len() < ring_capacity(*old(r))),
        ok ==> ring_contents(*final(r)) == ring_contents(*old(r)).push(sample),
        !ok ==> ring_contents(*final(r)) == ring_contents(*old(r)),
{
    r.producer.push(sample).is_ok()
}

/// Relies on ringbuf's `Consumer::pop`: removes the oldest sample, or gives
/// `None` when the buffer is empty.
#[verifier::external_body]
fn ring_pop(r: &mut SampleRing) -> (out: Option<u32>)
    ensures
        ring_capacity(*final(r)) == ring_capacity(*old(r)),
        ring_contents(*old(r)).len() == 0 ==> out is None && ring_contents(*final(r))
            == ring_contents(*old(r)),
        ring_contents(*old(r)).len() > 0 ==> out == Some(ring_contents(*old(r))[0])
            && ring_contents(*final(r)) == ring_contents(*old(r)).drop_first(),
{
    r.consumer.pop()
}

/// Relies on ringbuf's `Consumer::len`: the number of samples held.
#[verifier::external_body]
fn ring_len(r: &SampleRing) -> (n: usize)
    ensures
        n == ring_contents(*r).len(),
{
    r.consumer.len()
}

/// What the queue holds after offering `samples` to a queue holding `q` with
/// room for `capacity`: as many as fit are appended, in order.
pub open spec fn pushed(q: Seq<u32>, capacity: nat, samples: Seq<u32>) -> Seq<u32> {
    q + samples.take(accepted(q.len(), capacity, samples.len()) as int)
}

/// How many of `n` offered samples fit into a queue of `len` out of `capacity`.
pub open spec fn accepted(len: nat, capacity: nat, n: nat) -> nat {
    if len >= capacity {
        0
    } else if n <= capacity - len {
        n
    } else {
        (capacity - len) as nat
    }
}

/// What taking a block of `n` samples off a queue holding `q` gives: the block
/// and the rest, or `None` (with the queue untouched) when fewer are held.
pub open spec fn popped(q: Seq<u32>, n: nat) -> Option<(Seq<u32>, Seq<u32>)> {
    if q.len() < n {
        None
    } else {
        Some((q.take(n as int), q.skip(n as int)))
    }
}

/// Offering `k` samples, no more than the capacity, to an empty channel and
/// then taking a block of `k` gives back the same samples in the same order,
/// and leaves the channel empty.
pub proof fn lemma_round_trip(capacity: nat, samples: Seq<u32>)
    requires
        samples.len() <= capacity,
    ensures
        popped(pushed(Seq::<u32>::empty(), capacity, samples), samples.len())
            == Some((samples, Seq::<u32>::empty())),
{
    let q = pushed(Seq::<u32>::empty(), capacity, samples);
    assert(samples.take(samples.len() as int) =~= samples);
    assert(q =~= samples);
    assert(q.take(samples.len() as int) =~= samples);
    assert(q.skip(samples.len() as int) =~= Seq::<u32>::empty());
}

/// Offering more samples than there is room for fills the channel to its
/// capacity with the first of them and keeps what it held; asking for more
/// samples than are held takes nothing.
pub proof fn lemma_overflow_and_underrun(q: Seq<u32>, capacity: nat, samples: Seq<u32>, n: nat)
    requires
        q.len() <= capacity,
        q.len() + samples.len() > capacity,
    ensures
        pushed(q, capacity, samples).len() == capacity,
        pushed(q, capacity, samples) == q + samples.take(capacity - q.len()),
        n > q.len() ==> popped(q, n) is None,
{
}

/// A bounded single-producer single-consumer queue of sample words. Writing
/// never waits: a sample offered to a full channel is dropped.
pub struct SampleChannel {
    ring: SampleRing,
    capacity: usize,
}

impl SampleChannel {
    /// The samples held, oldest first.
    pub closed spec fn view(&self) -> Seq<u32> {
        ring_contents(self.ring)
    }

    /// The capacity the channel was made with.
    pub closed spec fn spec_capacity(&self) -> nat {
        self.capacity as nat
    }

    /// The ring behind the channel has the channel's capacity.
    pub closed spec fn inv(&self) -> bool {
        &&& ring_capacity(self.ring) == self.capacity as nat
        &&& self.capacity <= MAX_CAPACITY
    }

    /// The channel never holds more samples than its capacity.
    pub open spec fn wf(&self) -> bool {
        &&& self.inv()
        &&& self@.len() <= self.spec_capacity()
    }

    /// An empty channel that holds up to `capacity` samples.
    pub fn new(capacity: usize) -> (c: SampleChannel)
        requires
            capacity <= MAX_CAPACITY,
        ensures
            c.wf(),
            c@ == Seq::<u32>::empty(),
            c.spec_capacity() == capacity,
    {
        SampleChannel { ring: ring_new(capacity), capacity }
    }

    /// A channel that holds up to `capacity` samples and starts with
    /// `silence` zero samples, so that a first block can be read at once.
    pub fn with_silence(capacity: usize, silence: usize) -> (c: SampleChannel)
        requires
            capacity <= MAX_CAPACITY,
            silence <= capacity,
        ensures
            c.wf(),
            c@ == Seq::new(silence as nat, |i: int| 0u32),
            c.spec_capacity() == capacity,
    {
        let mut c = SampleChannel::new(capacity);
        let mut i: usize = 0;
        while i < silence
            invariant
                c.wf(),
                i <= silence,
                silence <= capacity,
                c.spec_capacity() == capacity,
                c@ == Seq::new(i as nat, |j: int| 0u32),
            decreases silence - i,
        {
            c.push(0);
            i = i + 1;
        }
        c
    }

    /// The number of samples held.
    pub fn available(&self) -> (n: usize)
        requires
            self.wf(),
        ensures
            n == self@.len(),
    {
        ring_len(&self.ring)
    }

    /// The number of samples the channel can hold at once.
    pub fn capacity(&self) -> (n: usize)
        ensures
            n == self.spec_capacity(),
    {
        self.capacity
    }

    /// Offers one sample. Returns whether it was taken: a full channel drops it.
    pub fn push(&mut self, sample: u32) -> (taken: bool)
        requires
            old(self).wf(),
        ensures
            final(self).wf(),
            final(self).spec_capacity() == old(self).spec_capacity(),
            taken == (old(self)@.len() < old(self).spec_capacity()),
            final(self)@ == pushed(old(self)@, old(self).spec_capacity(), seq![sample]),
    {
        let taken = ring_push(&mut self.ring, sample);
        proof {
            let q = old(self)@;
            if taken {
                assert(seq![sample].take(1) =~= seq![sample]);
            } else {
                assert(seq![sample].take(0) =~= Seq::<u32>::empty());
                assert(q + Seq::<u32>::empty() =~= q);
            }
        }
        taken
    }

    /// Offers the samples in order and returns how many were taken: those
    /// that fit, the first ones; the rest are dropped.
    pub fn push_samples(&mut self, samples: &Vec<u32>) -> (n: usize)
        requires
            old(self).wf(),
        ensures
            final(self).wf(),
            final(self).spec_capacity() == old(self).spec_capacity(),
            n == accepted(old(self)@.len(), old(self).spec_capacity(), samples@.len()),
            final(self)@ == pushed(old(self)@, old(self).spec_capacity(), samples@),
    {
        let ghost q = self@;
        let ghost cap = self.spec_capacity();
        let mut n: usize = 0;
        let mut i: usize = 0;
        while i < samples.len()
            invariant
                self.wf(),
                self.spec_capacity() == cap,
                q.len() <= cap,
                i <= samples@.len(),
                n == accepted(q.len(), cap, i as nat),
                self@ == pushed(q, cap, samples@.take(i as int)),
            decreases samples.len() - i,
        {
            let ghost before = self@;
            let taken = self.push(samples[i]);
            proof {
                let s1 = samples@.take(i as int);
                let s2 = samples@.take(i + 1);
                assert(s1.take(accepted(q.len(), cap, i as nat) as int).len() == accepted(q.len(), cap, i as nat));
                if taken {
                    assert(s2.take(accepted(q.len(), cap, (i + 1) as nat) as int) =~= s1.take(accepted(q.len(), cap, i as nat) as int).push(samples@[i as int]));
                    assert(seq![samples@[i as int]].take(1) =~= seq![samples@[i as int]]);
                    assert(self@ =~= pushed(q, cap, s2));
                } else {
                    assert(s2.take(accepted(q.len(), cap, (i + 1) as nat) as int) =~= s1.take(accepted(q.len(), cap, i as nat) as int));
                    assert(seq![samples@[i as int]].take(0) =~= Seq::<u32>::empty());
                    assert(before + Seq::<u32>::empty() =~= before);
                }
            }
            if taken {
                n = n + 1;
            }
            i = i + 1;
        }
        assert(samples@.take(samples@.len() as int) =~= samples@);
        n
    }

    /// Takes the `n` oldest samples off the channel, in order. When fewer are
    /// held, gives `None` and leaves the channel as it was.
    pub fn pop_block(&mut self, n: usize) -> (block: Option<Vec<u32>>)
        requires
            old(self).wf(),
        ensures
            final(self).wf(),
            final(self).spec_capacity() == old(self).spec_capacity(),
            popped(old(self)@, n as nat) is None ==> block is None && final(self)@ == old(self)@,
            popped(old(self)@, n as nat) matches Some((b, rest)) ==> block matches Some(v)
                && v@ == b && final(self)@ == rest,
    {
        if self.available() < n {
            return None;
        }
        let ghost q = self@;
        let mut block: Vec<u32> = Vec::new();
        let mut i: usize = 0;
        while i < n
            invariant
                self.wf(),
                self.spec_capacity() == old(self).spec_capacity(),
                q == old(self)@,
                n <= q.len(),
                i <= n,
                block@ == q.take(i as int),
                self@ == q.skip(i as int),
            decreases n - i,
        {
            let s = ring_pop(&mut self.ring);
            match s {
                Some(x) => {
                    block.push(x);
                },
                None => {
                    assert(false);
                },
            }
            assert(block@ =~= q.take(i + 1));
            assert(self@ =~= q.skip(i + 1));
            i = i + 1;
        }
        Some(block)
    }
}

} // verus!
