//! The bounded sample channel: a fixed-capacity first-in first-out queue of
//! sample patterns, and its two ends after it has been split between a
//! producing and a consuming thread.
use vstd::prelude::*;

verus! {

/// Largest capacity a channel may be created with.
pub const MAX_CAPACITY: usize = 0x1000_0000;

/// A fixed-capacity queue of samples, owned as a whole.
///
/// Holds `ringbuf::HeapRb<u32>`. Verus sees nothing inside; the contents are
/// named by [`channel_contents`] and the capacity by [`channel_capacity`].
#[verifier::external_body]
pub struct SampleChannel {
    rb: ringbuf::HeapRb<u32>,
}

/// The writing end of a split channel. Holds `ringbuf::HeapProd<u32>`.
#[verifier::external_body]
pub struct SampleProducer {
    prod: ringbuf::HeapProd<u32>,
}

/// The reading end of a split channel. Holds `ringbuf::HeapCons<u32>`.
#[verifier::external_body]
pub struct SampleConsumer {
    cons: ringbuf::HeapCons<u32>,
}

/// The samples a whole channel holds, oldest first.
pub uninterp spec fn channel_contents(ch: SampleChannel) -> Seq<u32>;

/// The capacity a whole channel was created with.
pub uninterp spec fn channel_capacity(ch: SampleChannel) -> nat;

/// The samples between the read index that the producer holds a copy of
/// and its own write index, oldest first: everything written that the
/// producer does not yet know to have been read. The copy changes only when
/// the producer reloads it, so this is a matter of the producer alone.
pub uninterp spec fn producer_pending(p: SampleProducer) -> Seq<u32>;

/// The capacity of the channel a producer writes to.
pub uninterp spec fn producer_capacity(p: SampleProducer) -> nat;

/// The samples between the consumer's own read index and the write index
/// that it holds a copy of, oldest first: everything it can read without
/// looking at the producer again. The copy changes only when the consumer
/// reloads it, and the producer never touches a sample that has not been
/// read, so this is a matter of the consumer alone.
pub uninterp spec fn consumer_buffered(c: SampleConsumer) -> Seq<u32>;

/// How many of `offered` samples a channel of `capacity` holding `held`
/// samples accepts: as many as there is room for.
pub open spec fn accepted(capacity: nat, held: nat, offered: nat) -> nat {
    if held >= capacity {
        0
    } else if offered <= capacity - held {
        offered
    } else {
        (capacity - held) as nat
    }
}

/// The contents after a write of `samples`.
pub open spec fn after_write(capacity: nat, contents: Seq<u32>, samples: Seq<u32>) -> Seq<u32> {
    contents + samples.take(accepted(capacity, contents.len(), samples.len()) as int)
}

/// What a read returns: the oldest sample, or nothing from an empty channel.
pub open spec fn read_result(contents: Seq<u32>) -> Option<u32> {
    if contents.len() > 0 {
        Some(contents[0])
    } else {
        None
    }
}

/// The contents after a read.
pub open spec fn after_read(contents: Seq<u32>) -> Seq<u32> {
    if contents.len() > 0 {
        contents.skip(1)
    } else {
        contents
    }
}

/// `ringbuf::HeapRb::<u32>::new`: an empty ring buffer of the given capacity.
/// It panics on capacity zero and on a size that overflows the allocation;
/// both are excluded here.
#[verifier::external_body]
fn ring_new(capacity: usize) -> (ch: SampleChannel)
    requires
        0 < capacity <= MAX_CAPACITY,
    ensures
        channel_contents(ch) == Seq::<u32>::empty(),
        channel_capacity(ch) == capacity,
{
    SampleChannel { rb: ringbuf::HeapRb::<u32>::new(capacity) }
}

/// `ringbuf::traits::Observer::capacity` on the whole buffer: the length of
/// its storage, which never changes.
#[verifier::external_body]
fn ring_capacity(ch: &SampleChannel) -> (n: usize)
    ensures
        n == channel_capacity(*ch),
        0 < n,
{
    ringbuf::traits::Observer::capacity(&ch.rb).get()
}

/// `ringbuf::traits::Observer::occupied_len` on the whole buffer: the distance
/// from the read index to the write index, which is the number of items held
/// and never exceeds the capacity.
#[verifier::external_body]
fn ring_len(ch: &SampleChannel) -> (n: usize)
    ensures
        n == channel_contents(*ch).len(),
        n <= channel_capacity(*ch),
{
    ringbuf::traits::Observer::occupied_len(&ch.rb)
}

/// `ringbuf::traits::Producer::push_slice` on the whole buffer: copies the
/// leading items of `samples` into the vacant slots, as many as fit, advances
/// the write index by that count and returns it.
#[verifier::external_body]
fn ring_push_slice(ch: &mut SampleChannel, samples: &[u32]) -> (n: usize)
    ensures
        n == accepted(
            channel_capacity(*old(ch)),
            channel_contents(*old(ch)).len(),
            samples@.len(),
        ),
        channel_contents(*final(ch)) == channel_contents(*old(ch)) + samples@.take(n as int),
        channel_capacity(*final(ch)) == channel_capacity(*old(ch)),
{
    ringbuf::traits::Producer::push_slice(&mut ch.rb, samples)
}

/// `ringbuf::traits::Consumer::try_pop` on the whole buffer: removes and
/// returns the oldest item, or returns `None` and changes nothing when the
/// read and write indices are equal.
#[verifier::external_body]
fn ring_try_pop(ch: &mut SampleChannel) -> (r: Option<u32>)
    ensures
        r == read_result(channel_contents(*old(ch))),
        channel_contents(*final(ch)) == after_read(channel_contents(*old(ch))),
        channel_capacity(*final(ch)) == channel_capacity(*old(ch)),
{
    ringbuf::traits::Consumer::try_pop(&mut ch.rb)
}

/// `ringbuf::traits::Split::split` on the whole buffer: moves it behind a
/// shared pointer and makes the two caching ends, each of which starts from
/// the buffer's current read and write indices.
#[verifier::external_body]
fn ring_split(ch: SampleChannel) -> (ends: (SampleProducer, SampleConsumer))
    ensures
        producer_pending(ends.0) == channel_contents(ch),
        producer_capacity(ends.0) == channel_capacity(ch),
        consumer_buffered(ends.1) == channel_contents(ch),
{
    let (prod, cons) = ringbuf::traits::Split::split(ch.rb);
    (SampleProducer { prod }, SampleConsumer { cons })
}

/// `ringbuf::traits::Producer::push_slice` on the caching producer. It first
/// reloads the read index, which the consumer may have advanced past any
/// number of the pending samples; then it copies the leading items of
/// `samples` into the vacant slots, as many as fit, and publishes the new
/// write index. So the pending samples afterwards are a tail of the earlier
/// ones followed by the `n` accepted samples, and either all of `samples` was
/// accepted or the channel was full.
#[verifier::external_body]
fn prod_push_slice(p: &mut SampleProducer, samples: &[u32]) -> (n: usize)
    ensures
        n <= samples@.len(),
        producer_capacity(*final(p)) == producer_capacity(*old(p)),
        n <= producer_pending(*final(p)).len() <= producer_capacity(*old(p)),
        producer_pending(*final(p)).len() - n <= producer_pending(*old(p)).len(),
        producer_pending(*final(p)) == producer_pending(*old(p)).skip(
            producer_pending(*old(p)).len() + n - producer_pending(*final(p)).len(),
        ) + samples@.take(n as int),
        n == samples@.len() || producer_pending(*final(p)).len() == producer_capacity(*old(p)),
{
    ringbuf::traits::Producer::push_slice(&mut p.prod, samples)
}

/// `ringbuf::traits::Consumer::try_pop` on the caching consumer. While it has
/// buffered samples it returns the oldest of them without looking at the
/// producer. Only when it has none does it reload the write index, and what it
/// then finds depends on the producer: `None` is returned only if the channel
/// was still empty.
#[verifier::external_body]
fn cons_try_pop(c: &mut SampleConsumer) -> (r: Option<u32>)
    ensures
        consumer_buffered(*old(c)).len() > 0 ==> r == Some(consumer_buffered(*old(c))[0])
            && consumer_buffered(*final(c)) == consumer_buffered(*old(c)).skip(1),
        r is None ==> consumer_buffered(*old(c)).len() == 0 && consumer_buffered(*final(c)).len()
            == 0,
{
    ringbuf::traits::Consumer::try_pop(&mut c.cons)
}

impl SampleChannel {
    /// The samples held, oldest first.
    pub open spec fn view(&self) -> Seq<u32> {
        channel_contents(*self)
    }

    /// The capacity the channel was created with.
    pub open spec fn spec_capacity(&self) -> nat {
        channel_capacity(*self)
    }

    /// An empty channel of the given capacity.
    pub fn new(capacity: usize) -> (ch: SampleChannel)
        requires
            0 < capacity <= MAX_CAPACITY,
        ensures
            ch@ == Seq::<u32>::empty(),
            ch.spec_capacity() == capacity,
    {
        ring_new(capacity)
    }

    /// The capacity: fixed for the life of the channel.
    pub fn capacity(&self) -> (n: usize)
        ensures
            n == self.spec_capacity(),
            n > 0,
    {
        ring_capacity(self)
    }

    /// The number of samples held. It never exceeds the capacity.
    pub fn len(&self) -> (n: usize)
        ensures
            n == self@.len(),
            n <= self.spec_capacity(),
    {
        ring_len(self)
    }

    /// True when no sample is held.
    pub fn is_empty(&self) -> (b: bool)
        ensures
            b == (self@.len() == 0),
    {
        ring_len(self) == 0
    }

    /// True when the channel accepts no further sample.
    pub fn is_full(&self) -> (b: bool)
        ensures
            b == (self@.len() == self.spec_capacity()),
    {
        ring_len(self) == ring_capacity(self)
    }

    /// Appends the leading samples of `samples`, as many as there is room for,
    /// and returns how many were appended. Never blocks and never grows the
    /// channel.
    pub fn write(&mut self, samples: &[u32]) -> (n: usize)
        ensures
            n == accepted(old(self).spec_capacity(), old(self)@.len(), samples@.len()),
            final(self)@ == after_write(old(self).spec_capacity(), old(self)@, samples@),
            final(self)@.len() <= final(self).spec_capacity(),
            final(self).spec_capacity() == old(self).spec_capacity(),
    {
        let ghost held = self@.len();
        let held_now = ring_len(self);
        let n = ring_push_slice(self, samples);
        assert(held_now == held);
        n
    }

    /// Removes and returns the oldest sample. On an empty channel it returns
    /// `None` at once and changes nothing.
    pub fn try_read_one(&mut self) -> (r: Option<u32>)
        ensures
            r == read_result(old(self)@),
            final(self)@ == after_read(old(self)@),
            final(self).spec_capacity() == old(self).spec_capacity(),
    {
        ring_try_pop(self)
    }

    /// Splits the channel into its writing and its reading end. Both start
    /// from the samples the channel holds.
    pub fn split(self) -> (ends: (SampleProducer, SampleConsumer))
        ensures
            ends.0.pending() == self@,
            ends.0.spec_capacity() == self.spec_capacity(),
            ends.1@ == self@,
    {
        ring_split(self)
    }
}

/// What one write through the producing end may do to its pending samples.
///
/// The consumer may meanwhile have read any number of the samples pending
/// `before`; the `n` accepted samples follow what is left of them. Either all
/// of `samples` was accepted or the channel was full.
pub open spec fn producer_write(
    before: Seq<u32>,
    after: Seq<u32>,
    capacity: nat,
    samples: Seq<u32>,
    n: nat,
) -> bool {
    &&& n <= samples.len()
    &&& n <= after.len() <= capacity
    &&& after.len() - n <= before.len()
    &&& after == before.skip(before.len() + n - after.len()) + samples.take(n as int)
    &&& (n == samples.len() || after.len() == capacity)
}

impl SampleProducer {
    /// The samples written that this end does not yet know to have been read.
    pub open spec fn pending(&self) -> Seq<u32> {
        producer_pending(*self)
    }

    /// The capacity of the channel.
    pub open spec fn spec_capacity(&self) -> nat {
        producer_capacity(*self)
    }

    /// Appends the leading samples of `samples`, as many as the channel has
    /// room for at this moment, and returns how many. Never blocks.
    pub fn write(&mut self, samples: &[u32]) -> (n: usize)
        ensures
            producer_write(
                old(self).pending(),
                final(self).pending(),
                old(self).spec_capacity(),
                samples@,
                n as nat,
            ),
            final(self).spec_capacity() == old(self).spec_capacity(),
    {
        prod_push_slice(self, samples)
    }
}

impl SampleConsumer {
    /// The samples this end can read without looking at the producer again.
    pub open spec fn view(&self) -> Seq<u32> {
        consumer_buffered(*self)
    }

    /// Removes and returns the oldest sample, never blocking. While samples
    /// are buffered the oldest of them is returned. `None` means that the
    /// channel was empty.
    pub fn try_read_one(&mut self) -> (r: Option<u32>)
        ensures
            old(self)@.len() > 0 ==> r == Some(old(self)@[0]) && final(self)@ == old(self)@.skip(1),
            r is None ==> old(self)@.len() == 0 && final(self)@.len() == 0,
    {
        cons_try_pop(self)
    }
}

/// One use of a channel: a write of some samples, or a read.
pub enum ChannelOp {
    Write(Seq<u32>),
    Read,
}

/// A channel's history: what it holds, and everything it has accepted and
/// handed out since it was created, each oldest first.
pub struct ChannelHistory {
    pub contents: Seq<u32>,
    pub accepted: Seq<u32>,
    pub delivered: Seq<u32>,
}

/// The history of a channel of the given capacity after `ops`, starting
/// empty.
pub open spec fn history(capacity: nat, ops: Seq<ChannelOp>) -> ChannelHistory
    decreases ops.len(),
{
    if ops.len() == 0 {
        ChannelHistory { contents: seq![], accepted: seq![], delivered: seq![] }
    } else {
        let before = history(capacity, ops.drop_last());
        match ops.last() {
            ChannelOp::Write(samples) => ChannelHistory {
                contents: after_write(capacity, before.contents, samples),
                accepted: before.accepted + samples.take(
                    accepted(capacity, before.contents.len(), samples.len()) as int,
                ),
                delivered: before.delivered,
            },
            ChannelOp::Read => ChannelHistory {
                contents: after_read(before.contents),
                accepted: before.accepted,
                delivered: match read_result(before.contents) {
                    Some(sample) => before.delivered.push(sample),
                    None => before.delivered,
                },
            },
        }
    }
}

/// Whatever is written and read, and whatever the capacity, a channel never
/// holds more samples than its capacity, and what it has handed out, followed
/// by what it still holds, is what it has accepted: nothing is lost, doubled
/// or out of order.
pub proof fn lemma_channel_bounded_fifo(capacity: nat, ops: Seq<ChannelOp>)
    ensures
        history(capacity, ops).contents.len() <= capacity,
        history(capacity, ops).delivered + history(capacity, ops).contents == history(
            capacity,
            ops,
        ).accepted,
    decreases ops.len(),
{
    let now = history(capacity, ops);
    if ops.len() > 0 {
        lemma_channel_bounded_fifo(capacity, ops.drop_last());
        let before = history(capacity, ops.drop_last());
        match ops.last() {
            ChannelOp::Write(samples) => {
                let taken = samples.take(
                    accepted(capacity, before.contents.len(), samples.len()) as int,
                );
                assert(now.delivered + now.contents =~= (before.delivered + before.contents)
                    + taken);
            },
            ChannelOp::Read => {
                if before.contents.len() > 0 {
                    assert(now.delivered + now.contents =~= before.delivered + before.contents);
                }
            },
        }
    } else {
        assert(now.delivered + now.contents =~= now.accepted);
    }
}

} // verus!
