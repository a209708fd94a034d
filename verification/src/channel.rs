//! A bounded first-in, first-out channel.
//!
//! The channel is a plain value with exclusive access: whoever shares it
//! between producers and consumers guards it with a lock, and a push or pop
//! that cannot proceed reports so instead of blocking, leaving the waiting to
//! the caller.  Under that discipline every interleaving of producers and
//! consumers is a sequence of the operations below, which is what the laws at
//! the end of this module speak of.

use std::collections::VecDeque;
use vstd::prelude::*;
use vstd::seq_lib::lemma_multiset_commutative;

verus! {

/// The mathematical state of a channel.
pub struct ChannelState<T> {
    /// Largest number of items the channel may hold; fixed at construction.
    pub capacity: nat,
    /// The items in flight, oldest first.
    pub queue: Seq<T>,
    /// Whether the channel was shut down.
    pub closed: bool,
}

impl<T> ChannelState<T> {
    /// The capacity invariant: the items in flight never exceed the capacity.
    pub open spec fn wf(self) -> bool {
        self.queue.len() <= self.capacity
    }

    /// A fresh, open channel with nothing in flight.
    pub open spec fn empty(capacity: nat) -> Self {
        ChannelState { capacity, queue: Seq::empty(), closed: false }
    }

    /// Whether the channel holds as many items as it may.
    pub open spec fn is_full(self) -> bool {
        self.queue.len() >= self.capacity
    }

    /// Whether a push would be taken: the channel is open and has room.
    pub open spec fn accepts(self) -> bool {
        !self.closed && !self.is_full()
    }

    /// Whether a pop would hand out an item.
    pub open spec fn delivers(self) -> bool {
        self.queue.len() > 0
    }

    /// The state after an attempt to push `item`: appended at the back if the
    /// channel accepts it, otherwise nothing changes.
    pub open spec fn push(self, item: T) -> Self {
        if self.accepts() {
            ChannelState { queue: self.queue.push(item), ..self }
        } else {
            self
        }
    }

    /// The state after an attempt to pop: the oldest item leaves if there is
    /// one, otherwise nothing changes.
    pub open spec fn pop(self) -> Self {
        if self.delivers() {
            ChannelState { queue: self.queue.drop_first(), ..self }
        } else {
            self
        }
    }

    /// The state after shutting the channel down.  Items in flight stay and
    /// can still be popped.
    pub open spec fn close(self) -> Self {
        ChannelState { closed: true, ..self }
    }
}

/// Why a push was not taken.  Either way the item comes back to the caller.
#[derive(Debug, Clone, PartialEq, Eq)]
pub enum PushError<T> {
    /// The channel is at capacity: the producer has to wait for a pop.
    Full(T),
    /// The channel was shut down: nothing will be accepted any more.
    Closed(T),
}

impl<T> PushError<T> {
    /// The item that the channel did not take.
    pub open spec fn item(self) -> T {
        match self {
            PushError::Full(item) => item,
            PushError::Closed(item) => item,
        }
    }

    /// Gives the refused item back.
    pub fn into_inner(self) -> (item: T)
        ensures
            item == self.item(),
    {
        match self {
            PushError::Full(item) => item,
            PushError::Closed(item) => item,
        }
    }
}

/// Why a pop handed out nothing.
#[derive(Debug, Clone, Copy, PartialEq, Eq, Structural)]
pub enum PopError {
    /// Nothing is in flight, but producers may still push: the consumer has
    /// to wait.
    Empty,
    /// Nothing is in flight and the channel was shut down: the stream has
    /// ended.
    Closed,
}

/// A fixed-capacity FIFO queue of items.
#[derive(Debug)]
pub struct BoundedChannel<T> {
    capacity: usize,
    queue: VecDeque<T>,
    closed: bool,
}

impl<T> View for BoundedChannel<T> {
    type V = ChannelState<T>;

    closed spec fn view(&self) -> ChannelState<T> {
        ChannelState { capacity: self.capacity as nat, queue: self.queue@, closed: self.closed }
    }
}

impl<T> BoundedChannel<T> {
    /// Well-formedness: the channel keeps the capacity invariant.  `new`
    /// establishes it and every operation preserves it.
    pub open spec fn wf(&self) -> bool {
        self@.wf()
    }

    /// Creates an open, empty channel that holds at most `capacity` items.
    pub fn new(capacity: usize) -> (ch: Self)
        ensures
            ch.wf(),
            ch@ == ChannelState::<T>::empty(capacity as nat),
    {
        BoundedChannel { capacity, queue: VecDeque::new(), closed: false }
    }

    /// The capacity the channel was created with.
    pub fn capacity(&self) -> (c: usize)
        ensures
            c == self@.capacity,
    {
        self.capacity
    }

    /// Number of items in flight.  It never exceeds the capacity.
    pub fn len(&self) -> (n: usize)
        requires
            self.wf(),
        ensures
            n == self@.queue.len(),
            n <= self@.capacity,
    {
        self.queue.len()
    }

    /// Tells whether nothing is in flight.
    pub fn is_empty(&self) -> (b: bool)
        ensures
            b == !self@.delivers(),
    {
        self.queue.len() == 0
    }

    /// Tells whether the channel is at capacity.
    pub fn is_full(&self) -> (b: bool)
        ensures
            b == self@.is_full(),
    {
        self.queue.len() >= self.capacity
    }

    /// Tells whether the channel was shut down.
    pub fn is_closed(&self) -> (b: bool)
        ensures
            b == self@.closed,
    {
        self.closed
    }

    /// Shuts the channel down: from now on every push is refused.  Items in
    /// flight can still be popped.
    pub fn close(&mut self)
        requires
            old(self).wf(),
        ensures
            final(self).wf(),
            final(self)@ == old(self)@.close(),
    {
        self.closed = true;
    }

    /// Offers `item` to the channel without waiting.
    ///
    /// An open channel with room takes the item at the back.  Otherwise the
    /// channel is left as it was and the very same item is handed back:
    /// `Closed` if the channel was shut down, else `Full`.
    pub fn push(&mut self, item: T) -> (r: Result<(), PushError<T>>)
        requires
            old(self).wf(),
        ensures
            final(self).wf(),
            final(self)@ == old(self)@.push(item),
            r is Ok <==> old(self)@.accepts(),
            r == Err::<(), PushError<T>>(PushError::Closed(item)) <==> old(self)@.closed,
            r == Err::<(), PushError<T>>(PushError::Full(item)) <==> !old(self)@.closed && old(
                self,
            )@.is_full(),
    {
        if self.closed {
            Err(PushError::Closed(item))
        } else if self.queue.len() >= self.capacity {
            Err(PushError::Full(item))
        } else {
            self.queue.push_back(item);
            Ok(())
        }
    }

    /// Takes the oldest item out of the channel without waiting.
    ///
    /// With nothing in flight the channel is left as it was: the answer is
    /// `Closed` if the channel was shut down, else `Empty`.
    pub fn pop(&mut self) -> (r: Result<T, PopError>)
        requires
            old(self).wf(),
        ensures
            final(self).wf(),
            final(self)@ == old(self)@.pop(),
            r is Ok <==> old(self)@.delivers(),
            r matches Ok(item) ==> item == old(self)@.queue.first(),
            r == Err::<T, PopError>(PopError::Closed) <==> !old(self)@.delivers() && old(
                self,
            )@.closed,
            r == Err::<T, PopError>(PopError::Empty) <==> !old(self)@.delivers() && !old(
                self,
            )@.closed,
    {
        match self.queue.pop_front() {
            Some(item) => Ok(item),
            None => {
                if self.closed {
                    Err(PopError::Closed)
                } else {
                    Err(PopError::Empty)
                }
            },
        }
    }
}

/// One operation on a channel, as some producer or consumer performs it.
///
/// The numbers tell the actors apart; they do not influence what the channel
/// does.
pub enum ChannelOp<T> {
    /// Producer `producer` offers `item`.
    Push { producer: nat, item: T },
    /// Consumer `consumer` asks for the oldest item.
    Pop { consumer: nat },
    /// Somebody shuts the channel down.
    Close,
}

impl<T> ChannelState<T> {
    /// The state after one operation.
    pub open spec fn step(self, op: ChannelOp<T>) -> Self {
        match op {
            ChannelOp::Push { item, .. } => self.push(item),
            ChannelOp::Pop { .. } => self.pop(),
            ChannelOp::Close => self.close(),
        }
    }

    /// The state after the operations `ops`, performed one after the other.
    pub open spec fn run(self, ops: Seq<ChannelOp<T>>) -> Self
        decreases ops.len(),
    {
        if ops.len() == 0 {
            self
        } else {
            self.run(ops.drop_last()).step(ops.last())
        }
    }

    /// The items that the channel took in the course of `ops`, in the order
    /// in which it took them.
    pub open spec fn accepted(self, ops: Seq<ChannelOp<T>>) -> Seq<T>
        decreases ops.len(),
    {
        if ops.len() == 0 {
            Seq::empty()
        } else {
            let before = self.run(ops.drop_last());
            let earlier = self.accepted(ops.drop_last());
            match ops.last() {
                ChannelOp::Push { item, .. } => if before.accepts() {
                    earlier.push(item)
                } else {
                    earlier
                },
                _ => earlier,
            }
        }
    }

    /// The items that the channel handed out in the course of `ops`, in the
    /// order in which it handed them out.
    pub open spec fn delivered(self, ops: Seq<ChannelOp<T>>) -> Seq<T>
        decreases ops.len(),
    {
        if ops.len() == 0 {
            Seq::empty()
        } else {
            let before = self.run(ops.drop_last());
            let earlier = self.delivered(ops.drop_last());
            match ops.last() {
                ChannelOp::Pop { .. } => if before.delivers() {
                    earlier.push(before.queue.first())
                } else {
                    earlier
                },
                _ => earlier,
            }
        }
    }

    /// The items that `consumer` received in the course of `ops`.
    pub open spec fn delivered_to(self, ops: Seq<ChannelOp<T>>, consumer: nat) -> Seq<T>
        decreases ops.len(),
    {
        if ops.len() == 0 {
            Seq::empty()
        } else {
            let before = self.run(ops.drop_last());
            let earlier = self.delivered_to(ops.drop_last(), consumer);
            match ops.last() {
                ChannelOp::Pop { consumer: c } => if c == consumer && before.delivers() {
                    earlier.push(before.queue.first())
                } else {
                    earlier
                },
                _ => earlier,
            }
        }
    }
}

/// Capacity invariant.  Whatever producers and consumers do, and in whatever
/// order, a channel that starts within its capacity stays within it after
/// every single operation, and its capacity never changes.
pub proof fn lemma_capacity_never_exceeded<T>(start: ChannelState<T>, ops: Seq<ChannelOp<T>>)
    requires
        start.wf(),
    ensures
        forall|k: int|
            0 <= k <= ops.len() ==> {
                let seen = #[trigger] start.run(ops.take(k));
                seen.queue.len() <= seen.capacity && seen.capacity == start.capacity
            },
{
    assert forall|k: int| 0 <= k <= ops.len() implies {
        let seen = #[trigger] start.run(ops.take(k));
        seen.queue.len() <= seen.capacity && seen.capacity == start.capacity
    } by {
        lemma_run_keeps_capacity(start, ops.take(k));
    }
}

proof fn lemma_run_keeps_capacity<T>(start: ChannelState<T>, ops: Seq<ChannelOp<T>>)
    requires
        start.wf(),
    ensures
        start.run(ops).wf(),
        start.run(ops).capacity == start.capacity,
    decreases ops.len(),
{
    if ops.len() > 0 {
        lemma_run_keeps_capacity(start, ops.drop_last());
    }
}

/// First in, first out, nothing lost and nothing made up.  After any
/// interleaving, what was in flight at the start followed by what the channel
/// took since is exactly what it handed out followed by what is still in
/// flight.
pub proof fn lemma_fifo_conservation<T>(start: ChannelState<T>, ops: Seq<ChannelOp<T>>)
    ensures
        start.queue + start.accepted(ops) == start.delivered(ops) + start.run(ops).queue,
    decreases ops.len(),
{
    if ops.len() == 0 {
        assert(start.queue + start.accepted(ops) =~= start.delivered(ops) + start.run(ops).queue);
    } else {
        let before = start.run(ops.drop_last());
        lemma_fifo_conservation(start, ops.drop_last());
        let taken = start.accepted(ops.drop_last());
        let given = start.delivered(ops.drop_last());
        assert(start.queue + taken == given + before.queue);
        match ops.last() {
            ChannelOp::Push { item, .. } => {
                if before.accepts() {
                    assert(start.queue + taken.push(item) =~= (start.queue + taken).push(item));
                    assert(given + before.queue.push(item) =~= (given + before.queue).push(item));
                }
            },
            ChannelOp::Pop { .. } => {
                if before.delivers() {
                    assert(given.push(before.queue.first()) + before.queue.drop_first() =~= given
                        + before.queue);
                }
            },
            ChannelOp::Close => {},
        }
    }
}

/// No loss, no duplication.  For a channel that starts empty, the items
/// consumed together with the items still in flight are, as a multiset,
/// exactly the items produced: none appears twice and none vanishes.
pub proof fn lemma_no_loss_no_duplication<T>(capacity: nat, ops: Seq<ChannelOp<T>>)
    ensures
        ({
            let start = ChannelState::<T>::empty(capacity);
            start.accepted(ops).to_multiset() == start.delivered(ops).to_multiset().add(
                start.run(ops).queue.to_multiset(),
            )
        }),
{
    let start = ChannelState::<T>::empty(capacity);
    lemma_fifo_conservation(start, ops);
    assert(start.queue + start.accepted(ops) =~= start.accepted(ops));
    lemma_multiset_commutative(start.delivered(ops), start.run(ops).queue);
}

/// Each delivery goes to one consumer.  The items that two different
/// consumers received, taken together, are among the items that the channel
/// handed out: an item consumed by one was not also handed to the other.
pub proof fn lemma_consumers_share_nothing<T>(
    start: ChannelState<T>,
    ops: Seq<ChannelOp<T>>,
    first: nat,
    second: nat,
)
    requires
        first != second,
    ensures
        start.delivered_to(ops, first).to_multiset().add(
            start.delivered_to(ops, second).to_multiset(),
        ).subset_of(start.delivered(ops).to_multiset()),
    decreases ops.len(),
{
    broadcast use vstd::seq_lib::group_to_multiset_ensures;

    if ops.len() > 0 {
        lemma_consumers_share_nothing(start, ops.drop_last(), first, second);
    }
}

/// Backpressure.  However often producers push into a full channel, nothing
/// gets in and nothing in flight is disturbed: the channel takes an item
/// again only after a consumer has popped one.
pub proof fn lemma_full_channel_refuses<T>(start: ChannelState<T>, ops: Seq<ChannelOp<T>>)
    requires
        start.is_full(),
        forall|k: int| 0 <= k < ops.len() ==> (#[trigger] ops[k]) is Push,
    ensures
        start.run(ops) == start,
        start.accepted(ops) == Seq::<T>::empty(),
        start.delivered(ops) == Seq::<T>::empty(),
    decreases ops.len(),
{
    if ops.len() > 0 {
        let earlier = ops.drop_last();
        assert forall|k: int| 0 <= k < earlier.len() implies (#[trigger] earlier[k]) is Push by {
            assert(earlier[k] == ops[k]);
        }
        lemma_full_channel_refuses(start, earlier);
        assert(ops.last() == ops[ops.len() - 1]);
    }
}

} // verus!
