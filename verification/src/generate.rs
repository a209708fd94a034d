//! The producer side of a stream.
//!
//! A producer is a small state machine.  Whoever runs it asks the point
//! source for samples when told to, hands the outcome back as an event, and
//! waits when told to wait; every decision is taken here.

use crate::channel::{BoundedChannel, ChannelOp, ChannelState};
use crate::point::{all_have_shape, SpiralItem};
use std::collections::VecDeque;
use vstd::prelude::*;

verus! {

/// Whether a producer is still at work.
#[derive(Debug, Clone, Copy, PartialEq, Eq, Structural)]
pub enum WorkerStatus {
    /// The producer generates and pushes.
    Running,
    /// The point source failed it; it has terminated for good.
    Failed,
    /// Its channel was shut down; it has terminated for good.
    Stopped,
}

/// What the point source answered, or that nothing was asked.
#[derive(Debug, Clone, PartialEq, Eq)]
pub enum SourceEvent {
    /// Nothing new from the source: the producer is woken to try again.
    Resume,
    /// The source returned these samples.
    Generated(Vec<SpiralItem>),
    /// The source could not be invoked.
    Unavailable,
}

/// What the producer's runner has to do next.
#[derive(Debug, Clone, Copy, PartialEq, Eq, Structural)]
pub enum ProducerAction {
    /// Ask the point source for this many samples and come back with them.
    Generate(usize),
    /// The channel is full: wait until a consumer has taken an item, then
    /// resume.  The item that did not fit is kept and offered again.
    Wait,
    /// The point source failed: the producer is dead, stop running it.
    Fail,
    /// The channel was shut down: stop running the producer.
    Stop,
}

/// The mathematical state of a producer.
pub struct ProducerState {
    /// Number of samples requested from the source at a time.
    pub n_samples: nat,
    /// Number of coordinates that every sample must have.
    pub point_dim: nat,
    /// Number of label values that every sample must have.
    pub label_dim: nat,
    /// Samples generated but not yet in the channel, oldest first.
    pub pending: Seq<SpiralItem>,
    pub status: WorkerStatus,
}

impl ProducerState {
    /// Well-formedness: the producer requests at least one sample at a time,
    /// and every pending sample has the producer's shape.
    pub open spec fn wf(self) -> bool {
        self.n_samples > 0 && all_have_shape(self.pending, self.point_dim, self.label_dim)
    }

    /// A running producer with nothing pending.
    pub open spec fn fresh(n_samples: nat, point_dim: nat, label_dim: nat) -> Self {
        ProducerState {
            n_samples,
            point_dim,
            label_dim,
            pending: Seq::empty(),
            status: WorkerStatus::Running,
        }
    }

    /// Whether `items` is what the source owes: exactly `n_samples` samples,
    /// each of the producer's shape.
    pub open spec fn accepts_batch(self, items: Seq<SpiralItem>) -> bool {
        items.len() == self.n_samples && all_have_shape(items, self.point_dim, self.label_dim)
    }

    /// The state after taking note of `event`.  A producer that has
    /// terminated ignores it.  A running one queues a good batch behind what
    /// is pending, and fails on a bad batch or an unavailable source.
    pub open spec fn absorb(self, event: SourceEvent) -> Self {
        if self.status != WorkerStatus::Running {
            self
        } else {
            match event {
                SourceEvent::Resume => self,
                SourceEvent::Unavailable => ProducerState { status: WorkerStatus::Failed, ..self },
                SourceEvent::Generated(items) => if self.accepts_batch(items@) {
                    ProducerState { pending: self.pending + items@, ..self }
                } else {
                    ProducerState { status: WorkerStatus::Failed, ..self }
                },
            }
        }
    }

    /// Number of pending samples that go into `channel` now: as many as fit,
    /// and none if the producer has terminated or the channel was shut down.
    pub open spec fn room(self, channel: ChannelState<SpiralItem>) -> nat {
        if self.status != WorkerStatus::Running || channel.closed || channel.is_full() {
            0
        } else if self.pending.len() <= channel.capacity - channel.queue.len() {
            self.pending.len()
        } else {
            (channel.capacity - channel.queue.len()) as nat
        }
    }

    /// The producer after pushing what fits: the samples pushed are no
    /// longer pending, and a running producer whose channel was shut down
    /// has stopped.
    pub open spec fn flushed(self, channel: ChannelState<SpiralItem>) -> Self {
        ProducerState {
            pending: self.pending.skip(self.room(channel) as int),
            status: if self.status == WorkerStatus::Running && channel.closed {
                WorkerStatus::Stopped
            } else {
                self.status
            },
            ..self
        }
    }

    /// The channel after the producer pushed what fits: the oldest pending
    /// samples stand at its back, in their order.
    pub open spec fn filled(self, channel: ChannelState<SpiralItem>) -> ChannelState<SpiralItem> {
        ChannelState {
            queue: channel.queue + self.pending.take(self.room(channel) as int),
            ..channel
        }
    }

    /// What the runner has to do for a producer in this state.
    pub open spec fn action(self) -> ProducerAction {
        match self.status {
            WorkerStatus::Failed => ProducerAction::Fail,
            WorkerStatus::Stopped => ProducerAction::Stop,
            WorkerStatus::Running => if self.pending.len() == 0 {
                ProducerAction::Generate(self.n_samples as usize)
            } else {
                ProducerAction::Wait
            },
        }
    }
}

/// One step of a producer: take note of the event, push what fits, and say
/// what to do next.  Yields the producer, the channel and the action.
pub open spec fn generate_step(
    producer: ProducerState,
    event: SourceEvent,
    channel: ChannelState<SpiralItem>,
) -> (ProducerState, ChannelState<SpiralItem>, ProducerAction) {
    let noted = producer.absorb(event);
    (noted.flushed(channel), noted.filled(channel), noted.flushed(channel).action())
}

/// One background producer of a stream.
#[derive(Debug)]
pub struct Producer {
    n_samples: usize,
    point_dim: usize,
    label_dim: usize,
    pending: VecDeque<SpiralItem>,
    status: WorkerStatus,
}

impl View for Producer {
    type V = ProducerState;

    closed spec fn view(&self) -> ProducerState {
        ProducerState {
            n_samples: self.n_samples as nat,
            point_dim: self.point_dim as nat,
            label_dim: self.label_dim as nat,
            pending: self.pending@,
            status: self.status,
        }
    }
}

impl Producer {
    /// Well-formedness, which `new` establishes and `generate_data` keeps.
    pub open spec fn wf(&self) -> bool {
        self@.wf() && self@.n_samples <= usize::MAX
    }

    /// A running producer that asks the source for `n_samples` samples of
    /// the given shape at a time.
    pub fn new(n_samples: usize, point_dim: usize, label_dim: usize) -> (producer: Self)
        requires
            n_samples > 0,
        ensures
            producer.wf(),
            producer@ == ProducerState::fresh(n_samples as nat, point_dim as nat, label_dim as nat),
    {
        Producer {
            n_samples,
            point_dim,
            label_dim,
            pending: VecDeque::new(),
            status: WorkerStatus::Running,
        }
    }

    /// Whether the producer is still at work.
    pub fn status(&self) -> (status: WorkerStatus)
        ensures
            status == self@.status,
    {
        self.status
    }

    /// Number of samples generated but not yet in the channel.
    pub fn pending(&self) -> (n: usize)
        ensures
            n == self@.pending.len(),
    {
        self.pending.len()
    }

    /// Tells whether `items` is exactly `n_samples` samples of the producer's
    /// shape.
    fn check_batch(&self, items: &Vec<SpiralItem>) -> (ok: bool)
        ensures
            ok == self@.accepts_batch(items@),
    {
        if items.len() != self.n_samples {
            return false;
        }
        let mut i: usize = 0;
        while i < items.len()
            invariant
                i <= items.len(),
                all_have_shape(items@.take(i as int), self.point_dim as nat, self.label_dim as nat),
            decreases items.len() - i,
        {
            if !items[i].has_shape(self.point_dim, self.label_dim) {
                return false;
            }
            proof {
                let head = items@.take(i as int);
                let next = items@.take(i + 1);
                assert forall|k: int| 0 <= k < next.len() implies (#[trigger] next[k])@.has_shape(
                    self.point_dim as nat,
                    self.label_dim as nat,
                ) by {
                    if k < i {
                        assert(next[k] == head[k]);
                    }
                }
            }
            i += 1;
        }
        proof {
            assert(items@.take(items.len() as int) =~= items@);
        }
        true
    }

    /// Takes note of `event`.
    fn absorb(&mut self, event: SourceEvent)
        requires
            old(self).wf(),
        ensures
            final(self).wf(),
            final(self)@ == old(self)@.absorb(event),
    {
        if self.status != WorkerStatus::Running {
            return ;
        }
        match event {
            SourceEvent::Resume => {},
            SourceEvent::Unavailable => {
                self.status = WorkerStatus::Failed;
            },
            SourceEvent::Generated(items) => {
                if self.check_batch(&items) {
                    let ghost before = self.pending@;
                    let ghost batch = items@;
                    let mut items = items;
                    let mut fresh: VecDeque<SpiralItem> = VecDeque::new();
                    while items.len() > 0
                        invariant
                            items@ + fresh@ == batch,
                        decreases items.len(),
                    {
                        let ghost rest = items@;
                        let ghost moved = fresh@;
                        match items.pop() {
                            Some(item) => {
                                fresh.push_front(item);
                                proof {
                                    assert(items@ + fresh@ =~= rest + moved);
                                }
                            },
                            None => {},
                        }
                    }
                    proof {
                        assert(fresh@ =~= batch);
                    }
                    self.pending.append(&mut fresh);
                    proof {
                        let all = before + batch;
                        assert forall|k: int| 0 <= k < all.len() implies (#[trigger] all[k])@.has_shape(
                            self.point_dim as nat,
                            self.label_dim as nat,
                        ) by {
                            if k < before.len() {
                                assert(all[k] == before[k]);
                            } else {
                                assert(all[k] == batch[k - before.len()]);
                            }
                        }
                    }
                } else {
                    self.status = WorkerStatus::Failed;
                }
            },
        }
    }
}

/// Runs one step of `worker` on `channel`.
///
/// The worker takes note of `event`, then pushes its pending samples into
/// the channel, oldest first, until none is left or the channel is full.  No
/// sample is dropped: one that does not fit stays pending and is offered
/// again at the next step.  A producer that has terminated leaves the channel
/// alone.  The answer tells the runner what to do next.
pub fn generate_data(
    worker: &mut Producer,
    event: SourceEvent,
    channel: &mut BoundedChannel<SpiralItem>,
) -> (action: ProducerAction)
    requires
        old(worker).wf(),
        old(channel).wf(),
    ensures
        final(worker).wf(),
        final(channel).wf(),
        (final(worker)@, final(channel)@, action) == generate_step(
            old(worker)@,
            event,
            old(channel)@,
        ),
{
    worker.absorb(event);
    let ghost noted = worker@;
    let ghost start = channel@;
    proof {
        assert(noted.pending.skip(0) =~= noted.pending);
        assert(start.queue + noted.pending.take(0) =~= start.queue);
    }
    match worker.status {
        WorkerStatus::Failed => {
            return ProducerAction::Fail;
        },
        WorkerStatus::Stopped => {
            return ProducerAction::Stop;
        },
        WorkerStatus::Running => {},
    }
    if channel.is_closed() {
        worker.status = WorkerStatus::Stopped;
        return ProducerAction::Stop;
    }
    let waiting = worker.pending.len();
    let mut pushed: usize = 0;
    while worker.pending.len() > 0 && !channel.is_full()
        invariant
            channel.wf(),
            noted.wf(),
            noted.status == WorkerStatus::Running,
            !start.closed,
            waiting == noted.pending.len(),
            pushed <= waiting,
            start.queue.len() + pushed <= start.capacity,
            worker@ == (ProducerState { pending: noted.pending.skip(pushed as int), ..noted }),
            channel@ == (ChannelState {
                queue: start.queue + noted.pending.take(pushed as int),
                ..start
            }),
        decreases worker.pending.len(),
    {
        let ghost queue_before = channel@.queue;
        if let Some(item) = worker.pending.pop_front() {
            match channel.push(item) {
                Ok(()) => {
                    proof {
                        assert(noted.pending.skip(pushed as int).drop_first() =~= noted.pending.skip(
                            pushed + 1,
                        ));
                        assert(queue_before.push(item) =~= start.queue + noted.pending.take(
                            pushed + 1,
                        ));
                    }
                    pushed += 1;
                },
                Err(refused) => {
                    // An open channel with room refuses nothing; were it to,
                    // the sample would go back to where it came from.
                    worker.pending.push_front(refused.into_inner());
                },
            }
        }
    }
    proof {
        assert(pushed == noted.room(start));
        let rest = noted.pending.skip(pushed as int);
        assert forall|k: int| 0 <= k < rest.len() implies (#[trigger] rest[k])@.has_shape(
            noted.point_dim,
            noted.label_dim,
        ) by {
            assert(rest[k] == noted.pending[k + pushed]);
        }
    }
    if worker.pending.len() == 0 {
        ProducerAction::Generate(worker.n_samples)
    } else {
        ProducerAction::Wait
    }
}

/// What an action means.  A running producer is told to wait only when its
/// channel is full and it still has a sample to push, and to ask the source
/// only when it has nothing left to push; a producer is told to stop or that
/// it failed exactly when it has terminated so.
pub proof fn lemma_action_meaning(
    producer: ProducerState,
    event: SourceEvent,
    channel: ChannelState<SpiralItem>,
)
    requires
        channel.wf(),
    ensures
        ({
            let step = generate_step(producer, event, channel);
            &&& step.2 == ProducerAction::Wait <==> step.0.status == WorkerStatus::Running
                && step.0.pending.len() > 0
            &&& step.2 == ProducerAction::Wait ==> step.1.is_full() && !step.1.closed
            &&& step.2 == ProducerAction::Generate(producer.n_samples as usize) <==> step.0.status
                == WorkerStatus::Running && step.0.pending.len() == 0
            &&& step.2 == ProducerAction::Fail <==> step.0.status == WorkerStatus::Failed
            &&& step.2 == ProducerAction::Stop <==> step.0.status == WorkerStatus::Stopped
        }),
{
}

/// The pushes by which producer `producer` offers `items`, one after the
/// other.
pub open spec fn pushes(producer: nat, items: Seq<SpiralItem>) -> Seq<ChannelOp<SpiralItem>> {
    Seq::new(items.len(), |k: int| ChannelOp::Push { producer, item: items[k] })
}

/// A step pushes one item at a time.  What a producer does to its channel
/// in one step is what that many single pushes do, oldest pending sample
/// first, and the channel takes each of them.
pub proof fn lemma_flush_is_pushes(
    producer: ProducerState,
    channel: ChannelState<SpiralItem>,
    name: nat,
)
    ensures
        ({
            let moved = producer.pending.take(producer.room(channel) as int);
            &&& producer.filled(channel) == channel.run(pushes(name, moved))
            &&& channel.accepted(pushes(name, moved)) == moved
        }),
{
    let count = producer.room(channel);
    lemma_pushes_that_fit(channel, producer.pending.take(count as int), name);
}

proof fn lemma_pushes_that_fit(channel: ChannelState<SpiralItem>, items: Seq<SpiralItem>, name: nat)
    requires
        items.len() == 0 || (!channel.closed && channel.queue.len() + items.len()
            <= channel.capacity),
    ensures
        channel.run(pushes(name, items)) == (ChannelState {
            queue: channel.queue + items,
            ..channel
        }),
        channel.accepted(pushes(name, items)) == items,
    decreases items.len(),
{
    let ops = pushes(name, items);
    if items.len() == 0 {
        assert(channel.queue + items =~= channel.queue);
        assert(channel.accepted(ops) =~= items);
    } else {
        let head = items.drop_last();
        lemma_pushes_that_fit(channel, head, name);
        assert(ops.drop_last() =~= pushes(name, head));
        assert(ops.last() == ChannelOp::Push { producer: name, item: items.last() });
        assert((channel.queue + head).push(items.last()) =~= channel.queue + items);
        assert(head.push(items.last()) =~= items);
    }
}

} // verus!
