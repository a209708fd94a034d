//! The mathematics of the pool: what a stream and a pool are, what each
//! operation does to them, and what holds of every sequence of operations.

use crate::channel::ChannelState;
use crate::generate::{generate_step, ProducerState, SourceEvent, WorkerStatus};
use crate::point::{all_have_shape, SpiralItem};
use crate::workers::{Draw, StreamConfig};
use vstd::multiset::Multiset;
use vstd::prelude::*;
use vstd::seq_lib::lemma_multiset_commutative;

verus! {

/// The mathematical state of a stream.
pub struct StreamState {
    pub config: StreamConfig,
    pub channel: ChannelState<SpiralItem>,
    pub workers: Seq<ProducerState>,
}

impl StreamState {
    /// Well-formedness of a stream whose producers request `n_samples`
    /// samples at a time: the channel is within the configured capacity, and
    /// every item in flight or pending has the configured shape.
    pub open spec fn wf(self, n_samples: nat) -> bool {
        &&& self.channel.wf()
        &&& self.channel.capacity == self.config.capacity
        &&& all_have_shape(
            self.channel.queue,
            self.config.point_dim as nat,
            self.config.label_dim as nat,
        )
        &&& forall|w: int|
            0 <= w < self.workers.len() ==> {
                let worker = #[trigger] self.workers[w];
                &&& worker.wf()
                &&& worker.n_samples == n_samples
                &&& worker.point_dim == self.config.point_dim
                &&& worker.label_dim == self.config.label_dim
            }
    }

    /// A stream as it is set up: an open, empty channel and `workers`
    /// running producers with nothing pending.
    pub open spec fn fresh(config: StreamConfig, workers: nat, n_samples: nat) -> Self {
        StreamState {
            config,
            channel: ChannelState::empty(config.capacity as nat),
            workers: Seq::new(
                workers,
                |w: int|
                    ProducerState::fresh(n_samples, config.point_dim as nat, config.label_dim as nat),
            ),
        }
    }

    /// Whether the stream is still fed: it was not shut down and one of its
    /// producers is running.
    pub open spec fn fed(self) -> bool {
        !self.channel.closed && exists|w: int|
            0 <= w < self.workers.len() && (#[trigger] self.workers[w]).status
                == WorkerStatus::Running
    }

    /// What a consumer gets from the stream in this state.
    pub open spec fn next(self) -> Draw {
        if self.channel.delivers() {
            Draw::Item(self.channel.queue.first())
        } else if self.fed() {
            Draw::Wait
        } else {
            Draw::Closed
        }
    }

    /// The stream after a consumer asked for the next item.
    pub open spec fn drawn(self) -> Self {
        StreamState { channel: self.channel.pop(), ..self }
    }

    /// The stream after producer `worker` made one step on `event`.
    pub open spec fn produced(self, worker: int, event: SourceEvent) -> Self
        recommends
            0 <= worker < self.workers.len(),
    {
        let step = generate_step(self.workers[worker], event, self.channel);
        StreamState { channel: step.1, workers: self.workers.update(worker, step.0), ..self }
    }

    /// The stream after it was shut down.
    pub open spec fn shut(self) -> Self {
        StreamState { channel: self.channel.close(), ..self }
    }

    /// Everything that the stream holds: the items in flight and the samples
    /// pending with its producers.
    pub open spec fn held(self) -> Multiset<SpiralItem> {
        self.channel.queue.to_multiset().add(pending_of(self.workers))
    }
}

/// The samples pending with `workers`, all together.
pub open spec fn pending_of(workers: Seq<ProducerState>) -> Multiset<SpiralItem>
    decreases workers.len(),
{
    if workers.len() == 0 {
        Multiset::empty()
    } else {
        pending_of(workers.drop_last()).add(workers.last().pending.to_multiset())
    }
}

/// The samples that `producer` takes over from the source on `event`: the
/// batch, if the producer is running and the batch is good, else nothing.
pub open spec fn taken_over(producer: ProducerState, event: SourceEvent) -> Multiset<SpiralItem> {
    match event {
        SourceEvent::Generated(items) => if producer.status == WorkerStatus::Running
            && producer.accepts_batch(items@) {
            items@.to_multiset()
        } else {
            Multiset::empty()
        },
        _ => Multiset::empty(),
    }
}

/// The item that a draw hands out in state `channel`, if any.
pub open spec fn handed_out(channel: ChannelState<SpiralItem>) -> Multiset<SpiralItem> {
    if channel.delivers() {
        Multiset::singleton(channel.queue.first())
    } else {
        Multiset::empty()
    }
}

/// The mathematical state of a pool.
pub struct PoolState {
    /// Number of samples that each producer requests at a time.
    pub n_samples: nat,
    /// The streams, in the order in which they were set up.
    pub streams: Seq<StreamState>,
}

/// One operation on a pool, as the application or one of its tasks performs
/// it.
pub enum PoolOp {
    /// Somebody asks for the stream of `config`, to be fed by `workers`
    /// producers if it has to be set up.
    Acquire { config: StreamConfig, workers: nat },
    /// A consumer asks stream `stream` for the next item.
    Draw { stream: int },
    /// Producer `worker` of stream `stream` makes one step on `event`.
    Produce { stream: int, worker: int, event: SourceEvent },
    /// Somebody shuts stream `stream` down.
    Shut { stream: int },
}

impl PoolState {
    /// Well-formedness: every stream is well-formed and no two streams have
    /// the same configuration.
    pub open spec fn wf(self) -> bool {
        &&& self.n_samples > 0
        &&& forall|i: int|
            0 <= i < self.streams.len() ==> (#[trigger] self.streams[i]).wf(self.n_samples)
        &&& forall|i: int, j: int|
            0 <= i < j < self.streams.len() ==> (#[trigger] self.streams[i]).config != (
            #[trigger] self.streams[j]).config
    }

    /// A pool without streams.
    pub open spec fn empty(n_samples: nat) -> Self {
        PoolState { n_samples, streams: Seq::empty() }
    }

    /// Whether the pool holds a stream of configuration `config`.
    pub open spec fn has(self, config: StreamConfig) -> bool {
        exists|i: int| 0 <= i < self.streams.len() && (#[trigger] self.streams[i]).config == config
    }

    /// Whether `id` is the stream of configuration `config`.
    pub open spec fn serves(self, id: int, config: StreamConfig) -> bool {
        0 <= id < self.streams.len() && self.streams[id].config == config
    }

    /// The stream of configuration `config`; in a well-formed pool there is
    /// at most one.
    pub open spec fn index_of(self, config: StreamConfig) -> int
        recommends
            self.has(config),
    {
        choose|id: int| self.serves(id, config)
    }

    /// The pool after a stream of configuration `config` was asked for.  If
    /// there is one, nothing changes; else a fresh stream with `workers`
    /// producers is set up behind the others.
    pub open spec fn acquire(self, config: StreamConfig, workers: nat) -> Self {
        if self.has(config) {
            self
        } else {
            PoolState {
                streams: self.streams.push(StreamState::fresh(config, workers, self.n_samples)),
                ..self
            }
        }
    }

    /// The pool after a consumer asked stream `id` for the next item.
    pub open spec fn drawn(self, id: int) -> Self
        recommends
            0 <= id < self.streams.len(),
    {
        PoolState { streams: self.streams.update(id, self.streams[id].drawn()), ..self }
    }

    /// The pool after consumers took the `count` oldest items of stream `id`.
    pub open spec fn drained(self, id: int, count: int) -> Self
        recommends
            0 <= id < self.streams.len(),
            0 <= count <= self.streams[id].channel.queue.len(),
    {
        let stream = self.streams[id];
        PoolState {
            streams: self.streams.update(
                id,
                StreamState {
                    channel: ChannelState { queue: stream.channel.queue.skip(count), ..stream.channel },
                    ..stream
                },
            ),
            ..self
        }
    }

    /// The pool after producer `worker` of stream `id` made one step on
    /// `event`.
    pub open spec fn produced(self, id: int, worker: int, event: SourceEvent) -> Self
        recommends
            0 <= id < self.streams.len(),
            0 <= worker < self.streams[id].workers.len(),
    {
        PoolState {
            streams: self.streams.update(id, self.streams[id].produced(worker, event)),
            ..self
        }
    }

    /// The pool after stream `id` was shut down.
    pub open spec fn shut(self, id: int) -> Self
        recommends
            0 <= id < self.streams.len(),
    {
        PoolState { streams: self.streams.update(id, self.streams[id].shut()), ..self }
    }

    /// Whether `op` names a stream, and a producer, that the pool has.
    pub open spec fn admits(self, op: PoolOp) -> bool {
        match op {
            PoolOp::Acquire { .. } => true,
            PoolOp::Draw { stream } => 0 <= stream < self.streams.len(),
            PoolOp::Produce { stream, worker, .. } => {
                &&& 0 <= stream < self.streams.len()
                &&& 0 <= worker < self.streams[stream].workers.len()
            },
            PoolOp::Shut { stream } => 0 <= stream < self.streams.len(),
        }
    }

    /// The pool after one operation.  An operation that the pool does not
    /// admit cannot be performed and changes nothing.
    pub open spec fn step(self, op: PoolOp) -> Self {
        if !self.admits(op) {
            self
        } else {
            match op {
                PoolOp::Acquire { config, workers } => self.acquire(config, workers),
                PoolOp::Draw { stream } => self.drawn(stream),
                PoolOp::Produce { stream, worker, event } => self.produced(stream, worker, event),
                PoolOp::Shut { stream } => self.shut(stream),
            }
        }
    }

    /// The pool after the operations `ops`, performed one after the other.
    pub open spec fn run(self, ops: Seq<PoolOp>) -> Self
        decreases ops.len(),
    {
        if ops.len() == 0 {
            self
        } else {
            self.run(ops.drop_last()).step(ops.last())
        }
    }

    /// The samples that the producers of stream `id` took over from the
    /// source by `op`.
    pub open spec fn supplied_by(self, op: PoolOp, id: int) -> Multiset<SpiralItem> {
        match op {
            PoolOp::Produce { stream, worker, event } => if stream == id && self.admits(op) {
                taken_over(self.streams[id].workers[worker], event)
            } else {
                Multiset::empty()
            },
            _ => Multiset::empty(),
        }
    }

    /// The item that `op` hands out of stream `id`, if any.
    pub open spec fn consumed_by(self, op: PoolOp, id: int) -> Multiset<SpiralItem> {
        match op {
            PoolOp::Draw { stream } => if stream == id && self.admits(op) {
                handed_out(self.streams[id].channel)
            } else {
                Multiset::empty()
            },
            _ => Multiset::empty(),
        }
    }

    /// The samples that the producers of stream `id` took over from the
    /// source in the course of `ops`.
    pub open spec fn supplied(self, ops: Seq<PoolOp>, id: int) -> Multiset<SpiralItem>
        decreases ops.len(),
    {
        if ops.len() == 0 {
            Multiset::empty()
        } else {
            self.supplied(ops.drop_last(), id).add(
                self.run(ops.drop_last()).supplied_by(ops.last(), id),
            )
        }
    }

    /// The items that consumers drew from stream `id` in the course of
    /// `ops`.
    pub open spec fn consumed(self, ops: Seq<PoolOp>, id: int) -> Multiset<SpiralItem>
        decreases ops.len(),
    {
        if ops.len() == 0 {
            Multiset::empty()
        } else {
            self.consumed(ops.drop_last(), id).add(
                self.run(ops.drop_last()).consumed_by(ops.last(), id),
            )
        }
    }
}

/// A step of a producer keeps the shapes: if what is pending and what is in
/// flight has the producer's shape before, it has so after, and the channel
/// stays within its capacity.
pub proof fn lemma_step_keeps_shapes(
    producer: ProducerState,
    event: SourceEvent,
    channel: ChannelState<SpiralItem>,
)
    requires
        producer.wf(),
        channel.wf(),
        all_have_shape(channel.queue, producer.point_dim, producer.label_dim),
    ensures
        ({
            let step = generate_step(producer, event, channel);
            &&& step.0.wf()
            &&& step.1.wf()
            &&& step.1.capacity == channel.capacity
            &&& all_have_shape(step.1.queue, producer.point_dim, producer.label_dim)
            &&& step.0.n_samples == producer.n_samples
            &&& step.0.point_dim == producer.point_dim
            &&& step.0.label_dim == producer.label_dim
        }),
{
    let noted = producer.absorb(event);
    let step = generate_step(producer, event, channel);
    assert forall|k: int| 0 <= k < noted.pending.len() implies (#[trigger] noted.pending[k])@.has_shape(
        producer.point_dim,
        producer.label_dim,
    ) by {
        if k < producer.pending.len() {
            assert(noted.pending[k] == producer.pending[k]);
        } else {
            match event {
                SourceEvent::Generated(items) => {
                    assert(noted.pending[k] == items@[k - producer.pending.len()]);
                },
                _ => {},
            }
        }
    }
    let moved = noted.room(channel) as int;
    assert forall|k: int| 0 <= k < step.0.pending.len() implies (#[trigger] step.0.pending[k])@.has_shape(
        producer.point_dim,
        producer.label_dim,
    ) by {
        assert(step.0.pending[k] == noted.pending[k + moved]);
    }
    assert forall|k: int| 0 <= k < step.1.queue.len() implies (#[trigger] step.1.queue[k])@.has_shape(
        producer.point_dim,
        producer.label_dim,
    ) by {
        if k < channel.queue.len() {
            assert(step.1.queue[k] == channel.queue[k]);
        } else {
            assert(step.1.queue[k] == noted.pending[k - channel.queue.len()]);
        }
    }
}

/// A producer drops nothing.  After a step, what is in flight followed by
/// what is pending is what was in flight followed by what was pending and,
/// if the source delivered a good batch to a running producer, that batch.
pub proof fn lemma_step_drops_nothing(
    producer: ProducerState,
    event: SourceEvent,
    channel: ChannelState<SpiralItem>,
)
    ensures
        ({
            let step = generate_step(producer, event, channel);
            let noted = producer.absorb(event);
            &&& step.1.queue + step.0.pending == channel.queue + noted.pending
            &&& noted.pending == producer.pending || (event matches SourceEvent::Generated(items)
                && producer.status == WorkerStatus::Running && producer.accepts_batch(items@)
                && noted.pending == producer.pending + items@)
        }),
{
    let step = generate_step(producer, event, channel);
    let noted = producer.absorb(event);
    let moved = noted.room(channel) as int;
    assert(noted.pending.take(moved) + noted.pending.skip(moved) =~= noted.pending);
    assert(step.1.queue + step.0.pending =~= channel.queue + noted.pending);
}

/// Replacing one producer changes what is pending by what that producer
/// has pending.
proof fn lemma_pending_update(workers: Seq<ProducerState>, worker: int, now: ProducerState)
    requires
        0 <= worker < workers.len(),
    ensures
        pending_of(workers.update(worker, now)).add(workers[worker].pending.to_multiset())
            == pending_of(workers).add(now.pending.to_multiset()),
    decreases workers.len(),
{
    broadcast use vstd::multiset::group_multiset_axioms;

    let updated = workers.update(worker, now);
    let old_part = workers[worker].pending.to_multiset();
    let new_part = now.pending.to_multiset();
    assert(pending_of(updated) == pending_of(updated.drop_last()).add(
        updated.last().pending.to_multiset(),
    ));
    assert(pending_of(workers) == pending_of(workers.drop_last()).add(
        workers.last().pending.to_multiset(),
    ));
    if worker == workers.len() - 1 {
        assert(updated.drop_last() =~= workers.drop_last());
        assert(updated.last() == now);
    } else {
        lemma_pending_update(workers.drop_last(), worker, now);
        assert(updated.drop_last() =~= workers.drop_last().update(worker, now));
        assert(updated.last() == workers.last());
        assert(workers.drop_last()[worker] == workers[worker]);
    }
    assert forall|v: SpiralItem|
        pending_of(updated).add(old_part).count(v) == pending_of(workers).add(new_part).count(
            v,
        ) by {
        if worker != workers.len() - 1 {
            let rest = workers.drop_last();
            assert(pending_of(rest.update(worker, now)).add(old_part).count(v) == pending_of(
                rest,
            ).add(new_part).count(v));
        }
    }
    assert(pending_of(updated).add(old_part) =~= pending_of(workers).add(new_part));
}

/// What a stream holds after a producer's step is what it held before and
/// what the producer took over from the source.
pub proof fn lemma_produce_conserves(stream: StreamState, worker: int, event: SourceEvent)
    requires
        0 <= worker < stream.workers.len(),
    ensures
        stream.produced(worker, event).held() == stream.held().add(
            taken_over(stream.workers[worker], event),
        ),
{
    broadcast use vstd::multiset::group_multiset_axioms;

    let producer = stream.workers[worker];
    let noted = producer.absorb(event);
    let step = generate_step(producer, event, stream.channel);
    lemma_step_drops_nothing(producer, event, stream.channel);
    lemma_multiset_commutative(step.1.queue, step.0.pending);
    lemma_multiset_commutative(stream.channel.queue, noted.pending);
    lemma_pending_update(stream.workers, worker, step.0);
    assert(noted.pending.to_multiset() =~= producer.pending.to_multiset().add(
        taken_over(producer, event),
    )) by {
        match event {
            SourceEvent::Generated(items) => {
                if producer.status == WorkerStatus::Running && producer.accepts_batch(items@) {
                    lemma_multiset_commutative(producer.pending, items@);
                }
            },
            _ => {},
        }
    }
    let after = stream.produced(worker, event);
    let sum_after = step.1.queue.to_multiset().add(step.0.pending.to_multiset());
    let sum_before = stream.channel.queue.to_multiset().add(noted.pending.to_multiset());
    let grown = producer.pending.to_multiset().add(taken_over(producer, event));
    let swap_after = pending_of(after.workers).add(producer.pending.to_multiset());
    let swap_before = pending_of(stream.workers).add(step.0.pending.to_multiset());
    assert(sum_after == sum_before);
    assert(swap_after == swap_before);
    assert forall|v: SpiralItem|
        after.held().count(v) == stream.held().add(taken_over(producer, event)).count(v) by {
        assert(sum_after.count(v) == sum_before.count(v));
        assert(swap_after.count(v) == swap_before.count(v));
        assert(noted.pending.to_multiset().count(v) == grown.count(v));
    }
    assert(after.held() =~= stream.held().add(taken_over(producer, event)));
}

/// What a stream held before a draw is what it holds after and the item
/// that the draw handed out.
pub proof fn lemma_draw_conserves(stream: StreamState)
    ensures
        stream.held() == stream.drawn().held().add(handed_out(stream.channel)),
{
    broadcast use vstd::seq_lib::group_to_multiset_ensures;
    broadcast use vstd::multiset::group_multiset_axioms;

    let queue = stream.channel.queue;
    if stream.channel.delivers() {
        assert(queue.remove(0) =~= queue.drop_first());
        assert(queue.contains(queue[0]));
        assert(queue.to_multiset() =~= queue.drop_first().to_multiset().add(
            Multiset::singleton(queue.first()),
        ));
    }
    assert(stream.held() =~= stream.drawn().held().add(handed_out(stream.channel)));
}

/// No loss and no duplication, from the source to the consumer.  Whatever
/// the application, its producers and its consumers do, and in whatever
/// order: what a stream held at the start, together with what its producers
/// took over from the source since, is exactly what its consumers drew
/// together with what it still holds, in flight or pending.  Nothing
/// appears twice and nothing vanishes.
pub proof fn lemma_pipeline_conserves(pool: PoolState, ops: Seq<PoolOp>, id: int)
    requires
        0 <= id < pool.streams.len(),
    ensures
        id < pool.run(ops).streams.len(),
        pool.streams[id].held().add(pool.supplied(ops, id)) == pool.consumed(ops, id).add(
            pool.run(ops).streams[id].held(),
        ),
    decreases ops.len(),
{
    broadcast use vstd::multiset::group_multiset_axioms;

    if ops.len() == 0 {
        assert(pool.streams[id].held().add(pool.supplied(ops, id)) =~= pool.consumed(ops, id).add(
            pool.run(ops).streams[id].held(),
        ));
    } else {
        let before = pool.run(ops.drop_last());
        let op = ops.last();
        lemma_pipeline_conserves(pool, ops.drop_last(), id);
        let was = before.streams[id];
        let now = before.step(op).streams[id];
        assert(id < before.step(op).streams.len() && was.held().add(before.supplied_by(op, id))
            =~= before.consumed_by(op, id).add(now.held())) by {
            if before.admits(op) {
                match op {
                    PoolOp::Acquire { config, workers } => {},
                    PoolOp::Draw { stream } => {
                        if stream == id {
                            lemma_draw_conserves(was);
                        }
                    },
                    PoolOp::Produce { stream, worker, event } => {
                        if stream == id {
                            lemma_produce_conserves(was, worker, event);
                        }
                    },
                    PoolOp::Shut { stream } => {},
                }
            }
        }
        let start = pool.streams[id].held();
        let total_before = start.add(pool.supplied(ops.drop_last(), id));
        let split_before = pool.consumed(ops.drop_last(), id).add(was.held());
        let step_before = was.held().add(before.supplied_by(op, id));
        let step_after = before.consumed_by(op, id).add(now.held());
        assert(total_before == split_before);
        assert(step_before == step_after);
        assert forall|v: SpiralItem|
            start.add(pool.supplied(ops, id)).count(v) == pool.consumed(ops, id).add(
                pool.run(ops).streams[id].held(),
            ).count(v) by {
            assert(total_before.count(v) == split_before.count(v));
            assert(step_before.count(v) == step_after.count(v));
        }
        assert(pool.streams[id].held().add(pool.supplied(ops, id)) =~= pool.consumed(ops, id).add(
            pool.run(ops).streams[id].held(),
        ));
    }
}

/// Replacing one stream of a well-formed pool by a well-formed stream of
/// the same configuration leaves the pool well-formed.
proof fn lemma_update_keeps_wf(pool: PoolState, id: int, stream: StreamState)
    requires
        pool.wf(),
        0 <= id < pool.streams.len(),
        stream.wf(pool.n_samples),
        stream.config == pool.streams[id].config,
    ensures
        (PoolState { streams: pool.streams.update(id, stream), ..pool }).wf(),
{
    let after = PoolState { streams: pool.streams.update(id, stream), ..pool };
    assert forall|i: int| 0 <= i < after.streams.len() implies (#[trigger] after.streams[i]).wf(
        after.n_samples,
    ) by {
        if i != id {
            assert(after.streams[i] == pool.streams[i]);
        }
    }
    assert forall|i: int, j: int| 0 <= i < j < after.streams.len() implies (
    #[trigger] after.streams[i]).config != (#[trigger] after.streams[j]).config by {
        assert(after.streams[i].config == pool.streams[i].config);
        assert(after.streams[j].config == pool.streams[j].config);
    }
}

/// Every operation keeps a well-formed pool well-formed, keeps every stream
/// that is there, with its configuration, and keeps the batch size.
pub proof fn lemma_step_keeps_pool(pool: PoolState, op: PoolOp)
    requires
        pool.wf(),
    ensures
        pool.step(op).wf(),
        pool.step(op).n_samples == pool.n_samples,
        pool.step(op).streams.len() >= pool.streams.len(),
        forall|i: int|
            0 <= i < pool.streams.len() ==> (#[trigger] pool.step(op).streams[i]).config
                == pool.streams[i].config,
{
    if pool.admits(op) {
        match op {
            PoolOp::Acquire { config, workers } => {
                if !pool.has(config) {
                    let fresh = StreamState::fresh(config, workers, pool.n_samples);
                    let after = pool.acquire(config, workers);
                    assert(fresh.wf(pool.n_samples));
                    assert forall|i: int| 0 <= i < after.streams.len() implies (
                    #[trigger] after.streams[i]).wf(after.n_samples) by {
                        if i < pool.streams.len() {
                            assert(after.streams[i] == pool.streams[i]);
                        }
                    }
                    assert forall|i: int, j: int| 0 <= i < j < after.streams.len() implies (
                    #[trigger] after.streams[i]).config != (#[trigger] after.streams[j]).config by {
                        assert(after.streams[i] == pool.streams[i]);
                        if j < pool.streams.len() {
                            assert(after.streams[j] == pool.streams[j]);
                        }
                    }
                    assert forall|i: int| 0 <= i < pool.streams.len() implies (
                    #[trigger] after.streams[i]).config == pool.streams[i].config by {
                        assert(after.streams[i] == pool.streams[i]);
                    }
                }
            },
            PoolOp::Draw { stream } => {
                let was = pool.streams[stream];
                let now = was.drawn();
                assert(was.wf(pool.n_samples));
                assert forall|k: int| 0 <= k < now.channel.queue.len() implies (
                #[trigger] now.channel.queue[k])@.has_shape(
                    was.config.point_dim as nat,
                    was.config.label_dim as nat,
                ) by {
                    if was.channel.delivers() {
                        assert(now.channel.queue[k] == was.channel.queue[k + 1]);
                    }
                }
                lemma_update_keeps_wf(pool, stream, now);
            },
            PoolOp::Produce { stream, worker, event } => {
                let was = pool.streams[stream];
                let now = was.produced(worker, event);
                assert(was.wf(pool.n_samples));
                assert(was.workers[worker].wf());
                lemma_step_keeps_shapes(was.workers[worker], event, was.channel);
                assert forall|w: int| 0 <= w < now.workers.len() implies {
                    let p = #[trigger] now.workers[w];
                    &&& p.wf()
                    &&& p.n_samples == pool.n_samples
                    &&& p.point_dim == now.config.point_dim
                    &&& p.label_dim == now.config.label_dim
                } by {
                    if w != worker {
                        assert(now.workers[w] == was.workers[w]);
                    }
                }
                lemma_update_keeps_wf(pool, stream, now);
            },
            PoolOp::Shut { stream } => {
                assert(pool.streams[stream].wf(pool.n_samples));
                lemma_update_keeps_wf(pool, stream, pool.streams[stream].shut());
            },
        }
    }
}

/// The pool's invariant.  Whatever the application, its producers and its
/// consumers do, and in whatever order, after every single operation each
/// channel holds no more items than its capacity, each item in flight has
/// the shape of its stream, and no configuration has two streams.  No stream
/// is ever removed or given another configuration: a handle, once handed
/// out, denotes the same stream for good.
pub proof fn lemma_pool_invariant(pool: PoolState, ops: Seq<PoolOp>)
    requires
        pool.wf(),
    ensures
        forall|k: int|
            0 <= k <= ops.len() ==> {
                let seen = #[trigger] pool.run(ops.take(k));
                &&& seen.wf()
                &&& seen.streams.len() >= pool.streams.len()
                &&& forall|i: int|
                    0 <= i < pool.streams.len() ==> (#[trigger] seen.streams[i]).config
                        == pool.streams[i].config
            },
{
    assert forall|k: int| 0 <= k <= ops.len() implies {
        let seen = #[trigger] pool.run(ops.take(k));
        &&& seen.wf()
        &&& seen.streams.len() >= pool.streams.len()
        &&& forall|i: int|
            0 <= i < pool.streams.len() ==> (#[trigger] seen.streams[i]).config
                == pool.streams[i].config
    } by {
        lemma_run_keeps_pool(pool, ops.take(k));
    }
}

proof fn lemma_run_keeps_pool(pool: PoolState, ops: Seq<PoolOp>)
    requires
        pool.wf(),
    ensures
        pool.run(ops).wf(),
        pool.run(ops).streams.len() >= pool.streams.len(),
        forall|i: int|
            0 <= i < pool.streams.len() ==> (#[trigger] pool.run(ops).streams[i]).config
                == pool.streams[i].config,
    decreases ops.len(),
{
    if ops.len() > 0 {
        let before = pool.run(ops.drop_last());
        lemma_run_keeps_pool(pool, ops.drop_last());
        lemma_step_keeps_pool(before, ops.last());
        assert forall|i: int| 0 <= i < pool.streams.len() implies (#[trigger] pool.run(
            ops,
        ).streams[i]).config == pool.streams[i].config by {
            assert(before.step(ops.last()).streams[i].config == before.streams[i].config);
        }
    }
}

/// One stream per configuration.  In a well-formed pool at most one stream
/// serves a given configuration, and `index_of` names it.
pub proof fn lemma_one_stream_per_configuration(pool: PoolState, config: StreamConfig, id: int)
    requires
        pool.wf(),
        pool.serves(id, config),
    ensures
        pool.has(config),
        pool.index_of(config) == id,
        forall|other: int| pool.serves(other, config) ==> other == id,
{
    assert forall|other: int| pool.serves(other, config) implies other == id by {
        if other < id {
            assert(pool.streams[other].config != pool.streams[id].config);
        } else if id < other {
            assert(pool.streams[id].config != pool.streams[other].config);
        }
    }
    assert(pool.serves(pool.index_of(config), config));
}

/// The pool is never duplicated.  Asking twice for one configuration, with
/// whatever numbers of producers, sets up one stream: the second request
/// changes nothing and is served by the stream that served the first.
pub proof fn lemma_acquire_twice(pool: PoolState, config: StreamConfig, first: nat, second: nat)
    requires
        pool.wf(),
    ensures
        ({
            let once = pool.acquire(config, first);
            let twice = once.acquire(config, second);
            &&& once.wf()
            &&& once.has(config)
            &&& twice == once
            &&& forall|a: int, b: int|
                once.serves(a, config) && twice.serves(b, config) ==> a == b
        }),
{
    let once = pool.acquire(config, first);
    lemma_step_keeps_pool(pool, PoolOp::Acquire { config, workers: first });
    if pool.has(config) {
    } else {
        assert(once.streams[pool.streams.len() as int].config == config);
    }
    assert(once.has(config));
    let id = choose|i: int|
        0 <= i < once.streams.len() && (#[trigger] once.streams[i]).config == config;
    lemma_one_stream_per_configuration(once, config, id);
}

} // verus!
