//! The registry of streams and of the producers that feed them.
//!
//! A stream is one bounded channel together with its background producers.
//! The pool holds at most one stream for each configuration: whoever asks
//! for a configuration a second time gets the stream that is already there.
//! The pool is an ordinary value, owned by the application and handed to
//! whatever builds datasets; nothing here is global.  Streams are never
//! removed, so a handle stays good for as long as its pool lives.

use crate::channel::BoundedChannel;
use crate::generate::{
    generate_data, generate_step, Producer, ProducerAction, ProducerState, SourceEvent,
    WorkerStatus,
};
use crate::point::{SpiralItem, INPUT_DIM, LABEL_DIM};
use crate::pool::{lemma_step_keeps_pool, PoolOp, PoolState, StreamState};
use vstd::prelude::*;

verus! {

/// Capacity of the stream that `init` sets up.
pub const DEFAULT_CAPACITY: usize = 10_000_000;

/// Number of producers of the stream that `init` sets up.
pub const DEFAULT_WORKERS: usize = 2;

/// Number of samples that a producer of `WorkerPool::default()` requests from
/// the point source at a time.
pub const DEFAULT_SAMPLES: usize = 1000;

/// What tells one stream from another: the capacity of its channel and the
/// shape of its items.
#[derive(Debug, Clone, Copy, PartialEq, Eq, Structural)]
pub struct StreamConfig {
    pub capacity: usize,
    pub point_dim: usize,
    pub label_dim: usize,
}

impl StreamConfig {
    /// The configuration of the stream that `init` sets up.
    pub open spec fn standard() -> StreamConfig {
        StreamConfig { capacity: DEFAULT_CAPACITY, point_dim: INPUT_DIM, label_dim: LABEL_DIM }
    }
}

impl Default for StreamConfig {
    fn default() -> (config: Self)
        ensures
            config == StreamConfig::standard(),
    {
        StreamConfig { capacity: DEFAULT_CAPACITY, point_dim: INPUT_DIM, label_dim: LABEL_DIM }
    }
}

/// The consumer's end of a stream.  Copies of a handle denote the same
/// stream.
#[derive(Debug, Clone, Copy, PartialEq, Eq, Structural)]
pub struct StreamHandle {
    /// Position of the stream in its pool.
    pub id: usize,
}

impl StreamHandle {
    /// Position of the stream in its pool.
    pub open spec fn id(self) -> int {
        self.id as int
    }
}

/// What a consumer gets when it asks a stream for the next item.
#[derive(Debug, Clone, PartialEq, Eq)]
pub enum Draw {
    /// The next item of the stream.
    Item(SpiralItem),
    /// Nothing is in flight, but the stream is still fed: wait until a
    /// producer has pushed, then ask again.
    Wait,
    /// Nothing is in flight and nothing will come: every producer has
    /// terminated or the stream was shut down.
    Closed,
}

/// One stream: its configuration, its channel and its producers.
#[derive(Debug)]
struct Stream {
    config: StreamConfig,
    channel: BoundedChannel<SpiralItem>,
    workers: Vec<Producer>,
}

impl View for Stream {
    type V = StreamState;

    closed spec fn view(&self) -> StreamState {
        StreamState {
            config: self.config,
            channel: self.channel@,
            workers: self.workers@.map_values(|p: Producer| p@),
        }
    }
}

impl Stream {
    /// Sets up a stream with `workers` running producers.
    fn new(config: StreamConfig, workers: usize, n_samples: usize) -> (stream: Self)
        requires
            n_samples > 0,
        ensures
            stream@ == StreamState::fresh(config, workers as nat, n_samples as nat),
    {
        let mut producers: Vec<Producer> = Vec::new();
        let mut w: usize = 0;
        while w < workers
            invariant
                n_samples > 0,
                w <= workers,
                producers@.len() == w,
                forall|k: int|
                    0 <= k < w ==> (#[trigger] producers@[k])@ == ProducerState::fresh(
                        n_samples as nat,
                        config.point_dim as nat,
                        config.label_dim as nat,
                    ),
            decreases workers - w,
        {
            producers.push(Producer::new(n_samples, config.point_dim, config.label_dim));
            w += 1;
        }
        let stream = Stream {
            config,
            channel: BoundedChannel::new(config.capacity),
            workers: producers,
        };
        proof {
            assert(stream@.workers =~= StreamState::fresh(
                config,
                workers as nat,
                n_samples as nat,
            ).workers);
        }
        stream
    }

    /// Tells whether the stream is still fed.
    fn fed(&self) -> (b: bool)
        ensures
            b == self@.fed(),
    {
        if self.channel.is_closed() {
            return false;
        }
        let mut w: usize = 0;
        while w < self.workers.len()
            invariant
                w <= self.workers.len(),
                !self@.channel.closed,
                forall|k: int|
                    0 <= k < w ==> (#[trigger] self@.workers[k]).status != WorkerStatus::Running,
            decreases self.workers.len() - w,
        {
            if self.workers[w].status() == WorkerStatus::Running {
                assert(0 <= w < self@.workers.len() && self@.workers[w as int].status
                    == WorkerStatus::Running);
                return true;
            }
            w += 1;
        }
        false
    }
}

/// The registry of streams.
#[derive(Debug)]
pub struct WorkerPool {
    n_samples: usize,
    streams: Vec<Stream>,
}

impl View for WorkerPool {
    type V = PoolState;

    closed spec fn view(&self) -> PoolState {
        PoolState {
            n_samples: self.n_samples as nat,
            streams: self.streams@.map_values(|s: Stream| s@),
        }
    }
}

impl WorkerPool {
    /// Well-formedness, which the constructors establish and every operation
    /// keeps.
    pub open spec fn wf(&self) -> bool {
        self@.wf() && self@.n_samples <= usize::MAX
    }

    /// Whether `handle` denotes a stream of this pool.
    pub open spec fn owns(&self, handle: StreamHandle) -> bool {
        0 <= handle.id() < self@.streams.len()
    }

    /// A pool without streams whose producers will request `n_samples`
    /// samples at a time.
    pub fn new(n_samples: usize) -> (pool: Self)
        requires
            n_samples > 0,
        ensures
            pool.wf(),
            pool@ == PoolState::empty(n_samples as nat),
    {
        let pool = WorkerPool { n_samples, streams: Vec::new() };
        proof {
            assert(pool@.streams =~= Seq::<StreamState>::empty());
        }
        pool
    }

    /// Number of samples that each producer requests from the point source
    /// at a time.
    pub fn n_samples(&self) -> (n: usize)
        ensures
            n == self@.n_samples,
    {
        self.n_samples
    }

    /// Number of streams that were set up.
    pub fn stream_count(&self) -> (n: usize)
        ensures
            n == self@.streams.len(),
    {
        self.streams.len()
    }

    /// The configuration of stream `handle`.
    pub fn config(&self, handle: StreamHandle) -> (config: StreamConfig)
        requires
            self.owns(handle),
        ensures
            config == self@.streams[handle.id()].config,
    {
        self.streams[handle.id].config
    }

    /// Number of producers of stream `handle`, terminated ones included.
    pub fn workers(&self, handle: StreamHandle) -> (n: usize)
        requires
            self.owns(handle),
        ensures
            n == self@.streams[handle.id()].workers.len(),
    {
        self.streams[handle.id].workers.len()
    }

    /// Whether producer `worker` of stream `handle` is still at work.
    pub fn status(&self, handle: StreamHandle, worker: usize) -> (status: WorkerStatus)
        requires
            self.owns(handle),
            worker < self@.streams[handle.id()].workers.len(),
        ensures
            status == self@.streams[handle.id()].workers[worker as int].status,
    {
        self.streams[handle.id].workers[worker].status()
    }

    /// Number of samples that producer `worker` of stream `handle` has
    /// generated but not yet pushed.
    pub fn pending(&self, handle: StreamHandle, worker: usize) -> (n: usize)
        requires
            self.owns(handle),
            worker < self@.streams[handle.id()].workers.len(),
        ensures
            n == self@.streams[handle.id()].workers[worker as int].pending.len(),
    {
        self.streams[handle.id].workers[worker].pending()
    }

    /// Number of items in flight in stream `handle`.  It never exceeds the
    /// configured capacity.
    pub fn queued(&self, handle: StreamHandle) -> (n: usize)
        requires
            self.wf(),
            self.owns(handle),
        ensures
            n == self@.streams[handle.id()].channel.queue.len(),
            n <= self@.streams[handle.id()].config.capacity,
    {
        proof {
            assert(self@.streams[handle.id()].wf(self@.n_samples));
        }
        self.streams[handle.id].channel.len()
    }

    /// Looks for the stream of configuration `config`.
    pub fn lookup(&self, config: StreamConfig) -> (found: Option<StreamHandle>)
        ensures
            found is Some <==> self@.has(config),
            found matches Some(handle) ==> self@.serves(handle.id(), config),
    {
        let mut i: usize = 0;
        while i < self.streams.len()
            invariant
                i <= self.streams.len(),
                forall|k: int| 0 <= k < i ==> (#[trigger] self@.streams[k]).config != config,
            decreases self.streams.len() - i,
        {
            let c = self.streams[i].config;
            if c.capacity == config.capacity && c.point_dim == config.point_dim && c.label_dim
                == config.label_dim {
                assert(self@.streams[i as int].config == config);
                return Some(StreamHandle { id: i });
            }
            i += 1;
        }
        None
    }

    /// Hands out the stream of configuration `config`.
    ///
    /// The first request for a configuration sets the stream up, with an
    /// empty channel of the configured capacity and `workers` running
    /// producers.  Every later request returns a handle to that same stream
    /// and changes nothing, whatever `workers` it names.
    pub fn acquire_stream(&mut self, config: StreamConfig, workers: usize) -> (handle: StreamHandle)
        requires
            old(self).wf(),
        ensures
            final(self).wf(),
            final(self)@ == old(self)@.acquire(config, workers as nat),
            final(self)@.serves(handle.id(), config),
    {
        proof {
            lemma_step_keeps_pool(self@, PoolOp::Acquire { config, workers: workers as nat });
        }
        match self.lookup(config) {
            Some(handle) => handle,
            None => {
                let id = self.streams.len();
                let stream = Stream::new(config, workers, self.n_samples);
                let ghost before = self@;
                self.streams.push(stream);
                proof {
                    let fresh = StreamState::fresh(config, workers as nat, before.n_samples);
                    assert(self@.streams =~= before.streams.push(fresh));
                }
                StreamHandle { id }
            },
        }
    }

    /// Asks stream `handle` for its next item, without waiting.
    ///
    /// The oldest item in flight leaves the stream and is handed out; it has
    /// the shape that the stream is configured for.  With nothing in flight
    /// the pool is left as it was, and the answer tells whether waiting can
    /// help.
    pub fn draw(&mut self, handle: StreamHandle) -> (r: Draw)
        requires
            old(self).wf(),
            old(self).owns(handle),
        ensures
            final(self).wf(),
            final(self)@ == old(self)@.drawn(handle.id()),
            r == old(self)@.streams[handle.id()].next(),
            r matches Draw::Item(item) ==> item@.has_shape(
                old(self)@.streams[handle.id()].config.point_dim as nat,
                old(self)@.streams[handle.id()].config.label_dim as nat,
            ),
    {
        let ghost before = self@;
        let ghost id = handle.id();
        proof {
            lemma_step_keeps_pool(before, PoolOp::Draw { stream: id });
            assert(before.streams[id].wf(before.n_samples));
        }
        let fed = self.streams[handle.id].fed();
        let stream = &mut self.streams[handle.id];
        let r = match stream.channel.pop() {
            Ok(item) => Draw::Item(item),
            Err(_) => if fed {
                Draw::Wait
            } else {
                Draw::Closed
            },
        };
        proof {
            assert(self@.streams =~= before.streams.update(id, before.streams[id].drawn()));
        }
        r
    }

    /// Runs one step of producer `worker` of stream `handle` on `event`: see
    /// `generate_data`.  No other producer and no other stream is touched.
    pub fn produce(&mut self, handle: StreamHandle, worker: usize, event: SourceEvent) -> (action:
        ProducerAction)
        requires
            old(self).wf(),
            old(self).owns(handle),
            worker < old(self)@.streams[handle.id()].workers.len(),
        ensures
            final(self).wf(),
            final(self)@ == old(self)@.produced(handle.id(), worker as int, event),
            action == generate_step(
                old(self)@.streams[handle.id()].workers[worker as int],
                event,
                old(self)@.streams[handle.id()].channel,
            ).2,
    {
        let ghost before = self@;
        let ghost id = handle.id();
        proof {
            lemma_step_keeps_pool(
                before,
                PoolOp::Produce { stream: id, worker: worker as int, event },
            );
            assert(before.streams[id].wf(before.n_samples));
            assert(before.streams[id].workers[worker as int].wf());
        }
        let stream = &mut self.streams[handle.id];
        let action = generate_data(&mut stream.workers[worker], event, &mut stream.channel);
        proof {
            let was = before.streams[id];
            let step = generate_step(was.workers[worker as int], event, was.channel);
            assert(self@.streams[id].workers =~= was.workers.update(worker as int, step.0));
            assert(self@.streams =~= before.streams.update(id, was.produced(worker as int, event)));
        }
        action
    }

    /// Shuts stream `handle` down.  Its producers stop at their next step;
    /// its consumers get what is still in flight and then `Draw::Closed`.
    pub fn close(&mut self, handle: StreamHandle)
        requires
            old(self).wf(),
            old(self).owns(handle),
        ensures
            final(self).wf(),
            final(self)@ == old(self)@.shut(handle.id()),
    {
        let ghost before = self@;
        let ghost id = handle.id();
        proof {
            lemma_step_keeps_pool(before, PoolOp::Shut { stream: id });
            assert(before.streams[id].wf(before.n_samples));
        }
        let stream = &mut self.streams[handle.id];
        stream.channel.close();
        proof {
            assert(self@.streams =~= before.streams.update(id, before.streams[id].shut()));
        }
    }
}

impl Default for WorkerPool {
    /// A pool without streams whose producers will request `DEFAULT_SAMPLES`
    /// samples at a time.
    fn default() -> (pool: Self)
        ensures
            pool.wf(),
            pool@ == PoolState::empty(DEFAULT_SAMPLES as nat),
    {
        WorkerPool::new(DEFAULT_SAMPLES)
    }
}

/// Hands out the standard stream of `pool`: capacity `DEFAULT_CAPACITY`,
/// items of `INPUT_DIM` coordinates and `LABEL_DIM` label values, fed by
/// `DEFAULT_WORKERS` producers.  The first call sets the stream up; every
/// later call returns a handle to the same stream and changes nothing.
pub fn init(pool: &mut WorkerPool) -> (handle: StreamHandle)
    requires
        old(pool).wf(),
    ensures
        final(pool).wf(),
        final(pool)@ == old(pool)@.acquire(StreamConfig::standard(), DEFAULT_WORKERS as nat),
        final(pool)@.serves(handle.id(), StreamConfig::standard()),
{
    pool.acquire_stream(StreamConfig::default(), DEFAULT_WORKERS)
}

} // verus!
