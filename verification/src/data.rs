//! Epochs and batches.
//!
//! A dataset is a view of fixed length over a stream that never ends: it
//! says how many items make an epoch and hands out, for whatever index it is
//! asked, the next item of the stream.  A batcher gathers items into one
//! pair of fixed-shape buffers.

use crate::point::{all_have_shape, rows_of, Point, SpiralItem};
use crate::tensor::{
    extents, lemma_chunks_of_flatten, lemma_numel_small, Device, TensorData, TensorModel,
};
use crate::pool::{lemma_one_stream_per_configuration, lemma_step_keeps_pool, PoolOp, PoolState};
use crate::workers::{init, Draw, StreamConfig, StreamHandle, WorkerPool, DEFAULT_WORKERS};
use vstd::prelude::*;

verus! {

/// An epoch-sized view of a stream.
#[derive(Debug, Clone, Copy)]
pub struct SpiralDataset {
    /// Number of items that make one epoch.
    pub epoch_size: usize,
    /// The stream that the items are drawn from.
    pub stream: StreamHandle,
}

impl SpiralDataset {
    /// A dataset of `epoch_size` items per epoch over the standard stream of
    /// `pool`, which is set up if this is the first request for it.
    pub fn new(epoch_size: usize, pool: &mut WorkerPool) -> (dataset: Self)
        requires
            old(pool).wf(),
        ensures
            final(pool).wf(),
            final(pool)@ == old(pool)@.acquire(StreamConfig::standard(), DEFAULT_WORKERS as nat),
            final(pool)@.serves(dataset.stream.id(), StreamConfig::standard()),
            dataset.epoch_size == epoch_size,
    {
        SpiralDataset { epoch_size, stream: init(pool) }
    }

    /// A dataset of `epoch_size` items per epoch over the stream `stream`.
    pub fn on_stream(epoch_size: usize, stream: StreamHandle) -> (dataset: Self)
        ensures
            dataset.epoch_size == epoch_size,
            dataset.stream == stream,
    {
        SpiralDataset { epoch_size, stream }
    }

    /// Hands out the next item of the stream, whatever `index` is.
    ///
    /// Nothing is cached and nothing is replayed: the item leaves the stream
    /// and no other draw, through this dataset or another, will see it.  With
    /// nothing in flight the pool is left as it was and the answer is
    /// `Draw::Wait` while the stream is still fed, `Draw::Closed` when it has
    /// ended.
    pub fn get(&self, pool: &mut WorkerPool, index: usize) -> (r: Draw)
        requires
            old(pool).wf(),
            old(pool).owns(self.stream),
        ensures
            final(pool).wf(),
            final(pool)@ == old(pool)@.drawn(self.stream.id()),
            r == old(pool)@.streams[self.stream.id()].next(),
            r matches Draw::Item(item) ==> item@.has_shape(
                old(pool)@.streams[self.stream.id()].config.point_dim as nat,
                old(pool)@.streams[self.stream.id()].config.label_dim as nat,
            ),
    {
        pool.draw(self.stream)
    }

    /// Number of items in an epoch: the size given at construction, however
    /// many items were produced or drawn since.
    pub fn len(&self) -> (n: usize)
        ensures
            n == self.epoch_size,
    {
        self.epoch_size
    }
}

/// Draws from the standard stream of `pool` as many of `n` items as are in
/// flight right now, and returns their points and their labels.
///
/// The stream is set up if this is the first request for it.  The items
/// drawn are the oldest in flight, in their order; they leave the stream.
/// A caller that needs all `n` waits for the producers and asks again for
/// the rest.
pub fn get_data(pool: &mut WorkerPool, n: usize) -> (data: (Vec<Point>, Vec<u32>))
    requires
        old(pool).wf(),
    ensures
        final(pool).wf(),
        ({
            let ready = old(pool)@.acquire(StreamConfig::standard(), DEFAULT_WORKERS as nat);
            let id = ready.index_of(StreamConfig::standard());
            let queue = ready.streams[id].channel.queue;
            let count = if n <= queue.len() {
                n as int
            } else {
                queue.len() as int
            };
            &&& final(pool)@ == ready.drained(id, count)
            &&& rows_of(data.0@) == point_rows(queue.take(count))
            &&& data.1@ == label_rows(queue.take(count)).flatten()
        }),
{
    let dataset = SpiralDataset::new(n, pool);
    let ghost ready = pool@;
    let ghost id = dataset.stream.id();
    let ghost queue = ready.streams[id].channel.queue;
    proof {
        lemma_one_stream_per_configuration(ready, StreamConfig::standard(), id);
        assert(ready.streams[id].channel.queue.skip(0) =~= ready.streams[id].channel.queue);
        assert(ready.drained(id, 0).streams =~= ready.streams);
        assert(queue.take(0) =~= Seq::<SpiralItem>::empty());
        assert(point_rows(queue.take(0)) =~= Seq::<Seq<u32>>::empty());
        assert(label_rows(queue.take(0)) =~= Seq::<Seq<u32>>::empty());
    }
    let mut points: Vec<Point> = Vec::new();
    let mut labels: Vec<u32> = Vec::new();
    let mut i: usize = 0;
    let mut dry = false;
    while i < n && !dry
        invariant
            pool.wf(),
            pool.owns(dataset.stream),
            id == dataset.stream.id(),
            0 <= id < ready.streams.len(),
            queue == ready.streams[id].channel.queue,
            i <= n,
            i <= queue.len(),
            dry ==> i == queue.len(),
            pool@ == ready.drained(id, i as int),
            rows_of(points@) == point_rows(queue.take(i as int)),
            labels@ == label_rows(queue.take(i as int)).flatten(),
        decreases n - i, if dry { 0int } else { 1int },
    {
        let ghost labels_before = labels@;
        match dataset.get(pool, i) {
            Draw::Item(item) => {
                let SpiralItem { point, label } = item;
                points.push(point);
                match label {
                    Some(t) => {
                        labels.push(t);
                    },
                    None => {},
                }
                proof {
                    let head = queue.take(i as int);
                    let next = queue.take(i + 1);
                    assert(queue.skip(i as int).first() == queue[i as int]);
                    assert(item == queue[i as int]);
                    assert(queue.skip(i as int).drop_first() =~= queue.skip(i + 1));
                    assert(pool@.streams =~= ready.drained(id, i + 1).streams);
                    assert(labels@ =~= labels_before + item@.label_values());
                    assert(point_rows(next) =~= point_rows(head).push(item@.point));
                    assert(label_rows(next) =~= label_rows(head).push(item@.label_values()));
                    assert(rows_of(points@) =~= point_rows(next));
                    label_rows(head).lemma_flatten_push(item@.label_values());
                }
                i += 1;
            },
            _ => {
                proof {
                    assert(queue.skip(i as int).len() == 0);
                    assert(pool@.streams =~= ready.drained(id, i as int).streams);
                }
                dry = true;
            },
        }
    }
    (points, labels)
}

/// The coordinate vectors of `items`, one row per item.
pub open spec fn point_rows(items: Seq<SpiralItem>) -> Seq<Seq<u32>> {
    items.map_values(|item: SpiralItem| item@.point)
}

/// The label vectors of `items`, one row per item; a row is empty where the
/// item has no label.
pub open spec fn label_rows(items: Seq<SpiralItem>) -> Seq<Seq<u32>> {
    items.map_values(|item: SpiralItem| item@.label_values())
}

/// Gathers items into batches for one device.
#[derive(Debug, Clone, Copy)]
pub struct SpiralBatcher {
    device: Device,
}

/// A batch: the points of its items stacked into a buffer of shape
/// `[batch_size, 1, point_dim]` and their labels into one of shape
/// `[batch_size, label_dim]`, both meant for `device`.
#[derive(Debug, Clone, PartialEq, Eq)]
pub struct SpiralBatch {
    pub points: TensorData,
    pub labels: TensorData,
    pub device: Device,
}

/// What a batch is, mathematically.
pub struct BatchModel {
    pub points: TensorModel,
    pub labels: TensorModel,
    pub device: Device,
}

impl View for SpiralBatch {
    type V = BatchModel;

    open spec fn view(&self) -> BatchModel {
        BatchModel { points: self.points@, labels: self.labels@, device: self.device }
    }
}

/// The batch that `items` of `point_dim` coordinates and `label_dim` label
/// values make: rows in the order of the items, nothing truncated and
/// nothing padded.
pub open spec fn batch_of(
    items: Seq<SpiralItem>,
    point_dim: nat,
    label_dim: nat,
    device: Device,
) -> BatchModel {
    BatchModel {
        points: TensorModel {
            dims: seq![items.len(), 1, point_dim],
            values: point_rows(items).flatten(),
        },
        labels: TensorModel {
            dims: seq![items.len(), label_dim],
            values: label_rows(items).flatten(),
        },
        device,
    }
}

/// Why a list of items could not be batched.
#[derive(Debug, Clone, Copy, PartialEq, Eq, Structural)]
pub enum BatchError {
    /// The list is empty: there is no item to take the shape from.
    Empty,
    /// The item at `index` is the first whose number of coordinates or of
    /// label values differs from that of the first item.
    ShapeMismatch { index: usize },
}

impl SpiralBatcher {
    /// A batcher for `device`.
    pub fn new(device: Device) -> (batcher: Self)
        ensures
            batcher.device() == device,
    {
        SpiralBatcher { device }
    }

    /// The device that the batches are meant for.
    pub closed spec fn spec_device(&self) -> Device {
        self.device
    }

    /// The device that the batches are meant for.
    #[verifier::when_used_as_spec(spec_device)]
    pub fn device(&self) -> (device: Device)
        ensures
            device == self.spec_device(),
    {
        self.device
    }

    /// Stacks `items` into one batch.
    ///
    /// The first item sets the shape.  If every item has that shape, the
    /// batch is `batch_of` the items, for the batcher's device, and each
    /// buffer holds as many numbers as its shape says.  Otherwise the whole
    /// list is rejected, with the position of the first item that differs;
    /// nothing is truncated or padded to make it fit.  An empty list is
    /// rejected too.
    pub fn batch(&self, items: Vec<SpiralItem>) -> (r: Result<SpiralBatch, BatchError>)
        ensures
            r is Ok <==> items.len() > 0 && all_have_shape(
                items@,
                items[0]@.point_dim(),
                items[0]@.label_dim(),
            ),
            match r {
                Ok(batch) => {
                    &&& items.len() > 0
                    &&& all_have_shape(items@, items[0]@.point_dim(), items[0]@.label_dim())
                    &&& batch@ == batch_of(
                        items@,
                        items[0]@.point_dim(),
                        items[0]@.label_dim(),
                        self.device(),
                    )
                    &&& batch@.points.wf()
                    &&& batch@.labels.wf()
                    &&& batch.points.values.len() == items.len() * items[0]@.point_dim()
                    &&& batch.labels.values.len() == items.len() * items[0]@.label_dim()
                },
                Err(BatchError::Empty) => items.len() == 0,
                Err(BatchError::ShapeMismatch { index }) => {
                    &&& 0 < index < items.len()
                    &&& !items[index as int]@.has_shape(
                        items[0]@.point_dim(),
                        items[0]@.label_dim(),
                    )
                    &&& all_have_shape(
                        items@.take(index as int),
                        items[0]@.point_dim(),
                        items[0]@.label_dim(),
                    )
                },
            },
    {
        let n = items.len();
        if n == 0 {
            return Err(BatchError::Empty);
        }
        let point_dim = items[0].point_dim();
        let label_dim = items[0].label_dim();
        let mut points: Vec<u32> = Vec::new();
        let mut labels: Vec<u32> = Vec::new();
        let mut i: usize = 0;
        proof {
            assert(point_rows(items@.take(0)) =~= Seq::<Seq<u32>>::empty());
            assert(label_rows(items@.take(0)) =~= Seq::<Seq<u32>>::empty());
        }
        while i < n
            invariant
                n == items.len(),
                i <= n,
                0 < n,
                point_dim == items[0]@.point_dim(),
                label_dim == items[0]@.label_dim(),
                all_have_shape(items@.take(i as int), point_dim as nat, label_dim as nat),
                points@ == point_rows(items@.take(i as int)).flatten(),
                labels@ == label_rows(items@.take(i as int)).flatten(),
            decreases n - i,
        {
            let item = &items[i];
            if !item.has_shape(point_dim, label_dim) {
                return Err(BatchError::ShapeMismatch { index: i });
            }
            let ghost before = points@;
            let mut j: usize = 0;
            while j < item.point.len()
                invariant
                    j <= item.point.len(),
                    points@ == before + item.point@.take(j as int),
                decreases item.point.len() - j,
            {
                points.push(item.point[j]);
                proof {
                    assert(item.point@.take(j + 1) =~= item.point@.take(j as int).push(
                        item.point@[j as int],
                    ));
                }
                j += 1;
            }
            let ghost labels_before = labels@;
            match item.label {
                Some(t) => {
                    labels.push(t);
                },
                None => {},
            }
            proof {
                let head = items@.take(i as int);
                let next = items@.take(i + 1);
                assert(item.point@.take(item.point@.len() as int) =~= item.point@);
                assert(labels@ =~= labels_before + item@.label_values());
                assert(point_rows(next) =~= point_rows(head).push(item@.point));
                assert(label_rows(next) =~= label_rows(head).push(item@.label_values()));
                point_rows(head).lemma_flatten_push(item@.point);
                label_rows(head).lemma_flatten_push(item@.label_values());
                assert forall|k: int| 0 <= k < next.len() implies (#[trigger] next[k])@.has_shape(
                    point_dim as nat,
                    label_dim as nat,
                ) by {
                    if k < i {
                        assert(next[k] == head[k]);
                    }
                }
            }
            i += 1;
        }
        proof {
            assert(items@.take(n as int) =~= items@);
            lemma_batch_is_well_formed(items@, point_dim as nat, label_dim as nat);
        }
        let mut point_dims: Vec<usize> = Vec::new();
        point_dims.push(n);
        point_dims.push(1);
        point_dims.push(point_dim);
        let mut label_dims: Vec<usize> = Vec::new();
        label_dims.push(n);
        label_dims.push(label_dim);
        proof {
            assert(extents(point_dims@) =~= seq![n as nat, 1, point_dim as nat]);
            assert(extents(label_dims@) =~= seq![n as nat, label_dim as nat]);
        }
        Ok(
            SpiralBatch {
                points: TensorData { dims: point_dims, values: points },
                labels: TensorData { dims: label_dims, values: labels },
                device: self.device,
            },
        )
    }
}

/// Rows of one length, laid end to end, lie row-major: the result has
/// `rows.len() * width` numbers and number `j` of row `i` stands at
/// `i * width + j`.
pub proof fn lemma_flatten_uniform(rows: Seq<Seq<u32>>, width: nat)
    requires
        forall|i: int| 0 <= i < rows.len() ==> (#[trigger] rows[i]).len() == width,
    ensures
        rows.flatten().len() == rows.len() * width,
        forall|i: int, j: int|
            #![trigger rows[i][j]]
            0 <= i < rows.len() && 0 <= j < width ==> rows.flatten()[i * width + j] == rows[i][j],
    decreases rows.len(),
{
    if rows.len() == 0 {
        assert(rows.len() * width == 0) by (nonlinear_arith)
            requires
                rows.len() == 0,
        ;
    } else {
        let head = rows.drop_last();
        let tail = rows.last();
        lemma_flatten_uniform(head, width);
        assert(rows =~= head.push(tail));
        head.lemma_flatten_push(tail);
        assert(rows.flatten() =~= head.flatten() + tail);
        assert(head.len() * width + width == rows.len() * width) by (nonlinear_arith)
            requires
                head.len() + 1 == rows.len(),
        ;
        assert forall|i: int, j: int|
            #![trigger rows[i][j]]
            0 <= i < rows.len() && 0 <= j < width implies rows.flatten()[i * width + j]
            == rows[i][j] by {
            if i < head.len() {
                assert(i * width + j < head.len() * width) by (nonlinear_arith)
                    requires
                        0 <= i < head.len(),
                        0 <= j < width,
                ;
                assert(0 <= i * width + j) by (nonlinear_arith)
                    requires
                        0 <= i,
                        0 <= j,
                        0 <= width,
                ;
                assert(head[i] == rows[i]);
            } else {
                assert(i * width + j == head.len() * width + j) by (nonlinear_arith)
                    requires
                        i == head.len(),
                ;
            }
        }
    }
}

/// Batch shape.  A batch of `k` items of one shape has a points buffer of
/// shape `[k, 1, point_dim]` and a labels buffer of shape `[k, label_dim]`,
/// and each buffer holds exactly as many numbers as its shape says.
pub proof fn lemma_batch_is_well_formed(items: Seq<SpiralItem>, point_dim: nat, label_dim: nat)
    requires
        all_have_shape(items, point_dim, label_dim),
    ensures
        forall|device: Device|
            {
                let batch = #[trigger] batch_of(items, point_dim, label_dim, device);
                &&& batch.points.dims == seq![items.len(), 1, point_dim]
                &&& batch.labels.dims == seq![items.len(), label_dim]
                &&& batch.points.wf()
                &&& batch.labels.wf()
                &&& batch.points.values.len() == items.len() * point_dim
                &&& batch.labels.values.len() == items.len() * label_dim
            },
{
    assert forall|i: int| 0 <= i < point_rows(items).len() implies (#[trigger] point_rows(
        items,
    )[i]).len() == point_dim by {
        assert(items[i]@.has_shape(point_dim, label_dim));
    }
    assert forall|i: int| 0 <= i < label_rows(items).len() implies (#[trigger] label_rows(
        items,
    )[i]).len() == label_dim by {
        assert(items[i]@.has_shape(point_dim, label_dim));
    }
    lemma_flatten_uniform(point_rows(items), point_dim);
    lemma_flatten_uniform(label_rows(items), label_dim);
    lemma_numel_small(items.len(), 1, point_dim);
    lemma_numel_small(items.len(), label_dim, 0);
    assert(items.len() * 1 * point_dim == items.len() * point_dim) by (nonlinear_arith);
}

/// Row-major layout of a batch.  In a batch of items of one shape,
/// coordinate `j` of item `i` stands at `i * point_dim + j` of the points
/// buffer and label value `j` of item `i` at `i * label_dim + j` of the
/// labels buffer.
pub proof fn lemma_batch_layout(
    items: Seq<SpiralItem>,
    point_dim: nat,
    label_dim: nat,
    device: Device,
)
    requires
        all_have_shape(items, point_dim, label_dim),
    ensures
        forall|i: int, j: int|
            0 <= i < items.len() && 0 <= j < point_dim ==> batch_of(
                items,
                point_dim,
                label_dim,
                device,
            ).points.values[i * point_dim + j] == items[i]@.point[j],
        forall|i: int, j: int|
            0 <= i < items.len() && 0 <= j < label_dim ==> batch_of(
                items,
                point_dim,
                label_dim,
                device,
            ).labels.values[i * label_dim + j] == items[i]@.label_values()[j],
{
    assert forall|i: int| 0 <= i < point_rows(items).len() implies (#[trigger] point_rows(
        items,
    )[i]).len() == point_dim by {
        assert(items[i]@.has_shape(point_dim, label_dim));
    }
    assert forall|i: int| 0 <= i < label_rows(items).len() implies (#[trigger] label_rows(
        items,
    )[i]).len() == label_dim by {
        assert(items[i]@.has_shape(point_dim, label_dim));
    }
    lemma_flatten_uniform(point_rows(items), point_dim);
    lemma_flatten_uniform(label_rows(items), label_dim);
    assert forall|i: int, j: int| 0 <= i < items.len() && 0 <= j < point_dim implies batch_of(
        items,
        point_dim,
        label_dim,
        device,
    ).points.values[i * point_dim + j] == items[i]@.point[j] by {
        assert(point_rows(items)[i][j] == items[i]@.point[j]);
    }
    assert forall|i: int, j: int| 0 <= i < items.len() && 0 <= j < label_dim implies batch_of(
        items,
        point_dim,
        label_dim,
        device,
    ).labels.values[i * label_dim + j] == items[i]@.label_values()[j] by {
        assert(label_rows(items)[i][j] == items[i]@.label_values()[j]);
    }
}

/// Datasets over one stream share its items out between them.  If one
/// dataset draws and then another, both over the same stream, the first gets
/// the oldest item in flight and the second the one behind it: the item that
/// the first consumed is gone from the stream before the second draws, so it
/// is never handed out again.
pub proof fn lemma_datasets_share_stream(pool: PoolState, first: SpiralDataset, second: SpiralDataset)
    requires
        pool.wf(),
        first.stream == second.stream,
        0 <= first.stream.id() < pool.streams.len(),
    ensures
        ({
            let queue = pool.streams[first.stream.id()].channel.queue;
            let after_first = pool.drawn(first.stream.id());
            let after_both = after_first.drawn(second.stream.id());
            &&& after_first.wf()
            &&& after_both.wf()
            &&& queue.len() >= 1 ==> {
                &&& pool.streams[first.stream.id()].next() == Draw::Item(queue[0])
                &&& after_first.streams[second.stream.id()].channel.queue == queue.skip(1)
            }
            &&& queue.len() >= 2 ==> {
                &&& after_first.streams[second.stream.id()].next() == Draw::Item(queue[1])
                &&& after_both.streams[first.stream.id()].channel.queue == queue.skip(2)
            }
        }),
{
    let id = first.stream.id();
    let queue = pool.streams[id].channel.queue;
    let after_first = pool.drawn(id);
    lemma_step_keeps_pool(pool, PoolOp::Draw { stream: id });
    lemma_step_keeps_pool(after_first, PoolOp::Draw { stream: id });
    if queue.len() >= 1 {
        assert(queue.drop_first() =~= queue.skip(1));
    }
    if queue.len() >= 2 {
        assert(queue.skip(1).first() == queue[1]);
        assert(queue.skip(1).drop_first() =~= queue.skip(2));
    }
}

/// Batching loses nothing.  The rows of the points buffer of a batch are the
/// points of its items, in order, and the rows of its labels buffer are
/// their labels.
pub proof fn lemma_batch_rows(items: Seq<SpiralItem>, point_dim: nat, label_dim: nat, device: Device)
    requires
        all_have_shape(items, point_dim, label_dim),
    ensures
        point_dim > 0 ==> batch_of(items, point_dim, label_dim, device).points.rows()
            == point_rows(items),
        label_dim > 0 ==> batch_of(items, point_dim, label_dim, device).labels.rows()
            == label_rows(items),
{
    assert forall|i: int| 0 <= i < point_rows(items).len() implies (#[trigger] point_rows(
        items,
    )[i]).len() == point_dim by {
        assert(items[i]@.has_shape(point_dim, label_dim));
    }
    assert forall|i: int| 0 <= i < label_rows(items).len() implies (#[trigger] label_rows(
        items,
    )[i]).len() == label_dim by {
        assert(items[i]@.has_shape(point_dim, label_dim));
    }
    if point_dim > 0 {
        lemma_chunks_of_flatten(point_rows(items), point_dim);
    }
    if label_dim > 0 {
        lemma_chunks_of_flatten(label_rows(items), label_dim);
    }
}

} // verus!
