use dataset::channel::BoundedChannel;
use dataset::data::{get_data, SpiralBatcher, SpiralDataset};
use dataset::generate::{generate_data, Producer, ProducerAction, SourceEvent, WorkerStatus};
use dataset::point::SpiralItem;
use dataset::tensor::Device;
use dataset::workers::{
    init, Draw, StreamConfig, WorkerPool, DEFAULT_CAPACITY, DEFAULT_SAMPLES, DEFAULT_WORKERS,
};

fn sample(tag: u32) -> SpiralItem {
    let t = tag as f32;
    SpiralItem::new(
        vec![t.to_bits(), (t + 0.25).to_bits(), (t + 0.5).to_bits()],
        Some((t * 10.0).to_bits()),
    )
}

fn samples(from: u32, count: u32) -> Vec<SpiralItem> {
    (from..from + count).map(sample).collect()
}

#[test]
fn fresh_producer_asks_for_a_batch() {
    let mut ch = BoundedChannel::new(4);
    let mut worker = Producer::new(5, 3, 1);
    assert_eq!(worker.status(), WorkerStatus::Running);
    assert_eq!(worker.pending(), 0);
    assert_eq!(generate_data(&mut worker, SourceEvent::Resume, &mut ch), ProducerAction::Generate(5));
    assert_eq!(ch.len(), 0);
}

#[test]
fn producer_pushes_what_fits_and_keeps_the_rest() {
    let mut ch = BoundedChannel::new(4);
    let mut worker = Producer::new(6, 3, 1);
    let action = generate_data(&mut worker, SourceEvent::Generated(samples(0, 6)), &mut ch);
    assert_eq!(action, ProducerAction::Wait);
    assert_eq!(ch.len(), 4);
    assert_eq!(worker.pending(), 2);
    // Nothing moves while the channel stays full.
    assert_eq!(generate_data(&mut worker, SourceEvent::Resume, &mut ch), ProducerAction::Wait);
    assert_eq!(ch.len(), 4);
    assert_eq!(worker.pending(), 2);
    // One pop makes room for one sample.
    assert_eq!(ch.pop(), Ok(sample(0)));
    assert_eq!(generate_data(&mut worker, SourceEvent::Resume, &mut ch), ProducerAction::Wait);
    assert_eq!(ch.len(), 4);
    assert_eq!(worker.pending(), 1);
    assert_eq!(ch.pop(), Ok(sample(1)));
    assert_eq!(generate_data(&mut worker, SourceEvent::Resume, &mut ch), ProducerAction::Generate(6));
    assert_eq!(worker.pending(), 0);
    // The samples come out in the order in which the source made them.
    for tag in 2..6 {
        assert_eq!(ch.pop(), Ok(sample(tag)));
    }
    assert!(ch.is_empty());
}

#[test]
fn producer_fails_on_a_short_batch() {
    let mut ch = BoundedChannel::new(4);
    let mut worker = Producer::new(3, 3, 1);
    let action = generate_data(&mut worker, SourceEvent::Generated(samples(0, 2)), &mut ch);
    assert_eq!(action, ProducerAction::Fail);
    assert_eq!(worker.status(), WorkerStatus::Failed);
    assert_eq!(ch.len(), 0);
    // A dead producer stays dead and leaves the channel alone.
    let again = generate_data(&mut worker, SourceEvent::Generated(samples(0, 3)), &mut ch);
    assert_eq!(again, ProducerAction::Fail);
    assert_eq!(ch.len(), 0);
}

#[test]
fn producer_fails_on_a_malformed_sample() {
    let mut ch = BoundedChannel::new(4);
    let mut worker = Producer::new(2, 3, 1);
    let bad = vec![sample(0), SpiralItem::new(vec![1, 2], Some(3))];
    assert_eq!(generate_data(&mut worker, SourceEvent::Generated(bad), &mut ch), ProducerAction::Fail);
    assert_eq!(ch.len(), 0);
    let mut other = Producer::new(1, 3, 1);
    let unlabelled = vec![SpiralItem::new(vec![1, 2, 3], None)];
    assert_eq!(
        generate_data(&mut other, SourceEvent::Generated(unlabelled), &mut ch),
        ProducerAction::Fail
    );
}

#[test]
fn producer_fails_when_the_source_is_unavailable() {
    let mut ch = BoundedChannel::new(4);
    let mut worker = Producer::new(2, 3, 1);
    assert_eq!(generate_data(&mut worker, SourceEvent::Unavailable, &mut ch), ProducerAction::Fail);
    assert_eq!(worker.status(), WorkerStatus::Failed);
}

#[test]
fn producer_stops_when_the_channel_is_closed() {
    let mut ch = BoundedChannel::new(1);
    let mut worker = Producer::new(2, 3, 1);
    assert_eq!(
        generate_data(&mut worker, SourceEvent::Generated(samples(0, 2)), &mut ch),
        ProducerAction::Wait
    );
    ch.close();
    assert_eq!(generate_data(&mut worker, SourceEvent::Resume, &mut ch), ProducerAction::Stop);
    assert_eq!(worker.status(), WorkerStatus::Stopped);
    assert_eq!(worker.pending(), 1);
    assert_eq!(ch.len(), 1);
}

#[test]
fn pool_starts_empty() {
    let pool = WorkerPool::new(10);
    assert_eq!(pool.n_samples(), 10);
    assert_eq!(pool.stream_count(), 0);
    let config = StreamConfig { capacity: 4, point_dim: 3, label_dim: 1 };
    assert_eq!(pool.lookup(config), None);
    let standard = WorkerPool::default();
    assert_eq!(standard.n_samples(), DEFAULT_SAMPLES);
    assert_eq!(DEFAULT_SAMPLES, 1000);
}

#[test]
fn same_configuration_gives_the_same_stream() {
    let mut pool = WorkerPool::new(10);
    let config = StreamConfig { capacity: 4, point_dim: 3, label_dim: 1 };
    let first = pool.acquire_stream(config, 2);
    assert_eq!(pool.stream_count(), 1);
    assert_eq!(pool.workers(first), 2);
    assert_eq!(pool.config(first), config);
    let second = pool.acquire_stream(config, 7);
    assert_eq!(first, second);
    assert_eq!(pool.stream_count(), 1);
    assert_eq!(pool.workers(second), 2);
    assert_eq!(pool.lookup(config), Some(first));
}

#[test]
fn other_configuration_gives_another_stream() {
    let mut pool = WorkerPool::new(10);
    let a = pool.acquire_stream(StreamConfig { capacity: 4, point_dim: 3, label_dim: 1 }, 1);
    let b = pool.acquire_stream(StreamConfig { capacity: 5, point_dim: 3, label_dim: 1 }, 1);
    let c = pool.acquire_stream(StreamConfig { capacity: 4, point_dim: 4, label_dim: 0 }, 1);
    let d = pool.acquire_stream(StreamConfig { capacity: 4, point_dim: 3, label_dim: 0 }, 1);
    assert_eq!(pool.stream_count(), 4);
    assert!(a != b && a != c && a != d && b != c && b != d && c != d);
    assert_eq!(pool.acquire_stream(StreamConfig { capacity: 5, point_dim: 3, label_dim: 1 }, 3), b);
    assert_eq!(pool.stream_count(), 4);
}

#[test]
fn init_sets_up_the_standard_stream_once() {
    let mut pool = WorkerPool::default();
    let first = init(&mut pool);
    let second = init(&mut pool);
    assert_eq!(first, second);
    assert_eq!(pool.stream_count(), 1);
    assert_eq!(pool.workers(first), DEFAULT_WORKERS);
    assert_eq!(DEFAULT_WORKERS, 2);
    assert_eq!(
        pool.config(first),
        StreamConfig { capacity: DEFAULT_CAPACITY, point_dim: 3, label_dim: 1 }
    );
    assert_eq!(pool.config(first), StreamConfig::default());
    assert_eq!(DEFAULT_CAPACITY, 10_000_000);
    assert_eq!(pool.queued(first), 0);
}

#[test]
fn draw_waits_while_fed_and_closes_when_not() {
    let mut pool = WorkerPool::new(2);
    let config = StreamConfig { capacity: 4, point_dim: 3, label_dim: 1 };
    let h = pool.acquire_stream(config, 2);
    assert_eq!(pool.draw(h), Draw::Wait);
    // One producer dies: the pool has silently lost a worker, the stream is still fed.
    assert_eq!(pool.produce(h, 0, SourceEvent::Unavailable), ProducerAction::Fail);
    assert_eq!(pool.status(h, 0), WorkerStatus::Failed);
    assert_eq!(pool.status(h, 1), WorkerStatus::Running);
    assert_eq!(pool.workers(h), 2);
    assert_eq!(pool.draw(h), Draw::Wait);
    // The other one delivers, then dies too.
    assert_eq!(pool.produce(h, 1, SourceEvent::Generated(samples(0, 2))), ProducerAction::Generate(2));
    assert_eq!(pool.produce(h, 1, SourceEvent::Generated(samples(0, 1))), ProducerAction::Fail);
    assert_eq!(pool.queued(h), 2);
    // What is in flight is still handed out; after that the stream has ended.
    assert_eq!(pool.draw(h), Draw::Item(sample(0)));
    assert_eq!(pool.draw(h), Draw::Item(sample(1)));
    assert_eq!(pool.draw(h), Draw::Closed);
    assert_eq!(pool.draw(h), Draw::Closed);
}

#[test]
fn stream_without_producers_is_closed() {
    let mut pool = WorkerPool::new(2);
    let h = pool.acquire_stream(StreamConfig { capacity: 4, point_dim: 3, label_dim: 1 }, 0);
    assert_eq!(pool.workers(h), 0);
    assert_eq!(pool.draw(h), Draw::Closed);
}

#[test]
fn shut_down_stream_drains_and_closes() {
    let mut pool = WorkerPool::new(3);
    let h = pool.acquire_stream(StreamConfig { capacity: 2, point_dim: 3, label_dim: 1 }, 1);
    assert_eq!(pool.produce(h, 0, SourceEvent::Generated(samples(0, 3))), ProducerAction::Wait);
    pool.close(h);
    assert_eq!(pool.produce(h, 0, SourceEvent::Resume), ProducerAction::Stop);
    assert_eq!(pool.status(h, 0), WorkerStatus::Stopped);
    assert_eq!(pool.queued(h), 2);
    assert_eq!(pool.draw(h), Draw::Item(sample(0)));
    assert_eq!(pool.draw(h), Draw::Item(sample(1)));
    assert_eq!(pool.draw(h), Draw::Closed);
}

#[test]
fn streams_do_not_mix() {
    let mut pool = WorkerPool::new(1);
    let a = pool.acquire_stream(StreamConfig { capacity: 2, point_dim: 3, label_dim: 1 }, 1);
    let b = pool.acquire_stream(StreamConfig { capacity: 2, point_dim: 1, label_dim: 0 }, 1);
    let lone = SpiralItem::new(vec![42], None);
    assert_eq!(pool.produce(a, 0, SourceEvent::Generated(samples(5, 1))), ProducerAction::Generate(1));
    assert_eq!(
        pool.produce(b, 0, SourceEvent::Generated(vec![lone.clone()])),
        ProducerAction::Generate(1)
    );
    assert_eq!(pool.queued(a), 1);
    assert_eq!(pool.queued(b), 1);
    assert_eq!(pool.draw(b), Draw::Item(lone));
    assert_eq!(pool.draw(a), Draw::Item(sample(5)));
    // A sample of stream a's shape is malformed for stream b.
    assert_eq!(pool.produce(b, 0, SourceEvent::Generated(samples(0, 1))), ProducerAction::Fail);
}

#[test]
fn length_is_the_epoch_size() {
    let mut pool = WorkerPool::new(4);
    let train = SpiralDataset::new(10_000, &mut pool);
    let valid = SpiralDataset::new(1_000, &mut pool);
    assert_eq!(train.len(), 10_000);
    assert_eq!(valid.len(), 1_000);
    assert_eq!(train.epoch_size, 10_000);
    assert_eq!(SpiralDataset::new(0, &mut pool).len(), 0);
    // Producing and drawing changes nothing about it.
    assert_eq!(
        pool.produce(train.stream, 0, SourceEvent::Generated(samples(0, 4))),
        ProducerAction::Generate(4)
    );
    for index in 0..4 {
        assert!(matches!(train.get(&mut pool, index), Draw::Item(_)));
        assert_eq!(train.len(), 10_000);
        assert_eq!(valid.len(), 1_000);
    }
    assert_eq!(train.get(&mut pool, 4), Draw::Wait);
    assert_eq!(train.len(), 10_000);
}

#[test]
fn get_ignores_the_index() {
    let mut pool = WorkerPool::new(4);
    let dataset = SpiralDataset::new(3, &mut pool);
    assert_eq!(
        pool.produce(dataset.stream, 1, SourceEvent::Generated(samples(0, 4))),
        ProducerAction::Generate(4)
    );
    assert_eq!(dataset.get(&mut pool, 2), Draw::Item(sample(0)));
    assert_eq!(dataset.get(&mut pool, 2), Draw::Item(sample(1)));
    assert_eq!(dataset.get(&mut pool, 0), Draw::Item(sample(2)));
    assert_eq!(dataset.get(&mut pool, usize::MAX), Draw::Item(sample(3)));
}

#[test]
fn datasets_of_one_configuration_share_one_stream() {
    let mut pool = WorkerPool::new(6);
    let train = SpiralDataset::new(100, &mut pool);
    let valid = SpiralDataset::new(10, &mut pool);
    assert_eq!(train.stream, valid.stream);
    assert_eq!(pool.stream_count(), 1);
    assert_eq!(
        pool.produce(train.stream, 0, SourceEvent::Generated(samples(0, 6))),
        ProducerAction::Generate(6)
    );
    // The two datasets take turns; no sample reaches both.
    let mut to_train = Vec::new();
    let mut to_valid = Vec::new();
    for round in 0..3 {
        match train.get(&mut pool, round) {
            Draw::Item(item) => to_train.push(item),
            other => panic!("unexpected {:?}", other),
        }
        match valid.get(&mut pool, round) {
            Draw::Item(item) => to_valid.push(item),
            other => panic!("unexpected {:?}", other),
        }
    }
    assert_eq!(to_train, vec![sample(0), sample(2), sample(4)]);
    assert_eq!(to_valid, vec![sample(1), sample(3), sample(5)]);
    assert_eq!(valid.get(&mut pool, 0), Draw::Wait);
    assert_eq!(pool.queued(train.stream), 0);
}

#[test]
fn dataset_on_a_chosen_stream() {
    let mut pool = WorkerPool::new(1);
    let h = pool.acquire_stream(StreamConfig { capacity: 1, point_dim: 4, label_dim: 0 }, 1);
    let dataset = SpiralDataset::on_stream(5, h);
    assert_eq!(dataset.len(), 5);
    assert_eq!(dataset.stream, h);
    let item = SpiralItem::new(vec![1, 2, 3, 4], None);
    assert_eq!(
        pool.produce(h, 0, SourceEvent::Generated(vec![item.clone()])),
        ProducerAction::Generate(1)
    );
    assert_eq!(dataset.get(&mut pool, 0), Draw::Item(item));
}

#[test]
fn epoch_of_ten_over_a_channel_of_four() {
    let mut pool = WorkerPool::new(3);
    let config = StreamConfig { capacity: 4, point_dim: 3, label_dim: 1 };
    let h = pool.acquire_stream(config, 1);
    let dataset = SpiralDataset::on_stream(10, h);
    let mut drawn: Vec<SpiralItem> = Vec::new();
    let mut made: u32 = 0;
    let mut event = SourceEvent::Resume;
    // The producer runs as fast as it is let; the consumer draws one at a time.
    while drawn.len() < dataset.len() {
        loop {
            assert!(pool.queued(h) <= 4);
            match pool.produce(h, 0, event) {
                ProducerAction::Generate(n) => {
                    assert_eq!(n, 3);
                    event = SourceEvent::Generated(samples(made, 3));
                    made += 3;
                }
                ProducerAction::Wait => {
                    event = SourceEvent::Resume;
                    break;
                }
                other => panic!("unexpected {:?}", other),
            }
        }
        assert_eq!(pool.queued(h), 4);
        match dataset.get(&mut pool, drawn.len()) {
            Draw::Item(item) => drawn.push(item),
            other => panic!("unexpected {:?}", other),
        }
        assert_eq!(pool.queued(h), 3);
    }
    assert_eq!(dataset.len(), 10);
    assert_eq!(drawn.len(), 10);
    // Ten distinct samples left the channel, in the order of their making.
    assert_eq!(drawn, samples(0, 10));
    for item in &drawn {
        assert!(item.has_shape(3, 1));
    }
    // Everything made is either drawn, in flight or pending: nothing was dropped.
    assert_eq!(made, 15);
    assert_eq!(pool.queued(h), 3);
    assert_eq!(pool.pending(h, 0), 2);
    assert_eq!(made as usize, drawn.len() + pool.queued(h) + pool.pending(h, 0));
    // The drawn samples make a well-shaped batch.
    let batch = SpiralBatcher::new(Device::Cpu).batch(drawn).unwrap();
    assert_eq!(batch.points.dims, vec![10, 1, 3]);
    assert_eq!(batch.labels.dims, vec![10, 1]);
}

#[test]
fn stalled_consumer_blocks_the_producer() {
    let mut pool = WorkerPool::new(2);
    let h = pool.acquire_stream(StreamConfig { capacity: 1, point_dim: 3, label_dim: 1 }, 1);
    assert_eq!(pool.produce(h, 0, SourceEvent::Generated(samples(0, 2))), ProducerAction::Wait);
    assert_eq!(pool.queued(h), 1);
    // However often the producer is resumed, the second sample does not get in.
    for _ in 0..5 {
        assert_eq!(pool.produce(h, 0, SourceEvent::Resume), ProducerAction::Wait);
        assert_eq!(pool.queued(h), 1);
    }
    assert_eq!(pool.draw(h), Draw::Item(sample(0)));
    assert_eq!(pool.queued(h), 0);
    assert_eq!(pool.produce(h, 0, SourceEvent::Resume), ProducerAction::Generate(2));
    assert_eq!(pool.queued(h), 1);
    // It was kept, not dropped.
    assert_eq!(pool.draw(h), Draw::Item(sample(1)));
}

#[test]
fn get_data_draws_what_is_in_flight() {
    let mut pool = WorkerPool::new(5);
    let (points, labels) = get_data(&mut pool, 3);
    assert!(points.is_empty());
    assert!(labels.is_empty());
    assert_eq!(pool.stream_count(), 1);
    let h = init(&mut pool);
    assert_eq!(pool.produce(h, 0, SourceEvent::Generated(samples(0, 5))), ProducerAction::Generate(5));
    let (points, labels) = get_data(&mut pool, 3);
    assert_eq!(points, vec![sample(0).point, sample(1).point, sample(2).point]);
    assert_eq!(labels, vec![0.0f32.to_bits(), 10.0f32.to_bits(), 20.0f32.to_bits()]);
    assert_eq!(pool.queued(h), 2);
    let (points, labels) = get_data(&mut pool, 3);
    assert_eq!(points, vec![sample(3).point, sample(4).point]);
    assert_eq!(labels, vec![30.0f32.to_bits(), 40.0f32.to_bits()]);
    assert_eq!(pool.queued(h), 0);
    let (points, _) = get_data(&mut pool, 0);
    assert!(points.is_empty());
}
