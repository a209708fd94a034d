use dataset::generate::{ProducerAction, SourceEvent, WorkerStatus};
use dataset::point::SpiralItem;
use dataset::workers::{Draw, StreamConfig, WorkerPool};

fn next(state: &mut u64) -> u64 {
    *state = state.wrapping_mul(6364136223846793005).wrapping_add(1442695040888963407);
    *state >> 33
}

fn numbered(serial: u32) -> SpiralItem {
    SpiralItem::new(vec![serial, serial ^ 0xffff, serial / 3], Some(serial % 5))
}

/// Runs two producers and three consumers over one stream in an irregular
/// order and looks at the pool after every step.
fn run(seed: u64, capacity: usize, n_samples: usize) {
    let mut pool = WorkerPool::new(n_samples);
    let config = StreamConfig { capacity, point_dim: 3, label_dim: 1 };
    let h = pool.acquire_stream(config, 2);
    let mut state = seed;
    let mut serial: u32 = 0;
    let mut supplied: Vec<SpiralItem> = Vec::new();
    let mut drawn: Vec<Vec<SpiralItem>> = vec![Vec::new(), Vec::new(), Vec::new()];
    let mut owed = [false, false];
    for _ in 0..3000 {
        let choice = next(&mut state) % 5;
        if choice < 2 {
            let worker = choice as usize;
            let event = if owed[worker] {
                let batch: Vec<SpiralItem> = (0..n_samples)
                    .map(|_| {
                        serial += 1;
                        numbered(serial)
                    })
                    .collect();
                supplied.extend(batch.iter().cloned());
                SourceEvent::Generated(batch)
            } else {
                SourceEvent::Resume
            };
            match pool.produce(h, worker, event) {
                ProducerAction::Generate(n) => {
                    assert_eq!(n, n_samples);
                    assert_eq!(pool.pending(h, worker), 0);
                    owed[worker] = true;
                }
                ProducerAction::Wait => {
                    assert!(pool.pending(h, worker) > 0);
                    assert_eq!(pool.queued(h), capacity);
                    owed[worker] = false;
                }
                other => panic!("unexpected {:?}", other),
            }
        } else {
            let consumer = (choice - 2) as usize;
            let before = pool.queued(h);
            match pool.draw(h) {
                Draw::Item(item) => {
                    assert!(item.has_shape(3, 1));
                    assert_eq!(pool.queued(h), before - 1);
                    drawn[consumer].push(item);
                }
                Draw::Wait => assert_eq!(before, 0),
                Draw::Closed => panic!("the producers are running"),
            }
        }
        assert!(pool.queued(h) <= capacity);
        assert_eq!(pool.status(h, 0), WorkerStatus::Running);
        let consumed: usize = drawn.iter().map(|d| d.len()).sum();
        assert_eq!(
            supplied.len(),
            consumed + pool.queued(h) + pool.pending(h, 0) + pool.pending(h, 1)
        );
    }
    // Drain what is left in flight, then compare as multisets: every sample
    // supplied was drawn once or is still pending with a producer.
    let mut seen: Vec<u32> = drawn.iter().flatten().map(|it| it.point[0]).collect();
    while let Draw::Item(item) = pool.draw(h) {
        seen.push(item.point[0]);
    }
    let pending = pool.pending(h, 0) + pool.pending(h, 1);
    assert_eq!(seen.len() + pending, supplied.len());
    seen.sort();
    for pair in seen.windows(2) {
        assert!(pair[0] != pair[1], "sample {} was handed out twice", pair[0]);
    }
    for serial in &seen {
        assert_eq!(supplied[*serial as usize - 1], numbered(*serial));
    }
    // No consumer got what another consumer got.
    for a in 0..3 {
        for b in a + 1..3 {
            for item in &drawn[a] {
                assert!(!drawn[b].contains(item));
            }
        }
    }
}

#[test]
fn interleavings_keep_capacity_and_conserve_samples() {
    for seed in 0..8u64 {
        for capacity in [1usize, 2, 4, 7] {
            for n_samples in [1usize, 3, 10] {
                run(seed * 1_000_003 + 17, capacity, n_samples);
            }
        }
    }
}
