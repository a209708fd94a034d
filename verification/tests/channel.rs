use dataset::channel::{BoundedChannel, PopError, PushError};

#[test]
fn new_channel_is_empty_and_open() {
    let ch: BoundedChannel<u32> = BoundedChannel::new(3);
    assert_eq!(ch.capacity(), 3);
    assert_eq!(ch.len(), 0);
    assert!(ch.is_empty());
    assert!(!ch.is_full());
    assert!(!ch.is_closed());
}

#[test]
fn push_then_pop_returns_the_item() {
    let mut ch: BoundedChannel<u32> = BoundedChannel::new(2);
    assert_eq!(ch.push(7), Ok(()));
    assert_eq!(ch.len(), 1);
    assert_eq!(ch.pop(), Ok(7));
    assert_eq!(ch.len(), 0);
    assert_eq!(ch.pop(), Err(PopError::Empty));
}

#[test]
fn items_leave_in_the_order_they_came() {
    let mut ch: BoundedChannel<u32> = BoundedChannel::new(4);
    for x in [10u32, 20, 30, 40] {
        assert_eq!(ch.push(x), Ok(()));
    }
    assert_eq!(ch.pop(), Ok(10));
    assert_eq!(ch.push(50), Ok(()));
    assert_eq!(ch.pop(), Ok(20));
    assert_eq!(ch.pop(), Ok(30));
    assert_eq!(ch.pop(), Ok(40));
    assert_eq!(ch.pop(), Ok(50));
    assert_eq!(ch.pop(), Err(PopError::Empty));
}

#[test]
fn full_channel_hands_the_item_back() {
    let mut ch: BoundedChannel<u32> = BoundedChannel::new(2);
    assert_eq!(ch.push(1), Ok(()));
    assert_eq!(ch.push(2), Ok(()));
    assert!(ch.is_full());
    assert_eq!(ch.push(3), Err(PushError::Full(3)));
    assert_eq!(ch.len(), 2);
    assert_eq!(ch.pop(), Ok(1));
    assert_eq!(ch.pop(), Ok(2));
}

#[test]
fn second_push_waits_for_the_first_pop() {
    let mut ch: BoundedChannel<u32> = BoundedChannel::new(1);
    assert_eq!(ch.push(1), Ok(()));
    // The consumer is stalled: the second item is refused, not dropped and
    // not squeezed in, however often it is offered.
    assert_eq!(ch.push(2), Err(PushError::Full(2)));
    assert_eq!(ch.push(2), Err(PushError::Full(2)));
    assert_eq!(ch.len(), 1);
    // Only after the consumer has taken the first item does the push go through.
    assert_eq!(ch.pop(), Ok(1));
    assert_eq!(ch.push(2), Ok(()));
    assert_eq!(ch.pop(), Ok(2));
}

#[test]
fn channel_of_capacity_zero_takes_nothing() {
    let mut ch: BoundedChannel<u32> = BoundedChannel::new(0);
    assert!(ch.is_full());
    assert_eq!(ch.push(1), Err(PushError::Full(1)));
    assert_eq!(ch.len(), 0);
    assert_eq!(ch.pop(), Err(PopError::Empty));
}

#[test]
fn closed_channel_refuses_pushes_and_drains() {
    let mut ch: BoundedChannel<u32> = BoundedChannel::new(3);
    assert_eq!(ch.push(1), Ok(()));
    assert_eq!(ch.push(2), Ok(()));
    ch.close();
    assert!(ch.is_closed());
    assert_eq!(ch.push(3), Err(PushError::Closed(3)));
    assert_eq!(ch.len(), 2);
    assert_eq!(ch.pop(), Ok(1));
    assert_eq!(ch.pop(), Ok(2));
    assert_eq!(ch.pop(), Err(PopError::Closed));
}

#[test]
fn closed_wins_over_full() {
    let mut ch: BoundedChannel<u32> = BoundedChannel::new(1);
    assert_eq!(ch.push(1), Ok(()));
    ch.close();
    assert_eq!(ch.push(2), Err(PushError::Closed(2)));
}

#[test]
fn length_never_exceeds_capacity() {
    for capacity in 1usize..6 {
        let mut ch: BoundedChannel<u64> = BoundedChannel::new(capacity);
        let mut state: u64 = 0x9e37_79b9_7f4a_7c15;
        for step in 0u64..2000 {
            state = state.wrapping_mul(6364136223846793005).wrapping_add(1442695040888963407);
            if (state >> 33) % 3 != 0 {
                let _ = ch.push(step);
            } else {
                let _ = ch.pop();
            }
            assert!(ch.len() <= capacity);
            assert_eq!(ch.capacity(), capacity);
        }
    }
}

#[test]
fn nothing_is_lost_and_nothing_is_duplicated() {
    let mut ch: BoundedChannel<u64> = BoundedChannel::new(3);
    let mut produced: Vec<u64> = Vec::new();
    let mut consumed: Vec<u64> = Vec::new();
    let mut state: u64 = 12345;
    for step in 0u64..5000 {
        state = state.wrapping_mul(6364136223846793005).wrapping_add(1442695040888963407);
        // Two producers and two consumers take turns in an irregular order.
        match (state >> 40) % 4 {
            0 | 1 => {
                // Values repeat on purpose: items have no identity but their value.
                let item = step % 7;
                if ch.push(item).is_ok() {
                    produced.push(item);
                }
            }
            _ => {
                if let Ok(item) = ch.pop() {
                    consumed.push(item);
                }
            }
        }
    }
    let mut in_flight: Vec<u64> = Vec::new();
    while let Ok(item) = ch.pop() {
        in_flight.push(item);
    }
    // First in, first out: consumed followed by in flight is produced, exactly.
    let mut seen = consumed.clone();
    seen.extend(in_flight.iter().copied());
    assert_eq!(seen, produced);
    // And so as multisets.
    let mut a = produced.clone();
    a.sort();
    seen.sort();
    assert_eq!(a, seen);
    assert!(produced.len() > 100);
}

#[test]
fn refused_item_can_be_taken_back() {
    let mut ch: BoundedChannel<String> = BoundedChannel::new(1);
    assert_eq!(ch.push("first".to_string()), Ok(()));
    let refused = ch.push("second".to_string()).unwrap_err();
    assert_eq!(refused, PushError::Full("second".to_string()));
    assert_eq!(refused.into_inner(), "second");
    ch.close();
    let refused = ch.push("third".to_string()).unwrap_err();
    assert_eq!(refused.into_inner(), "third");
}
