use spsc::raw_spsc::{RawSpsc, Segment, SEGMENT_SIZE};
use spsc::unbounded_spsc::UnboundSpscChannel;

const COUNT: usize = 100_000;

#[test]
fn single_thread_send_recv() {
    let (sender, receiver) = UnboundSpscChannel::split();

    for i in 0..1000 {
        sender.send(i);
        let val = receiver.recv();
        assert_eq!(val, Some(i));
    }

    assert_eq!(receiver.recv(), None); // queue is now empty
}

#[test]
fn batch_send_recv() {
    let (sender, receiver) = UnboundSpscChannel::split();

    for i in 0..COUNT {
        sender.send(i);
    }

    for i in 0..COUNT {
        let val = receiver.recv();
        assert_eq!(val, Some(i));
    }

    assert_eq!(receiver.recv(), None); // Should now be empty
}

#[test]
fn basic_push_pop_test() {
    let mut queue = RawSpsc::new();
    for i in 0..1000 {
        queue.push(i);
        let popped = queue.pop();
        assert_eq!(popped, Some(i));
    }
}

#[test]
fn batch_push_pop_test() {
    let mut queue = RawSpsc::new();

    for i in 0..COUNT {
        queue.push(i);
    }

    for i in 0..COUNT {
        let val = queue.pop();
        assert_eq!(val, Some(i));
    }

    assert_eq!(queue.pop(), None); // Should now be empty
}

#[test]
fn three_segments_worth_in_order() {
    let mut queue = RawSpsc::new();
    for i in 0..3 * SEGMENT_SIZE {
        queue.push(i);
    }
    for i in 0..3 * SEGMENT_SIZE {
        assert_eq!(queue.pop(), Some(i));
    }
    assert_eq!(queue.pop(), None);
}

#[test]
fn interleaved_producer_and_consumer() {
    let (sender, receiver) = UnboundSpscChannel::split();
    let total = 3 * SEGMENT_SIZE;
    let mut next_sent = 0usize;
    let mut next_expected = 0usize;
    while next_expected < total {
        for _ in 0..5 {
            if next_sent < total {
                sender.send(next_sent);
                next_sent += 1;
            }
        }
        for _ in 0..3 {
            if let Some(v) = receiver.recv() {
                assert_eq!(v, next_expected);
                next_expected += 1;
            }
        }
    }
    assert_eq!(receiver.recv(), None);
}

#[test]
fn empty_queue_pops_none() {
    let mut queue: RawSpsc<u8> = RawSpsc::new();
    assert_eq!(queue.pop(), None);
    queue.push(9);
    assert_eq!(queue.pop(), Some(9));
    assert_eq!(queue.pop(), None);
}

#[test]
fn segment_holds_one_less_than_its_size() {
    let mut segment = Segment::new();
    for i in 0..SEGMENT_SIZE - 1 {
        assert_eq!(segment.push(i), Ok(()));
    }
    assert_eq!(segment.push(1000), Err(1000));
    assert_eq!(segment.pop(), Some(0));
    assert_eq!(segment.push(1001), Ok(()));
    for i in 1..SEGMENT_SIZE - 1 {
        assert_eq!(segment.pop(), Some(i));
    }
    assert_eq!(segment.pop(), Some(1001));
    assert_eq!(segment.pop(), None);
}

#[test]
fn linked_block_starts_empty() {
    let mut segment: Segment<u32> = Segment::new();
    assert_eq!(segment.push(1), Ok(()));
    let mut block = segment.link_new_block();
    assert_eq!(block.pop(), None);
    assert_eq!(segment.pop(), Some(1));
    let mut other: Segment<u32> = Segment::new();
    let mut pushed = other.link_and_push(5);
    assert_eq!(pushed.pop(), Some(5));
    assert_eq!(pushed.pop(), None);
    assert_eq!(other.pop(), None);
}

fn movable_between_threads<X: Send>(_x: &X) -> bool {
    true
}

#[test]
fn handles_are_send() {
    let (sender, receiver) = UnboundSpscChannel::split::<u64>();
    assert!(movable_between_threads(&sender));
    assert!(movable_between_threads(&receiver));
    let (bs, br) = spsc::bounded_spsc::BoundedSpscChannel::split::<u64>(4);
    assert!(movable_between_threads(&bs));
    assert!(movable_between_threads(&br));
}
