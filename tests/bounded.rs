use spsc::bounded_spsc::BoundedSpscChannel;
use spsc::inner_spsc::BoundedSpsc;
use std::cell::Cell;
use std::rc::Rc;

#[test]
fn basic_push_pop() {
    let (sender, receiver) = BoundedSpscChannel::split(1);
    assert!(sender.send(10).is_ok());
    assert_eq!(receiver.recv(), Some(10));
}

#[test]
fn full_and_empty() {
    let (sender, receiver) = BoundedSpscChannel::split(2);
    assert!(sender.send(42).is_ok());
    assert!(sender.send(42).is_ok());
    assert!(sender.send(99).is_err()); // Should be full
    assert_eq!(receiver.recv(), Some(42));
    assert_eq!(receiver.recv(), Some(42));
    assert_eq!(receiver.recv(), None); // Now empty
}

#[test]
fn capacity_two_scenario_hands_back_refused_value() {
    let (sender, receiver) = BoundedSpscChannel::split(2);
    assert_eq!(sender.send(42), Ok(()));
    assert_eq!(sender.send(42), Ok(()));
    assert_eq!(sender.send(99), Err(99));
    assert_eq!(receiver.recv(), Some(42));
    assert_eq!(receiver.recv(), Some(42));
    assert_eq!(receiver.recv(), None);
}

#[test]
fn capacity_minus_one_pushes_succeed() {
    let mut q = BoundedSpsc::new(5);
    for i in 0..4u32 {
        assert_eq!(q.push(i), Ok(()));
    }
    assert_eq!(q.push(4), Err(4));
    assert!(q.is_full());
    assert_eq!(q.pop(), Some(0));
    assert!(!q.is_full());
    assert_eq!(q.push(5), Ok(()));
    assert_eq!(q.push(6), Err(6));
    assert!(q.is_full());
}

#[test]
fn failed_push_leaves_contents_alone() {
    let mut q = BoundedSpsc::new(3);
    assert_eq!(q.push(String::from("a")), Ok(()));
    assert_eq!(q.push(String::from("b")), Ok(()));
    assert_eq!(q.push(String::from("c")), Err(String::from("c")));
    assert_eq!(q.pop(), Some(String::from("a")));
    assert_eq!(q.pop(), Some(String::from("b")));
    assert_eq!(q.pop(), None);
}

#[test]
fn empty_only_when_drained() {
    let mut q = BoundedSpsc::new(4);
    assert!(q.is_empty());
    assert!(!q.is_full());
    assert_eq!(q.push(1u8), Ok(()));
    assert!(!q.is_empty());
    assert_eq!(q.push(2u8), Ok(()));
    assert_eq!(q.pop(), Some(1));
    assert!(!q.is_empty());
    assert_eq!(q.pop(), Some(2));
    assert!(q.is_empty());
    assert_eq!(q.pop(), None);
    assert!(q.is_empty());
}

#[test]
fn fifo_order_across_wraparound() {
    let mut q = BoundedSpsc::new(3);
    let mut expected = 0u64;
    for i in 0..50u64 {
        assert_eq!(q.push(i), Ok(()));
        if i % 2 == 1 {
            assert_eq!(q.pop(), Some(expected));
            expected += 1;
            assert_eq!(q.pop(), Some(expected));
            expected += 1;
            assert!(q.is_empty());
        }
    }
    assert_eq!(expected, 50);
    assert_eq!(q.pop(), None);
}

#[test]
fn n_pushes_then_n_pops_keep_order() {
    let mut q = BoundedSpsc::new(101);
    for i in 0..100i64 {
        assert_eq!(q.push(i * 7 - 3), Ok(()));
    }
    assert!(q.is_full());
    for i in 0..100i64 {
        assert_eq!(q.pop(), Some(i * 7 - 3));
    }
    assert!(q.is_empty());
}

#[test]
fn capacity_is_reported() {
    let q: BoundedSpsc<u8> = BoundedSpsc::new(7);
    assert_eq!(q.capacity(), 7);
    let (sender, receiver) = BoundedSpscChannel::split::<u8>(32);
    assert_eq!(sender.capacity(), 32);
    assert_eq!(receiver.capacity(), 32);
}

#[test]
fn channel_full_and_empty_flags() {
    let (sender, receiver) = BoundedSpscChannel::split(2);
    assert!(sender.is_empty());
    assert!(receiver.is_empty());
    assert!(!sender.is_full());
    assert_eq!(sender.send('x'), Ok(()));
    assert!(!receiver.is_empty());
    assert_eq!(sender.send('y'), Ok(()));
    assert!(sender.is_full());
    assert!(receiver.is_full());
    assert_eq!(receiver.recv(), Some('x'));
    assert!(!sender.is_full());
    assert_eq!(receiver.recv(), Some('y'));
    assert!(sender.is_empty());
}

struct Counted {
    drops: Rc<Cell<usize>>,
}

impl Drop for Counted {
    fn drop(&mut self) {
        self.drops.set(self.drops.get() + 1);
    }
}

#[test]
fn drop_destroys_exactly_live_items() {
    let drops = Rc::new(Cell::new(0usize));
    let mut q = BoundedSpsc::new(4);
    assert!(q.push(Counted { drops: drops.clone() }).is_ok());
    assert!(q.push(Counted { drops: drops.clone() }).is_ok());
    assert_eq!(drops.get(), 0);
    drop(q);
    assert_eq!(drops.get(), 2);
}

#[test]
fn drop_after_wraparound_destroys_only_unread() {
    let drops = Rc::new(Cell::new(0usize));
    let mut q = BoundedSpsc::new(4);
    for _ in 0..3 {
        assert!(q.push(Counted { drops: drops.clone() }).is_ok());
    }
    let first = q.pop();
    assert!(first.is_some());
    drop(first);
    assert_eq!(drops.get(), 1);
    assert!(q.push(Counted { drops: drops.clone() }).is_ok());
    drop(q);
    assert_eq!(drops.get(), 4);
}
