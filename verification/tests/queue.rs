use my_channel::mpsc::queue::{PopResult, PopSpin, Queue, SpinStep, MAX_SPIN_TIME};

#[test]
fn new_queue_is_empty() {
    let mut queue: Queue<u32> = Queue::new();
    assert!(matches!(queue.pop(), PopResult::Empty));
    assert_eq!(queue.pop_spin(), None);
}

#[test]
fn values_come_out_in_the_order_they_went_in() {
    let mut queue = Queue::new();
    for i in 0..5 {
        queue.push(i);
    }
    for i in 0..5 {
        assert_eq!(queue.pop_spin(), Some(i));
    }
    assert_eq!(queue.pop_spin(), None);
}

#[test]
fn nodes_are_used_again() {
    let mut queue = Queue::new();
    for round in 0..100u32 {
        queue.push(round);
        queue.push(round + 1000);
        assert_eq!(queue.pop_spin(), Some(round));
        assert_eq!(queue.pop_spin(), Some(round + 1000));
    }
    assert!(matches!(queue.pop(), PopResult::Empty));
}

#[test]
fn half_a_push_leaves_the_queue_inconsistent() {
    let mut queue = Queue::new();
    let link = queue.swap_head('a');
    assert!(matches!(queue.pop(), PopResult::Inconsistent));
    queue.link(link);
    assert!(matches!(queue.pop(), PopResult::Value('a')));
    assert!(matches!(queue.pop(), PopResult::Empty));
}

#[test]
fn producers_may_finish_in_another_order() {
    let mut queue = Queue::new();
    let first = queue.swap_head(1);
    let second = queue.swap_head(2);
    queue.link(second);
    assert!(matches!(queue.pop(), PopResult::Inconsistent));
    queue.link(first);
    assert!(matches!(queue.pop(), PopResult::Value(1)));
    assert!(matches!(queue.pop(), PopResult::Value(2)));
    assert!(matches!(queue.pop(), PopResult::Empty));
}

#[test]
fn a_gap_further_back_does_not_block_the_front() {
    let mut queue = Queue::new();
    queue.push(1);
    let link = queue.swap_head(2);
    queue.push(3);
    assert!(matches!(queue.pop(), PopResult::Value(1)));
    assert!(matches!(queue.pop(), PopResult::Inconsistent));
    queue.link(link);
    assert_eq!(queue.pop_spin(), Some(2));
    assert_eq!(queue.pop_spin(), Some(3));
}

#[test]
fn a_consumer_spins_before_it_yields() {
    let mut queue = Queue::new();
    let link = queue.swap_head(7);
    let mut spin = PopSpin::new();
    for _ in 0..MAX_SPIN_TIME + 1 {
        assert!(matches!(spin.step(&mut queue), SpinStep::Spin));
    }
    assert!(matches!(spin.step(&mut queue), SpinStep::Yield));
    assert!(matches!(spin.step(&mut queue), SpinStep::Yield));
    queue.link(link);
    assert!(matches!(spin.step(&mut queue), SpinStep::Done(Some(7))));
    assert!(matches!(spin.step(&mut queue), SpinStep::Done(None)));
}

#[test]
fn values_left_in_the_queue_are_dropped_with_it() {
    let value = std::rc::Rc::new(());
    let mut queue = Queue::new();
    queue.push(value.clone());
    queue.push(value.clone());
    assert!(queue.pop_spin().is_some());
    let _link = queue.swap_head(value.clone());
    assert_eq!(std::rc::Rc::strong_count(&value), 3);
    drop(queue);
    assert_eq!(std::rc::Rc::strong_count(&value), 1);
}
