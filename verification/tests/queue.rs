use ngmt_transport::engine::datagram_queue::DatagramQueue;

#[test]
fn queue_is_fifo() {
    let mut q = DatagramQueue::new(3);
    assert!(q.is_empty());
    assert_eq!(q.push(vec![1]), Ok(()));
    assert_eq!(q.push(vec![2, 2]), Ok(()));
    assert_eq!(q.push(vec![3, 3, 3]), Ok(()));
    assert_eq!(q.len(), 3);
    assert_eq!(q.pop(), Some(vec![1]));
    assert_eq!(q.pop(), Some(vec![2, 2]));
    assert_eq!(q.pop(), Some(vec![3, 3, 3]));
    assert_eq!(q.pop(), None);
    assert!(q.is_empty());
}

#[test]
fn queue_refuses_when_full_and_returns_payload() {
    let mut q = DatagramQueue::new(2);
    assert_eq!(q.push(vec![1]), Ok(()));
    assert_eq!(q.push(vec![2]), Ok(()));
    assert_eq!(q.push(vec![9, 9]), Err(vec![9, 9]));
    assert_eq!(q.len(), 2);
    assert_eq!(q.pop(), Some(vec![1]));
    assert_eq!(q.push(vec![3]), Ok(()));
    assert_eq!(q.pop(), Some(vec![2]));
    assert_eq!(q.pop(), Some(vec![3]));
}

#[test]
fn queue_capacity_is_at_least_one() {
    let mut q = DatagramQueue::new(0);
    assert_eq!(q.push(vec![7]), Ok(()));
    assert_eq!(q.push(vec![8]), Err(vec![8]));
    assert_eq!(q.len(), 1);
}
