use assembly_line_simulator::queue::ProdQueue;

#[test]
fn queue_is_first_in_first_out() {
    let mut q: ProdQueue<u32> = ProdQueue::new(4);
    assert!(q.is_empty());
    q.push(1).unwrap();
    q.push(2).unwrap();
    q.push(3).unwrap();
    assert_eq!(q.len(), 3);
    assert_eq!(q.pop(), Some(1));
    q.push(4).unwrap();
    assert_eq!(q.pop(), Some(2));
    assert_eq!(q.pop(), Some(3));
    assert_eq!(q.pop(), Some(4));
    assert_eq!(q.pop(), None);
}

#[test]
fn full_queue_refuses_and_keeps_its_contents() {
    let mut q: ProdQueue<u32> = ProdQueue::new(2);
    q.push(10).unwrap();
    q.push(20).unwrap();
    assert!(q.is_full());
    assert_eq!(q.push(30), Err(30));
    assert_eq!(q.len(), 2);
    assert_eq!(q.pop(), Some(10));
    assert!(!q.is_full());
    q.push(30).unwrap();
    assert_eq!(q.pop(), Some(20));
    assert_eq!(q.pop(), Some(30));
}

#[test]
fn never_more_than_capacity() {
    let mut q: ProdQueue<usize> = ProdQueue::new(3);
    for i in 0..10 {
        let _ = q.push(i);
        assert!(q.len() <= q.capacity());
    }
    assert_eq!(q.len(), 3);
    assert_eq!(q.pop(), Some(0));
    assert_eq!(q.pop(), Some(1));
    assert_eq!(q.pop(), Some(2));
}

#[test]
fn zero_capacity_is_taken_as_one() {
    let mut q: ProdQueue<u8> = ProdQueue::new(0);
    assert_eq!(q.capacity(), 1);
    q.push(7).unwrap();
    assert_eq!(q.push(8), Err(8));
    assert_eq!(q.pop(), Some(7));
}
