use logss::cb::CircularBuffer;

#[test]
fn circular_buffer() {
    let mut cb: CircularBuffer<i32> = CircularBuffer::new(3).unwrap();
    assert_eq!(cb.capacity(), 3);
    assert_eq!(cb.len(), 0);

    cb.push(1);
    assert_eq!(cb.buffer(), &vec![1]);
    assert_eq!(cb.len(), 1);

    cb.push(2);
    cb.push(3);
    assert_eq!(cb.buffer(), &vec![1, 2, 3]);
    assert_eq!(cb.len(), 3);

    cb.push(4);
    assert_eq!(cb.buffer(), &vec![4, 2, 3]);
    assert_eq!(cb.len(), 3);
}

#[test]
fn circular_buffer_clone() {
    let mut cb: CircularBuffer<i32> = CircularBuffer::new(3).unwrap();
    cb.push(1);
    cb.push(2);
    cb.push(3);
    cb.push(4);

    let cb2 = cb.clone();
    assert_eq!(cb2.buffer(), &vec![2, 3, 4]);
}

#[test]
fn zero_capacity_is_refused() {
    assert!(CircularBuffer::<i32>::new(0).is_none());
}

#[test]
fn length_is_min_of_pushes_and_capacity() {
    for n in 0..10 {
        let mut cb: CircularBuffer<i32> = CircularBuffer::new(4).unwrap();
        for x in 0..n {
            cb.push(x);
        }
        let expected = if n < 4 { n } else { 4 };
        assert_eq!(cb.len(), expected as usize);
        assert_eq!(cb.ordered_clone().buffer().len(), expected as usize);
        assert_eq!(cb.is_empty(), n == 0);
    }
}

#[test]
fn snapshot_keeps_latest_in_order() {
    let mut cb: CircularBuffer<i32> = CircularBuffer::new(3).unwrap();
    for x in 1..=4 {
        cb.push(x);
    }
    assert_eq!(cb.ordered_clone().buffer(), &vec![2, 3, 4]);
    for x in 5..=8 {
        cb.push(x);
    }
    assert_eq!(cb.ordered_clone().buffer(), &vec![6, 7, 8]);
    // the snapshot does not change the buffer
    assert_eq!(cb.buffer(), &vec![7, 8, 6]);
}

#[test]
fn reset_empties_and_keeps_capacity() {
    let mut cb: CircularBuffer<i32> = CircularBuffer::new(2).unwrap();
    cb.push(1);
    cb.push(2);
    cb.push(3);
    cb.reset();
    assert!(cb.is_empty());
    assert_eq!(cb.capacity(), 2);
    cb.push(9);
    assert_eq!(cb.buffer(), &vec![9]);
}
