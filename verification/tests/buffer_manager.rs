use gait_monitor::buffer_manager::CircularBuffer;

#[test]
fn test_circular_buffer_basic_operations() {
    let mut buffer = CircularBuffer::new(3);

    assert!(buffer.is_empty());
    assert_eq!(buffer.len(), 0);

    buffer.push(1);
    buffer.push(2);
    buffer.push(3);

    assert!(buffer.is_full());
    assert_eq!(buffer.len(), 3);

    // Test overflow
    buffer.push(4);
    assert_eq!(buffer.len(), 3);
    assert_eq!(buffer.dropped_count(), 1);

    // Test retrieval
    let data = buffer.get_range(0, 3);
    assert_eq!(data, vec![2, 3, 4]); // First item (1) was dropped
}

#[test]
fn circular_buffer_pops_oldest_first() {
    let mut buffer = CircularBuffer::new(2);
    assert_eq!(buffer.pop(), None);
    assert_eq!(buffer.peek(), None);
    buffer.push("a".to_string());
    buffer.push("b".to_string());
    buffer.push("c".to_string());
    assert_eq!(buffer.peek(), Some(&"b".to_string()));
    assert_eq!(buffer.pop(), Some("b".to_string()));
    assert_eq!(buffer.pop(), Some("c".to_string()));
    assert_eq!(buffer.pop(), None);
    assert!(buffer.is_empty());
    assert_eq!(buffer.total_inserted(), 3);
    assert_eq!(buffer.dropped_count(), 1);
    assert_eq!(buffer.capacity(), 2);
}

#[test]
fn circular_buffer_range_goes_round_the_ring() {
    let mut buffer = CircularBuffer::new(4);
    for i in 0..6u32 {
        buffer.push(i);
    }
    // holds 2, 3, 4, 5
    assert_eq!(buffer.get_range(0, 10), vec![2, 3, 4, 5]);
    assert_eq!(buffer.get_range(1, 2), vec![3, 4]);
    assert_eq!(buffer.get_range(3, 2), vec![5, 2]);
    assert_eq!(buffer.get_range(0, 0), Vec::<u32>::new());
}

#[test]
fn circular_buffer_range_passes_over_empty_slots() {
    let mut buffer = CircularBuffer::new(4);
    buffer.push(10u8);
    buffer.push(20u8);
    // two items, so at most two candidates: offsets 1 and 2, of which only 1 is held
    assert_eq!(buffer.get_range(1, 5), vec![20]);
    assert_eq!(buffer.get_range(2, 5), Vec::<u8>::new());
    assert_eq!(buffer.get_range(3, 5), vec![10]);
}

#[test]
fn circular_buffer_clear_keeps_counters() {
    let mut buffer = CircularBuffer::new(2);
    buffer.push(1u64);
    buffer.push(2u64);
    buffer.push(3u64);
    buffer.clear();
    assert!(buffer.is_empty());
    assert_eq!(buffer.len(), 0);
    assert_eq!(buffer.dropped_count(), 1);
    assert_eq!(buffer.total_inserted(), 3);
    buffer.push(9u64);
    assert_eq!(buffer.get_range(0, 1), vec![9]);
}

#[test]
fn circular_buffer_resize_keeps_oldest_that_fit() {
    let mut buffer = CircularBuffer::new(4);
    for i in 1..=4u32 {
        buffer.push(i);
    }
    buffer.resize(2);
    assert_eq!(buffer.capacity(), 2);
    assert_eq!(buffer.get_range(0, 2), vec![1, 2]);
    assert_eq!(buffer.total_inserted(), 6);
    assert_eq!(buffer.dropped_count(), 0);

    buffer.resize(5);
    assert_eq!(buffer.capacity(), 5);
    assert_eq!(buffer.get_range(0, 5), vec![1, 2]);
    assert_eq!(buffer.total_inserted(), 8);

    buffer.resize(5);
    assert_eq!(buffer.total_inserted(), 8);

    buffer.resize(0);
    assert_eq!(buffer.capacity(), 0);
    assert!(buffer.is_empty());
    assert!(buffer.is_full());
    assert_eq!(buffer.get_range(0, 3), Vec::<u32>::new());
}

#[test]
fn circular_buffer_drain_all_empties() {
    let mut buffer = CircularBuffer::new(3);
    buffer.push('x');
    buffer.push('y');
    assert_eq!(buffer.drain_all(), vec!['x', 'y']);
    assert!(buffer.is_empty());
    assert_eq!(buffer.drain_all(), Vec::<char>::new());
}
