use measurement_program::RingBufferIndex16bit;
use measurement_program::RingBufferIndex8bit;

#[test]
fn fifo_order_16bit() {
    let mut rb = RingBufferIndex16bit::<u16, 512>::new(512);
    for v in [11u16, 22, 33, 44, 55] {
        rb.enqueue(v);
    }
    let mut drained: Vec<u16> = Vec::new();
    while !rb.is_empty() {
        drained.push(rb.dequeue());
    }
    assert_eq!(drained, vec![11u16, 22, 33, 44, 55]);
}

#[test]
fn fifo_order_8bit() {
    let mut rb = RingBufferIndex8bit::<u8, 16>::new(16);
    for v in 1u8..=10 {
        rb.enqueue(v);
    }
    for v in 1u8..=10 {
        assert_eq!(rb.dequeue(), v);
    }
    assert!(rb.is_empty());
}

#[test]
fn fifo_order_across_wraparound() {
    let mut rb = RingBufferIndex8bit::<u8, 4>::new(4);
    rb.enqueue(1);
    rb.enqueue(2);
    rb.enqueue(3);
    assert_eq!(rb.dequeue(), 1);
    assert_eq!(rb.dequeue(), 2);
    rb.enqueue(4);
    rb.enqueue(5);
    assert_eq!(rb.dequeue(), 3);
    assert_eq!(rb.dequeue(), 4);
    assert_eq!(rb.dequeue(), 5);
    assert!(rb.is_empty());
}

#[test]
fn len_counts_enqueues_minus_dequeues() {
    let mut rb = RingBufferIndex8bit::<u16, 8>::new(8);
    assert_eq!(rb.len(), 0);
    rb.enqueue(7);
    rb.enqueue(8);
    rb.enqueue(9);
    assert_eq!(rb.len(), 3);
    rb.dequeue();
    assert_eq!(rb.len(), 2);
    rb.enqueue(10);
    assert_eq!(rb.len(), 3);
    rb.dequeue();
    rb.dequeue();
    assert_eq!(rb.len(), 1);
    rb.clear();
    assert_eq!(rb.len(), 0);
    assert!(rb.is_empty());
}

#[test]
fn full_only_one_slot_before_capacity() {
    let mut rb = RingBufferIndex8bit::<u8, 4>::new(4);
    assert!(!rb.is_full());
    rb.enqueue(1);
    assert!(!rb.is_full());
    rb.enqueue(2);
    assert!(!rb.is_full());
    rb.enqueue(3);
    assert_eq!(rb.len(), 3);
    assert!(rb.is_full());
    rb.dequeue();
    assert!(!rb.is_full());
}

#[test]
fn try_new_rejects_non_power_of_two() {
    assert!(RingBufferIndex8bit::<u8, 100>::try_new(100).is_none());
    assert!(RingBufferIndex16bit::<u16, 1000>::try_new(1000).is_none());
}

#[test]
fn try_new_rejects_out_of_variant_range() {
    // 128 is a power of two, but at or below 256 the 8-bit variant serves.
    assert!(RingBufferIndex16bit::<u16, 128>::try_new(128).is_none());
    // 512 is a power of two, but above 256 the 16-bit variant is required.
    assert!(RingBufferIndex8bit::<u8, 512>::try_new(512).is_none());
    assert!(RingBufferIndex16bit::<u16, 131072>::try_new(131072).is_none());
}

#[test]
fn try_new_accepts_supported_capacities() {
    assert!(RingBufferIndex8bit::<u8, 256>::try_new(256).is_some());
    assert!(RingBufferIndex8bit::<u8, 1>::try_new(1).is_some());
    assert!(RingBufferIndex16bit::<u16, 512>::try_new(512).is_some());
    assert!(RingBufferIndex16bit::<u16, 65536>::try_new(65536).is_some());
}

#[test]
fn try_new_rejects_mismatched_capacity() {
    // The runtime capacity must restate the compile-time one.
    assert!(RingBufferIndex8bit::<u8, 16>::try_new(8).is_none());
}

#[test]
fn checked_operations_refuse_overwrap_and_underflow() {
    let mut rb = RingBufferIndex8bit::<u8, 4>::new(4);
    assert_eq!(rb.try_dequeue(), None);
    assert!(rb.try_enqueue(1));
    assert!(rb.try_enqueue(2));
    assert!(rb.try_enqueue(3));
    assert!(!rb.try_enqueue(4));
    assert_eq!(rb.try_dequeue(), Some(1));
    assert!(rb.try_enqueue(4));
    assert_eq!(rb.try_dequeue(), Some(2));
    assert_eq!(rb.try_dequeue(), Some(3));
    assert_eq!(rb.try_dequeue(), Some(4));
    assert_eq!(rb.try_dequeue(), None);
}

#[test]
fn clear_drops_contents_without_moving_slots() {
    let mut rb = RingBufferIndex16bit::<u16, 512>::new(512);
    rb.enqueue(5);
    rb.enqueue(6);
    rb.clear();
    assert!(rb.is_empty());
    assert_eq!(rb.len(), 0);
    rb.enqueue(7);
    assert_eq!(rb.dequeue(), 7);
}

#[test]
fn large_buffer_holds_capacity_minus_one() {
    let mut rb = RingBufferIndex16bit::<u32, 512>::new(512);
    let mut pushed: u32 = 0;
    while !rb.is_full() {
        rb.enqueue(pushed);
        pushed += 1;
    }
    assert_eq!(pushed, 511);
    assert_eq!(rb.len(), 511);
    for expected in 0..pushed {
        assert_eq!(rb.dequeue(), expected);
    }
}
