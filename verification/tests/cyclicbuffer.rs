use bus_drivers::cyclicbuffer::CyclicBuffer;

#[test]
fn new_buffer_is_empty() {
    let b = CyclicBuffer::new(vec![0u8; 4]);
    assert!(b.empty());
    assert!(b.is_empty());
    assert_eq!(b.len(), 0);
    assert_eq!(b.capacity(), 4);
    assert_eq!(b.peek(), None);
}

#[test]
fn write_then_read_is_first_in_first_out() {
    let mut b = CyclicBuffer::new(vec![0u8; 4]);
    assert!(b.write(10));
    assert!(b.write(20));
    assert!(b.write(30));
    assert_eq!(b.len(), 3);
    assert_eq!(b.read(), Some(10));
    assert_eq!(b.read(), Some(20));
    assert_eq!(b.read(), Some(30));
    assert_eq!(b.read(), None);
}

#[test]
fn full_buffer_rejects_write_and_keeps_unread_data() {
    let mut b = CyclicBuffer::new(vec![0u8; 2]);
    assert!(b.write(1));
    assert!(b.write(2));
    assert!(!b.write(3));
    assert!(!b.write(4));
    assert_eq!(b.len(), 2);
    assert_eq!(b.read(), Some(1));
    assert_eq!(b.read(), Some(2));
    assert_eq!(b.read(), None);
}

#[test]
fn reading_an_empty_buffer_yields_nothing_again_and_again() {
    let mut b = CyclicBuffer::new(vec![0u8; 3]);
    assert_eq!(b.read(), None);
    assert_eq!(b.read(), None);
    assert!(b.empty());
    assert!(b.write(7));
    assert_eq!(b.read(), Some(7));
    assert_eq!(b.read(), None);
    assert_eq!(b.read(), None);
    assert_eq!(b.len(), 0);
}

#[test]
fn order_survives_wrap_around() {
    let mut b = CyclicBuffer::new(vec![0u16; 3]);
    let mut next_in = 0u16;
    let mut next_out = 0u16;
    for round in 0..20 {
        let writes = 1 + round % 3;
        for _ in 0..writes {
            if b.write(next_in) {
                next_in += 1;
            }
        }
        assert!(b.len() <= b.capacity());
        let reads = 1 + (round + 1) % 2;
        for _ in 0..reads {
            if let Some(x) = b.read() {
                assert_eq!(x, next_out);
                next_out += 1;
            }
        }
    }
    while let Some(x) = b.read() {
        assert_eq!(x, next_out);
        next_out += 1;
    }
    assert_eq!(next_in, next_out);
}

#[test]
fn written_element_comes_out_behind_the_older_ones() {
    let mut b = CyclicBuffer::new(vec![0u8; 4]);
    assert!(b.write(1));
    assert!(b.write(2));
    assert!(b.write(99));
    assert!(b.write(3));
    assert_eq!(b.read(), Some(1));
    assert!(b.write(4));
    assert_eq!(b.read(), Some(2));
    assert_eq!(b.read(), Some(99));
}

#[test]
fn peek_does_not_consume() {
    let mut b = CyclicBuffer::new(vec![0u8; 2]);
    assert!(b.write(5));
    assert_eq!(b.peek(), Some(5));
    assert_eq!(b.peek(), Some(5));
    assert_eq!(b.len(), 1);
    assert!(!b.is_empty());
    assert!(!b.empty());
    assert_eq!(b.read(), Some(5));
    assert_eq!(b.peek(), None);
}

#[test]
fn buffer_without_storage_is_always_full_and_empty() {
    let mut b = CyclicBuffer::new(Vec::<u8>::new());
    assert!(!b.write(1));
    assert_eq!(b.read(), None);
    assert!(b.empty());
    assert_eq!(b.capacity(), 0);
}

#[test]
fn len_never_exceeds_capacity() {
    let mut b = CyclicBuffer::new(vec![0u8; 5]);
    for i in 0..50u8 {
        b.write(i);
        assert!(b.len() <= 5);
    }
    assert_eq!(b.len(), 5);
}

#[test]
fn a_new_buffer_starts_at_slot_zero_over_its_store() {
    let b = CyclicBuffer::new(vec![7u8, 8, 9]);
    assert_eq!(b.ptr(), 0);
    assert_eq!(b.data(), &vec![7u8, 8, 9]);
    assert_eq!(b.len(), 0);
}

#[test]
fn a_write_fills_the_slot_behind_the_last_element_and_keeps_the_cursor() {
    let mut b = CyclicBuffer::new(vec![0u8; 3]);
    assert!(b.write(5));
    assert_eq!(b.ptr(), 0);
    assert_eq!(b.data(), &vec![5u8, 0, 0]);
    assert!(b.write(6));
    assert_eq!(b.ptr(), 0);
    assert_eq!(b.data(), &vec![5u8, 6, 0]);
}

#[test]
fn a_read_moves_the_cursor_and_leaves_the_store() {
    let mut b = CyclicBuffer::new(vec![0u8; 2]);
    assert!(b.write(1));
    assert!(b.write(2));
    assert_eq!(b.read(), Some(1));
    assert_eq!(b.ptr(), 1);
    assert_eq!(b.data(), &vec![1u8, 2]);
    assert_eq!(b.read(), Some(2));
    assert_eq!(b.ptr(), 0);
    assert_eq!(b.data(), &vec![1u8, 2]);
    assert_eq!(b.read(), None);
    assert_eq!(b.ptr(), 0);
}

#[test]
fn a_write_behind_a_wrap_keeps_the_unread_element() {
    let mut b = CyclicBuffer::new(vec![0u8, 0u8]);
    assert!(b.write(1));
    assert!(b.write(2));
    assert!(!b.write(3));
    assert_eq!(b.data(), &vec![1u8, 2]);
    assert_eq!(b.read(), Some(1));
    assert!(b.write(4));
    assert_eq!(b.ptr(), 1);
    assert_eq!(b.len(), 2);
    assert_eq!(b.data(), &vec![4u8, 2]);
    assert_eq!(b.read(), Some(2));
    assert_eq!(b.read(), Some(4));
    assert_eq!(b.read(), None);
    assert_eq!(b.len(), 0);
    assert_eq!(b.ptr(), 1);
}
