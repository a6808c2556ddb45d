use ring_buffer_rs::buffer::RingBuffer;

#[test]
fn buffer_push_and_pop() {
    let mut buf = RingBuffer::new(4);
    buf.push(1).unwrap();
    buf.push(2).unwrap();
    assert_eq!(buf.pop(), Some(1));
    assert_eq!(buf.pop(), Some(2));
    assert_eq!(buf.pop(), None);
}

#[test]
fn buffer_full_returns_err() {
    let mut buf = RingBuffer::new(2);
    assert!(buf.push(1).is_ok());
    assert!(buf.push(2).is_ok());
    assert!(buf.push(3).is_err());
}

#[test]
fn overwrite_evicts_oldest() {
    let mut buf = RingBuffer::new(2);
    buf.push_overwrite(1);
    buf.push_overwrite(2);
    let evicted = buf.push_overwrite(3);
    assert_eq!(evicted, Some(1));
    assert_eq!(buf.pop(), Some(2));
    assert_eq!(buf.pop(), Some(3));
}

#[test]
fn buffer_wrap_around() {
    let mut buf = RingBuffer::new(3);
    buf.push(1).unwrap();
    buf.push(2).unwrap();
    buf.push(3).unwrap();
    assert_eq!(buf.pop(), Some(1));
    buf.push(4).unwrap();
    assert_eq!(buf.pop(), Some(2));
    assert_eq!(buf.pop(), Some(3));
    assert_eq!(buf.pop(), Some(4));
}

#[test]
fn buffer_len_and_empty() {
    let mut buf = RingBuffer::new(4);
    assert!(buf.is_empty());
    assert_eq!(buf.len(), 0);
    buf.push(1).unwrap();
    assert!(!buf.is_empty());
    assert_eq!(buf.len(), 1);
}

#[test]
fn full_and_remaining() {
    let mut buf = RingBuffer::new(3);
    assert!(!buf.is_full());
    assert_eq!(buf.remaining(), 3);
    buf.push(1).unwrap();
    buf.push(2).unwrap();
    buf.push(3).unwrap();
    assert!(buf.is_full());
    assert_eq!(buf.remaining(), 0);
}

#[test]
fn buffer_capacity() {
    let buf: RingBuffer<i32> = RingBuffer::new(10);
    assert_eq!(buf.capacity(), 10);
}

#[test]
fn peek() {
    let mut buf = RingBuffer::new(4);
    assert_eq!(buf.peek(), None);
    buf.push(42).unwrap();
    assert_eq!(buf.peek(), Some(&42));
    assert_eq!(buf.len(), 1);
}

#[test]
fn clear() {
    let mut buf = RingBuffer::new(4);
    buf.push(1).unwrap();
    buf.push(2).unwrap();
    buf.clear();
    assert!(buf.is_empty());
    assert_eq!(buf.len(), 0);
    assert_eq!(buf.pop(), None);
}

#[test]
fn many_push_pop() {
    let mut buf = RingBuffer::new(5);
    for i in 0..100 {
        if buf.is_full() {
            buf.pop();
        }
        buf.push(i).unwrap();
    }
    assert_eq!(buf.len(), 5);
}

// The refused item comes back whole and the buffer is left as it was.
#[test]
fn refused_push_returns_item_and_keeps_contents() {
    let mut buf = RingBuffer::new(2);
    buf.push(String::from("a")).unwrap();
    buf.push(String::from("b")).unwrap();
    assert_eq!(buf.push(String::from("c")), Err(String::from("c")));
    assert_eq!(buf.len(), 2);
    assert_eq!(buf.pop(), Some(String::from("a")));
    assert_eq!(buf.pop(), Some(String::from("b")));
}

#[test]
fn zero_capacity_refuses_everything() {
    let mut buf: RingBuffer<u8> = RingBuffer::new(0);
    assert_eq!(buf.capacity(), 0);
    assert!(buf.is_empty());
    assert!(buf.is_full());
    assert_eq!(buf.remaining(), 0);
    assert_eq!(buf.push(7), Err(7));
    assert_eq!(buf.peek(), None);
    assert_eq!(buf.pop(), None);
    buf.clear();
    assert_eq!(buf.len(), 0);
}

#[test]
fn overwrite_with_room_evicts_nothing() {
    let mut buf = RingBuffer::new(3);
    assert_eq!(buf.push_overwrite(1), None);
    assert_eq!(buf.push_overwrite(2), None);
    assert_eq!(buf.len(), 2);
    assert_eq!(buf.remaining(), 1);
}

// Pushing with eviction keeps the last `capacity` items, in order.
#[test]
fn overwrite_keeps_latest_items() {
    let mut buf = RingBuffer::new(3);
    let mut evicted = Vec::new();
    for i in 0..10 {
        if let Some(x) = buf.push_overwrite(i) {
            evicted.push(x);
        }
    }
    assert_eq!(evicted, vec![0, 1, 2, 3, 4, 5, 6]);
    assert_eq!(buf.pop(), Some(7));
    assert_eq!(buf.pop(), Some(8));
    assert_eq!(buf.pop(), Some(9));
    assert_eq!(buf.pop(), None);
}

// Items come out in the order they went in, across several wraps.
#[test]
fn buffer_fifo_across_wraps() {
    let mut buf = RingBuffer::new(4);
    let mut out = Vec::new();
    for i in 0..20 {
        buf.push(i).unwrap();
        if buf.len() == 3 {
            out.push(buf.pop().unwrap());
            out.push(buf.pop().unwrap());
        }
    }
    while let Some(x) = buf.pop() {
        out.push(x);
    }
    assert_eq!(out, (0..20).collect::<Vec<i32>>());
}

#[test]
fn len_plus_remaining_is_capacity() {
    let mut buf = RingBuffer::new(6);
    for i in 0..4 {
        buf.push(i).unwrap();
        assert_eq!(buf.len() + buf.remaining(), buf.capacity());
    }
    buf.pop();
    assert_eq!(buf.len(), 3);
    assert_eq!(buf.remaining(), 3);
}

#[test]
fn peek_does_not_remove() {
    let mut buf = RingBuffer::new(2);
    buf.push(5).unwrap();
    buf.push(6).unwrap();
    assert_eq!(buf.peek(), Some(&5));
    assert_eq!(buf.peek(), Some(&5));
    assert_eq!(buf.pop(), Some(5));
    assert_eq!(buf.peek(), Some(&6));
}

#[test]
fn clear_then_reuse() {
    let mut buf = RingBuffer::new(3);
    buf.push(1).unwrap();
    buf.push(2).unwrap();
    buf.pop();
    buf.clear();
    assert_eq!(buf.remaining(), 3);
    buf.push(9).unwrap();
    assert_eq!(buf.peek(), Some(&9));
}

// After clear, capacity() pushes in a row all succeed and come back in order.
#[test]
fn clear_then_fill_to_capacity() {
    let mut buf = RingBuffer::new(4);
    buf.push(1).unwrap();
    buf.push(2).unwrap();
    buf.push(3).unwrap();
    buf.pop();
    buf.clear();
    assert_eq!(buf.pop(), None);
    assert_eq!(buf.peek(), None);
    for i in 0..4 {
        assert_eq!(buf.push(10 + i), Ok(()));
    }
    assert!(buf.is_full());
    for i in 0..4 {
        assert_eq!(buf.pop(), Some(10 + i));
    }
    assert_eq!(buf.pop(), None);
}

// push_overwrite always succeeds: at capacity 0 the item comes straight back.
#[test]
fn overwrite_at_zero_capacity() {
    let mut buf: RingBuffer<i32> = RingBuffer::new(0);
    assert_eq!(buf.push_overwrite(3), Some(3));
    assert_eq!(buf.len(), 0);
    assert_eq!(buf.capacity(), 0);
    assert_eq!(buf.pop(), None);
}
