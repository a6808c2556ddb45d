use ring_buffer_rs::power2::Power2Buffer;

#[test]
fn power2_push_and_pop() {
    let mut buf = Power2Buffer::new(4);
    buf.push(1).unwrap();
    buf.push(2).unwrap();
    assert_eq!(buf.pop(), Some(1));
    assert_eq!(buf.pop(), Some(2));
}

#[test]
fn wrap_around_fast() {
    let mut buf = Power2Buffer::new(4);
    for i in 0..8 {
        buf.push(i).unwrap();
        assert_eq!(buf.pop(), Some(i));
    }
}

#[test]
fn power2_full_returns_err() {
    let mut buf = Power2Buffer::new(4);
    buf.push(1).unwrap();
    buf.push(2).unwrap();
    buf.push(3).unwrap();
    buf.push(4).unwrap();
    assert!(buf.push(5).is_err());
}

#[test]
fn capacity_is_power_of_two() {
    let buf: Power2Buffer<i32> = Power2Buffer::new(16);
    assert_eq!(buf.capacity(), 16);
    assert_eq!(buf.mask(), 15);
}

#[test]
fn power2_len_and_empty() {
    let mut buf = Power2Buffer::new(8);
    assert!(buf.is_empty());
    buf.push(1).unwrap();
    assert!(!buf.is_empty());
    assert_eq!(buf.len(), 1);
}

#[test]
fn large_buffer() {
    let mut buf = Power2Buffer::new(1024);
    for i in 0..1024 {
        buf.push(i).unwrap();
    }
    assert_eq!(buf.len(), 1024);
    for i in 0..1024 {
        assert_eq!(buf.pop(), Some(i));
    }
    assert!(buf.is_empty());
}

#[test]
fn capacity_one() {
    let mut buf = Power2Buffer::new(1);
    assert_eq!(buf.mask(), 0);
    assert_eq!(buf.push('a'), Ok(()));
    assert_eq!(buf.push('b'), Err('b'));
    assert_eq!(buf.pop(), Some('a'));
    assert_eq!(buf.pop(), None);
    assert_eq!(buf.push('c'), Ok(()));
    assert_eq!(buf.pop(), Some('c'));
}

#[test]
fn refused_push_keeps_contents() {
    let mut buf = Power2Buffer::new(2);
    buf.push(1).unwrap();
    buf.push(2).unwrap();
    assert_eq!(buf.push(3), Err(3));
    assert_eq!(buf.len(), 2);
    assert_eq!(buf.pop(), Some(1));
    assert_eq!(buf.pop(), Some(2));
    assert_eq!(buf.pop(), None);
}

// The mask stands for the modulo: filling and draining several times keeps
// first-in first-out order.
#[test]
fn power2_fifo_across_wraps() {
    let mut buf = Power2Buffer::new(8);
    let mut out = Vec::new();
    for i in 0..50u32 {
        buf.push(i).unwrap();
        if buf.len() == 5 {
            while let Some(x) = buf.pop() {
                out.push(x);
            }
        }
    }
    while let Some(x) = buf.pop() {
        out.push(x);
    }
    assert_eq!(out, (0..50).collect::<Vec<u32>>());
}

#[test]
fn len_never_exceeds_capacity() {
    let mut buf = Power2Buffer::new(4);
    for i in 0..20 {
        let _ = buf.push(i);
        if i % 5 == 0 {
            buf.pop();
        }
        assert!(buf.len() <= buf.capacity());
        assert_eq!(buf.capacity(), 4);
    }
}
