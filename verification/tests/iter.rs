use ring_buffer_rs::buffer::RingBuffer;
use ring_buffer_rs::iter::RingIter;

#[test]
fn iterate_in_order() {
    let mut buf = RingBuffer::new(4);
    buf.push(1).unwrap();
    buf.push(2).unwrap();
    buf.push(3).unwrap();
    let items: Vec<&i32> = RingIter::new(&buf).collect();
    assert_eq!(items, vec![&1, &2, &3]);
}

#[test]
fn iterate_after_wrap() {
    let mut buf = RingBuffer::new(3);
    buf.push(1).unwrap();
    buf.push(2).unwrap();
    buf.push(3).unwrap();
    buf.pop();
    buf.push(4).unwrap();
    let items: Vec<&i32> = RingIter::new(&buf).collect();
    assert_eq!(items, vec![&2, &3, &4]);
}

#[test]
fn iterate_empty() {
    let buf: RingBuffer<i32> = RingBuffer::new(4);
    let items: Vec<&i32> = RingIter::new(&buf).collect();
    assert!(items.is_empty());
}

#[test]
fn size_hint_matches() {
    let mut buf = RingBuffer::new(4);
    buf.push(1).unwrap();
    buf.push(2).unwrap();
    let mut iter = RingIter::new(&buf);
    assert_eq!(iter.size_hint(), (2, Some(2)));
    iter.next();
    assert_eq!(iter.size_hint(), (1, Some(1)));
}

#[test]
fn next_walks_then_stops() {
    let mut buf = RingBuffer::new(2);
    buf.push_overwrite(1);
    buf.push_overwrite(2);
    buf.push_overwrite(3);
    let mut iter = RingIter::new(&buf);
    assert_eq!(iter.next(), Some(&2));
    assert_eq!(iter.next(), Some(&3));
    assert_eq!(iter.next(), None);
    assert_eq!(iter.next(), None);
    assert_eq!(iter.size_hint(), (0, Some(0)));
}

#[test]
fn collect_takes_the_rest() {
    let mut buf = RingBuffer::new(5);
    for i in 10..15 {
        buf.push(i).unwrap();
    }
    let mut iter = RingIter::new(&buf);
    iter.next();
    iter.next();
    let rest: Vec<&i32> = iter.collect();
    assert_eq!(rest, vec![&12, &13, &14]);
}

// Walking gives what popping the buffer empty would give.
#[test]
fn walk_matches_pop_order() {
    let mut buf = RingBuffer::new(3);
    for i in 0..7 {
        buf.push_overwrite(i);
    }
    let walked: Vec<i32> = RingIter::new(&buf).collect().into_iter().copied().collect();
    let mut popped = Vec::new();
    while let Some(x) = buf.pop() {
        popped.push(x);
    }
    assert_eq!(walked, popped);
    assert_eq!(popped, vec![4, 5, 6]);
}

#[test]
fn iterate_zero_capacity() {
    let buf: RingBuffer<i32> = RingBuffer::new(0);
    let mut iter = RingIter::new(&buf);
    assert_eq!(iter.size_hint(), (0, Some(0)));
    assert_eq!(iter.next(), None);
}

#[test]
fn len_counts_items_still_to_come() {
    let mut buf = RingBuffer::new(3);
    buf.push(1).unwrap();
    buf.push(2).unwrap();
    buf.push(3).unwrap();
    let mut iter = RingIter::new(&buf);
    assert_eq!(iter.len(), 3);
    iter.next();
    assert_eq!(iter.len(), 2);
    iter.next();
    iter.next();
    assert_eq!(iter.len(), 0);
    iter.next();
    assert_eq!(iter.len(), 0);
}
