use myvec::raw_val_iter::step;
use myvec::{IntoIter, RawValIter, RawVec};

#[test]
fn new_block_has_no_slots() {
    let buf: RawVec<u32> = RawVec::new();
    assert_eq!(0, buf.cap());
    assert!(buf.can_grow());
}

#[test]
fn new_block_of_a_type_without_size() {
    let buf: RawVec<()> = RawVec::new();
    assert_eq!(usize::MAX, buf.cap());
    assert!(!buf.can_grow());
}

#[test]
fn block_grows_by_doubling() {
    let mut buf: RawVec<u32> = RawVec::new();
    buf.grow();
    assert_eq!(1, buf.cap());
    buf.grow();
    assert_eq!(2, buf.cap());
    buf.grow();
    assert_eq!(4, buf.cap());
    buf.grow();
    assert_eq!(8, buf.cap());
}

#[test]
fn growth_keeps_what_the_slots_hold() {
    let mut buf: RawVec<String> = RawVec::new();
    buf.grow();
    buf.write(0, String::from("a"));
    buf.grow();
    buf.write(1, String::from("b"));
    buf.grow();
    assert_eq!("a", buf.peek(0));
    assert_eq!("b", buf.peek(1));
    buf.peek_mut(0).push('c');
    assert_eq!(String::from("ac"), buf.read(0));
    assert_eq!(String::from("b"), buf.read(1));
}

#[test]
fn released_block_is_fresh() {
    let mut buf: RawVec<u32> = RawVec::new();
    buf.grow();
    buf.grow();
    buf.write(1, 5);
    buf.release();
    assert_eq!(0, buf.cap());
    buf.grow();
    assert_eq!(1, buf.cap());
}

#[test]
fn released_block_of_a_type_without_size() {
    let mut buf: RawVec<()> = RawVec::new();
    buf.write(2, ());
    buf.release();
    assert_eq!(usize::MAX, buf.cap());
    assert_eq!((), buf.read(2));
}

#[test]
fn an_empty_block_of_wide_elements_can_grow() {
    let buf: RawVec<[u8; 1 << 28]> = RawVec::new();
    assert_eq!(0, buf.cap());
    assert!(buf.can_grow());
}

#[test]
fn step_of_elements() {
    assert_eq!(1, step::<()>());
    assert_eq!(1, step::<u8>());
    assert_eq!(4, step::<u32>());
    assert_eq!(16, step::<[u64; 2]>());
}

#[test]
fn cursor_over_a_part_of_a_block() {
    let mut buf: RawVec<u16> = RawVec::new();
    buf.grow();
    buf.grow();
    buf.grow();
    buf.write(0, 10);
    buf.write(1, 11);
    buf.write(2, 12);
    let mut iter = RawValIter::new(&buf, 3);
    assert_eq!((3, Some(3)), iter.size_hint());
    assert_eq!(Some(12), iter.next_back(&mut buf));
    assert_eq!(Some(10), iter.next(&mut buf));
    assert_eq!((1, Some(1)), iter.size_hint());
    assert_eq!(Some(11), iter.next(&mut buf));
    assert_eq!(None, iter.next(&mut buf));
    assert_eq!(None, iter.next_back(&mut buf));
    assert_eq!(4, buf.cap());
}

#[test]
fn cursor_over_nothing() {
    let mut buf: RawVec<u16> = RawVec::new();
    let mut iter = RawValIter::new(&buf, 0);
    assert_eq!((0, Some(0)), iter.size_hint());
    assert_eq!(None, iter.next(&mut buf));
    assert_eq!(None, iter.next_back(&mut buf));
}

#[test]
fn iterator_made_of_a_block_and_a_cursor() {
    let mut buf: RawVec<char> = RawVec::new();
    buf.grow();
    buf.grow();
    buf.write(0, 'x');
    buf.write(1, 'y');
    let iter = RawValIter::new(&buf, 2);
    let mut into_iter = IntoIter::new(buf, iter);
    assert_eq!(Some('y'), into_iter.next_back());
    assert_eq!(Some('x'), into_iter.next_back());
    assert_eq!(None, into_iter.next());
}
