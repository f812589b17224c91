use myvec::MyVec;
use std::cell::Cell;
use std::rc::Rc;

/// A value that counts its own destruction.
struct Counted {
    id: usize,
    drops: Rc<Cell<usize>>,
}

impl Drop for Counted {
    fn drop(&mut self) {
        self.drops.set(self.drops.get() + 1);
    }
}

fn counted(n: usize, drops: &Rc<Cell<usize>>) -> MyVec<Counted> {
    let mut v = MyVec::new();
    for id in 0..n {
        v.push(Counted { id, drops: drops.clone() });
    }
    v
}

fn numbers(n: i32) -> MyVec<i32> {
    let mut v = MyVec::new();
    for i in 0..n {
        v.push(i);
    }
    v
}

#[test]
fn into_iter_from_the_front() {
    let mut iter = numbers(5).into_iter();
    let mut seen = Vec::new();
    while let Some(x) = iter.next() {
        seen.push(x);
    }
    assert_eq!(vec![0, 1, 2, 3, 4], seen);
    assert_eq!(None, iter.next());
    assert_eq!(None, iter.next_back());
}

#[test]
fn into_iter_from_the_back() {
    let mut iter = numbers(5).into_iter();
    let mut seen = Vec::new();
    while let Some(x) = iter.next_back() {
        seen.push(x);
    }
    assert_eq!(vec![4, 3, 2, 1, 0], seen);
    assert_eq!(None, iter.next_back());
    assert_eq!(None, iter.next());
}

#[test]
fn into_iter_from_both_ends() {
    let mut iter = numbers(6).into_iter();
    let from_back = [false, true, true, false, true, false];
    let mut fronts = Vec::new();
    let mut backs = Vec::new();
    for back in from_back {
        if back {
            backs.push(iter.next_back().unwrap());
        } else {
            fronts.push(iter.next().unwrap());
        }
    }
    assert_eq!(vec![0, 1, 2], fronts);
    assert_eq!(vec![5, 4, 3], backs);
    assert_eq!(None, iter.next());
    assert_eq!(None, iter.next_back());
    assert_eq!((0, Some(0)), iter.size_hint());
}

#[test]
fn into_iter_of_an_empty_array() {
    let v: MyVec<i32> = MyVec::new();
    let mut iter = v.into_iter();
    assert_eq!((0, Some(0)), iter.size_hint());
    assert_eq!(None, iter.next());
    assert_eq!(None, iter.next_back());
}

#[test]
fn size_hint_counts_what_is_left() {
    let mut iter = numbers(4).into_iter();
    assert_eq!((4, Some(4)), iter.size_hint());
    iter.next();
    assert_eq!((3, Some(3)), iter.size_hint());
    iter.next_back();
    assert_eq!((2, Some(2)), iter.size_hint());
    iter.finish();
    assert_eq!((0, Some(0)), iter.size_hint());
    assert_eq!(None, iter.next());
}

#[test]
fn size_hint_of_wide_elements() {
    let mut v: MyVec<(u64, u64, u64)> = MyVec::new();
    for i in 0..5 {
        v.push((i, i + 1, i + 2));
    }
    let mut iter = v.into_iter();
    assert_eq!((5, Some(5)), iter.size_hint());
    assert_eq!(Some((0, 1, 2)), iter.next());
    assert_eq!(Some((4, 5, 6)), iter.next_back());
    assert_eq!((3, Some(3)), iter.size_hint());
}

#[test]
fn zero_sized_elements_come_out_from_both_ends() {
    let mut v: MyVec<()> = MyVec::new();
    for _ in 0..10 {
        v.push(());
    }
    let mut iter = v.into_iter();
    assert_eq!((10, Some(10)), iter.size_hint());
    let mut count = 0;
    while let Some(()) = iter.next() {
        count += 1;
        if let Some(()) = iter.next_back() {
            count += 1;
        }
    }
    assert_eq!(10, count);
    assert_eq!((0, Some(0)), iter.size_hint());
}

#[test]
fn dropped_into_iter_destroys_what_is_left() {
    let drops = Rc::new(Cell::new(0));
    let mut iter = counted(10, &drops).into_iter();
    let first = iter.next().unwrap();
    let last = iter.next_back().unwrap();
    assert_eq!(0, first.id);
    assert_eq!(9, last.id);
    assert_eq!(0, drops.get());
    drop(iter);
    assert_eq!(8, drops.get());
    drop(first);
    drop(last);
    assert_eq!(10, drops.get());
}

#[test]
fn finished_into_iter_has_destroyed_what_was_left() {
    let drops = Rc::new(Cell::new(0));
    let mut iter = counted(7, &drops).into_iter();
    drop(iter.next());
    assert_eq!(1, drops.get());
    iter.finish();
    assert_eq!(7, drops.get());
    drop(iter);
    assert_eq!(7, drops.get());
}

#[test]
fn dropped_array_destroys_each_element_once() {
    let drops = Rc::new(Cell::new(0));
    let mut v = counted(5, &drops);
    drop(v.pop());
    drop(v.remove(1));
    assert_eq!(2, drops.get());
    drop(v);
    assert_eq!(5, drops.get());
}

#[test]
fn released_array_has_destroyed_its_elements() {
    let drops = Rc::new(Cell::new(0));
    let mut v = counted(5, &drops);
    v.release();
    assert_eq!(5, drops.get());
    assert_eq!(0, v.len());
    drop(v);
    assert_eq!(5, drops.get());
}

#[test]
fn drain_hands_out_every_element() {
    let mut v = numbers(5);
    let cap = v.cap();
    {
        let mut drain = v.drain();
        assert_eq!((5, Some(5)), drain.size_hint());
        assert_eq!(Some(0), drain.next());
        assert_eq!(Some(4), drain.next_back());
        assert_eq!(Some(3), drain.next_back());
        assert_eq!(Some(1), drain.next());
        assert_eq!((1, Some(1)), drain.size_hint());
        assert_eq!(Some(2), drain.next());
        assert_eq!(None, drain.next());
        assert_eq!(None, drain.next_back());
    }
    assert_eq!(0, v.len());
    assert_eq!(cap, v.cap());
}

#[test]
fn abandoned_drain_leaves_an_empty_array() {
    let mut v = numbers(6);
    let cap = v.cap();
    assert_eq!(8, cap);
    drop(v.drain());
    assert_eq!(0, v.len());
    assert_eq!(cap, v.cap());
    assert_eq!(None, v.get(0));
    assert_eq!(None, v.pop());
    v.push(100);
    v.push(200);
    assert_eq!(2, v.len());
    assert_eq!(cap, v.cap());
    assert_eq!(Some(&100), v.get(0));
    assert_eq!(Some(200), v.pop());
    assert_eq!(Some(100), v.pop());
    assert_eq!(None, v.pop());
}

#[test]
fn finished_drain_has_destroyed_what_was_left() {
    let drops = Rc::new(Cell::new(0));
    let mut v = counted(10, &drops);
    {
        let mut drain = v.drain();
        let first = drain.next().unwrap();
        let last = drain.next_back().unwrap();
        assert_eq!(0, first.id);
        assert_eq!(9, last.id);
        drop(first);
        drop(last);
        assert_eq!(2, drops.get());
        drain.finish();
        assert_eq!(10, drops.get());
        assert_eq!((0, Some(0)), drain.size_hint());
        assert!(drain.next().is_none());
    }
    assert_eq!(0, v.len());
    drop(v);
    assert_eq!(10, drops.get());
}

#[test]
fn abandoned_drain_destroys_each_element_once() {
    let drops = Rc::new(Cell::new(0));
    let mut v = counted(4, &drops);
    {
        let mut drain = v.drain();
        drop(drain.next());
    }
    assert_eq!(0, v.len());
    v.push(Counted { id: 100, drops: drops.clone() });
    v.push(Counted { id: 101, drops: drops.clone() });
    assert_eq!(100, v.get(0).unwrap().id);
    assert_eq!(101, v.get(1).unwrap().id);
    drop(v);
    assert_eq!(6, drops.get());
}

#[test]
fn drain_of_zero_sized_elements() {
    let mut v: MyVec<()> = MyVec::new();
    for _ in 0..3 {
        v.push(());
    }
    {
        let mut drain = v.drain();
        assert_eq!(Some(()), drain.next_back());
        assert_eq!(Some(()), drain.next());
        assert_eq!(Some(()), drain.next());
        assert_eq!(None, drain.next());
    }
    assert_eq!(0, v.len());
    assert_eq!(usize::MAX, v.cap());
}

#[test]
fn finished_into_iter_of_zero_sized_elements() {
    let mut v: MyVec<()> = MyVec::new();
    for _ in 0..4 {
        v.push(());
    }
    let mut iter = v.into_iter();
    assert_eq!(Some(()), iter.next_back());
    iter.finish();
    assert_eq!((0, Some(0)), iter.size_hint());
    assert_eq!(None, iter.next());
    assert_eq!(None, iter.next_back());
}

#[test]
fn finished_into_iter_can_be_finished_again() {
    let drops = Rc::new(Cell::new(0));
    let mut iter = counted(3, &drops).into_iter();
    iter.finish();
    assert_eq!(3, drops.get());
    iter.finish();
    assert_eq!(3, drops.get());
    assert_eq!((0, Some(0)), iter.size_hint());
}
