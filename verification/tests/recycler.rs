use eveboros::recycler::Recycler;

#[test]
fn storage() {
    let mut r: Recycler<u32> = Recycler::new();
    // When we create a new one, it is empty
    assert_eq!(0, r.data.len());
    assert_eq!(0, r.free.len());
    assert_eq!(0, r.len());
    assert!(r.is_empty());

    // Store something and observe it is there
    assert_eq!(0, r.store(1));
    assert_eq!(1, r.store(2));

    assert_eq!(0, r.free.len());
    assert_eq!(2, r.data.len());
    assert_eq!(vec![Some(1), Some(2)], r.data);
    assert_eq!(2, r.len());
    assert!(!r.is_empty());

    // Indexing checks
    assert_eq!(1, r[0]);
    assert_eq!(2, r[1]);

    // Mutable indexing
    *r.index_mut(0) = 3;
    assert_eq!(3, r[0]);
    assert_eq!(2, r.len());
    assert!(r.len() <= r.capacity());
    let cap = r.capacity();

    // Return one of them
    assert_eq!(2, r.store(4));
    assert_eq!(2, r.release(1));
    assert_eq!(2, r.len());
    assert_eq!(cap, r.capacity()); // The capacity doesn't change by releasing stuff

    // Check the other is still there
    assert_eq!(3, r[0]);

    // Internals
    assert_eq!(vec![Some(3), None, Some(4)], r.data);
    assert_eq!(vec![1], r.free);

    // Store some other now, the space gets reused
    assert_eq!(1, r.store(5));
    assert_eq!(vec![Some(3), Some(5), Some(4)], r.data);
    assert_eq!(0, r.free.len());
    // We don't reallocate when we just recycle some index
    assert_eq!(3, r.len());
    assert_eq!(cap, r.capacity());
}

#[test]
#[should_panic]
fn index_invalid() {
    let mut r: Recycler<u32> = Recycler::new();
    assert_eq!(0, r.store(0));
    r.release(0);

    assert_eq!(vec![None], r.data);
    assert_eq!(vec![0], r.free);

    *r.index_mut(0) = 3; // This one panics, because we released 0 previously (it's invalid index)
}

#[test]
#[should_panic]
fn return_twice() {
    let mut r: Recycler<u32> = Recycler::new();
    assert_eq!(0, r.store(1));
    r.release(0);

    assert_eq!(vec![None], r.data);
    assert_eq!(vec![0], r.free);

    r.release(0); // Trying to return this one for a second time
}

#[test]
#[should_panic]
fn oob() {
    let mut r: Recycler<u32> = Recycler::new();
    *r.index_mut(1) = 2; // Out of bounds, we never got such index (slightly different situation that an index we returned)
}

#[test]
#[should_panic]
fn oob_return() {
    let mut r: Recycler<u32> = Recycler::new();
    r.release(1); // Out of bounds, we release something we never got (slightly different than returning something twice)
}

/// The indexes on the stack of unused ones are handed out from the top, the items at other indexes
/// don't move.
#[test]
fn reuse_order() {
    let mut r: Recycler<&str> = Recycler::new();
    let indexes: Vec<usize> = vec!["a", "b", "c", "d"].into_iter().map(|s| r.store(s)).collect();
    assert_eq!(vec![0, 1, 2, 3], indexes);
    assert_eq!(4, r.peek_index());
    assert_eq!("b", r.release(1));
    assert_eq!("d", r.release(3));
    assert_eq!(vec![1, 3], r.free);
    assert!(!r.valid(1));
    assert!(!r.valid(3));
    assert!(!r.valid(4));
    assert!(r.valid(2));
    assert_eq!(3, r.peek_index());
    assert_eq!(3, r.store("e"));
    assert_eq!(1, r.peek_index());
    assert_eq!(1, r.store("f"));
    assert_eq!(4, r.store("g"));
    assert_eq!("a", r[0]);
    assert_eq!("f", r[1]);
    assert_eq!("c", r[2]);
    assert_eq!("e", r[3]);
    assert_eq!("g", r[4]);
    assert_eq!(5, r.len());
}
