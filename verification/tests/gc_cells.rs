use scheme::gc::{BorrowState, GcHeader, GcRefCell};

#[test]
fn test_gc_header_preserve_dropped_flag() {
    let mut header = GcHeader::new();
    assert!(!header.is_dropped());

    header.set_dropped();
    assert!(header.is_dropped());

    header.incr_strong();
    assert!(header.is_dropped());
}

#[test]
fn test_gc_header_preserve_marked_flag() {
    let mut header = GcHeader::new();
    assert!(!header.is_marked());

    header.mark();
    assert!(header.is_marked());

    header.incr_in_heap();

    assert!(header.is_marked());
}

#[test]
fn gc_header_counts_and_roots() {
    let mut header = GcHeader::new();
    assert!(!header.is_rooted());
    header.incr_strong();
    header.incr_strong();
    assert!(header.is_rooted());
    header.incr_in_heap();
    assert!(header.is_rooted());
    header.incr_in_heap();
    assert!(!header.is_rooted());
    header.decr_strong();
    assert!(!header.is_rooted());
    header.reset_in_heap();
    assert!(header.is_rooted());
}

#[test]
fn gc_header_unmark_keeps_the_word() {
    let mut header = GcHeader::new();
    header.incr_in_heap();
    header.mark();
    header.unmark();
    assert!(header.is_marked());
    header.reset_in_heap();
    assert!(!header.is_marked());
    header.incr_in_heap();
    header.incr_strong();
    header.incr_strong();
    assert!(header.is_rooted());
    header.incr_in_heap();
    assert!(!header.is_rooted());
}

#[test]
fn test_borrow() {
    let mut cell = GcRefCell::new(5);
    assert_eq!(cell.state(), BorrowState::Unused);

    let borrow1 = cell.borrow();
    assert_eq!(*cell.get(&borrow1), 5);
    assert_eq!(cell.state(), BorrowState::Reading);
    assert!(cell.try_borrow_mut().is_err());

    let borrow2 = cell.borrow();
    assert_eq!(*cell.get(&borrow2), 5);
    assert!(cell.try_borrow_mut().is_err());

    cell.release(borrow1);
    cell.release(borrow2);

    assert_eq!(cell.state(), BorrowState::Unused);
    let reading = cell.try_borrow();
    assert!(reading.is_ok());
    cell.release(reading.unwrap());
    let writing = cell.try_borrow_mut();
    assert!(writing.is_ok());
    cell.release_mut(writing.unwrap());
}

#[test]
fn test_borrow_try() {
    let mut cell = GcRefCell::new(7);
    assert_eq!(cell.state(), BorrowState::Unused);

    let borrow1 = cell.borrow_mut();
    assert_eq!(*cell.get_write(&borrow1), 7);
    assert!(cell.state() == BorrowState::Writing);

    assert!(cell.try_borrow().is_err());
    assert!(cell.try_borrow_mut().is_err());

    cell.release_mut(borrow1);

    assert_eq!(cell.state(), BorrowState::Unused);
    let reading = cell.try_borrow();
    assert!(reading.is_ok());
    cell.release(reading.unwrap());
    let writing = cell.try_borrow_mut();
    assert!(writing.is_ok());
    cell.release_mut(writing.unwrap());
}

#[test]
fn refcell_write_through_exclusive_borrow() {
    let mut cell = GcRefCell::new(1u32);
    let guard = cell.borrow_mut();
    *cell.get_mut(&guard) = 9;
    cell.release_mut(guard);
    let reader = cell.borrow();
    assert_eq!(*cell.get(&reader), 9);
    cell.release(reader);
    assert_eq!(cell.state(), BorrowState::Unused);
}
