use std::cell::{Cell, RefCell};
use std::rc::Rc;

use scheme::gc::{Gc, GcHeap, GcRefCell, Trace, Tracer};

/// Objects of the heap in the allocation tests: an integer or a string.
enum Obj {
    Int(i32),
    Str(&'static str),
}

impl Trace for Obj {
    fn trace(&self, _tracer: &mut Tracer) {}
    fn trace_in_heap(&self, _tracer: &mut Tracer) {}
}

fn int_of(obj: &Obj) -> Option<i32> {
    match obj {
        Obj::Int(n) => Some(*n),
        Obj::Str(_) => None,
    }
}

fn str_of(obj: &Obj) -> Option<&'static str> {
    match obj {
        Obj::Str(s) => Some(*s),
        Obj::Int(_) => None,
    }
}

#[test]
fn test_gc_heap_alloc() {
    let mut heap = GcHeap::new();
    let root1 = heap.allocate(Obj::Int(42));
    let root2 = heap.allocate(Obj::Str("hello"));

    assert_eq!(int_of(root1.as_ref(&heap)), Some(42));
    assert_eq!(str_of(root2.as_ref(&heap)), Some("hello"));

    heap.collect();
    println!("After first collection: {:?}", heap.stats());

    assert_eq!(int_of(root1.as_ref(&heap)), Some(42));
    assert_eq!(str_of(root2.as_ref(&heap)), Some("hello"));
}

#[test]
fn test_gc_heap_collect() {
    let mut heap = GcHeap::new();
    let root1 = heap.allocate(Obj::Int(42));
    let root2 = heap.allocate(Obj::Str("hello"));

    assert_eq!(int_of(root1.as_ref(&heap)), Some(42));
    assert_eq!(str_of(root2.as_ref(&heap)), Some("hello"));

    heap.drop_gc(root1);
    heap.drop_gc(root2);

    heap.collect();
    println!("After first collection: {:?}", heap.stats());

    assert_eq!(heap.stats().allocated_objects, 0);
    assert_eq!(heap.stats().allocated_bytes, 0);
}

/// Counts how many values holding the same counter were dropped.
struct DropCounter {
    value: i32,
    drops: Rc<Cell<u32>>,
}

impl Trace for DropCounter {
    fn trace(&self, _tracer: &mut Tracer) {}
    fn trace_in_heap(&self, _tracer: &mut Tracer) {}
}

impl Drop for DropCounter {
    fn drop(&mut self) {
        self.drops.set(self.drops.get() + 1);
    }
}

#[test]
fn test_gc_heap_drop() {
    let drops = Rc::new(Cell::new(0));

    let mut heap = GcHeap::new();
    let root = heap.allocate(DropCounter { value: 42, drops: drops.clone() });

    heap.drop_gc(root);
    heap.collect();

    assert_eq!(drops.get(), 1);
}

struct Node {
    next: RefCell<Option<Gc>>,
    data: u32,
    drops: Rc<Cell<u32>>,
}

impl Node {
    fn new(data: u32, drops: &Rc<Cell<u32>>) -> Self {
        Node {
            next: RefCell::new(None),
            data,
            drops: drops.clone(),
        }
    }

    fn with_next(self, next: Gc) -> Self {
        self.next.replace(Some(next));
        self
    }
}

impl Trace for Node {
    fn trace(&self, tracer: &mut Tracer) {
        if let Some(next) = self.next.borrow().as_ref() {
            next.trace(tracer);
        }
    }

    fn trace_in_heap(&self, tracer: &mut Tracer) {
        if let Some(next) = self.next.borrow().as_ref() {
            next.trace_in_heap(tracer);
        }
    }
}

impl Drop for Node {
    fn drop(&mut self) {
        self.drops.set(self.drops.get() + 1);
    }
}

#[test]
fn test_gc_heap_single_level() {
    let drops = Rc::new(Cell::new(0));

    let mut heap = GcHeap::new();

    let root = {
        let leaf = heap.allocate(Node::new(42, &drops));
        heap.allocate(Node::new(7, &drops).with_next(leaf))
    };

    heap.collect();
    assert_eq!(drops.get(), 0);

    assert_eq!(root.as_ref(&heap).data, 7);
    let next = root.as_ref(&heap).next.borrow();
    assert_eq!(next.as_ref().unwrap().as_ref(&heap).data, 42);
}

#[test]
fn test_gc_heap_cycle_detection() {
    let drops = Rc::new(Cell::new(0));

    let mut heap = GcHeap::new();

    let node1 = heap.allocate(Node::new(7, &drops));
    let node1_copy = heap.clone_gc(&node1);
    let node2 = heap.allocate(Node::new(11, &drops).with_next(node1_copy));
    let node2_copy = heap.clone_gc(&node2);
    node1.as_ref(&heap).next.replace(Some(node2_copy));

    heap.collect();
    assert_eq!(drops.get(), 0);
}

#[test]
fn unreachable_cycle_is_freed() {
    let drops = Rc::new(Cell::new(0));
    let mut heap = GcHeap::new();

    let node1 = heap.allocate(Node::new(1, &drops));
    let node1_copy = heap.clone_gc(&node1);
    let node2 = heap.allocate(Node::new(2, &drops).with_next(node1_copy));
    let node2_copy = heap.clone_gc(&node2);
    node1.as_ref(&heap).next.replace(Some(node2_copy));

    heap.drop_gc(node1);
    heap.drop_gc(node2);
    heap.collect();

    assert_eq!(drops.get(), 2);
    assert_eq!(heap.stats().allocated_objects, 0);
    assert_eq!(heap.stats().allocated_bytes, 0);
}

#[test]
fn chain_reachable_from_a_root_survives() {
    let drops = Rc::new(Cell::new(0));
    let mut heap = GcHeap::new();

    let a = heap.allocate(Node::new(1, &drops));
    let b = heap.allocate(Node::new(2, &drops).with_next(a));
    let c = heap.allocate(Node::new(3, &drops).with_next(b));
    let garbage = heap.allocate(Node::new(4, &drops));
    heap.drop_gc(garbage);

    heap.collect();
    assert_eq!(drops.get(), 1);
    assert_eq!(heap.stats().allocated_objects, 3);

    let second = c.as_ref(&heap).next.borrow().as_ref().map(|g| g.as_ref(&heap).data);
    assert_eq!(second, Some(2));

    heap.drop_gc(c);
    heap.collect();
    assert_eq!(drops.get(), 4);
    assert_eq!(heap.stats().allocated_objects, 0);
}

#[test]
fn stats_count_allocations() {
    let mut heap: GcHeap<u64> = GcHeap::new();
    assert_eq!(heap.stats().allocated_objects, 0);
    assert_eq!(heap.stats().threshhold_bytes, 1024 * 1024 * 1024);
    let a = heap.allocate(1);
    let b = heap.allocate(2);
    assert_eq!(heap.stats().allocated_objects, 2);
    assert!(heap.stats().allocated_bytes > 0);
    assert_eq!(*a.as_ref(&heap) + *b.as_ref(&heap), 3);
    *heap.get_mut(&a) = 10;
    assert_eq!(*heap.get(&a), 10);
}

/// A cell being written does not count its contents as held by the heap:
/// they survive as roots even without any other handle.
#[test]
fn test_write_guard() {
    let drops = Rc::new(Cell::new(0));

    let mut heap = GcHeap::new();
    let cell = heap.allocate(GcRefCell::new(DropCounter { value: 42, drops: drops.clone() }));
    let borrow = heap.get_mut(&cell).borrow_mut();

    heap.collect();
    assert_eq!(drops.get(), 0);

    assert_eq!(heap.get_mut(&cell).get_mut(&borrow).value, 42);
    heap.get_mut(&cell).release_mut(borrow);

    heap.collect();
    assert_eq!(drops.get(), 0);
    let reader = heap.get_mut(&cell).borrow();
    assert_eq!(heap.get_mut(&cell).get(&reader).value, 42);
    heap.get_mut(&cell).release(reader);

    heap.drop_gc(cell);
    heap.collect();
    assert_eq!(drops.get(), 1);
}

/// Objects stored behind `GcRefCell`s, linked from one to the other.
struct Linked {
    next: GcRefCell<Option<Gc>>,
    drops: Rc<Cell<u32>>,
}

impl Trace for Linked {
    fn trace(&self, tracer: &mut Tracer) {
        self.next.trace(tracer);
    }

    fn trace_in_heap(&self, tracer: &mut Tracer) {
        self.next.trace_in_heap(tracer);
    }
}

impl Drop for Linked {
    fn drop(&mut self) {
        self.drops.set(self.drops.get() + 1);
    }
}

#[test]
fn test_nexted_write_guard() {
    let drops = Rc::new(Cell::new(0));

    let mut heap = GcHeap::new();
    let node1 = heap.allocate(Linked { next: GcRefCell::new(None), drops: drops.clone() });
    let node2 = heap.allocate(Linked { next: GcRefCell::new(None), drops: drops.clone() });

    let node2_copy = heap.clone_gc(&node2);
    let next = &mut heap.get_mut(&node1).next;
    let guard = next.borrow_mut();
    *next.get_mut(&guard) = Some(node2_copy);
    next.release_mut(guard);

    heap.collect();
    assert_eq!(drops.get(), 0);

    heap.drop_gc(node1);
    heap.drop_gc(node2);

    heap.collect();
    assert_eq!(drops.get(), 2);
}

#[test]
fn a_root_keeps_its_object_alive() {
    let mut heap: GcHeap<u64> = GcHeap::new();
    let gc = heap.allocate(5);
    let root = heap.root(&gc);
    heap.drop_gc(gc);
    heap.collect();
    assert_eq!(heap.stats().allocated_objects, 1);
    assert_eq!(*root.as_ref(&heap), 5);
    heap.drop_root(root);
    heap.collect();
    assert_eq!(heap.stats().allocated_objects, 0);
    assert_eq!(heap.slot_count(), 1);
}

#[test]
fn tracer_queues_each_handle_once() {
    let mut heap = GcHeap::new();
    let a = heap.allocate(Obj::Int(1));
    let b = heap.allocate(Obj::Int(2));
    let mut tracer = Tracer::new();
    tracer.enqueue(&a);
    tracer.enqueue(&b);
    tracer.enqueue(&a);
    let first = tracer.try_dequeue();
    let second = tracer.try_dequeue();
    assert!(first.is_some());
    assert!(second.is_some());
    assert_ne!(first, second);
    assert_eq!(tracer.try_dequeue(), None);
    tracer.enqueue(&a);
    assert_eq!(tracer.try_dequeue(), None);
    let edges = tracer.into_edges();
    assert_eq!(edges.len(), 4);
    assert_eq!(edges[0], edges[2]);
    assert_eq!(edges[0], edges[3]);
    assert_eq!(Some(edges[0]), first);
    assert_eq!(Some(edges[1]), second);
}
