//! Values and heap allocated objects.

use vstd::prelude::*;

use crate::gc::header::MAX_COUNT;
use crate::gc::heap::{live, prepared_for_alloc, GcBox, HeapView, ObjView};
use crate::gc::refcell::CellView;
use crate::gc::trace::lemma_tracer_after_concat;
use crate::gc::{Gc, GcHeap, GcRefCell, Trace, Tracer};
use crate::symbol::SymbolId;

verus! {

/// Kinds of heap objects.
#[derive(Debug)]
pub enum ObjectKind {
    Environment,
}

/// Metadata of a heap object.
pub struct ObjectHeader {
    kind: ObjectKind,
}

/// Marker trait for structures that are allowed to be heap allocated.
pub trait HeapObject {

}

/// A heap allocated object: its header and its value.
pub struct SchemeObject<T: HeapObject> {
    header: ObjectHeader,
    value: T,
}

/// The type an object is seen as when its type is not known.
pub struct Erased {}

impl HeapObject for Erased {

}

/// An environment.
pub struct Env {}

impl Env {
    /// An empty environment.
    pub(crate) fn new() -> (env: Self) {
        Env {  }
    }
}

impl HeapObject for Env {

}

impl Trace for Env {
    fn trace(&self, tracer: &mut Tracer) {
    }

    fn trace_in_heap(&self, tracer: &mut Tracer) {
    }
}

/// A number.
#[derive(Debug, Clone, Copy, PartialEq, Eq, Structural)]
pub enum Number {
    Integer(i64),
}

impl Number {
    /// The integer `n`.
    pub fn from_i64(n: i64) -> (number: Self)
        ensures
            number == Number::Integer(n),
    {
        Number::Integer(n)
    }
}

impl From<i64> for Number {
    fn from(n: i64) -> (number: Self) {
        Number::Integer(n)
    }
}

impl vstd::std_specs::convert::FromSpecImpl<i64> for Number {
    open spec fn obeys_from_spec() -> bool {
        true
    }

    open spec fn from_spec(n: i64) -> Self {
        Number::Integer(n)
    }
}

/// A Scheme value.
pub enum Value {
    Nil,
    Num(Number),
    Sym(SymbolId),
    Env(Gc),
    Pair(PairObject),
}

impl Trace for Value {
    open spec fn handles(&self) -> Seq<usize> {
        match self {
            Value::Env(env) => env.handles(),
            Value::Pair(pair) => pair.handles(),
            _ => Seq::empty(),
        }
    }

    open spec fn heap_handles(&self) -> Seq<usize> {
        match self {
            Value::Env(env) => env.heap_handles(),
            Value::Pair(pair) => pair.heap_handles(),
            _ => Seq::empty(),
        }
    }

    fn trace(&self, tracer: &mut Tracer) {
        match self {
            Value::Env(env) => env.trace(tracer),
            Value::Pair(pair) => pair.trace(tracer),
            _ => {
                    },
        }
    }

    fn trace_in_heap(&self, tracer: &mut Tracer) {
        match self {
            Value::Env(env) => env.trace_in_heap(tracer),
            Value::Pair(pair) => pair.trace_in_heap(tracer),
            _ => {
                    },
        }
    }
}

impl Default for Value {
    /// The empty list.
    fn default() -> (value: Self)
        ensures
            value is Nil,
    {
        Value::Nil
    }
}

impl From<PairObject> for Value {
    fn from(pair: PairObject) -> (value: Self) {
        Value::Pair(pair)
    }
}

impl vstd::std_specs::convert::FromSpecImpl<PairObject> for Value {
    open spec fn obeys_from_spec() -> bool {
        true
    }

    open spec fn from_spec(pair: PairObject) -> Self {
        Value::Pair(pair)
    }
}

/// A handle to a cons cell in the heap.
pub struct ConsObj(pub Gc);

/// A handle to a pair in the heap.
pub struct PairObject(pub Gc);

/// The car and the cdr of a pair.
pub struct PairInner {
    pub car: Value,
    pub cdr: Value,
}

impl Trace for PairInner {
    open spec fn handles(&self) -> Seq<usize> {
        self.car.handles() + self.cdr.handles()
    }

    open spec fn heap_handles(&self) -> Seq<usize> {
        self.car.heap_handles() + self.cdr.heap_handles()
    }

    fn trace(&self, tracer: &mut Tracer) {
        let ghost before = tracer@;
        self.car.trace(tracer);
        self.cdr.trace(tracer);
        proof {
            lemma_tracer_after_concat(before, self.car.handles(), self.cdr.handles());
        }
    }

    fn trace_in_heap(&self, tracer: &mut Tracer) {
        let ghost before = tracer@;
        self.car.trace_in_heap(tracer);
        self.cdr.trace_in_heap(tracer);
        proof {
            lemma_tracer_after_concat(before, self.car.heap_handles(), self.cdr.heap_handles());
        }
    }
}

impl Trace for PairObject {
    open spec fn handles(&self) -> Seq<usize> {
        self.0.handles()
    }

    open spec fn heap_handles(&self) -> Seq<usize> {
        self.0.heap_handles()
    }

    fn trace(&self, tracer: &mut Tracer) {
        self.0.trace(tracer);
    }

    fn trace_in_heap(&self, tracer: &mut Tracer) {
        self.0.trace_in_heap(tracer);
    }
}

/// What the heap holds: pairs and environments, each in a borrow cell.
pub enum Object {
    Pair(GcRefCell<PairInner>),
    Env(GcRefCell<Env>),
}

impl Trace for Object {
    open spec fn handles(&self) -> Seq<usize> {
        match self {
            Object::Pair(cell) => cell.handles(),
            Object::Env(cell) => cell.handles(),
        }
    }

    open spec fn heap_handles(&self) -> Seq<usize> {
        match self {
            Object::Pair(cell) => cell.heap_handles(),
            Object::Env(cell) => cell.heap_handles(),
        }
    }

    fn trace(&self, tracer: &mut Tracer) {
        match self {
            Object::Pair(cell) => cell.trace(tracer),
            Object::Env(cell) => cell.trace(tracer),
        }
    }

    fn trace_in_heap(&self, tracer: &mut Tracer) {
        match self {
            Object::Pair(cell) => cell.trace_in_heap(tracer),
            Object::Env(cell) => cell.trace_in_heap(tracer),
        }
    }
}

/// The model of the objects of a heap of [`Object`]s.
pub type Objects = Seq<Option<ObjView<Object>>>;

/// The car and cdr of the pair in slot `j`, if slot `j` holds a pair that
/// is not being written.
pub open spec fn pair_at(objs: Objects, j: int) -> Option<PairInner> {
    if live(objs, j) {
        match objs[j]->0.data {
            Object::Pair(cell) => if cell@.borrow >= 0 {
                Some(cell@.value)
            } else {
                None
            },
            Object::Env(_) => None,
        }
    } else {
        None
    }
}

/// A value seen as a tree: what a value stands for, following pairs
/// through the heap.
pub enum Datum {
    Nil,
    Int(i64),
    Sym(SymbolId),
    Env(usize),
    Pair(Box<Datum>, Box<Datum>),
}

/// `v` stands for the tree `d` in the heap `objs`.
pub open spec fn denotes(objs: Objects, v: Value, d: Datum) -> bool
    decreases d,
{
    match d {
        Datum::Nil => v is Nil,
        Datum::Int(n) => v == Value::Num(Number::Integer(n)),
        Datum::Sym(s) => v == Value::Sym(s),
        Datum::Env(slot) => v matches Value::Env(env) && env.id() == slot,
        Datum::Pair(a, b) => match v {
            Value::Pair(p) => match pair_at(objs, p.0.id() as int) {
                Some(inner) => denotes(objs, inner.car, *a) && denotes(objs, inner.cdr, *b),
                None => false,
            },
            _ => false,
        },
    }
}

/// Every pair that `v` passes through, standing for `d`, is in a slot of `s`.
pub open spec fn tree_in(objs: Objects, v: Value, d: Datum, s: Set<int>) -> bool
    decreases d,
{
    match d {
        Datum::Pair(a, b) => match v {
            Value::Pair(p) => s.contains(p.0.id() as int) && match pair_at(objs, p.0.id() as int) {
                Some(inner) => tree_in(objs, inner.car, *a, s) && tree_in(objs, inner.cdr, *b, s),
                None => false,
            },
            _ => false,
        },
        _ => true,
    }
}

/// The slots of the handles a value holds.
pub open spec fn value_slots(v: Value) -> Set<int> {
    match v {
        Value::Pair(p) => set![p.0.id() as int],
        Value::Env(env) => set![env.id() as int],
        _ => Set::empty(),
    }
}

/// What a value stands for depends only on the slots its pairs are in.
pub proof fn lemma_denotes_stable(o1: Objects, o2: Objects, v: Value, d: Datum, s: Set<int>)
    requires
        denotes(o1, v, d),
        tree_in(o1, v, d, s),
        forall|j: int| #[trigger] s.contains(j) ==> 0 <= j < o2.len() && o2[j] == o1[j],
    ensures
        denotes(o2, v, d),
        tree_in(o2, v, d, s),
    decreases d,
{
    match d {
        Datum::Pair(a, b) => {
            match v {
                Value::Pair(p) => {
                    let inner = pair_at(o1, p.0.id() as int)->0;
                    assert(s.contains(p.0.id() as int));
                    lemma_denotes_stable(o1, o2, inner.car, *a, s);
                    lemma_denotes_stable(o1, o2, inner.cdr, *b, s);
                },
                _ => {},
            }
        },
        _ => {},
    }
}

/// A tree within `s` is within any larger set.
pub proof fn lemma_tree_in_grow(objs: Objects, v: Value, d: Datum, s: Set<int>, s2: Set<int>)
    requires
        tree_in(objs, v, d, s),
        s.subset_of(s2),
    ensures
        tree_in(objs, v, d, s2),
    decreases d,
{
    match d {
        Datum::Pair(a, b) => {
            match v {
                Value::Pair(p) => {
                    let inner = pair_at(objs, p.0.id() as int)->0;
                    lemma_tree_in_grow(objs, inner.car, *a, s, s2);
                    lemma_tree_in_grow(objs, inner.cdr, *b, s, s2);
                },
                _ => {},
            }
        },
        _ => {},
    }
}

/// Slot `j` holds, with `strong` handles, a pair that is not borrowed and
/// holds `car` and `cdr`.
pub open spec fn is_pair_object(o: Option<ObjView<Object>>, strong: nat, car: Value, cdr: Value) -> bool {
    &&& o is Some
    &&& o->0.strong == strong
    &&& o->0.data matches Object::Pair(cell) && cell@ == (CellView {
        borrow: 0,
        value: PairInner { car, cdr },
    })
}

/// `new` is `old` after allocating, in slot `slot`, a pair with one handle
/// holding `car` and `cdr`; the heap may have been collected first.
pub open spec fn pair_allocated(
    old: HeapView<Object>,
    new: HeapView<Object>,
    slot: int,
    car: Value,
    cdr: Value,
) -> bool {
    exists|mid: HeapView<Object>|
        {
            &&& #[trigger] prepared_for_alloc(old, mid)
            &&& slot == mid.objects.len()
            &&& new.objects.len() == slot + 1
            &&& new.objects.take(slot) == mid.objects
            &&& is_pair_object(new.objects[slot], 1, car, cdr)
            &&& new.allocated_bytes == mid.allocated_bytes + vstd::layout::size_of::<
                GcBox<Object>,
            >()
            &&& new.allocated_objects == mid.allocated_objects + 1
            &&& new.threshold == mid.threshold
        }
}

/// The slot of the handle a value holds, if it holds one.
pub open spec fn handle_of(v: Value) -> Option<int> {
    match v {
        Value::Pair(p) => Some(p.0.id() as int),
        Value::Env(env) => Some(env.id() as int),
        _ => None,
    }
}

/// The objects with the strong count of slot `s` set to `strong`.
pub open spec fn with_strong(objs: Objects, s: int, strong: nat) -> Objects {
    objs.update(s, Some(ObjView { strong, data: objs[s]->0.data }))
}

/// One more handle to what `v` holds, if it holds one.
pub open spec fn cloned_handle(objs: Objects, v: Value) -> Objects {
    match handle_of(v) {
        Some(s) => with_strong(objs, s, objs[s]->0.strong + 1),
        None => objs,
    }
}

/// One handle less to what `v` holds, if it holds one.
pub open spec fn released_handle(objs: Objects, v: Value) -> Objects {
    match handle_of(v) {
        Some(s) => with_strong(objs, s, (objs[s]->0.strong - 1) as nat),
        None => objs,
    }
}

/// The handle `v` holds, if any, names a live object whose count can grow.
pub open spec fn handle_clonable(objs: Objects, v: Value) -> bool {
    match handle_of(v) {
        Some(s) => live(objs, s) && objs[s]->0.strong + 1 < MAX_COUNT,
        None => true,
    }
}

/// The handle `v` holds, if any, names a live object with a handle.
pub open spec fn handle_releasable(objs: Objects, v: Value) -> bool {
    match handle_of(v) {
        Some(s) => live(objs, s) && objs[s]->0.strong > 0,
        None => true,
    }
}

/// The car (`first`) or the cdr of the pair in slot `j`.
pub open spec fn field_of(objs: Objects, j: int, first: bool) -> Value {
    if first {
        pair_at(objs, j)->0.car
    } else {
        pair_at(objs, j)->0.cdr
    }
}

/// Slot `j` holds a pair that is not borrowed.
pub open spec fn pair_unborrowed(objs: Objects, j: int) -> bool {
    &&& live(objs, j)
    &&& objs[j]->0.data matches Object::Pair(cell) && cell@.borrow == 0
}

/// The objects after writing `value` into the car (`first`) or the cdr of
/// the pair in slot `j`: the cell holds the new pair, its count unchanged.
pub open spec fn field_written(objs: Objects, mid: Objects, j: int, value: Value, first: bool) -> bool {
    let inner = pair_at(objs, j)->0;
    &&& mid.len() == objs.len()
    &&& forall|i: int| 0 <= i < objs.len() && i != j ==> #[trigger] mid[i] == objs[i]
    &&& if first {
        is_pair_object(mid[j], objs[j]->0.strong, value, inner.cdr)
    } else {
        is_pair_object(mid[j], objs[j]->0.strong, inner.car, value)
    }
}

/// The same value: a copy whose handle, if any, is not counted.
fn same_value(v: &Value) -> (copy: Value)
    ensures
        copy == *v,
{
    match v {
        Value::Nil => Value::Nil,
        Value::Num(n) => Value::Num(*n),
        Value::Sym(s) => Value::Sym(*s),
        Value::Env(env) => Value::Env(env.duplicate()),
        Value::Pair(p) => Value::Pair(PairObject(p.0.duplicate())),
    }
}

/// A copy of `value`, counting one more handle to what it holds.
pub fn clone_value(value: &Value, heap: &mut GcHeap<Object>) -> (copy: Value)
    requires
        old(heap).wf(),
        handle_clonable(old(heap)@.objects, *value),
    ensures
        final(heap).wf(),
        copy == *value,
        final(heap)@.objects == cloned_handle(old(heap)@.objects, *value),
        final(heap)@.allocated_bytes == old(heap)@.allocated_bytes,
        final(heap)@.allocated_objects == old(heap)@.allocated_objects,
        final(heap)@.threshold == old(heap)@.threshold,
{
    match value {
        Value::Env(env) => Value::Env(heap.clone_gc(env)),
        Value::Pair(p) => Value::Pair(PairObject(heap.clone_gc(&p.0))),
        _ => same_value(value),
    }
}

/// Give up `value`, and the handle it holds, if any.
pub fn drop_value(value: Value, heap: &mut GcHeap<Object>)
    requires
        old(heap).wf(),
        handle_releasable(old(heap)@.objects, value),
    ensures
        final(heap).wf(),
        final(heap)@.objects == released_handle(old(heap)@.objects, value),
        final(heap)@.allocated_bytes == old(heap)@.allocated_bytes,
        final(heap)@.allocated_objects == old(heap)@.allocated_objects,
        final(heap)@.threshold == old(heap)@.threshold,
{
    match value {
        Value::Env(env) => heap.drop_gc(env),
        Value::Pair(p) => heap.drop_gc(p.0),
        _ => {},
    }
}

impl PairObject {
    /// The slot of the pair.
    pub open spec fn slot(&self) -> int {
        self.0.id() as int
    }

    /// Allocate a pair of `car` and `cdr` in `heap`.
    pub fn allocate(heap: &mut GcHeap<Object>, car: Value, cdr: Value) -> (pair: Self)
        requires
            old(heap).wf(),
            old(heap)@.objects.len() < usize::MAX,
            old(heap)@.allocated_bytes + vstd::layout::size_of::<GcBox<Object>>() <= usize::MAX / 2,
        ensures
            final(heap).wf(),
            pair_allocated(old(heap)@, final(heap)@, pair.slot(), car, cdr),
            final(heap)@.allocated_bytes <= old(heap)@.allocated_bytes + vstd::layout::size_of::<
                GcBox<Object>,
            >(),
    {
        let cell = GcRefCell::new(PairInner { car, cdr });
        let gc = heap.allocate(Object::Pair(cell));
        proof {
            let mid = choose|mid: HeapView<Object>|
                {
                    &&& #[trigger] prepared_for_alloc(old(heap)@, mid)
                    &&& gc.id() == mid.objects.len()
                    &&& heap@ == HeapView {
                        objects: mid.objects.push(
                            Some(ObjView { strong: 1, data: Object::Pair(cell) }),
                        ),
                        allocated_bytes: mid.allocated_bytes + vstd::layout::size_of::<
                            GcBox<Object>,
                        >(),
                        allocated_objects: mid.allocated_objects + 1,
                        threshold: mid.threshold,
                    }
                };
            assert(heap@.objects.take(gc.id() as int) =~= mid.objects);
        }
        PairObject(gc)
    }
}


impl PairObject {
    /// The car (`first`) or the cdr of the pair, without counting a handle.
    fn field(&self, heap: &GcHeap<Object>, first: bool) -> (value: Value)
        requires
            heap.wf(),
            pair_at(heap@.objects, self.slot()) is Some,
        ensures
            value == field_of(heap@.objects, self.slot(), first),
    {
        match heap.get(&self.0) {
            Object::Pair(cell) => {
                let inner = cell.peek();
                if first {
                    same_value(&inner.car)
                } else {
                    same_value(&inner.cdr)
                }
            },
            Object::Env(_) => Value::Nil,
        }
    }

    /// The car of the pair, as one more handle to what it holds.
    pub fn car(&self, heap: &mut GcHeap<Object>) -> (car: Value)
        requires
            old(heap).wf(),
            pair_at(old(heap)@.objects, self.slot()) is Some,
            handle_clonable(old(heap)@.objects, pair_at(old(heap)@.objects, self.slot())->0.car),
        ensures
            final(heap).wf(),
            car == pair_at(old(heap)@.objects, self.slot())->0.car,
            final(heap)@.objects == cloned_handle(old(heap)@.objects, car),
            final(heap)@.allocated_bytes == old(heap)@.allocated_bytes,
            final(heap)@.allocated_objects == old(heap)@.allocated_objects,
            final(heap)@.threshold == old(heap)@.threshold,
    {
        let value = self.field(heap, true);
        clone_value(&value, heap)
    }

    /// The cdr of the pair, as one more handle to what it holds.
    pub fn cdr(&self, heap: &mut GcHeap<Object>) -> (cdr: Value)
        requires
            old(heap).wf(),
            pair_at(old(heap)@.objects, self.slot()) is Some,
            handle_clonable(old(heap)@.objects, pair_at(old(heap)@.objects, self.slot())->0.cdr),
        ensures
            final(heap).wf(),
            cdr == pair_at(old(heap)@.objects, self.slot())->0.cdr,
            final(heap)@.objects == cloned_handle(old(heap)@.objects, cdr),
            final(heap)@.allocated_bytes == old(heap)@.allocated_bytes,
            final(heap)@.allocated_objects == old(heap)@.allocated_objects,
            final(heap)@.threshold == old(heap)@.threshold,
    {
        let value = self.field(heap, false);
        clone_value(&value, heap)
    }

    /// Write `value` into the car (`first`) or the cdr of the pair, under an
    /// exclusive borrow of its cell, and give up the value it held.
    fn set_field(&self, heap: &mut GcHeap<Object>, value: Value, first: bool)
        requires
            old(heap).wf(),
            pair_unborrowed(old(heap)@.objects, self.slot()),
            handle_releasable(old(heap)@.objects, field_of(old(heap)@.objects, self.slot(), first)),
        ensures
            final(heap).wf(),
            exists|mid: Objects|
                {
                    &&& field_written(old(heap)@.objects, mid, self.slot(), value, first)
                    &&& final(heap)@.objects == #[trigger] released_handle(
                        mid,
                        field_of(old(heap)@.objects, self.slot(), first),
                    )
                },
            final(heap)@.allocated_bytes == old(heap)@.allocated_bytes,
            final(heap)@.allocated_objects == old(heap)@.allocated_objects,
            final(heap)@.threshold == old(heap)@.threshold,
    {
        let ghost objs = heap@.objects;
        let ghost j = self.slot();
        let mut held = value;
        let data = heap.get_mut(&self.0);
        match data {
            Object::Pair(cell) => {
                proof {
                    cell.lemma_wf_view();
                }
                let guard = cell.borrow_mut();
                let inner = cell.get_mut(&guard);
                if first {
                    core::mem::swap(&mut inner.car, &mut held);
                } else {
                    core::mem::swap(&mut inner.cdr, &mut held);
                }
                cell.release_mut(guard);
            },
            Object::Env(_) => {},
        }
        let ghost mid = heap@.objects;
        proof {
            assert(field_written(objs, mid, j, value, first));
        }
        drop_value(held, heap);
    }

    /// Replace the car of the pair by `value`, giving up the old car.
    pub fn set_car(&self, heap: &mut GcHeap<Object>, value: Value)
        requires
            old(heap).wf(),
            pair_unborrowed(old(heap)@.objects, self.slot()),
            handle_releasable(old(heap)@.objects, pair_at(old(heap)@.objects, self.slot())->0.car),
        ensures
            final(heap).wf(),
            exists|mid: Objects|
                {
                    &&& field_written(old(heap)@.objects, mid, self.slot(), value, true)
                    &&& final(heap)@.objects == #[trigger] released_handle(
                        mid,
                        pair_at(old(heap)@.objects, self.slot())->0.car,
                    )
                },
            final(heap)@.allocated_bytes == old(heap)@.allocated_bytes,
            final(heap)@.allocated_objects == old(heap)@.allocated_objects,
            final(heap)@.threshold == old(heap)@.threshold,
    {
        self.set_field(heap, value, true);
    }

    /// Replace the cdr of the pair by `value`, giving up the old cdr.
    pub fn set_cdr(&self, heap: &mut GcHeap<Object>, value: Value)
        requires
            old(heap).wf(),
            pair_unborrowed(old(heap)@.objects, self.slot()),
            handle_releasable(old(heap)@.objects, pair_at(old(heap)@.objects, self.slot())->0.cdr),
        ensures
            final(heap).wf(),
            exists|mid: Objects|
                {
                    &&& field_written(old(heap)@.objects, mid, self.slot(), value, false)
                    &&& final(heap)@.objects == #[trigger] released_handle(
                        mid,
                        pair_at(old(heap)@.objects, self.slot())->0.cdr,
                    )
                },
            final(heap)@.allocated_bytes == old(heap)@.allocated_bytes,
            final(heap)@.allocated_objects == old(heap)@.allocated_objects,
            final(heap)@.threshold == old(heap)@.threshold,
    {
        self.set_field(heap, value, false);
    }

    /// Another handle to the pair.
    pub fn clone(&self, heap: &mut GcHeap<Object>) -> (copy: Self)
        requires
            old(heap).wf(),
            live(old(heap)@.objects, self.slot()),
            old(heap)@.objects[self.slot()]->0.strong + 1 < MAX_COUNT,
        ensures
            final(heap).wf(),
            copy == *self,
            final(heap)@.objects == with_strong(
                old(heap)@.objects,
                self.slot(),
                old(heap)@.objects[self.slot()]->0.strong + 1,
            ),
            final(heap)@.allocated_bytes == old(heap)@.allocated_bytes,
            final(heap)@.allocated_objects == old(heap)@.allocated_objects,
            final(heap)@.threshold == old(heap)@.threshold,
    {
        PairObject(heap.clone_gc(&self.0))
    }
}

} // verus!
