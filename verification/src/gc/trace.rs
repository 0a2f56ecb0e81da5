//! Reporting the references held by heap objects.

use std::collections::{HashSet, VecDeque};

use vstd::prelude::*;

use crate::gc::refcell::{BorrowState, GcRefCell};

verus! {

/// A handle to an object in a [`GcHeap`](crate::gc::GcHeap): the index of its slot.
pub struct Gc {
    pub(crate) index: usize,
}

impl Gc {
    /// The slot this handle refers to.
    pub closed spec fn id(&self) -> usize {
        self.index
    }

    /// The handle of slot `index`.
    pub(crate) fn from_slot(index: usize) -> (gc: Gc)
        ensures
            gc.id() == index,
    {
        Gc { index }
    }

    /// Another copy of this handle, for a handle whose count is taken
    /// care of by the caller.
    pub(crate) fn duplicate(&self) -> (copy: Gc)
        ensures
            copy == *self,
    {
        Gc { index: self.index }
    }

    /// The slot this handle refers to.
    pub(crate) fn slot(&self) -> (index: usize)
        ensures
            index == self.id(),
    {
        self.index
    }
}

/// What a tracer holds: the slots waiting to be visited, in order; the slots
/// it has seen; and every slot reported to it, in order, repeats included.
pub struct TracerView {
    pub queue: Seq<usize>,
    pub seen: Set<usize>,
    pub reported: Seq<usize>,
}

/// The tracer that has seen nothing.
pub open spec fn empty_tracer() -> TracerView {
    TracerView { queue: Seq::empty(), seen: Set::empty(), reported: Seq::empty() }
}

/// Reporting one slot: a slot not seen before joins the back of the queue; a
/// slot seen before leaves the queue as it is. Either way it is seen
/// afterwards and it is logged.
pub open spec fn enqueue_spec(t: TracerView, slot: usize) -> TracerView {
    TracerView {
        queue: if t.seen.contains(slot) {
            t.queue
        } else {
            t.queue.push(slot)
        },
        seen: t.seen.insert(slot),
        reported: t.reported.push(slot),
    }
}

/// Reporting the slots `slots`, one after the other.
pub open spec fn tracer_after(t: TracerView, slots: Seq<usize>) -> TracerView
    decreases slots.len(),
{
    if slots.len() == 0 {
        t
    } else {
        tracer_after(enqueue_spec(t, slots[0]), slots.drop_first())
    }
}

/// A tracer's queue holds no slot twice, and only slots it has seen.
pub open spec fn tracer_wf(t: TracerView) -> bool {
    &&& t.queue.no_duplicates()
    &&& forall|i: int| 0 <= i < t.queue.len() ==> t.seen.contains(#[trigger] t.queue[i])
}

/// Reporting `a` and then `b` is reporting `a + b`.
pub proof fn lemma_tracer_after_concat(t: TracerView, a: Seq<usize>, b: Seq<usize>)
    ensures
        tracer_after(tracer_after(t, a), b) == tracer_after(t, a + b),
    decreases a.len(),
{
    if a.len() == 0 {
        assert(a + b =~= b);
    } else {
        assert((a + b).drop_first() =~= a.drop_first() + b);
        assert((a + b)[0] == a[0]);
        lemma_tracer_after_concat(enqueue_spec(t, a[0]), a.drop_first(), b);
    }
}

/// Every reported slot is logged, in order, and seen.
pub proof fn lemma_tracer_after_reported(t: TracerView, slots: Seq<usize>)
    ensures
        tracer_after(t, slots).reported == t.reported + slots,
        forall|i: int| 0 <= i < slots.len() ==> tracer_after(t, slots).seen.contains(#[trigger] slots[i]),
        t.seen.subset_of(tracer_after(t, slots).seen),
    decreases slots.len(),
{
    if slots.len() == 0 {
        assert(t.reported + slots =~= t.reported);
    } else {
        let t1 = enqueue_spec(t, slots[0]);
        lemma_tracer_after_reported(t1, slots.drop_first());
        assert(t1.reported + slots.drop_first() =~= t.reported + slots);
        assert forall|i: int| 0 <= i < slots.len() implies tracer_after(t, slots).seen.contains(
            #[trigger] slots[i],
        ) by {
            if i > 0 {
                assert(slots[i] == slots.drop_first()[i - 1]);
            }
        }
    }
}

/// Reporting a slot keeps a tracer well formed: no slot is queued twice.
pub proof fn lemma_enqueue_keeps_wf(t: TracerView, slot: usize)
    requires
        tracer_wf(t),
    ensures
        tracer_wf(enqueue_spec(t, slot)),
{
    let t1 = enqueue_spec(t, slot);
    assert forall|i: int, j: int| 0 <= i < j < t1.queue.len() implies t1.queue[i] != t1.queue[j] by {
        if !t.seen.contains(slot) && j == t.queue.len() {
            assert(t.seen.contains(t.queue[i]));
        }
    }
}

/// A slot the tracer has seen is not queued again: each slot is visited at
/// most once per trace, however often it is reported.
pub proof fn lemma_seen_not_queued_again(t: TracerView, slot: usize)
    requires
        t.seen.contains(slot),
    ensures
        enqueue_spec(t, slot).queue == t.queue,
        enqueue_spec(t, slot).seen == t.seen,
{
    assert(t.seen.insert(slot) =~= t.seen);
}

/// Reporting any slots keeps a tracer well formed.
pub proof fn lemma_tracer_after_keeps_wf(t: TracerView, slots: Seq<usize>)
    requires
        tracer_wf(t),
    ensures
        tracer_wf(tracer_after(t, slots)),
    decreases slots.len(),
{
    if slots.len() > 0 {
        lemma_enqueue_keeps_wf(t, slots[0]);
        lemma_tracer_after_keeps_wf(enqueue_spec(t, slots[0]), slots.drop_first());
    }
}

/// Collects the handles that an object reports while it is traced: a queue
/// of slots to visit, in which each slot stands at most once, and the set of
/// slots seen, so that a slot reported again is not queued again.
pub struct Tracer {
    queue: VecDeque<usize>,
    seen: HashSet<usize>,
    reported: Vec<usize>,
}

impl View for Tracer {
    type V = TracerView;

    closed spec fn view(&self) -> TracerView {
        TracerView { queue: self.queue@, seen: self.seen@, reported: self.reported@ }
    }
}

impl Tracer {
    /// A tracer that has seen nothing.
    pub fn new() -> (tracer: Self)
        ensures
            tracer@ == empty_tracer(),
            tracer_wf(tracer@),
    {
        Tracer { queue: VecDeque::new(), seen: HashSet::new(), reported: Vec::new() }
    }

    /// Report a handle held by the object being traced (see [`enqueue_spec`]).
    pub fn enqueue(&mut self, gc: &Gc)
        ensures
            final(self)@ == enqueue_spec(old(self)@, gc.id()),
    {
        broadcast use vstd::std_specs::hash::group_hash_axioms;

        let slot = gc.index;
        if self.seen.insert(slot) {
            self.queue.push_back(slot);
        }
        self.reported.push(slot);
    }

    /// The slot at the front of the queue, taken off it; `None` when the
    /// queue is empty. The seen set is kept, so the slot is not queued again.
    pub fn try_dequeue(&mut self) -> (slot: Option<usize>)
        ensures
            match slot {
                Some(s) => old(self)@.queue.len() > 0 && s == old(self)@.queue[0]
                    && final(self)@ == (TracerView {
                    queue: old(self)@.queue.drop_first(),
                    ..old(self)@
                }),
                None => old(self)@.queue.len() == 0 && final(self)@ == old(self)@,
            },
    {
        let slot = self.queue.pop_front();
        proof {
            if slot is Some {
                assert(old(self)@.queue.drop_first() =~= old(self)@.queue.subrange(
                    1,
                    old(self)@.queue.len() as int,
                ));
            }
        }
        slot
    }

    /// Forget everything: the tracer is as new.
    pub fn clear(&mut self)
        ensures
            final(self)@ == empty_tracer(),
    {
        self.seen.clear();
        self.queue.clear();
        self.reported.clear();
    }

    /// Every slot reported, in order, repeats included.
    pub fn into_edges(self) -> (edges: Vec<usize>)
        ensures
            edges@ == self@.reported,
    {
        self.reported
    }
}

/// Objects stored in a [`GcHeap`](crate::gc::GcHeap) report the handles they hold.
///
/// `trace` reports every handle the object owns, as [`Trace::handles`] lists
/// them; `trace_in_heap` reports the handles that count as references from
/// inside the heap, as [`Trace::heap_handles`] lists them. A type that holds
/// no handle keeps the default of both lists: nothing.
///
/// The heap's guarantees rest on these two lists. A type whose impl is
/// written outside verified code cannot give them, so it keeps the empty
/// default: for such a type nothing ties what `trace` reports to what
/// `collect` is proved to keep.
pub trait Trace {
    /// The slots of the handles the value owns, in the order they are reported.
    open spec fn handles(&self) -> Seq<usize> {
        Seq::empty()
    }

    /// The slots of the handles that count as held by the heap.
    open spec fn heap_handles(&self) -> Seq<usize> {
        Seq::empty()
    }

    fn trace(&self, tracer: &mut Tracer)
        ensures
            final(tracer)@ == tracer_after(old(tracer)@, self.handles()),
    ;

    fn trace_in_heap(&self, tracer: &mut Tracer)
        ensures
            final(tracer)@ == tracer_after(old(tracer)@, self.heap_handles()),
    ;
}

impl Trace for Gc {
    open spec fn handles(&self) -> Seq<usize> {
        seq![self.id()]
    }

    open spec fn heap_handles(&self) -> Seq<usize> {
        seq![self.id()]
    }

    fn trace(&self, tracer: &mut Tracer) {
        let ghost before = tracer@;
        tracer.enqueue(self);
        proof {
            let slots = seq![self.id()];
            assert(slots.drop_first() =~= Seq::<usize>::empty());
            assert(tracer_after(before, slots) == tracer_after(
                enqueue_spec(before, self.id()),
                slots.drop_first(),
            ));
        }
    }

    fn trace_in_heap(&self, tracer: &mut Tracer) {
        let ghost before = tracer@;
        tracer.enqueue(self);
        proof {
            let slots = seq![self.id()];
            assert(slots.drop_first() =~= Seq::<usize>::empty());
            assert(tracer_after(before, slots) == tracer_after(
                enqueue_spec(before, self.id()),
                slots.drop_first(),
            ));
        }
    }
}

impl<T: Trace> Trace for Option<T> {
    open spec fn handles(&self) -> Seq<usize> {
        match self {
            Some(value) => value.handles(),
            None => Seq::empty(),
        }
    }

    open spec fn heap_handles(&self) -> Seq<usize> {
        match self {
            Some(value) => value.heap_handles(),
            None => Seq::empty(),
        }
    }

    fn trace(&self, tracer: &mut Tracer) {
        match self {
            Some(value) => value.trace(tracer),
            None => {
            },
        }
    }

    fn trace_in_heap(&self, tracer: &mut Tracer) {
        match self {
            Some(value) => value.trace_in_heap(tracer),
            None => {
            },
        }
    }
}

impl<T: Trace> Trace for GcRefCell<T> {
    open spec fn handles(&self) -> Seq<usize> {
        self@.value.handles()
    }

    /// The contents of a cell that is being written are not traced: the
    /// handles they hold are then not counted as held by the heap, so their
    /// targets are treated as roots for this collection.
    open spec fn heap_handles(&self) -> Seq<usize> {
        if self@.borrow < 0 {
            Seq::empty()
        } else {
            self@.value.heap_handles()
        }
    }

    fn trace(&self, tracer: &mut Tracer) {
        self.peek().trace(tracer);
    }

    fn trace_in_heap(&self, tracer: &mut Tracer) {
        if self.state() != BorrowState::Writing {
            self.peek().trace_in_heap(tracer);
        } else {
        }
    }
}

impl Trace for () {
    fn trace(&self, tracer: &mut Tracer) {
    }

    fn trace_in_heap(&self, tracer: &mut Tracer) {
    }
}

impl Trace for bool {
    fn trace(&self, tracer: &mut Tracer) {
    }

    fn trace_in_heap(&self, tracer: &mut Tracer) {
    }
}

impl Trace for i8 {
    fn trace(&self, tracer: &mut Tracer) {
    }

    fn trace_in_heap(&self, tracer: &mut Tracer) {
    }
}

impl Trace for i16 {
    fn trace(&self, tracer: &mut Tracer) {
    }

    fn trace_in_heap(&self, tracer: &mut Tracer) {
    }
}

impl Trace for i32 {
    fn trace(&self, tracer: &mut Tracer) {
    }

    fn trace_in_heap(&self, tracer: &mut Tracer) {
    }
}

impl Trace for i64 {
    fn trace(&self, tracer: &mut Tracer) {
    }

    fn trace_in_heap(&self, tracer: &mut Tracer) {
    }
}

impl Trace for isize {
    fn trace(&self, tracer: &mut Tracer) {
    }

    fn trace_in_heap(&self, tracer: &mut Tracer) {
    }
}

impl Trace for u8 {
    fn trace(&self, tracer: &mut Tracer) {
    }

    fn trace_in_heap(&self, tracer: &mut Tracer) {
    }
}

impl Trace for u16 {
    fn trace(&self, tracer: &mut Tracer) {
    }

    fn trace_in_heap(&self, tracer: &mut Tracer) {
    }
}

impl Trace for u32 {
    fn trace(&self, tracer: &mut Tracer) {
    }

    fn trace_in_heap(&self, tracer: &mut Tracer) {
    }
}

impl Trace for u64 {
    fn trace(&self, tracer: &mut Tracer) {
    }

    fn trace_in_heap(&self, tracer: &mut Tracer) {
    }
}

impl Trace for u128 {
    fn trace(&self, tracer: &mut Tracer) {
    }

    fn trace_in_heap(&self, tracer: &mut Tracer) {
    }
}

impl Trace for usize {
    fn trace(&self, tracer: &mut Tracer) {
    }

    fn trace_in_heap(&self, tracer: &mut Tracer) {
    }
}

impl<'a> Trace for &'a str {
    fn trace(&self, tracer: &mut Tracer) {
    }

    fn trace_in_heap(&self, tracer: &mut Tracer) {
    }
}

} // verus!
