//! Global storage.

use vstd::prelude::*;

use crate::gc::heap::{handles_bounded, live, HeapView};
use crate::gc::{Gc, GcHeap, GcRefCell, Trace};
use crate::object::{Env, Object};
use crate::symbol::SymbolTable;

verus! {

/// The interned symbols, the garbage-collected heap and the global
/// environment.
pub struct Store {
    pub(crate) symbols: SymbolTable,
    pub(crate) heap: GcHeap<Object>,
    pub(crate) env: Gc,
}

impl Store {
    /// The symbol table and the heap are well formed, and every handle that
    /// a heap object reports names a slot of the heap.
    pub closed spec fn wf(&self) -> bool {
        &&& self.symbols.wf()
        &&& self.heap.wf()
        &&& handles_bounded(self.heap@.objects)
    }

    /// The model of the heap.
    pub closed spec fn heap_view(&self) -> HeapView<Object> {
        self.heap@
    }

    /// The slot of the global environment.
    pub closed spec fn env_slot(&self) -> int {
        self.env.id() as int
    }

    /// The parts of a well-formed store.
    pub(crate) proof fn lemma_parts(&self)
        requires
            self.wf(),
        ensures
            self.symbols.wf(),
            self.heap.wf(),
            handles_bounded(self.heap@.objects),
            self.heap_view() == self.heap@,
    {
    }

    /// A store whose parts are well formed is well formed.
    pub(crate) proof fn lemma_wf_intro(&self)
        requires
            self.symbols.wf(),
            self.heap.wf(),
            handles_bounded(self.heap@.objects),
        ensures
            self.wf(),
            self.heap_view() == self.heap@,
    {
    }

    /// A store with no symbols and a heap that holds only the global
    /// environment.
    pub fn new() -> (store: Self)
        ensures
            store.wf(),
            store.heap_view().objects.len() == 1,
            live(store.heap_view().objects, 0),
            store.heap_view().objects[0]->0.strong == 1,
            store.heap_view().objects[0]->0.data is Env,
            store.env_slot() == 0,
            store.heap_view().allocated_objects == 1,
    {
        let symbols = SymbolTable::new();
        let mut heap: GcHeap<Object> = GcHeap::new();
        vstd::layout::layout_for_type_is_valid::<crate::gc::GcBox<Object>>();
        let env = heap.allocate(Object::Env(GcRefCell::new(Env::new())));
        proof {
            assert forall|i: int, k: int| live(heap@.objects, i) implies (0 <= k
                < heap@.objects[i]->0.data.handles().len() ==> #[trigger] heap@.objects[i]->0.data.handles()[k]
                < heap@.objects.len()) && (0 <= k < heap@.objects[i]->0.data.heap_handles().len()
                ==> #[trigger] heap@.objects[i]->0.data.heap_handles()[k] < heap@.objects.len()) by {
                assert(heap@.objects[i]->0.data.handles() =~= Seq::<usize>::empty());
            }
        }
        Store { symbols, heap, env }
    }

    /// The heap.
    pub fn heap(&self) -> (heap: &GcHeap<Object>)
        ensures
            heap@ == self.heap_view(),
            self.wf() ==> heap.wf(),
    {
        &self.heap
    }
}

} // verus!
