//! A mark-and-sweep heap of reference-counted objects.
//!
//! Every object carries a strong count: the number of handles to it, held
//! outside the heap or inside other objects. A collection counts, for each
//! object, the handles that the other live objects report holding. An object
//! with more handles than the heap accounts for is a *root*. The objects
//! reachable from the roots along the reported handles survive; all others
//! are freed, and the handles that freed objects held are given up.

use vstd::prelude::*;

use crate::gc::header::{GcHeader, HeaderView, MAX_COUNT};
use crate::gc::trace::{empty_tracer, lemma_tracer_after_reported, Gc, Trace, Tracer};

verus! {

/// The threshold below which the collection threshold never shrinks, in bytes.
pub const MIN_HEAP_SIZE: usize = 1073741824usize;

/// Statistics about the garbage collector's heap.
#[derive(Debug, Clone, Default)]
pub struct GcStats {
    /// The total number of bytes currently allocated in the heap.
    pub allocated_bytes: usize,
    /// The total number of objects currently allocated in the heap.
    pub allocated_objects: usize,
    /// The threshold in bytes at which the garbage collector will be triggered.
    pub threshhold_bytes: usize,
}

/// A heap object: its header and its payload.
pub struct GcBox<T> {
    header: GcHeader,
    data: T,
}

impl<T> GcBox<T> {
    /// The header of the box.
    pub closed spec fn header_view(&self) -> HeaderView {
        self.header@
    }

    /// The payload of the box.
    pub closed spec fn data_view(&self) -> T {
        self.data
    }

    /// The header of the box.
    pub fn header(&self) -> (header: &GcHeader)
        ensures
            header@ == self.header_view(),
    {
        &self.header
    }

    /// The payload of a box that has not been dropped.
    pub fn as_ref(&self) -> (data: &T)
        requires
            !self.header_view().dropped(),
        ensures
            *data == self.data_view(),
    {
        &self.data
    }
}

/// The model of a live object: its strong count and its payload.
pub struct ObjView<T> {
    pub strong: nat,
    pub data: T,
}

/// The model of a heap: one entry per slot, `None` for a freed slot.
pub struct HeapView<T> {
    pub objects: Seq<Option<ObjView<T>>>,
    pub allocated_bytes: nat,
    pub allocated_objects: nat,
    pub threshold: nat,
}

/// A heap of objects of type `T`, addressed by [`Gc`] handles.
pub struct GcHeap<T> {
    stats: GcStats,
    slots: Vec<Option<GcBox<T>>>,
}

// ------------------------------------------------------------------------
// The model of a collection
// ------------------------------------------------------------------------

/// Slot `i` holds a live object.
pub open spec fn live<T>(objs: Seq<Option<ObjView<T>>>, i: int) -> bool {
    0 <= i < objs.len() && objs[i] is Some
}

/// The strong count of the object in slot `i`.
pub open spec fn strong_of<T>(objs: Seq<Option<ObjView<T>>>, i: int) -> nat {
    objs[i]->0.strong
}

/// Number of live objects among the first `n` slots.
pub open spec fn live_count<T>(objs: Seq<Option<ObjView<T>>>, n: int) -> nat
    decreases n,
{
    if n <= 0 {
        0
    } else {
        live_count(objs, n - 1) + if live(objs, n - 1) {
            1nat
        } else {
            0nat
        }
    }
}

/// Number of occurrences of `j` in `s`.
pub open spec fn count_occ(s: Seq<usize>, j: int) -> nat
    decreases s.len(),
{
    if s.len() == 0 {
        0
    } else {
        count_occ(s.drop_last(), j) + if s.last() == j {
            1nat
        } else {
            0nat
        }
    }
}

/// Handles to `j` that the live objects among the first `n` slots report
/// as held inside the heap (`th[i]` is the report of slot `i`).
pub open spec fn in_heap_refs<T>(
    objs: Seq<Option<ObjView<T>>>,
    th: Seq<Vec<usize>>,
    j: int,
    n: int,
) -> nat
    decreases n,
{
    if n <= 0 {
        0
    } else {
        in_heap_refs(objs, th, j, n - 1) + if live(objs, n - 1) {
            count_occ(th[n - 1]@, j)
        } else {
            0nat
        }
    }
}

/// A live object with more handles than the heap holds.
pub open spec fn is_root<T>(objs: Seq<Option<ObjView<T>>>, th: Seq<Vec<usize>>, j: int) -> bool {
    live(objs, j) && in_heap_refs(objs, th, j, objs.len() as int) < strong_of(objs, j)
}

/// The live object in slot `i` reports holding a handle to the live object in slot `j`.
pub open spec fn edge<T>(objs: Seq<Option<ObjView<T>>>, tr: Seq<Vec<usize>>, i: int, j: int) -> bool {
    live(objs, i) && live(objs, j) && tr[i]@.contains(j as usize)
}

/// `p` is a path that starts at a root and follows reported handles.
pub open spec fn is_path<T>(
    objs: Seq<Option<ObjView<T>>>,
    tr: Seq<Vec<usize>>,
    th: Seq<Vec<usize>>,
    p: Seq<int>,
) -> bool {
    &&& p.len() > 0
    &&& is_root(objs, th, p[0])
    &&& forall|k: int| 0 <= k < p.len() - 1 ==> #[trigger] edge(objs, tr, p[k], p[k + 1])
}

/// Slot `j` can be reached from a root.
pub open spec fn reachable<T>(
    objs: Seq<Option<ObjView<T>>>,
    tr: Seq<Vec<usize>>,
    th: Seq<Vec<usize>>,
    j: int,
) -> bool {
    exists|p: Seq<int>| #[trigger] is_path(objs, tr, th, p) && p.last() == j
}

/// Handles to `j` held by the objects among the first `n` slots that a
/// collection frees.
pub open spec fn freed_refs<T>(
    objs: Seq<Option<ObjView<T>>>,
    tr: Seq<Vec<usize>>,
    th: Seq<Vec<usize>>,
    j: int,
    n: int,
) -> nat
    decreases n,
{
    if n <= 0 {
        0
    } else {
        freed_refs(objs, tr, th, j, n - 1) + if live(objs, n - 1) && !reachable(
            objs,
            tr,
            th,
            n - 1,
        ) {
            count_occ(tr[n - 1]@, j)
        } else {
            0nat
        }
    }
}

/// `a - b`, or zero when `b` exceeds `a`.
pub open spec fn sat_sub(a: nat, b: nat) -> nat {
    if a >= b {
        (a - b) as nat
    } else {
        0
    }
}

/// The objects after a collection whose objects reported `tr` from `trace`
/// and `th` from `trace_in_heap`: the reachable ones survive, having given
/// up the handles that freed objects held; the others are freed.
pub open spec fn collect_objects<T>(
    objs: Seq<Option<ObjView<T>>>,
    tr: Seq<Vec<usize>>,
    th: Seq<Vec<usize>>,
) -> Seq<Option<ObjView<T>>> {
    Seq::new(
        objs.len(),
        |j: int|
            if live(objs, j) && reachable(objs, tr, th, j) {
                Some(
                    ObjView {
                        strong: sat_sub(
                            strong_of(objs, j),
                            freed_refs(objs, tr, th, j, objs.len() as int),
                        ),
                        data: objs[j]->0.data,
                    },
                )
            } else {
                None
            },
    )
}

/// The threshold after a collection that left `allocated` bytes.
pub open spec fn shrunk_threshold(threshold: nat, allocated: nat) -> nat {
    if allocated < threshold / 4 {
        let a = if allocated * 2 >= threshold / 2 {
            allocated * 2
        } else {
            threshold / 2
        };
        if MIN_HEAP_SIZE >= a {
            MIN_HEAP_SIZE as nat
        } else {
            a
        }
    } else {
        threshold
    }
}

/// The heap after a collection.
pub open spec fn collect_result<T>(
    v: HeapView<T>,
    tr: Seq<Vec<usize>>,
    th: Seq<Vec<usize>>,
) -> HeapView<T> {
    let objects = collect_objects(v.objects, tr, th);
    let n = live_count(objects, objects.len() as int);
    HeapView {
        objects,
        allocated_bytes: n * vstd::layout::size_of::<GcBox<T>>(),
        allocated_objects: n,
        threshold: shrunk_threshold(v.threshold, n * vstd::layout::size_of::<GcBox<T>>()),
    }
}

/// The smaller of two naturals.
pub open spec fn min_nat(a: nat, b: nat) -> nat {
    if a <= b {
        a
    } else {
        b
    }
}

/// Handles to `j` counted after the first `i` slots and the first `k`
/// reports of slot `i`.
spec fn counted_so_far<T>(
    objs: Seq<Option<ObjView<T>>>,
    th: Seq<Vec<usize>>,
    j: int,
    i: int,
    k: int,
) -> nat {
    in_heap_refs(objs, th, j, i) + if live(objs, i) {
        count_occ(th[i]@.take(k), j)
    } else {
        0nat
    }
}

/// Taking one more report adds its occurrence.
proof fn lemma_count_take_step(s: Seq<usize>, k: int)
    requires
        0 <= k < s.len(),
    ensures
        forall|j: int|
            #[trigger] count_occ(s.take(k + 1), j) == count_occ(s.take(k), j) + if s[k] == j {
                1nat
            } else {
                0nat
            },
{
    assert(s.take(k + 1).drop_last() =~= s.take(k));
}

/// A zero in-heap word has count zero and no mark.
proof fn lemma_in_heap_raw_zero(h: HeaderView)
    requires
        h.in_heap_raw == 0,
    ensures
        h.in_heap() == 0,
        !h.marked(),
{
    assert(0u32 & crate::gc::header::COUNT_MASK == 0) by (bit_vector);
    assert(0u32 & crate::gc::header::MARK_MASK == 0) by (bit_vector);
}

/// Number of live, unmarked slots among the first `n`.
spec fn unmarked_count<T>(s: Seq<Option<GcBox<T>>>, n: int) -> nat
    decreases n,
{
    if n <= 0 {
        0
    } else {
        unmarked_count(s, n - 1) + if s[n - 1] is Some && !s[n - 1]->0.header_view().marked() {
            1nat
        } else {
            0nat
        }
    }
}

/// Marking one unmarked slot lowers the number of unmarked slots by one.
proof fn lemma_unmarked_mark<T>(s1: Seq<Option<GcBox<T>>>, s2: Seq<Option<GcBox<T>>>, x: int, n: int)
    requires
        s1.len() == s2.len(),
        0 <= x < n <= s1.len(),
        s1[x] is Some,
        !s1[x]->0.header_view().marked(),
        s2[x] is Some,
        s2[x]->0.header_view().marked(),
        forall|y: int| 0 <= y < s1.len() && y != x ==> #[trigger] s2[y] == s1[y],
    ensures
        unmarked_count(s2, n) + 1 == unmarked_count(s1, n),
    decreases n,
{
    if n - 1 > x {
        lemma_unmarked_mark(s1, s2, x, n - 1);
    } else {
        lemma_unmarked_same(s1, s2, x);
    }
}

/// Slots that agree below `n` have the same number of unmarked slots.
proof fn lemma_unmarked_same<T>(s1: Seq<Option<GcBox<T>>>, s2: Seq<Option<GcBox<T>>>, n: int)
    requires
        0 <= n <= s1.len(),
        s1.len() == s2.len(),
        forall|y: int| 0 <= y < n ==> #[trigger] s2[y] == s1[y],
    ensures
        unmarked_count(s2, n) == unmarked_count(s1, n),
    decreases n,
{
    if n > 0 {
        lemma_unmarked_same(s1, s2, n - 1);
    }
}

/// A root is reachable.
proof fn lemma_root_reachable<T>(
    objs: Seq<Option<ObjView<T>>>,
    tr: Seq<Vec<usize>>,
    th: Seq<Vec<usize>>,
    r: int,
)
    requires
        is_root(objs, th, r),
    ensures
        reachable(objs, tr, th, r),
{
    let p = seq![r];
    assert(is_path(objs, tr, th, p));
}

/// Following a reported handle from a reachable object reaches its target.
proof fn lemma_reach_step<T>(
    objs: Seq<Option<ObjView<T>>>,
    tr: Seq<Vec<usize>>,
    th: Seq<Vec<usize>>,
    m: int,
    c: int,
)
    requires
        reachable(objs, tr, th, m),
        edge(objs, tr, m, c),
    ensures
        reachable(objs, tr, th, c),
{
    let p = choose|p: Seq<int>| #[trigger] is_path(objs, tr, th, p) && p.last() == m;
    let q = p.push(c);
    assert forall|k: int| 0 <= k < q.len() - 1 implies #[trigger] edge(objs, tr, q[k], q[k + 1]) by {
        if k < p.len() - 1 {
            assert(edge(objs, tr, p[k], p[k + 1]));
        }
    }
    assert(is_path(objs, tr, th, q));
}

/// Freeing one live slot lowers the number of live slots by one.
proof fn lemma_live_count_free<T>(
    o1: Seq<Option<ObjView<T>>>,
    o2: Seq<Option<ObjView<T>>>,
    x: int,
    n: int,
)
    requires
        o1.len() == o2.len(),
        0 <= x < n <= o1.len(),
        o1[x] is Some,
        o2[x] is None,
        forall|y: int| 0 <= y < o1.len() && y != x ==> #[trigger] o2[y] == o1[y],
    ensures
        live_count(o2, n) + 1 == live_count(o1, n),
    decreases n,
{
    if n - 1 > x {
        lemma_live_count_free(o1, o2, x, n - 1);
    } else {
        lemma_live_count_same(o1, o2, x);
    }
}

/// Models with the same live slots below `n` have the same number of live slots.
proof fn lemma_live_count_same<T>(o1: Seq<Option<ObjView<T>>>, o2: Seq<Option<ObjView<T>>>, n: int)
    requires
        0 <= n <= o1.len(),
        n <= o2.len(),
        forall|y: int| 0 <= y < n ==> (#[trigger] o2[y] is Some <==> o1[y] is Some),
    ensures
        live_count(o2, n) == live_count(o1, n),
    decreases n,
{
    if n > 0 {
        lemma_live_count_same(o1, o2, n - 1);
    }
}

/// At most `n` of the first `n` slots are live.
proof fn lemma_live_count_le<T>(objs: Seq<Option<ObjView<T>>>, n: int)
    requires
        0 <= n,
    ensures
        live_count(objs, n) <= n,
    decreases n,
{
    if n > 0 {
        lemma_live_count_le(objs, n - 1);
    }
}

/// Counting the first `n` slots of a model looks only at those slots.
proof fn lemma_live_count_prefix<T>(objs: Seq<Option<ObjView<T>>>, n: int)
    requires
        0 <= n <= objs.len(),
    ensures
        live_count(objs.subrange(0, n), n) == live_count(objs, n),
{
    lemma_live_count_same(objs, objs.subrange(0, n), n);
}

/// The handles that the object in slot `i` reports from `trace`; none for
/// a freed slot.
pub open spec fn traced<T: Trace>(objs: Seq<Option<ObjView<T>>>, i: int) -> Seq<usize> {
    if live(objs, i) {
        objs[i]->0.data.handles()
    } else {
        Seq::empty()
    }
}

/// The handles that the object in slot `i` reports from `trace_in_heap`;
/// none for a freed slot.
pub open spec fn traced_in_heap<T: Trace>(objs: Seq<Option<ObjView<T>>>, i: int) -> Seq<usize> {
    if live(objs, i) {
        objs[i]->0.data.heap_handles()
    } else {
        Seq::empty()
    }
}

/// `tr` and `th` are what the objects report, slot by slot.
pub open spec fn reports<T: Trace>(
    objs: Seq<Option<ObjView<T>>>,
    tr: Seq<Vec<usize>>,
    th: Seq<Vec<usize>>,
) -> bool {
    &&& tr.len() == objs.len()
    &&& th.len() == objs.len()
    &&& forall|i: int|
        #![trigger tr[i]]
        #![trigger th[i]]
        0 <= i < objs.len() ==> tr[i]@ == traced(objs, i) && th[i]@ == traced_in_heap(objs, i)
}

/// Before an allocation the heap is collected when the new object would
/// reach the threshold; the threshold then becomes twice the bytes left.
pub open spec fn prepared_for_alloc<T: Trace>(old: HeapView<T>, mid: HeapView<T>) -> bool {
    if old.allocated_bytes + vstd::layout::size_of::<GcBox<T>>() >= old.threshold {
        exists|tr: Seq<Vec<usize>>, th: Seq<Vec<usize>>|
            {
                &&& reports(old.objects, tr, th)
                &&& #[trigger] collect_result(old, tr, th) == HeapView {
                    threshold: collect_result(old, tr, th).threshold,
                    ..mid
                }
                &&& mid.threshold == mid.allocated_bytes * 2
            }
    } else {
        mid == old
    }
}

/// Getting ready for an allocation keeps the slots: a slot live afterwards
/// was live before, with the same payload.
pub proof fn lemma_prepared_keeps_slots<T: Trace>(old: HeapView<T>, mid: HeapView<T>)
    requires
        prepared_for_alloc(old, mid),
    ensures
        mid.objects.len() == old.objects.len(),
        forall|i: int|
            #![trigger mid.objects[i]]
            live(mid.objects, i) ==> live(old.objects, i) && mid.objects[i]->0.data
                == old.objects[i]->0.data,
{
    if old.allocated_bytes + vstd::layout::size_of::<GcBox<T>>() >= old.threshold {
        let (tr, th) = choose|tr: Seq<Vec<usize>>, th: Seq<Vec<usize>>|
            {
                &&& reports(old.objects, tr, th)
                &&& #[trigger] collect_result(old, tr, th) == HeapView {
                    threshold: collect_result(old, tr, th).threshold,
                    ..mid
                }
                &&& mid.threshold == mid.allocated_bytes * 2
            };
        assert(mid.objects == collect_objects(old.objects, tr, th));
        assert forall|i: int| #![trigger mid.objects[i]] live(mid.objects, i) implies live(
            old.objects,
            i,
        ) && mid.objects[i]->0.data == old.objects[i]->0.data by {
            lemma_collect_only_frees(old.objects, tr, th, i);
        }
    }
}

/// Roots survive a collection, with their payload.
pub proof fn lemma_roots_survive<T>(
    objs: Seq<Option<ObjView<T>>>,
    tr: Seq<Vec<usize>>,
    th: Seq<Vec<usize>>,
    j: int,
)
    requires
        is_root(objs, th, j),
    ensures
        collect_objects(objs, tr, th)[j] is Some,
        collect_objects(objs, tr, th)[j]->0.data == objs[j]->0.data,
{
    lemma_root_reachable(objs, tr, th, j);
}

/// A collection frees nothing that a survivor holds a handle to: the
/// survivors are closed under the reported handles.
pub proof fn lemma_survivors_closed<T>(
    objs: Seq<Option<ObjView<T>>>,
    tr: Seq<Vec<usize>>,
    th: Seq<Vec<usize>>,
    m: int,
    c: int,
)
    requires
        0 <= m < objs.len(),
        collect_objects(objs, tr, th)[m] is Some,
        edge(objs, tr, m, c),
    ensures
        collect_objects(objs, tr, th)[c] is Some,
{
    lemma_reach_step(objs, tr, th, m, c);
}

/// A collection only frees: a slot that is live afterwards was live before,
/// with the same payload and no more handles than before.
pub proof fn lemma_collect_only_frees<T>(
    objs: Seq<Option<ObjView<T>>>,
    tr: Seq<Vec<usize>>,
    th: Seq<Vec<usize>>,
    j: int,
)
    requires
        0 <= j < objs.len(),
        collect_objects(objs, tr, th)[j] is Some,
    ensures
        objs[j] is Some,
        collect_objects(objs, tr, th)[j]->0.data == objs[j]->0.data,
        collect_objects(objs, tr, th)[j]->0.strong <= objs[j]->0.strong,
{
}

/// An object with a handle that no object counts as held by the heap is a
/// root: it survives a collection with its payload. This is how the
/// contents of a cell that is being written survive, since such a cell
/// reports nothing from `trace_in_heap`.
pub proof fn lemma_unreported_survives<T: Trace>(
    objs: Seq<Option<ObjView<T>>>,
    tr: Seq<Vec<usize>>,
    th: Seq<Vec<usize>>,
    j: int,
)
    requires
        reports(objs, tr, th),
        live(objs, j),
        objs[j]->0.strong >= 1,
        forall|i: int|
            0 <= i < objs.len() && live(objs, i) ==> !(#[trigger] traced_in_heap(objs, i)).contains(
                j as usize,
            ),
    ensures
        is_root(objs, th, j),
        collect_objects(objs, tr, th)[j] is Some,
        collect_objects(objs, tr, th)[j]->0.data == objs[j]->0.data,
{
    assert forall|i: int| 0 <= i < objs.len() && live(objs, i) implies !(
    #[trigger] th[i]@).contains(j as usize) by {
        assert(th[i]@ == traced_in_heap(objs, i));
    }
    lemma_in_heap_refs_zero(objs, th, j, objs.len() as int);
    lemma_roots_survive(objs, tr, th, j);
}

/// With no root, a collection frees every object: nothing is reachable.
pub proof fn lemma_no_roots_frees_all<T>(
    objs: Seq<Option<ObjView<T>>>,
    tr: Seq<Vec<usize>>,
    th: Seq<Vec<usize>>,
)
    requires
        forall|j: int| 0 <= j < objs.len() ==> !#[trigger] is_root(objs, th, j),
    ensures
        forall|j: int| 0 <= j < objs.len() ==> #[trigger] collect_objects(objs, tr, th)[j] is None,
        live_count(collect_objects(objs, tr, th), objs.len() as int) == 0,
{
    let after = collect_objects(objs, tr, th);
    assert forall|j: int| 0 <= j < objs.len() implies #[trigger] after[j] is None by {
        if reachable(objs, tr, th, j) {
            let p = choose|p: Seq<int>| #[trigger] is_path(objs, tr, th, p) && p.last() == j;
            assert(is_root(objs, th, p[0]));
        }
    }
    lemma_live_count_none(after, objs.len() as int);
}

/// Slots that are all freed hold no live object.
proof fn lemma_live_count_none<T>(objs: Seq<Option<ObjView<T>>>, n: int)
    requires
        0 <= n <= objs.len(),
        forall|j: int| 0 <= j < objs.len() ==> #[trigger] objs[j] is None,
    ensures
        live_count(objs, n) == 0,
    decreases n,
{
    if n > 0 {
        lemma_live_count_none(objs, n - 1);
    }
}

/// Every handle that a live object reports names a slot of the heap.
pub open spec fn handles_bounded<T: Trace>(objs: Seq<Option<ObjView<T>>>) -> bool {
    forall|i: int, k: int|
        #![trigger objs[i]->0.data.handles()[k]]
        #![trigger objs[i]->0.data.heap_handles()[k]]
        live(objs, i) ==> (0 <= k < objs[i]->0.data.handles().len() ==> objs[i]->0.data.handles()[k]
            < objs.len()) && (0 <= k < objs[i]->0.data.heap_handles().len()
            ==> objs[i]->0.data.heap_handles()[k] < objs.len())
}

/// The live object in slot `i` reports a handle to slot `j`, from `trace`
/// or from `trace_in_heap`.
pub open spec fn reports_handle<T: Trace>(objs: Seq<Option<ObjView<T>>>, i: int, j: int) -> bool {
    live(objs, i) && (objs[i]->0.data.handles().contains(j as usize)
        || objs[i]->0.data.heap_handles().contains(j as usize))
}

/// The objects of `f` are held safely: each is live with a handle; only
/// objects of `f` report handles to them; those of `roots` are held from
/// outside the heap (no object counts a handle to them as held by the heap),
/// and each of the others is reported by an object of `f` in a later slot.
pub open spec fn guarded<T: Trace>(objs: Seq<Option<ObjView<T>>>, f: Set<int>, roots: Set<int>) -> bool {
    &&& roots.subset_of(f)
    &&& forall|j: int| #[trigger] f.contains(j) ==> 0 <= j && live(objs, j) && objs[j]->0.strong >= 1
    &&& forall|i: int, j: int|
        f.contains(j) && #[trigger] reports_handle(objs, i, j) ==> f.contains(i)
    &&& forall|j: int|
        #[trigger] f.contains(j) && !roots.contains(j) ==> exists|p: int|
            f.contains(p) && p > j && #[trigger] objs[p]->0.data.handles().contains(j as usize)
    &&& forall|i: int, j: int|
        roots.contains(j) && live(objs, i) ==> !(#[trigger] objs[i]->0.data.heap_handles().contains(
            j as usize,
        ))
}

/// A sequence without `j` holds it zero times.
proof fn lemma_count_occ_absent(s: Seq<usize>, j: int)
    requires
        0 <= j,
        !s.contains(j as usize),
    ensures
        count_occ(s, j) == 0,
    decreases s.len(),
{
    if s.len() > 0 {
        if s.drop_last().contains(j as usize) {
            let k = choose|k: int| 0 <= k < s.drop_last().len() && s.drop_last()[k] == j as usize;
            assert(s[k] == j as usize);
        }
        assert(s[s.len() - 1] != j as usize);
        lemma_count_occ_absent(s.drop_last(), j);
    }
}

/// No handle to `j` held by the heap among the first `n` slots.
proof fn lemma_in_heap_refs_zero<T>(
    objs: Seq<Option<ObjView<T>>>,
    th: Seq<Vec<usize>>,
    j: int,
    n: int,
)
    requires
        0 <= j,
        forall|i: int| 0 <= i < n && live(objs, i) ==> !(#[trigger] th[i]@).contains(j as usize),
    ensures
        in_heap_refs(objs, th, j, n) == 0,
    decreases n,
{
    if n > 0 {
        lemma_in_heap_refs_zero(objs, th, j, n - 1);
        if live(objs, n - 1) {
            lemma_count_occ_absent(th[n - 1]@, j);
        }
    }
}

/// Only reachable objects among the first `n` slots hold handles to `j`:
/// none of them is freed.
proof fn lemma_freed_refs_zero<T>(
    objs: Seq<Option<ObjView<T>>>,
    tr: Seq<Vec<usize>>,
    th: Seq<Vec<usize>>,
    j: int,
    n: int,
)
    requires
        0 <= j,
        forall|i: int|
            0 <= i < n && live(objs, i) && (#[trigger] tr[i]@).contains(j as usize) ==> reachable(
                objs,
                tr,
                th,
                i,
            ),
    ensures
        freed_refs(objs, tr, th, j, n) == 0,
    decreases n,
{
    if n > 0 {
        lemma_freed_refs_zero(objs, tr, th, j, n - 1);
        if live(objs, n - 1) && !reachable(objs, tr, th, n - 1) {
            lemma_count_occ_absent(tr[n - 1]@, j);
        }
    }
}

/// A guarded object is reachable.
proof fn lemma_guarded_reachable<T: Trace>(
    objs: Seq<Option<ObjView<T>>>,
    tr: Seq<Vec<usize>>,
    th: Seq<Vec<usize>>,
    f: Set<int>,
    roots: Set<int>,
    j: int,
)
    requires
        reports(objs, tr, th),
        guarded(objs, f, roots),
        f.contains(j),
    ensures
        reachable(objs, tr, th, j),
    decreases objs.len() - j,
{
    if roots.contains(j) {
        assert forall|i: int| 0 <= i < objs.len() && live(objs, i) implies !(
        #[trigger] th[i]@).contains(j as usize) by {
            assert(th[i]@ == traced_in_heap(objs, i));
            assert(!objs[i]->0.data.heap_handles().contains(j as usize));
        }
        lemma_in_heap_refs_zero(objs, th, j, objs.len() as int);
        lemma_root_reachable(objs, tr, th, j);
    } else {
        let p = choose|p: int|
            f.contains(p) && p > j && #[trigger] objs[p]->0.data.handles().contains(j as usize);
        lemma_guarded_reachable(objs, tr, th, f, roots, p);
        assert(tr[p]@ == traced(objs, p));
        assert(edge(objs, tr, p, j));
        lemma_reach_step(objs, tr, th, p, j);
    }
}

/// Guarded objects survive a collection unchanged: with their payload and
/// all their handles.
pub proof fn lemma_guarded_survive<T: Trace>(
    objs: Seq<Option<ObjView<T>>>,
    tr: Seq<Vec<usize>>,
    th: Seq<Vec<usize>>,
    f: Set<int>,
    roots: Set<int>,
)
    requires
        reports(objs, tr, th),
        guarded(objs, f, roots),
    ensures
        forall|j: int| #[trigger] f.contains(j) ==> collect_objects(objs, tr, th)[j] == objs[j],
        guarded(collect_objects(objs, tr, th), f, roots),
{
    let after = collect_objects(objs, tr, th);
    assert forall|j: int| #[trigger] f.contains(j) implies after[j] == objs[j] by {
        lemma_guarded_reachable(objs, tr, th, f, roots, j);
        assert forall|i: int|
            0 <= i < objs.len() && live(objs, i) && (#[trigger] tr[i]@).contains(
                j as usize,
            ) implies reachable(objs, tr, th, i) by {
            assert(tr[i]@ == traced(objs, i));
            assert(reports_handle(objs, i, j));
            lemma_guarded_reachable(objs, tr, th, f, roots, i);
        }
        lemma_freed_refs_zero(objs, tr, th, j, objs.len() as int);
    }
    assert forall|i: int, j: int|
        f.contains(j) && #[trigger] reports_handle(after, i, j) implies f.contains(i) by {
        lemma_collect_only_frees(objs, tr, th, i);
        assert(reports_handle(objs, i, j));
    }
    assert forall|i: int, j: int|
        roots.contains(j) && live(after, i) implies !(
        #[trigger] after[i]->0.data.heap_handles().contains(j as usize)) by {
        lemma_collect_only_frees(objs, tr, th, i);
    }
    assert forall|j: int|
        #[trigger] f.contains(j) && !roots.contains(j) implies exists|p: int|
            f.contains(p) && p > j && #[trigger] after[p]->0.data.handles().contains(
                j as usize,
            ) by {
        let p = choose|p: int|
            f.contains(p) && p > j && #[trigger] objs[p]->0.data.handles().contains(j as usize);
        assert(after[p] == objs[p]);
    }
}

/// A collection keeps every reported handle within the heap.
pub proof fn lemma_collect_bounded<T: Trace>(
    objs: Seq<Option<ObjView<T>>>,
    tr: Seq<Vec<usize>>,
    th: Seq<Vec<usize>>,
)
    requires
        handles_bounded(objs),
    ensures
        handles_bounded(collect_objects(objs, tr, th)),
{
    let after = collect_objects(objs, tr, th);
    assert forall|i: int, k: int| live(after, i) implies (0 <= k
        < after[i]->0.data.handles().len() ==> #[trigger] after[i]->0.data.handles()[k]
        < after.len()) && (0 <= k < after[i]->0.data.heap_handles().len()
        ==> #[trigger] after[i]->0.data.heap_handles()[k] < after.len()) by {
        lemma_collect_only_frees(objs, tr, th, i);
    }
}

// ------------------------------------------------------------------------
// The heap
// ------------------------------------------------------------------------

/// The model of a slot.
pub open spec fn obj_of<T>(slot: Option<GcBox<T>>) -> Option<ObjView<T>> {
    match slot {
        Some(b) => Some(ObjView { strong: b.header_view().strong(), data: b.data_view() }),
        None => None,
    }
}

impl<T> View for GcHeap<T> {
    type V = HeapView<T>;

    closed spec fn view(&self) -> HeapView<T> {
        HeapView {
            objects: self.slots@.map_values(|s: Option<GcBox<T>>| obj_of(s)),
            allocated_bytes: self.stats.allocated_bytes as nat,
            allocated_objects: self.stats.allocated_objects as nat,
            threshold: self.stats.threshhold_bytes as nat,
        }
    }
}

impl<T> GcHeap<T> {
    /// The header of slot `i`.
    closed spec fn hdr(&self, i: int) -> HeaderView {
        self.slots@[i]->0.header_view()
    }

    /// Headers of live objects are at rest: no in-heap count, no mark, not
    /// dropped, and their strong count below the maximum.
    closed spec fn headers_at_rest(&self) -> bool {
        forall|i: int|
            0 <= i < self.slots@.len() && #[trigger] self.slots@[i] is Some ==> {
                &&& self.hdr(i).in_heap_raw == 0
                &&& !self.hdr(i).dropped()
                &&& self.hdr(i).strong() < MAX_COUNT
            }
    }

    /// The statistics describe the live objects.
    closed spec fn stats_match(&self) -> bool {
        let n = live_count(self@.objects, self@.objects.len() as int);
        &&& self.stats.allocated_objects == n
        &&& self.stats.allocated_bytes == n * vstd::layout::size_of::<GcBox<T>>()
    }

    /// The model lists the slots one for one.
    proof fn lemma_view(&self)
        ensures
            self@.objects.len() == self.slots@.len(),
            forall|i: int|
                0 <= i < self.slots@.len() ==> #[trigger] self@.objects[i] == obj_of(
                    self.slots@[i],
                ),
    {
    }

    /// The heap is well formed.
    pub closed spec fn wf(&self) -> bool {
        self.headers_at_rest() && self.stats_match()
    }

    /// A well-formed heap counts its live objects and their bytes: the
    /// totals are the number of live slots and that many object sizes.
    pub proof fn lemma_stats(&self)
        requires
            self.wf(),
        ensures
            self@.allocated_objects == live_count(self@.objects, self@.objects.len() as int),
            self@.allocated_bytes == self@.allocated_objects * vstd::layout::size_of::<GcBox<T>>(),
    {
    }

    /// Headers of live objects during counting: no mark, not dropped, strong
    /// count as in `objs`, in-heap count equal to the handles counted so far,
    /// capped at the strong count.
    closed spec fn counting(
        &self,
        objs: Seq<Option<ObjView<T>>>,
        th: Seq<Vec<usize>>,
        i: int,
        k: int,
    ) -> bool {
        &&& self@.objects == objs
        &&& forall|j: int|
            #![trigger self.slots@[j]]
            0 <= j < self.slots@.len() && self.slots@[j] is Some ==> {
                &&& !self.hdr(j).marked()
                &&& !self.hdr(j).dropped()
                &&& self.hdr(j).strong() < MAX_COUNT
                &&& self.hdr(j).in_heap() == min_nat(
                    counted_so_far(objs, th, j, i, k),
                    self.hdr(j).strong(),
                )
            }
    }

    /// Count one more handle to the live object in slot `j`, unless it is
    /// already known to have no more handles than the heap holds.
    fn bump_in_heap(&mut self, j: usize)
        requires
            j < old(self).slots@.len(),
            old(self).slots@[j as int] is Some,
            !old(self).hdr(j as int).marked(),
            !old(self).hdr(j as int).dropped(),
            old(self).hdr(j as int).strong() < MAX_COUNT,
        ensures
            final(self).slots@.len() == old(self).slots@.len(),
            final(self)@ == old(self)@,
            final(self).stats == old(self).stats,
            final(self).slots@[j as int] is Some,
            !final(self).hdr(j as int).marked(),
            !final(self).hdr(j as int).dropped(),
            final(self).hdr(j as int).strong() == old(self).hdr(j as int).strong(),
            final(self).hdr(j as int).in_heap() == if old(self).hdr(j as int).in_heap() < old(
                self,
            ).hdr(j as int).strong() {
                old(self).hdr(j as int).in_heap() + 1
            } else {
                old(self).hdr(j as int).in_heap()
            },
            forall|x: int|
                0 <= x < final(self).slots@.len() && x != j ==> #[trigger] final(self).slots@[x]
                    == old(self).slots@[x],
    {
        match &mut self.slots[j] {
            Some(b) => {
                if b.header.is_rooted() {
                    b.header.incr_in_heap();
                }
            },
            None => {},
        }
        proof {
            self.lemma_view();
            old(self).lemma_view();
            assert(self@.objects =~= old(self)@.objects);
        }
    }

    /// Record in each live header how many handles to it the live objects
    /// report holding inside the heap, capped at its strong count.
    fn count_in_heap(&mut self, th: &Vec<Vec<usize>>)
        requires
            old(self).headers_at_rest(),
            th@.len() == old(self).slots@.len(),
        ensures
            final(self).slots@.len() == old(self).slots@.len(),
            final(self).stats == old(self).stats,
            final(self).counting(old(self)@.objects, th@, old(self).slots@.len() as int, 0),
    {
        let ghost objs = self@.objects;
        proof {
            self.lemma_view();
            assert forall|j: int|
                #![trigger self.slots@[j]]
                0 <= j < self.slots@.len() && self.slots@[j] is Some implies {
                &&& !self.hdr(j).marked()
                &&& !self.hdr(j).dropped()
                &&& self.hdr(j).strong() < MAX_COUNT
                &&& self.hdr(j).in_heap() == min_nat(
                    counted_so_far(objs, th@, j, 0, 0),
                    self.hdr(j).strong(),
                )
            } by {
                lemma_in_heap_raw_zero(self.hdr(j));
                if live(objs, 0) {
                    assert(th@[0]@.take(0).len() == 0);
                }
            }
        }
        let n = self.slots.len();
        let mut i: usize = 0;
        while i < n
            invariant
                0 <= i <= n,
                n == self.slots@.len(),
                th@.len() == n,
                self.stats == old(self).stats,
                self.counting(objs, th@, i as int, 0),
            decreases n - i,
        {
            proof {
                self.lemma_view();
            }
            if self.slots[i].is_some() {
                let edges = &th[i];
                let mut k: usize = 0;
                while k < edges.len()
                    invariant
                        0 <= i < n,
                        0 <= k <= edges@.len(),
                        edges == th@[i as int],
                        n == self.slots@.len(),
                        th@.len() == n,
                        self.stats == old(self).stats,
                        live(objs, i as int),
                        self.counting(objs, th@, i as int, k as int),
                    decreases edges@.len() - k,
                {
                    let j = edges[k];
                    let ghost before = *self;
                    proof {
                        self.lemma_view();
                        lemma_count_take_step(edges@, k as int);
                    }
                    if j < n && self.slots[j].is_some() {
                        self.bump_in_heap(j);
                    }
                    proof {
                        self.lemma_view();
                        assert forall|x: int|
                            #![trigger self.slots@[x]]
                            0 <= x < self.slots@.len() && self.slots@[x] is Some implies {
                            &&& !self.hdr(x).marked()
                            &&& !self.hdr(x).dropped()
                            &&& self.hdr(x).strong() < MAX_COUNT
                            &&& self.hdr(x).in_heap() == min_nat(
                                counted_so_far(objs, th@, x, i as int, k + 1),
                                self.hdr(x).strong(),
                            )
                        } by {
                            assert(before.slots@[x] is Some);
                        }
                    }
                    k += 1;
                }
                proof {
                    assert(edges@.take(edges@.len() as int) =~= edges@);
                    assert forall|x: int|
                        #![trigger self.slots@[x]]
                        0 <= x < self.slots@.len() && self.slots@[x] is Some implies counted_so_far(
                            objs,
                            th@,
                            x,
                            i as int,
                            edges@.len() as int,
                        ) == counted_so_far(objs, th@, x, i + 1, 0) by {
                        assert(th@[i as int]@.take(0) =~= Seq::<usize>::empty());
                    }
                }
            } else {
                proof {
                    assert forall|x: int|
                        #![trigger self.slots@[x]]
                        0 <= x < self.slots@.len() && self.slots@[x] is Some implies counted_so_far(
                            objs,
                            th@,
                            x,
                            i as int,
                            0,
                        ) == counted_so_far(objs, th@, x, i + 1, 0) by {
                        assert(!live(objs, i as int));
                    }
                }
            }
            i += 1;
        }
    }

    /// Header facts that hold while marking: not dropped, strong count below
    /// the maximum, in-heap count as left by counting.
    closed spec fn counted_header(
        &self,
        objs: Seq<Option<ObjView<T>>>,
        th: Seq<Vec<usize>>,
        j: int,
    ) -> bool {
        &&& !self.hdr(j).dropped()
        &&& self.hdr(j).strong() < MAX_COUNT
        &&& self.hdr(j).strong() == strong_of(objs, j)
        &&& self.hdr(j).in_heap() == min_nat(
            in_heap_refs(objs, th, j, objs.len() as int),
            self.hdr(j).strong(),
        )
    }

    /// Marked objects are reachable; queued slots are live and reachable.
    closed spec fn marking_sound(
        &self,
        objs: Seq<Option<ObjView<T>>>,
        tr: Seq<Vec<usize>>,
        th: Seq<Vec<usize>>,
        queue: Seq<usize>,
    ) -> bool {
        &&& self@.objects == objs
        &&& objs.len() == tr.len()
        &&& objs.len() == th.len()
        &&& forall|j: int|
            #![trigger self.slots@[j]]
            0 <= j < self.slots@.len() && self.slots@[j] is Some ==> {
                &&& self.counted_header(objs, th, j)
                &&& self.hdr(j).marked() ==> reachable(objs, tr, th, j)
            }
        &&& forall|k: int|
            0 <= k < queue.len() ==> live(objs, #[trigger] queue[k] as int) && reachable(
                objs,
                tr,
                th,
                queue[k] as int,
            )
    }

    /// Every handle reported by a marked object other than `x` leads to a
    /// marked or queued object.
    closed spec fn closed_except(
        &self,
        objs: Seq<Option<ObjView<T>>>,
        tr: Seq<Vec<usize>>,
        queue: Seq<usize>,
        x: int,
    ) -> bool {
        forall|m: int, c: int|
            #![trigger edge(objs, tr, m, c), self.slots@[m]]
            m != x && edge(objs, tr, m, c) && self.hdr(m).marked() ==> self.hdr(c).marked()
                || queue.contains(c as usize)
    }

    /// Number of live, unmarked objects among the first `n` slots.
    closed spec fn unmarked(&self, n: int) -> nat {
        unmarked_count(self.slots@, n)
    }

    /// Mark the live object in slot `x`.
    fn mark_slot(&mut self, x: usize)
        requires
            x < old(self).slots@.len(),
            old(self).slots@[x as int] is Some,
        ensures
            final(self).slots@.len() == old(self).slots@.len(),
            final(self)@ == old(self)@,
            final(self).stats == old(self).stats,
            final(self).slots@[x as int] is Some,
            final(self).hdr(x as int).marked(),
            final(self).hdr(x as int).in_heap() == old(self).hdr(x as int).in_heap(),
            final(self).hdr(x as int).strong_raw == old(self).hdr(x as int).strong_raw,
            forall|y: int|
                0 <= y < final(self).slots@.len() && y != x ==> #[trigger] final(self).slots@[y]
                    == old(self).slots@[y],
    {
        match &mut self.slots[x] {
            Some(b) => {
                b.header.mark();
            },
            None => {},
        }
        proof {
            self.lemma_view();
            old(self).lemma_view();
            assert(self@.objects =~= old(self)@.objects);
        }
    }

    /// Whether the live object in slot `x` is marked.
    fn slot_marked(&self, x: usize) -> (marked: bool)
        requires
            x < self.slots@.len(),
            self.slots@[x as int] is Some,
        ensures
            marked == self.hdr(x as int).marked(),
    {
        self.slots[x].as_ref().unwrap().header.is_marked()
    }

    /// Whether the live object in slot `x` is a root.
    fn slot_rooted(&self, x: usize) -> (rooted: bool)
        requires
            x < self.slots@.len(),
            self.slots@[x as int] is Some,
        ensures
            rooted == self.hdr(x as int).rooted(),
    {
        self.slots[x].as_ref().unwrap().header.is_rooted()
    }

    /// Mark everything reachable from the queued objects, following the
    /// reported handles, until the queue is empty.
    fn drain(
        &mut self,
        queue: &mut std::collections::VecDeque<usize>,
        tr: &Vec<Vec<usize>>,
        Ghost(objs): Ghost<Seq<Option<ObjView<T>>>>,
        Ghost(th): Ghost<Seq<Vec<usize>>>,
    )
        requires
            old(self).marking_sound(objs, tr@, th, old(queue)@),
            old(self).closed_except(objs, tr@, old(queue)@, -1),
        ensures
            final(self).slots@.len() == old(self).slots@.len(),
            final(self).stats == old(self).stats,
            final(self).marking_sound(objs, tr@, th, final(queue)@),
            final(self).closed_except(objs, tr@, final(queue)@, -1),
            final(queue)@.len() == 0,
            forall|j: int|
                #![trigger final(self).slots@[j]]
                0 <= j < old(self).slots@.len() && old(self).slots@[j] is Some && old(self).hdr(
                    j,
                ).marked() ==> final(self).hdr(j).marked(),
            forall|k: int|
                #![trigger old(queue)@[k]]
                0 <= k < old(queue)@.len() ==> final(self).hdr(old(queue)@[k] as int).marked(),
    {
        let ghost init_queue = queue@;
        let ghost init = *self;
        let n = self.slots.len();
        proof {
            self.lemma_view();
        }
        loop
            invariant
                n == self.slots@.len(),
                n == init.slots@.len(),
                self.stats == old(self).stats,
                self.marking_sound(objs, tr@, th, queue@),
                self.closed_except(objs, tr@, queue@, -1),
                forall|j: int|
                    #![trigger self.slots@[j]]
                    0 <= j < n && init.slots@[j] is Some && init.hdr(j).marked()
                        ==> self.hdr(j).marked(),
                forall|k: int|
                    #![trigger init_queue[k]]
                    0 <= k < init_queue.len() ==> self.hdr(init_queue[k] as int).marked()
                        || queue@.contains(init_queue[k]),
                forall|k: int|
                    #![trigger init_queue[k]]
                    0 <= k < init_queue.len() ==> live(objs, init_queue[k] as int),
            ensures
                n == self.slots@.len(),
                self.stats == old(self).stats,
                self.marking_sound(objs, tr@, th, queue@),
                self.closed_except(objs, tr@, queue@, -1),
                queue@.len() == 0,
                forall|j: int|
                    #![trigger self.slots@[j]]
                    0 <= j < n && init.slots@[j] is Some && init.hdr(j).marked()
                        ==> self.hdr(j).marked(),
                forall|k: int|
                    #![trigger init_queue[k]]
                    0 <= k < init_queue.len() ==> self.hdr(init_queue[k] as int).marked(),
            decreases self.unmarked(n as int), queue@.len(),
        {
            let ghost prev_queue = queue@;
            let ghost prev = *self;
            match queue.pop_front() {
                None => {
                    break;
                },
                Some(x) => {
                    proof {
                        self.lemma_view();
                        assert(prev_queue[0] == x);
                        assert(live(objs, x as int));
                        assert forall|q: usize| #[trigger]
                            prev_queue.contains(q) && q != x implies queue@.contains(q) by {
                            let k = choose|k: int| 0 <= k < prev_queue.len() && prev_queue[k] == q;
                            assert(queue@[k - 1] == q);
                        }
                    }
                    if self.slot_marked(x) {
                        // Already marked: nothing new is reached through it.
                    } else {
                        self.mark_slot(x);
                        proof {
                            self.lemma_view();
                            lemma_unmarked_mark(prev.slots@, self.slots@, x as int, n as int);
                            assert forall|kk: int|
                                #![trigger init_queue[kk]]
                                0 <= kk < init_queue.len() implies self.hdr(
                                    init_queue[kk] as int,
                                ).marked() || queue@.contains(init_queue[kk]) by {
                                let q = init_queue[kk];
                                if q != x {
                                    if prev.hdr(q as int).marked() {
                                        assert(self.slots@[q as int] == prev.slots@[q as int]);
                                    } else {
                                        assert(prev_queue.contains(q));
                                    }
                                }
                            }
                        }
                        let edges = &tr[x];
                        let mut k: usize = 0;
                        while k < edges.len()
                            invariant
                                0 <= x < n,
                                n == init.slots@.len(),
                                forall|kk: int|
                                    #![trigger init_queue[kk]]
                                    0 <= kk < init_queue.len() ==> live(objs, init_queue[kk] as int),
                                0 <= k <= edges@.len(),
                                edges == tr@[x as int],
                                n == self.slots@.len(),
                                self.stats == old(self).stats,
                                self.slots@[x as int] is Some,
                                self.hdr(x as int).marked(),
                                self.marking_sound(objs, tr@, th, queue@),
                                self.closed_except(objs, tr@, queue@, x as int),
                                forall|q: usize| #[trigger]
                                    prev_queue.contains(q) && q != x ==> queue@.contains(q),
                                forall|kk: int|
                                    0 <= kk < k && live(objs, #[trigger] edges@[kk] as int)
                                        ==> self.hdr(edges@[kk] as int).marked()
                                        || queue@.contains(edges@[kk]),
                                forall|j: int|
                                    #![trigger self.slots@[j]]
                                    0 <= j < n && init.slots@[j] is Some && init.hdr(j).marked()
                                        ==> self.hdr(j).marked(),
                                forall|kk: int|
                                    #![trigger init_queue[kk]]
                                    0 <= kk < init_queue.len() ==> self.hdr(
                                        init_queue[kk] as int,
                                    ).marked() || queue@.contains(init_queue[kk]),
                                self.unmarked(n as int) < prev.unmarked(n as int),
                            decreases edges@.len() - k,
                        {
                            let c = edges[k];
                            proof {
                                self.lemma_view();
                            }
                            if c < n && self.slots[c].is_some() && !self.slot_marked(c) {
                                let ghost before = queue@;
                                proof {
                                    lemma_reach_step(objs, tr@, th, x as int, c as int);
                                }
                                queue.push_back(c);
                                proof {
                                    assert(queue@[queue@.len() - 1] == c);
                                    assert forall|q: usize| #[trigger]
                                        before.contains(q) implies queue@.contains(q) by {
                                        let kq = choose|kq: int|
                                            0 <= kq < before.len() && before[kq] == q;
                                        assert(queue@[kq] == q);
                                    }
                                }
                            }
                            k += 1;
                        }
                        proof {
                            assert forall|m: int, cc: int|
                                #![trigger edge(objs, tr@, m, cc), self.slots@[m]]
                                edge(objs, tr@, m, cc) && self.hdr(m).marked() implies self.hdr(
                                    cc,
                                ).marked() || queue@.contains(cc as usize) by {
                                if m == x {
                                    let kk = choose|kk: int|
                                        0 <= kk < edges@.len() && edges@[kk] == cc as usize;
                                    assert(live(objs, edges@[kk] as int));
                                }
                            }
                        }
                    }
                    proof {
                        self.lemma_view();
                    }
                },
            }
        }
    }

    /// Mark exactly the reachable objects.
    fn mark_reachable(
        &mut self,
        tr: &Vec<Vec<usize>>,
        Ghost(th): Ghost<Seq<Vec<usize>>>,
    )
        requires
            old(self).counting(old(self)@.objects, th, old(self).slots@.len() as int, 0),
            tr@.len() == old(self).slots@.len(),
            th.len() == old(self).slots@.len(),
        ensures
            final(self).slots@.len() == old(self).slots@.len(),
            final(self).stats == old(self).stats,
            final(self)@.objects == old(self)@.objects,
            forall|j: int|
                #![trigger final(self).slots@[j]]
                0 <= j < final(self).slots@.len() && final(self).slots@[j] is Some ==> {
                    &&& final(self).counted_header(old(self)@.objects, th, j)
                    &&& final(self).hdr(j).marked() == reachable(old(self)@.objects, tr@, th, j)
                },
    {
        let ghost objs = self@.objects;
        let n = self.slots.len();
        let mut queue: std::collections::VecDeque<usize> = std::collections::VecDeque::new();
        proof {
            self.lemma_view();
            assert forall|j: int|
                #![trigger self.slots@[j]]
                0 <= j < self.slots@.len() && self.slots@[j] is Some implies {
                &&& self.counted_header(objs, th, j)
                &&& self.hdr(j).marked() ==> reachable(objs, tr@, th, j)
            } by {
                assert(!live(objs, n as int));
            }
        }
        let mut i: usize = 0;
        while i < n
            invariant
                0 <= i <= n,
                n == self.slots@.len(),
                tr@.len() == n,
                self.stats == old(self).stats,
                queue@.len() == 0,
                self.marking_sound(objs, tr@, th, queue@),
                self.closed_except(objs, tr@, queue@, -1),
                forall|r: int|
                    #![trigger self.slots@[r]]
                    0 <= r < i && is_root(objs, th, r) ==> self.hdr(r).marked(),
            decreases n - i,
        {
            proof {
                self.lemma_view();
            }
            if self.slots[i].is_some() && !self.slot_marked(i) {
                if self.slot_rooted(i) {
                    proof {
                        lemma_root_reachable(objs, tr@, th, i as int);
                    }
                    queue.push_back(i);
                    proof {
                        assert(queue@[0] == i);
                    }
                }
                let ghost pre = *self;
                let ghost q0 = queue@;
                self.drain(&mut queue, tr, Ghost(objs), Ghost(th));
                proof {
                    self.lemma_view();
                    if is_root(objs, th, i as int) {
                        assert(q0[0] == i);
                    }
                }
            }
            proof {
                self.lemma_view();
            }
            i += 1;
        }
        proof {
            self.lemma_view();
            assert forall|j: int|
                #![trigger self.slots@[j]]
                0 <= j < self.slots@.len() && self.slots@[j] is Some implies self.hdr(j).marked()
                == reachable(objs, tr@, th, j) by {
                if reachable(objs, tr@, th, j) {
                    let p = choose|p: Seq<int>| #[trigger]
                        is_path(objs, tr@, th, p) && p.last() == j;
                    self.lemma_complete(objs, tr@, th, p);
                }
            }
        }
    }

    /// A closed marked set that holds every root holds every slot on a path.
    proof fn lemma_complete(
        &self,
        objs: Seq<Option<ObjView<T>>>,
        tr: Seq<Vec<usize>>,
        th: Seq<Vec<usize>>,
        p: Seq<int>,
    )
        requires
            self.marking_sound(objs, tr, th, Seq::<usize>::empty()),
            self.closed_except(objs, tr, Seq::<usize>::empty(), -1),
            forall|r: int|
                #![trigger self.slots@[r]]
                0 <= r < objs.len() && is_root(objs, th, r) ==> self.hdr(r).marked(),
            is_path(objs, tr, th, p),
        ensures
            self.hdr(p.last()).marked(),
        decreases p.len(),
    {
        self.lemma_view();
        if p.len() == 1 {
            assert(is_root(objs, th, p[0]));
            assert(self.slots@[p[0]] is Some);
        } else {
            let q = p.drop_last();
            assert forall|k: int| 0 <= k < q.len() - 1 implies #[trigger] edge(
                objs,
                tr,
                q[k],
                q[k + 1],
            ) by {
                assert(edge(objs, tr, p[k], p[k + 1]));
            }
            self.lemma_complete(objs, tr, th, q);
            let k = p.len() - 2;
            let m = p[k];
            assert(edge(objs, tr, p[k], p[k + 1]));
            assert(p[k + 1] == p.last());
            assert(self.slots@[m] is Some);
            assert(!Seq::<usize>::empty().contains(p.last() as usize));
        }
    }

    /// Header facts after marking: marks match reachability.
    closed spec fn marked_header(
        &self,
        objs: Seq<Option<ObjView<T>>>,
        tr: Seq<Vec<usize>>,
        th: Seq<Vec<usize>>,
        j: int,
    ) -> bool {
        &&& !self.hdr(j).dropped()
        &&& self.hdr(j).marked() == reachable(objs, tr, th, j)
    }

    /// Give up one handle of the live object in slot `j`, if it has any.
    fn release_one(&mut self, j: usize)
        requires
            j < old(self).slots@.len(),
            old(self).slots@[j as int] is Some,
        ensures
            final(self).slots@.len() == old(self).slots@.len(),
            final(self).stats == old(self).stats,
            final(self).slots@[j as int] is Some,
            final(self).slots@[j as int]->0.data_view() == old(self).slots@[j as int]->0.data_view(),
            final(self).hdr(j as int).in_heap_raw == old(self).hdr(j as int).in_heap_raw,
            final(self).hdr(j as int).dropped() == old(self).hdr(j as int).dropped(),
            final(self).hdr(j as int).strong() == sat_sub(old(self).hdr(j as int).strong(), 1),
            forall|x: int|
                0 <= x < final(self).slots@.len() && x != j ==> #[trigger] final(self).slots@[x]
                    == old(self).slots@[x],
    {
        match &mut self.slots[j] {
            Some(b) => {
                if b.header.strong() > 0 {
                    b.header.decr_strong();
                }
            },
            None => {},
        }
    }

    /// Give up the handles held by the unmarked (unreachable) objects.
    fn release_garbage_refs(
        &mut self,
        tr: &Vec<Vec<usize>>,
        Ghost(objs): Ghost<Seq<Option<ObjView<T>>>>,
        Ghost(th): Ghost<Seq<Vec<usize>>>,
    )
        requires
            old(self).slots@.len() == objs.len(),
            tr@.len() == objs.len(),
            forall|j: int|
                #![trigger old(self).slots@[j]]
                0 <= j < objs.len() ==> (old(self).slots@[j] is Some <==> live(objs, j)),
            forall|j: int|
                #![trigger old(self).slots@[j]]
                0 <= j < objs.len() && live(objs, j) ==> {
                    &&& old(self).marked_header(objs, tr@, th, j)
                    &&& old(self).hdr(j).strong() == strong_of(objs, j)
                    &&& strong_of(objs, j) < MAX_COUNT
                    &&& old(self).slots@[j]->0.data_view() == objs[j]->0.data
                },
        ensures
            final(self).slots@.len() == objs.len(),
            final(self).stats == old(self).stats,
            forall|j: int|
                #![trigger final(self).slots@[j]]
                0 <= j < objs.len() ==> (final(self).slots@[j] is Some <==> live(objs, j)),
            forall|j: int|
                #![trigger final(self).slots@[j]]
                0 <= j < objs.len() && live(objs, j) ==> {
                    &&& final(self).marked_header(objs, tr@, th, j)
                    &&& final(self).hdr(j).strong() == sat_sub(
                        strong_of(objs, j),
                        freed_refs(objs, tr@, th, j, objs.len() as int),
                    )
                    &&& final(self).slots@[j]->0.data_view() == objs[j]->0.data
                },
    {
        let n = self.slots.len();
        let mut i: usize = 0;
        while i < n
            invariant
                0 <= i <= n,
                n == self.slots@.len(),
                n == objs.len(),
                tr@.len() == n,
                self.stats == old(self).stats,
                forall|j: int|
                    #![trigger self.slots@[j]]
                    0 <= j < n ==> (self.slots@[j] is Some <==> live(objs, j)),
                forall|j: int|
                    #![trigger self.slots@[j]]
                    0 <= j < n && live(objs, j) ==> {
                        &&& self.marked_header(objs, tr@, th, j)
                        &&& self.hdr(j).strong() == sat_sub(
                            strong_of(objs, j),
                            freed_refs(objs, tr@, th, j, i as int),
                        )
                        &&& self.slots@[j]->0.data_view() == objs[j]->0.data
                    },
            decreases n - i,
        {
            if self.slots[i].is_some() && !self.slot_marked(i) {
                let edges = &tr[i];
                let mut k: usize = 0;
                while k < edges.len()
                    invariant
                        0 <= i < n,
                        0 <= k <= edges@.len(),
                        edges == tr@[i as int],
                        n == self.slots@.len(),
                        n == objs.len(),
                        tr@.len() == n,
                        self.stats == old(self).stats,
                        live(objs, i as int),
                        !reachable(objs, tr@, th, i as int),
                        forall|j: int|
                            #![trigger self.slots@[j]]
                            0 <= j < n ==> (self.slots@[j] is Some <==> live(objs, j)),
                        forall|j: int|
                            #![trigger self.slots@[j]]
                            0 <= j < n && live(objs, j) ==> {
                                &&& self.marked_header(objs, tr@, th, j)
                                &&& self.hdr(j).strong() == sat_sub(
                                    strong_of(objs, j),
                                    freed_refs(objs, tr@, th, j, i as int) + count_occ(
                                        edges@.take(k as int),
                                        j,
                                    ),
                                )
                                &&& self.slots@[j]->0.data_view() == objs[j]->0.data
                            },
                    decreases edges@.len() - k,
                {
                    let c = edges[k];
                    proof {
                        lemma_count_take_step(edges@, k as int);
                    }
                    if c < n && self.slots[c].is_some() {
                        self.release_one(c);
                    }
                    k += 1;
                }
                proof {
                    assert(edges@.take(edges@.len() as int) =~= edges@);
                }
            } else {
                proof {
                    if self.slots@[i as int] is Some {
                        assert(reachable(objs, tr@, th, i as int));
                    }
                }
            }
            i += 1;
        }
    }

    /// Free the unmarked objects, reset the headers of the marked ones and
    /// update the statistics.
    fn sweep(
        &mut self,
        Ghost(objs): Ghost<Seq<Option<ObjView<T>>>>,
        Ghost(tr): Ghost<Seq<Vec<usize>>>,
        Ghost(th): Ghost<Seq<Vec<usize>>>,
    )
        requires
            old(self).slots@.len() == objs.len(),
            old(self).stats_match(),
            forall|j: int|
                #![trigger old(self).slots@[j]]
                0 <= j < objs.len() ==> (old(self).slots@[j] is Some <==> live(objs, j)),
            forall|j: int|
                #![trigger old(self).slots@[j]]
                0 <= j < objs.len() && live(objs, j) ==> {
                    &&& old(self).marked_header(objs, tr, th, j)
                    &&& old(self).hdr(j).strong() == sat_sub(
                        strong_of(objs, j),
                        freed_refs(objs, tr, th, j, objs.len() as int),
                    )
                    &&& strong_of(objs, j) < MAX_COUNT
                    &&& old(self).slots@[j]->0.data_view() == objs[j]->0.data
                },
        ensures
            final(self).wf(),
            final(self)@.objects == collect_objects(objs, tr, th),
            final(self)@.allocated_bytes <= old(self)@.allocated_bytes,
            final(self)@.threshold == shrunk_threshold(
                old(self)@.threshold,
                final(self)@.allocated_bytes,
            ),
    {
        let sz = core::mem::size_of::<GcBox<T>>();
        let n = self.slots.len();
        let ghost target = collect_objects(objs, tr, th);
        let mut i: usize = 0;
        proof {
            self.lemma_view();
        }
        while i < n
            invariant
                0 <= i <= n,
                n == self.slots@.len(),
                n == old(self).slots@.len(),
                n == objs.len(),
                sz == vstd::layout::size_of::<GcBox<T>>(),
                self.stats_match(),
                self.stats.threshhold_bytes == old(self).stats.threshhold_bytes,
                self.stats.allocated_bytes <= old(self).stats.allocated_bytes,
                target == collect_objects(objs, tr, th),
                forall|j: int|
                    #![trigger self.slots@[j]]
                    0 <= j < i ==> obj_of(self.slots@[j]) == target[j] && (self.slots@[j] is Some
                        ==> self.hdr(j).in_heap_raw == 0 && !self.hdr(j).dropped()
                        && self.hdr(j).strong() < MAX_COUNT),
                forall|j: int|
                    #![trigger self.slots@[j]]
                    i <= j < n ==> self.slots@[j] == old(self).slots@[j],
                forall|j: int|
                    #![trigger old(self).slots@[j]]
                    0 <= j < objs.len() ==> (old(self).slots@[j] is Some <==> live(objs, j)),
                forall|j: int|
                    #![trigger old(self).slots@[j]]
                    0 <= j < objs.len() && live(objs, j) ==> {
                        &&& old(self).marked_header(objs, tr, th, j)
                        &&& old(self).hdr(j).strong() == sat_sub(
                            strong_of(objs, j),
                            freed_refs(objs, tr, th, j, objs.len() as int),
                        )
                        &&& strong_of(objs, j) < MAX_COUNT
                        &&& old(self).slots@[j]->0.data_view() == objs[j]->0.data
                    },
            decreases n - i,
        {
            proof {
                self.lemma_view();
                old(self).lemma_view();
            }
            if self.slots[i].is_some() {
                proof {
                    assert(self.slots@[i as int] == old(self).slots@[i as int]);
                    assert(old(self).slots@[i as int] is Some);
                    assert(live(objs, i as int));
                }
                let ghost before = *self;
                if self.slot_marked(i) {
                    self.reset_slot(i);
                    proof {
                        self.lemma_view();
                        before.lemma_view();
                        assert(self@.objects =~= before@.objects);
                        assert(reachable(objs, tr, th, i as int));
                        assert(obj_of(self.slots@[i as int]) == target[i as int]);
                    }
                } else {
                    self.slots.set(i, None);
                    proof {
                        self.lemma_view();
                        before.lemma_view();
                        lemma_live_count_free(before@.objects, self@.objects, i as int, n as int);
                        let c = live_count(self@.objects, n as int);
                        assert((c + 1) * sz - sz == c * sz) by (nonlinear_arith);
                        assert(!reachable(objs, tr, th, i as int));
                        assert(obj_of(self.slots@[i as int]) == target[i as int]);
                    }
                    self.stats.allocated_bytes = self.stats.allocated_bytes - sz;
                    self.stats.allocated_objects = self.stats.allocated_objects - 1;
                }
            }
            i += 1;
        }
        proof {
            self.lemma_view();
            assert(self@.objects =~= target);
        }
        if self.stats.allocated_bytes < self.stats.threshhold_bytes / 4 {
            let doubled = self.stats.allocated_bytes * 2;
            let halved = self.stats.threshhold_bytes / 2;
            let larger = if doubled >= halved {
                doubled
            } else {
                halved
            };
            self.stats.threshhold_bytes = if MIN_HEAP_SIZE >= larger {
                MIN_HEAP_SIZE
            } else {
                larger
            };
        }
    }

    /// Clear the in-heap count and the mark of the live object in slot `x`.
    fn reset_slot(&mut self, x: usize)
        requires
            x < old(self).slots@.len(),
            old(self).slots@[x as int] is Some,
        ensures
            final(self).slots@.len() == old(self).slots@.len(),
            final(self).stats == old(self).stats,
            final(self).slots@[x as int] is Some,
            final(self).slots@[x as int]->0.data_view() == old(self).slots@[x as int]->0.data_view(),
            final(self).hdr(x as int).in_heap_raw == 0,
            final(self).hdr(x as int).strong_raw == old(self).hdr(x as int).strong_raw,
            forall|y: int|
                0 <= y < final(self).slots@.len() && y != x ==> #[trigger] final(self).slots@[y]
                    == old(self).slots@[y],
    {
        match &mut self.slots[x] {
            Some(b) => {
                b.header.unmark();
                b.header.reset_in_heap();
            },
            None => {},
        }
    }

    /// Run a collection in which the objects reported the handles `tr` from
    /// `trace` and `th` from `trace_in_heap` (`tr[i]`, `th[i]` for slot `i`).
    fn collect_with(&mut self, tr: &Vec<Vec<usize>>, th: &Vec<Vec<usize>>)
        requires
            old(self).wf(),
            tr@.len() == old(self)@.objects.len(),
            th@.len() == old(self)@.objects.len(),
        ensures
            final(self).wf(),
            final(self)@ == collect_result(old(self)@, tr@, th@),
            final(self)@.allocated_bytes <= old(self)@.allocated_bytes,
    {
        let ghost objs = self@.objects;
        proof {
            self.lemma_view();
        }
        self.count_in_heap(th);
        self.mark_reachable(tr, Ghost(th@));
        proof {
            self.lemma_view();
        }
        self.release_garbage_refs(tr, Ghost(objs), Ghost(th@));
        proof {
            self.lemma_view();
            lemma_live_count_same(objs, self@.objects, objs.len() as int);
        }
        self.sweep(Ghost(objs), Ghost(tr@), Ghost(th@));
        proof {
            self.lemma_view();
        }
    }

    /// A live object with one handle, holding `data`.
    fn push_object(&mut self, data: T) -> (gc: Gc)
        requires
            old(self).wf(),
            old(self)@.objects.len() < usize::MAX,
            old(self)@.allocated_bytes + vstd::layout::size_of::<GcBox<T>>() <= usize::MAX,
        ensures
            final(self).wf(),
            gc.id() == old(self)@.objects.len(),
            final(self)@.objects == old(self)@.objects.push(Some(ObjView { strong: 1, data })),
            final(self)@.allocated_bytes == old(self)@.allocated_bytes + vstd::layout::size_of::<
                GcBox<T>,
            >(),
            final(self)@.allocated_objects == old(self)@.allocated_objects + 1,
            final(self)@.threshold == old(self)@.threshold,
    {
        let sz = core::mem::size_of::<GcBox<T>>();
        let ghost objs = self@.objects;
        let n = self.slots.len();
        proof {
            self.lemma_view();
            lemma_live_count_le(objs, n as int);
        }
        let mut header = GcHeader::new();
        header.incr_strong();
        self.slots.push(Some(GcBox { header, data }));
        proof {
            self.lemma_view();
            assert(self@.objects =~= objs.push(Some(ObjView { strong: 1, data })));
            lemma_live_count_same(objs, self@.objects.subrange(0, n as int), n as int);
            lemma_live_count_prefix(self@.objects, n as int);
            let c = live_count(objs, n as int);
            assert(live_count(self@.objects, n + 1) == c + 1);
            assert((c + 1) * sz == c * sz + sz) by (nonlinear_arith);
        }
        self.stats.allocated_bytes = self.stats.allocated_bytes + sz;
        self.stats.allocated_objects = self.stats.allocated_objects + 1;
        Gc::from_slot(n)
    }

    /// A second handle to a live object.
    pub fn clone_gc(&mut self, gc: &Gc) -> (copy: Gc)
        requires
            old(self).wf(),
            live(old(self)@.objects, gc.id() as int),
            strong_of(old(self)@.objects, gc.id() as int) + 1 < MAX_COUNT,
        ensures
            final(self).wf(),
            copy == *gc,
            copy.id() == gc.id(),
            final(self)@.objects == old(self)@.objects.update(
                gc.id() as int,
                Some(
                    ObjView {
                        strong: strong_of(old(self)@.objects, gc.id() as int) + 1,
                        data: old(self)@.objects[gc.id() as int]->0.data,
                    },
                ),
            ),
            final(self)@.allocated_bytes == old(self)@.allocated_bytes,
            final(self)@.allocated_objects == old(self)@.allocated_objects,
            final(self)@.threshold == old(self)@.threshold,
    {
        let ghost objs = self@.objects;
        proof {
            self.lemma_view();
        }
        let x = gc.slot();
        match &mut self.slots[x] {
            Some(b) => {
                b.header.incr_strong();
            },
            None => {},
        }
        proof {
            self.lemma_view();
            old(self).lemma_view();
            assert(self@.objects =~= objs.update(
                x as int,
                Some(ObjView { strong: strong_of(objs, x as int) + 1, data: objs[x as int]->0.data }),
            ));
            lemma_live_count_same(objs, self@.objects, objs.len() as int);
        }
        gc.duplicate()
    }

    /// Give up a handle to a live object.
    pub fn drop_gc(&mut self, gc: Gc)
        requires
            old(self).wf(),
            live(old(self)@.objects, gc.id() as int),
            strong_of(old(self)@.objects, gc.id() as int) > 0,
        ensures
            final(self).wf(),
            final(self)@.objects == old(self)@.objects.update(
                gc.id() as int,
                Some(
                    ObjView {
                        strong: (strong_of(old(self)@.objects, gc.id() as int) - 1) as nat,
                        data: old(self)@.objects[gc.id() as int]->0.data,
                    },
                ),
            ),
            final(self)@.allocated_bytes == old(self)@.allocated_bytes,
            final(self)@.allocated_objects == old(self)@.allocated_objects,
            final(self)@.threshold == old(self)@.threshold,
    {
        let ghost objs = self@.objects;
        proof {
            self.lemma_view();
        }
        let x = gc.slot();
        match &mut self.slots[x] {
            Some(b) => {
                b.header.decr_strong();
            },
            None => {},
        }
        proof {
            self.lemma_view();
            old(self).lemma_view();
            assert(self@.objects =~= objs.update(
                x as int,
                Some(
                    ObjView {
                        strong: (strong_of(objs, x as int) - 1) as nat,
                        data: objs[x as int]->0.data,
                    },
                ),
            ));
            lemma_live_count_same(objs, self@.objects, objs.len() as int);
        }
    }

    /// The payload of a live object, for writing.
    pub fn get_mut(&mut self, gc: &Gc) -> (data: &mut T)
        requires
            old(self).wf(),
            live(old(self)@.objects, gc.id() as int),
        ensures
            *data == old(self)@.objects[gc.id() as int]->0.data,
            final(self).wf(),
            final(self)@.objects == old(self)@.objects.update(
                gc.id() as int,
                Some(
                    ObjView {
                        strong: strong_of(old(self)@.objects, gc.id() as int),
                        data: *final(data),
                    },
                ),
            ),
            final(self)@.allocated_bytes == old(self)@.allocated_bytes,
            final(self)@.allocated_objects == old(self)@.allocated_objects,
            final(self)@.threshold == old(self)@.threshold,
    {
        let ghost objs = self@.objects;
        proof {
            self.lemma_view();
            assert forall|o2: Seq<Option<ObjView<T>>>|
                o2.len() == objs.len() && (forall|y: int|
                    0 <= y < objs.len() ==> (#[trigger] o2[y] is Some <==> objs[y] is Some))
                implies #[trigger] live_count(o2, objs.len() as int) == live_count(
                objs,
                objs.len() as int,
            ) by {
                lemma_live_count_same(objs, o2, objs.len() as int);
            }
        }
        let x = gc.slot();
        let b = self.slots[x].as_mut().unwrap();
        &mut b.data
    }

    /// An empty heap.
    pub fn new() -> (heap: Self)
        ensures
            heap.wf(),
            heap@.objects == Seq::<Option<ObjView<T>>>::empty(),
            heap@.allocated_bytes == 0,
            heap@.allocated_objects == 0,
            heap@.threshold == MIN_HEAP_SIZE,
    {
        let heap = GcHeap {
            stats: GcStats {
                allocated_bytes: 0,
                allocated_objects: 0,
                threshhold_bytes: MIN_HEAP_SIZE,
            },
            slots: Vec::new(),
        };
        assert(heap@.objects =~= Seq::<Option<ObjView<T>>>::empty());
        heap
    }

    /// The number of slots, live or freed.
    pub fn slot_count(&self) -> (n: usize)
        ensures
            n == self@.objects.len(),
    {
        proof {
            self.lemma_view();
        }
        self.slots.len()
    }

    /// The heap statistics.
    pub fn stats(&self) -> (stats: &GcStats)
        ensures
            stats.allocated_bytes == self@.allocated_bytes,
            stats.allocated_objects == self@.allocated_objects,
            stats.threshhold_bytes == self@.threshold,
    {
        &self.stats
    }

    /// The payload of a live object.
    pub fn get(&self, gc: &Gc) -> (data: &T)
        requires
            self.wf(),
            live(self@.objects, gc.id() as int),
        ensures
            *data == self@.objects[gc.id() as int]->0.data,
    {
        proof {
            self.lemma_view();
        }
        let b = self.slots[gc.slot()].as_ref().unwrap();
        &b.data
    }
}

impl<T: Trace> GcHeap<T> {
    /// Ask every live object for the handles it holds: `trace` for the
    /// first list, `trace_in_heap` for the second; freed slots report none.
    fn snapshot(&self) -> (graphs: (Vec<Vec<usize>>, Vec<Vec<usize>>))
        ensures
            reports(self@.objects, graphs.0@, graphs.1@),
    {
        let n = self.slots.len();
        let mut tr: Vec<Vec<usize>> = Vec::new();
        let mut th: Vec<Vec<usize>> = Vec::new();
        let mut i: usize = 0;
        while i < n
            invariant
                0 <= i <= n,
                n == self.slots@.len(),
                tr@.len() == i,
                th@.len() == i,
                forall|k: int|
                    0 <= k < i ==> #[trigger] tr@[k]@ == traced(self@.objects, k) && th@[k]@
                        == traced_in_heap(self@.objects, k),
            decreases n - i,
        {
            proof {
                self.lemma_view();
            }
            match &self.slots[i] {
                Some(b) => {
                    let mut tracer = Tracer::new();
                    assert(Seq::<usize>::empty() + b.data.handles() =~= b.data.handles());
                    assert(Seq::<usize>::empty() + b.data.heap_handles() =~= b.data.heap_handles());
                    b.data.trace(&mut tracer);
                    proof {
                        lemma_tracer_after_reported(empty_tracer(), b.data.handles());
                    }
                    tr.push(tracer.into_edges());
                    let mut in_heap_tracer = Tracer::new();
                    b.data.trace_in_heap(&mut in_heap_tracer);
                    proof {
                        lemma_tracer_after_reported(empty_tracer(), b.data.heap_handles());
                    }
                    th.push(in_heap_tracer.into_edges());
                },
                None => {
                    tr.push(Vec::new());
                    th.push(Vec::new());
                },
            }
            i += 1;
        }
        proof {
            self.lemma_view();
        }
        (tr, th)
    }

    /// Collect the heap: free every object that cannot be reached from a
    /// root along the handles that the objects report.
    pub fn collect(&mut self)
        requires
            old(self).wf(),
        ensures
            final(self).wf(),
            final(self)@.allocated_bytes <= old(self)@.allocated_bytes,
            exists|tr: Seq<Vec<usize>>, th: Seq<Vec<usize>>|
                {
                    &&& reports(old(self)@.objects, tr, th)
                    &&& final(self)@ == #[trigger] collect_result(old(self)@, tr, th)
                },
    {
        proof {
            self.lemma_view();
        }
        let (tr, th) = self.snapshot();
        self.collect_with(&tr, &th);
    }

    /// Collect when the heap would reach its threshold.
    fn ensure_heap_size(&mut self, target_size: usize)
        requires
            old(self).wf(),
            old(self)@.allocated_bytes <= usize::MAX / 2,
            target_size == old(self)@.allocated_bytes + vstd::layout::size_of::<GcBox<T>>(),
        ensures
            final(self).wf(),
            prepared_for_alloc(old(self)@, final(self)@),
            final(self)@.allocated_bytes <= old(self)@.allocated_bytes,
    {
        if target_size >= self.stats.threshhold_bytes {
            let ghost before = self@;
            self.collect();
            let ghost mid = self@;
            self.stats.threshhold_bytes = self.stats.allocated_bytes * 2;
            proof {
                let (tr, th) = choose|tr: Seq<Vec<usize>>, th: Seq<Vec<usize>>|
                    {
                        &&& reports(before.objects, tr, th)
                        &&& mid == #[trigger] collect_result(before, tr, th)
                    };
                assert(collect_result(before, tr, th) == HeapView {
                    threshold: collect_result(before, tr, th).threshold,
                    ..self@
                });
            }
        }
    }

    /// Allocate an object holding `data`, with one handle, which is returned.
    /// The heap may be collected first (see [`prepared_for_alloc`]).
    pub fn allocate(&mut self, data: T) -> (gc: Gc)
        requires
            old(self).wf(),
            old(self)@.objects.len() < usize::MAX,
            old(self)@.allocated_bytes + vstd::layout::size_of::<GcBox<T>>() <= usize::MAX / 2,
        ensures
            final(self).wf(),
            final(self)@.allocated_bytes <= old(self)@.allocated_bytes + vstd::layout::size_of::<
                GcBox<T>,
            >(),
            final(self)@.objects.len() == old(self)@.objects.len() + 1,
            gc.id() == old(self)@.objects.len(),
            handles_bounded(old(self)@.objects) && (forall|k: int|
                0 <= k < data.heap_handles().len() ==> #[trigger] data.heap_handles()[k] < old(
                    self,
                )@.objects.len()) ==> forall|tr: Seq<Vec<usize>>, th: Seq<Vec<usize>>|
                reports(final(self)@.objects, tr, th) ==> (#[trigger] collect_objects(
                    final(self)@.objects,
                    tr,
                    th,
                ))[gc.id() as int] is Some,
            exists|mid: HeapView<T>|
                {
                    &&& #[trigger] prepared_for_alloc(old(self)@, mid)
                    &&& gc.id() == mid.objects.len()
                    &&& final(self)@ == HeapView {
                        objects: mid.objects.push(Some(ObjView { strong: 1, data })),
                        allocated_bytes: mid.allocated_bytes + vstd::layout::size_of::<GcBox<T>>(),
                        allocated_objects: mid.allocated_objects + 1,
                        threshold: mid.threshold,
                    }
                },
    {
        let sz = core::mem::size_of::<GcBox<T>>();
        self.ensure_heap_size(self.stats.allocated_bytes + sz);
        let ghost mid = self@;
        proof {
            self.lemma_view();
            old(self).lemma_view();
        }
        let ghost payload = data;
        let gc = self.push_object(data);
        proof {
            assert(prepared_for_alloc(old(self)@, mid));
            lemma_prepared_keeps_slots(old(self)@, mid);
            let o = old(self)@.objects;
            let fin = self@.objects;
            let j = gc.id() as int;
            if handles_bounded(o) && (forall|k: int|
                0 <= k < payload.heap_handles().len() ==> #[trigger] payload.heap_handles()[k]
                    < o.len()) {
                assert forall|i: int| 0 <= i < fin.len() && live(fin, i) implies !(
                #[trigger] traced_in_heap(fin, i)).contains(j as usize) by {
                    let hh = traced_in_heap(fin, i);
                    if hh.contains(j as usize) {
                        let k = choose|k: int| 0 <= k < hh.len() && hh[k] == j as usize;
                        if i == j {
                            assert(payload.heap_handles()[k] < o.len());
                        } else {
                            assert(fin[i] == mid.objects[i]);
                            assert(o[i]->0.data.heap_handles()[k] < o.len());
                        }
                    }
                }
                assert forall|tr: Seq<Vec<usize>>, th: Seq<Vec<usize>>|
                    reports(fin, tr, th) implies (#[trigger] collect_objects(
                    fin,
                    tr,
                    th,
                ))[j] is Some by {
                    lemma_unreported_survives(fin, tr, th, j);
                }
            }
        }
        gc
    }
}

/// A handle that keeps an object alive from outside the heap.
pub struct Root {
    gc: Gc,
}

impl Root {
    /// The slot of the object.
    pub closed spec fn id(&self) -> usize {
        self.gc.id()
    }

    /// The payload of the live object this root refers to.
    pub fn as_ref<'a, T>(&self, heap: &'a GcHeap<T>) -> (data: &'a T)
        requires
            heap.wf(),
            live(heap@.objects, self.id() as int),
        ensures
            *data == heap@.objects[self.id() as int]->0.data,
    {
        heap.get(&self.gc)
    }
}

impl<T> GcHeap<T> {
    /// A root for the live object `gc` refers to: one more handle to it.
    pub fn root(&mut self, gc: &Gc) -> (root: Root)
        requires
            old(self).wf(),
            live(old(self)@.objects, gc.id() as int),
            strong_of(old(self)@.objects, gc.id() as int) + 1 < MAX_COUNT,
        ensures
            final(self).wf(),
            root.id() == gc.id(),
            final(self)@.objects == old(self)@.objects.update(
                gc.id() as int,
                Some(
                    ObjView {
                        strong: strong_of(old(self)@.objects, gc.id() as int) + 1,
                        data: old(self)@.objects[gc.id() as int]->0.data,
                    },
                ),
            ),
            final(self)@.allocated_bytes == old(self)@.allocated_bytes,
            final(self)@.allocated_objects == old(self)@.allocated_objects,
            final(self)@.threshold == old(self)@.threshold,
    {
        Root { gc: self.clone_gc(gc) }
    }

    /// Give up a root: one handle less to its object.
    pub fn drop_root(&mut self, root: Root)
        requires
            old(self).wf(),
            live(old(self)@.objects, root.id() as int),
            strong_of(old(self)@.objects, root.id() as int) > 0,
        ensures
            final(self).wf(),
            final(self)@.objects == old(self)@.objects.update(
                root.id() as int,
                Some(
                    ObjView {
                        strong: (strong_of(old(self)@.objects, root.id() as int) - 1) as nat,
                        data: old(self)@.objects[root.id() as int]->0.data,
                    },
                ),
            ),
            final(self)@.allocated_bytes == old(self)@.allocated_bytes,
            final(self)@.allocated_objects == old(self)@.allocated_objects,
            final(self)@.threshold == old(self)@.threshold,
    {
        self.drop_gc(root.gc)
    }
}

impl Gc {
    /// The payload of the live object this handle refers to.
    pub fn as_ref<'a, T>(&self, heap: &'a GcHeap<T>) -> (data: &'a T)
        requires
            heap.wf(),
            live(heap@.objects, self.id() as int),
        ensures
            *data == heap@.objects[self.id() as int]->0.data,
    {
        heap.get(self)
    }
}

} // verus!
