//! Recursive descent parser.

use vstd::prelude::*;
use vstd::string::StringExecFns;

use crate::error::Error;
use crate::gc::heap::{
    collect_objects, guarded, handles_bounded, lemma_collect_bounded, lemma_collect_only_frees,
    lemma_guarded_survive, live, prepared_for_alloc, reports, reports_handle, GcBox, HeapView,
};
use crate::gc::{GcHeap, Trace};
use crate::lexer::lexer::{lemma_scan_token_bounds, scan_token};
use crate::lexer::token::{span_covers, TokenKind};
use crate::display::{repr_spec, reprable, ReprDisplay};
use crate::lexer::lexer::Lexer;
use crate::lexer::token_stream::{
    lexed, peeked_token, stream_next, stream_peek, token_model, StreamView, TokenStream,
};
use crate::parser::number::parse_i64;
use crate::store::Store;
use crate::object::{
    denotes, drop_value, is_pair_object, lemma_denotes_stable, lemma_tree_in_grow, pair_allocated,
    tree_in,
    value_slots, Datum, Number, Object, Objects, PairObject, Value,
};
use crate::parser::grammar::{
    lemma_args_progress, lemma_expr_progress, lemma_next_measure, lemma_peek_measure,
    parse_args_spec, parse_call_spec, parse_expr_spec, parse_number_spec, span_text,
    stream_measure, stream_valid, ParseFailure, Parsed,
};

verus! {

// ------------------------------------------------------------------------
// What the parser keeps true of the heap
// ------------------------------------------------------------------------

/// Objects from slot `lo` on hold handles only to slots from `lo` on.
pub open spec fn fresh_closed(objs: Objects, lo: int) -> bool {
    forall|i: int, k: int|
        #![trigger objs[i]->0.data.handles()[k]]
        #![trigger objs[i]->0.data.heap_handles()[k]]
        live(objs, i) && lo <= i ==> (0 <= k < objs[i]->0.data.handles().len()
            ==> objs[i]->0.data.handles()[k] >= lo) && (0 <= k
            < objs[i]->0.data.heap_handles().len() ==> objs[i]->0.data.heap_handles()[k] >= lo)
}

/// A value the parser builds: no handle, or a handle to a pair in a slot
/// from `lo` on that is held from outside the heap.
pub open spec fn value_ok(v: Value, roots: Set<int>, lo: int) -> bool {
    match v {
        Value::Pair(p) => roots.contains(p.0.id() as int) && p.0.id() >= lo,
        Value::Env(_) => false,
        _ => true,
    }
}

/// The slots from `lo` up to `hi`.
pub open spec fn slot_range(lo: int, hi: int) -> Set<int> {
    Set::new(|j: int| lo <= j < hi)
}

/// The size of a heap object.
pub open spec fn object_size() -> int {
    vstd::layout::size_of::<GcBox<Object>>() as int
}

/// Room in the heap for a parse whose stream has measure `m`: one
/// allocation per unit at most.
pub open spec fn budget(h: HeapView<Object>, m: int) -> bool {
    &&& h.allocated_bytes + m * object_size() <= usize::MAX / 2
    &&& h.objects.len() + m < usize::MAX
}

/// Going from `h0` at measure `m0` to `h1` at measure `m1` used no more
/// room than the measure dropped, with `extra` units left over.
pub open spec fn spent(h0: HeapView<Object>, m0: int, h1: HeapView<Object>, m1: int, extra: int) -> bool {
    &&& h1.allocated_bytes + (m1 + extra) * object_size() <= h0.allocated_bytes + m0 * object_size()
    &&& h1.objects.len() + m1 + extra <= h0.objects.len() + m0
}

/// The error `e` is the failure `fail`.
pub open spec fn error_matches(e: Error, fail: ParseFailure) -> bool {
    match (e, fail) {
        (Error::UnexpectedToken(token, message), ParseFailure::UnexpectedToken(model, text)) => {
            token_model(token) == model && message@ == text
        },
        (Error::UnexpectedEOF, ParseFailure::UnexpectedEOF) => true,
        _ => false,
    }
}

/// The result `res` is what the grammar gives, `r`, in the heap `objs`.
pub open spec fn result_matches(res: Result<Value, Error>, r: Result<Datum, ParseFailure>, objs: Objects) -> bool {
    match (res, r) {
        (Ok(value), Ok(d)) => denotes(objs, value, d),
        (Err(e), Err(fail)) => error_matches(e, fail),
        _ => false,
    }
}

/// After one parsing step from stream `v0` and heap `h0`, with the objects of
/// `f` guarded (those of `roots` held from outside), to stream `v1`, heap
/// `h1` and result `res`: the step did what the grammar says, `p`; the
/// objects of `f` are untouched and still guarded; the new objects are the
/// result's and guarded with it; the room used is accounted for.
pub open spec fn stepped(
    v0: crate::lexer::token_stream::StreamView,
    v1: crate::lexer::token_stream::StreamView,
    h0: HeapView<Object>,
    h1: HeapView<Object>,
    f: Set<int>,
    roots: Set<int>,
    res: Result<Value, Error>,
    p: Parsed,
) -> bool {
    let lo = h0.objects.len() as int;
    let hi = h1.objects.len() as int;
    match p {
        Parsed::Done(r, v2) => {
            &&& v1 == v2
            &&& handles_bounded(h1.objects)
            &&& fresh_closed(h1.objects, lo)
            &&& lo <= hi
            &&& forall|j: int| #[trigger] f.contains(j) ==> h1.objects[j] == h0.objects[j]
            &&& result_matches(res, r, h1.objects)
            &&& match (res, r) {
                (Ok(value), Ok(d)) => {
                    &&& guarded(
                        h1.objects,
                        f.union(slot_range(lo, hi)),
                        roots.union(value_slots(value)),
                    )
                    &&& value_ok(value, roots.union(value_slots(value)), lo)
                    &&& tree_in(h1.objects, value, d, slot_range(lo, hi))
                    &&& spent(h0, stream_measure(v0), h1, stream_measure(v1), 1)
                },
                _ => {
                    &&& guarded(h1.objects, f, roots)
                    &&& spent(h0, stream_measure(v0), h1, stream_measure(v1), 0)
                },
            }
        },
        Parsed::Unfinished => false,
    }
}

/// Scaling by the object size keeps order.
proof fn lemma_scale(a: int, b: int)
    requires
        a <= b,
    ensures
        a * object_size() <= b * object_size(),
        (a + 1) * object_size() == a * object_size() + object_size(),
{
    let s = object_size();
    assert(s >= 0);
    assert(a * s <= b * s) by (nonlinear_arith)
        requires
            a <= b,
            s >= 0,
    ;
    assert((a + 1) * s == a * s + s) by (nonlinear_arith);
}

/// The handles of a value the parser builds are its slots.
proof fn lemma_value_handles(v: Value)
    ensures
        v.heap_handles() == v.handles(),
        v.handles().len() <= 1,
        forall|x: int|
            0 <= x <= usize::MAX ==> (v.handles().contains(x as usize) <==> #[trigger] value_slots(
                v,
            ).contains(x)),
        forall|x: int| #[trigger] value_slots(v).contains(x) ==> 0 <= x <= usize::MAX,
{
    match v {
        Value::Pair(p) => {
            assert(v.handles() =~= seq![p.0.id()]);
            assert forall|x: int|
                0 <= x <= usize::MAX implies (v.handles().contains(x as usize)
                <==> #[trigger] value_slots(v).contains(x)) by {
                if v.handles().contains(x as usize) {
                    assert(v.handles()[0] == x as usize);
                }
                if value_slots(v).contains(x) {
                    assert(v.handles()[0] == x as usize);
                }
            }
        },
        Value::Env(env) => {
            assert(v.handles() =~= seq![env.id()]);
            assert forall|x: int|
                0 <= x <= usize::MAX implies (v.handles().contains(x as usize)
                <==> #[trigger] value_slots(v).contains(x)) by {
                if v.handles().contains(x as usize) {
                    assert(v.handles()[0] == x as usize);
                }
                if value_slots(v).contains(x) {
                    assert(v.handles()[0] == x as usize);
                }
            }
        },
        _ => {
            assert(v.handles() =~= Seq::<usize>::empty());
        },
    }
}

/// Allocating a pair of `car` and `cdr`, each a guarded root or no handle,
/// keeps the guarded objects and guards the new pair, which takes the place
/// of `car` and `cdr` as a root.
proof fn lemma_alloc_step(
    old: HeapView<Object>,
    new: HeapView<Object>,
    n: int,
    car: Value,
    cdr: Value,
    f: Set<int>,
    roots: Set<int>,
    lo: int,
)
    requires
        guarded(old.objects, f, roots),
        handles_bounded(old.objects),
        fresh_closed(old.objects, lo),
        value_ok(car, roots, lo),
        value_ok(cdr, roots, lo),
        pair_allocated(old, new, n, car, cdr),
        old.objects.len() < usize::MAX,
    ensures
        n == old.objects.len(),
        new.objects.len() == n + 1,
        forall|j: int| #[trigger] f.contains(j) ==> new.objects[j] == old.objects[j],
        guarded(
            new.objects,
            f.insert(n),
            roots.difference(value_slots(car)).difference(value_slots(cdr)).insert(n),
        ),
        handles_bounded(new.objects),
        fresh_closed(new.objects, lo),
        is_pair_object(new.objects[n], 1, car, cdr),
{
    let mid = choose|mid: HeapView<Object>|
        {
            &&& #[trigger] prepared_for_alloc(old, mid)
            &&& n == mid.objects.len()
            &&& new.objects.len() == n + 1
            &&& new.objects.take(n) == mid.objects
            &&& is_pair_object(new.objects[n], 1, car, cdr)
            &&& new.allocated_bytes == mid.allocated_bytes + vstd::layout::size_of::<
                GcBox<Object>,
            >()
            &&& new.allocated_objects == mid.allocated_objects + 1
            &&& new.threshold == mid.threshold
        };
    let objs = old.objects;
    // The collection, if any, keeps what is guarded.
    if old.allocated_bytes + vstd::layout::size_of::<GcBox<Object>>() >= old.threshold {
        let (tr, th) = choose|tr: Seq<Vec<usize>>, th: Seq<Vec<usize>>|
            {
                &&& reports(old.objects, tr, th)
                &&& #[trigger] crate::gc::heap::collect_result(old, tr, th) == HeapView {
                    threshold: crate::gc::heap::collect_result(old, tr, th).threshold,
                    ..mid
                }
                &&& mid.threshold == mid.allocated_bytes * 2
            };
        assert(mid.objects == collect_objects(objs, tr, th));
        lemma_guarded_survive(objs, tr, th, f, roots);
        lemma_collect_bounded(objs, tr, th);
        assert forall|i: int, k: int|
            live(mid.objects, i) && lo <= i implies (0 <= k
            < mid.objects[i]->0.data.handles().len() ==> #[trigger] mid.objects[i]->0.data.handles()[k]
            >= lo) && (0 <= k < mid.objects[i]->0.data.heap_handles().len()
            ==> #[trigger] mid.objects[i]->0.data.heap_handles()[k] >= lo) by {
            lemma_collect_only_frees(objs, tr, th, i);
        }
    } else {
        assert(mid == old);
    }
    let mo = mid.objects;
    let no = new.objects;
    assert forall|j: int| 0 <= j < n implies #[trigger] no[j] == mo[j] by {
        assert(no.take(n)[j] == no[j]);
    }
    let cell = match no[n]->0.data {
        Object::Pair(c) => c,
        Object::Env(_) => arbitrary(),
    };
    assert(no[n]->0.data.handles() == car.handles() + cdr.handles());
    assert(no[n]->0.data.heap_handles() == car.heap_handles() + cdr.heap_handles());
    assert(car.heap_handles() == car.handles());
    assert(cdr.heap_handles() == cdr.handles());
    assert(no[n]->0.data.heap_handles() == no[n]->0.data.handles());
    // The handles of the new pair: those of `car` and of `cdr`.
    lemma_value_handles(car);
    lemma_value_handles(cdr);
    assert forall|x: int|
        0 <= x <= usize::MAX && no[n]->0.data.handles().contains(x as usize) implies value_slots(
        car,
    ).contains(x) || value_slots(cdr).contains(x) by {
        let k = choose|k: int|
            0 <= k < no[n]->0.data.handles().len() && no[n]->0.data.handles()[k] == x as usize;
        if k < car.handles().len() {
            assert(no[n]->0.data.handles()[k] == car.handles()[k]);
            assert(car.handles().contains(x as usize));
        } else {
            assert(no[n]->0.data.handles()[k] == cdr.handles()[k - car.handles().len()]);
            assert(cdr.handles().contains(x as usize));
        }
    }
    let f2 = f.insert(n);
    let roots2 = roots.difference(value_slots(car)).difference(value_slots(cdr)).insert(n);
    // Slots below `n` hold no handle to `n`.
    assert forall|i: int|
        0 <= i < n && live(no, i) implies !no[i]->0.data.handles().contains(n as usize)
        && !no[i]->0.data.heap_handles().contains(n as usize) by {
        assert(no[i] == mo[i]);
        if no[i]->0.data.handles().contains(n as usize) {
            let k = choose|k: int|
                0 <= k < no[i]->0.data.handles().len() && no[i]->0.data.handles()[k] == n as usize;
            assert(mo[i]->0.data.handles()[k] < mo.len());
        }
        if no[i]->0.data.heap_handles().contains(n as usize) {
            let k = choose|k: int|
                0 <= k < no[i]->0.data.heap_handles().len() && no[i]->0.data.heap_handles()[k]
                    == n as usize;
            assert(mo[i]->0.data.heap_handles()[k] < mo.len());
        }
    }
    assert forall|i: int, j: int|
        f2.contains(j) && #[trigger] reports_handle(no, i, j) implies f2.contains(i) by {
        if i != n {
            assert(no[i] == mo[i]);
            assert(reports_handle(mo, i, j));
        }
    }
    assert forall|j: int|
        #[trigger] f2.contains(j) && !roots2.contains(j) implies exists|p: int|
            f2.contains(p) && p > j && #[trigger] no[p]->0.data.handles().contains(j as usize) by {
        if roots.contains(j) {
            assert(value_slots(car).contains(j) || value_slots(cdr).contains(j));
            if value_slots(car).contains(j) {
                assert(car.handles() =~= seq![j as usize]);
                assert(no[n]->0.data.handles()[0] == j as usize);
            } else {
                assert(cdr.handles() =~= seq![j as usize]);
                assert(no[n]->0.data.handles()[car.handles().len() as int] == j as usize);
            }
            assert(no[n]->0.data.handles().contains(j as usize));
        } else {
            let p = choose|p: int|
                f.contains(p) && p > j && #[trigger] mo[p]->0.data.handles().contains(j as usize);
            assert(no[p] == mo[p]);
        }
    }
    assert forall|i: int, j: int|
        roots2.contains(j) && live(no, i) implies !(
        #[trigger] no[i]->0.data.heap_handles().contains(j as usize)) by {
        if i == n {
            if no[n]->0.data.heap_handles().contains(j as usize) {
                assert(value_slots(car).contains(j) || value_slots(cdr).contains(j));
            }
        } else if j != n {
            assert(no[i] == mo[i]);
        }
    }
    assert forall|j: int| #[trigger] f2.contains(j) implies 0 <= j && live(no, j)
        && no[j]->0.strong >= 1 by {
        if j != n {
            assert(no[j] == mo[j]);
        }
    }
    assert(guarded(no, f2, roots2));
    assert forall|i: int, k: int| live(no, i) implies (0 <= k
        < no[i]->0.data.handles().len() ==> #[trigger] no[i]->0.data.handles()[k] < no.len()) && (0
        <= k < no[i]->0.data.heap_handles().len() ==> #[trigger] no[i]->0.data.heap_handles()[k]
        < no.len()) by {
        if i == n {
            if 0 <= k < no[n]->0.data.handles().len() {
                let x = no[n]->0.data.handles()[k] as int;
                assert(no[n]->0.data.handles().contains(x as usize));
                assert(value_slots(car).contains(x) || value_slots(cdr).contains(x));
            }
        } else {
            assert(no[i] == mo[i]);
            assert(0 <= k < no[i]->0.data.handles().len() ==> mo[i]->0.data.handles()[k]
                < mo.len());
            assert(0 <= k < no[i]->0.data.heap_handles().len() ==> mo[i]->0.data.heap_handles()[k]
                < mo.len());
        }
    }
    assert forall|i: int, k: int| live(no, i) && lo <= i implies (0 <= k
        < no[i]->0.data.handles().len() ==> #[trigger] no[i]->0.data.handles()[k] >= lo) && (0 <= k
        < no[i]->0.data.heap_handles().len() ==> #[trigger] no[i]->0.data.heap_handles()[k] >= lo) by {
        if i == n {
            if 0 <= k < no[n]->0.data.handles().len() {
                let x = no[n]->0.data.handles()[k] as int;
                assert(no[n]->0.data.handles().contains(x as usize));
                assert(value_slots(car).contains(x) || value_slots(cdr).contains(x));
            }
        } else {
            assert(no[i] == mo[i]);
            assert(0 <= k < no[i]->0.data.handles().len() ==> mo[i]->0.data.handles()[k] >= lo);
            assert(0 <= k < no[i]->0.data.heap_handles().len() ==> mo[i]->0.data.heap_handles()[k]
                >= lo);
        }
    }
}


/// When a parse fails, the objects it built (from slot `lo` on) leave the
/// guarded set; what was guarded before stays guarded.
proof fn lemma_restrict(
    objs: Objects,
    f: Set<int>,
    r: Set<int>,
    roots: Set<int>,
    x: Set<int>,
    lo: int,
)
    requires
        guarded(objs, f.union(r), roots.union(x)),
        fresh_closed(objs, lo),
        roots.subset_of(f),
        forall|j: int| #[trigger] f.contains(j) ==> j < lo,
        forall|j: int| #[trigger] r.contains(j) ==> j >= lo,
        forall|j: int| #[trigger] x.contains(j) ==> j >= lo,
        lo <= usize::MAX,
    ensures
        guarded(objs, f, roots),
{
    let big = f.union(r);
    assert forall|j: int| #[trigger] f.contains(j) implies 0 <= j && live(objs, j)
        && objs[j]->0.strong >= 1 by {
        assert(big.contains(j));
    }
    // An object built since `lo` reports no handle below `lo`.
    assert forall|i: int, j: int|
        live(objs, i) && lo <= i && 0 <= j < lo implies !#[trigger] objs[i]->0.data.handles().contains(
        j as usize,
    ) && !objs[i]->0.data.heap_handles().contains(j as usize) by {
        if objs[i]->0.data.handles().contains(j as usize) {
            let k = choose|k: int|
                0 <= k < objs[i]->0.data.handles().len() && objs[i]->0.data.handles()[k]
                    == j as usize;
            assert(objs[i]->0.data.handles()[k] >= lo);
        }
        if objs[i]->0.data.heap_handles().contains(j as usize) {
            let k = choose|k: int|
                0 <= k < objs[i]->0.data.heap_handles().len() && objs[i]->0.data.heap_handles()[k]
                    == j as usize;
            assert(objs[i]->0.data.heap_handles()[k] >= lo);
        }
    }
    assert forall|i: int, j: int|
        f.contains(j) && #[trigger] reports_handle(objs, i, j) implies f.contains(i) by {
        assert(big.contains(j));
        assert(big.contains(i));
        if r.contains(i) {
            assert(0 <= j < lo);
        }
    }
    assert forall|j: int|
        #[trigger] f.contains(j) && !roots.contains(j) implies exists|p: int|
            f.contains(p) && p > j && #[trigger] objs[p]->0.data.handles().contains(j as usize) by {
        assert(big.contains(j));
        assert(!x.contains(j));
        assert(!roots.union(x).contains(j));
        let p = choose|p: int|
            big.contains(p) && p > j && #[trigger] objs[p]->0.data.handles().contains(j as usize);
        if r.contains(p) {
            assert(0 <= j < lo);
            assert(live(objs, p));
        }
    }
    assert forall|i: int, j: int|
        roots.contains(j) && live(objs, i) implies !(
        #[trigger] objs[i]->0.data.heap_handles().contains(j as usize)) by {
        assert(roots.union(x).contains(j));
    }
}

/// Giving up a handle to an object that is not guarded keeps what is.
proof fn lemma_release_keeps(objs: Objects, f: Set<int>, roots: Set<int>, lo: int, r: int, strong: nat)
    requires
        guarded(objs, f, roots),
        handles_bounded(objs),
        fresh_closed(objs, lo),
        !f.contains(r),
        live(objs, r),
    ensures
        guarded(
            objs.update(r, Some(crate::gc::heap::ObjView { strong, data: objs[r]->0.data })),
            f,
            roots,
        ),
        handles_bounded(
            objs.update(r, Some(crate::gc::heap::ObjView { strong, data: objs[r]->0.data })),
        ),
        fresh_closed(
            objs.update(r, Some(crate::gc::heap::ObjView { strong, data: objs[r]->0.data })),
            lo,
        ),
{
    let o2 = objs.update(r, Some(crate::gc::heap::ObjView { strong, data: objs[r]->0.data }));
    assert forall|i: int| 0 <= i < objs.len() implies #[trigger] o2[i]->0.data == objs[i]->0.data
        && (live(o2, i) <==> live(objs, i)) by {}
    assert forall|i: int, j: int|
        f.contains(j) && #[trigger] reports_handle(o2, i, j) implies f.contains(i) by {
        assert(reports_handle(objs, i, j));
    }
    assert forall|j: int|
        #[trigger] f.contains(j) && !roots.contains(j) implies exists|p: int|
            f.contains(p) && p > j && #[trigger] o2[p]->0.data.handles().contains(j as usize) by {
        let p = choose|p: int|
            f.contains(p) && p > j && #[trigger] objs[p]->0.data.handles().contains(j as usize);
        assert(o2[p] == objs[p]);
    }
    assert forall|j: int| #[trigger] f.contains(j) implies 0 <= j && live(o2, j) && o2[j]->0.strong
        >= 1 by {
        assert(o2[j] == objs[j]);
    }
    assert forall|i: int, j: int|
        roots.contains(j) && live(o2, i) implies !(
        #[trigger] o2[i]->0.data.heap_handles().contains(j as usize)) by {
        assert(o2[i]->0.data == objs[i]->0.data);
    }
    assert forall|i: int, k: int| live(o2, i) implies (0 <= k < o2[i]->0.data.handles().len()
        ==> #[trigger] o2[i]->0.data.handles()[k] < o2.len()) && (0 <= k
        < o2[i]->0.data.heap_handles().len() ==> #[trigger] o2[i]->0.data.heap_handles()[k]
        < o2.len()) by {
        assert(o2[i]->0.data == objs[i]->0.data);
        assert(0 <= k < objs[i]->0.data.handles().len() ==> objs[i]->0.data.handles()[k]
            < objs.len());
        assert(0 <= k < objs[i]->0.data.heap_handles().len() ==> objs[i]->0.data.heap_handles()[k]
            < objs.len());
    }
    assert forall|i: int, k: int| live(o2, i) && lo <= i implies (0 <= k
        < o2[i]->0.data.handles().len() ==> #[trigger] o2[i]->0.data.handles()[k] >= lo) && (0 <= k
        < o2[i]->0.data.heap_handles().len() ==> #[trigger] o2[i]->0.data.heap_handles()[k] >= lo) by {
        assert(o2[i]->0.data == objs[i]->0.data);
        assert(0 <= k < objs[i]->0.data.handles().len() ==> objs[i]->0.data.handles()[k] >= lo);
        assert(0 <= k < objs[i]->0.data.heap_handles().len() ==> objs[i]->0.data.heap_handles()[k]
            >= lo);
    }
}



/// Guarded objects are in slots of the heap.
proof fn lemma_guarded_below(objs: Objects, f: Set<int>, roots: Set<int>)
    requires
        guarded(objs, f, roots),
    ensures
        forall|j: int| #[trigger] f.contains(j) ==> 0 <= j < objs.len(),
        roots.subset_of(f),
{
}

/// The objects built in two steps, from `lo` to `mid` and from `mid` on,
/// hold handles only to slots from `lo` on.
proof fn lemma_fresh_extend(o3: Objects, o4: Objects, f1: Set<int>, lo: int, mid: int)
    requires
        fresh_closed(o3, lo),
        fresh_closed(o4, mid),
        slot_range(lo, mid).subset_of(f1),
        forall|j: int| #[trigger] f1.contains(j) ==> o4[j] == o3[j],
        lo <= mid,
        mid <= o3.len(),
    ensures
        fresh_closed(o4, lo),
{
    assert forall|i: int, k: int| live(o4, i) && lo <= i implies (0 <= k
        < o4[i]->0.data.handles().len() ==> #[trigger] o4[i]->0.data.handles()[k] >= lo) && (0 <= k
        < o4[i]->0.data.heap_handles().len() ==> #[trigger] o4[i]->0.data.heap_handles()[k] >= lo) by {
        if i < mid {
            assert(slot_range(lo, mid).contains(i));
            assert(o4[i] == o3[i]);
            assert(0 <= k < o3[i]->0.data.handles().len() ==> o3[i]->0.data.handles()[k] >= lo);
            assert(0 <= k < o3[i]->0.data.heap_handles().len() ==> o3[i]->0.data.heap_handles()[k]
                >= lo);
        } else {
            assert(0 <= k < o4[i]->0.data.handles().len() ==> o4[i]->0.data.handles()[k] >= mid);
            assert(0 <= k < o4[i]->0.data.heap_handles().len() ==> o4[i]->0.data.heap_handles()[k]
                >= mid);
        }
    }
}

/// A step from a stream reached from `v0` by peeking is a step from `v0`.
proof fn lemma_stepped_from(
    v0: StreamView,
    v1: StreamView,
    v2: StreamView,
    h0: HeapView<Object>,
    h1: HeapView<Object>,
    f: Set<int>,
    roots: Set<int>,
    res: Result<Value, Error>,
    p: Parsed,
)
    requires
        stepped(v1, v2, h0, h1, f, roots, res, p),
        stream_measure(v1) <= stream_measure(v0),
    ensures
        stepped(v0, v2, h0, h1, f, roots, res, p),
{
    lemma_scale(stream_measure(v1), stream_measure(v0));
}

/// Two successful steps leave room for the pair that joins their results.
proof fn lemma_build_ready(
    h0: HeapView<Object>,
    h3: HeapView<Object>,
    h4: HeapView<Object>,
    m0: int,
    m2: int,
    m3: int,
    m4: int,
)
    requires
        budget(h0, m0),
        m2 <= m0,
        0 <= m4,
        spent(h0, m2, h3, m3, 1),
        spent(h3, m3, h4, m4, 1),
    ensures
        h4.objects.len() < usize::MAX,
        h4.allocated_bytes + object_size() <= usize::MAX / 2,
{
    lemma_scale(m2, m0);
    lemma_scale(m3, m3 + 1);
    lemma_scale(0, m4);
    lemma_scale(m4, m4);
}

/// The result of a finished parse.
pub open spec fn done_result(p: Parsed) -> Result<Datum, ParseFailure> {
    match p {
        Parsed::Done(r, _) => r,
        _ => Ok(Datum::Nil),
    }
}

/// The tree a finished parse stands for.
pub open spec fn done_datum(p: Parsed) -> Datum {
    match p {
        Parsed::Done(Ok(d), _) => d,
        _ => Datum::Nil,
    }
}

/// Joining the results of two successful steps in a new pair finishes a
/// step that stands for the pair of their trees.
proof fn lemma_build_done(
    h0: HeapView<Object>,
    h3: HeapView<Object>,
    h4: HeapView<Object>,
    h5: HeapView<Object>,
    v0: StreamView,
    v2: StreamView,
    v3: StreamView,
    v4: StreamView,
    f: Set<int>,
    roots: Set<int>,
    car: Value,
    cdr: Value,
    pair: PairObject,
    lo: int,
    mid: int,
    p1: Parsed,
    p2: Parsed,
)
    requires
        guarded(h0.objects, f, roots),
        lo == h0.objects.len(),
        mid == h3.objects.len(),
        forall|j: int| #[trigger] f.contains(j) ==> 0 <= j < lo,
        stream_measure(v2) <= stream_measure(v0),
        stepped(v2, v3, h0, h3, f, roots, Ok(car), p1),
        stepped(
            v3,
            v4,
            h3,
            h4,
            f.union(slot_range(lo, mid)),
            roots.union(value_slots(car)),
            Ok(cdr),
            p2,
        ),
        fresh_closed(h4.objects, lo),
        pair_allocated(h4, h5, pair.slot(), car, cdr),
        h5.allocated_bytes <= h4.allocated_bytes + object_size(),
        h4.objects.len() < usize::MAX,
        stream_measure(v4) >= 0,
    ensures
        stepped(
            v0,
            v4,
            h0,
            h5,
            f,
            roots,
            Ok(Value::Pair(pair)),
            Parsed::Done(
                Ok(Datum::Pair(Box::new(done_datum(p1)), Box::new(done_datum(p2)))),
                v4,
            ),
        ),
{
    let d1 = done_datum(p1);
    let d2 = done_datum(p2);
    let hi4 = h4.objects.len() as int;
    let n = pair.slot();
    let f1 = f.union(slot_range(lo, mid));
    let roots1 = roots.union(value_slots(car));
    let big = f1.union(slot_range(mid, hi4));
    let roots2 = roots1.union(value_slots(cdr));
    lemma_value_handles(car);
    lemma_value_handles(cdr);
    lemma_alloc_step(h4, h5, n, car, cdr, big, roots2, lo);
    let f5 = big.insert(n);
    let hi5 = h5.objects.len() as int;
    assert(f5 =~= f.union(slot_range(lo, hi5)));
    assert(roots2.difference(value_slots(car)).difference(value_slots(cdr)).insert(n) =~= roots.union(
        value_slots(Value::Pair(pair)),
    )) by {
        assert forall|j: int| roots.contains(j) implies !value_slots(car).contains(j)
            && !value_slots(cdr).contains(j) by {
            assert(f.contains(j));
        }
    }
    // The trees of `car` and `cdr` are untouched by the allocation.
    assert forall|j: int| #[trigger] slot_range(lo, mid).contains(j) implies 0 <= j < h5.objects.len()
        && h5.objects[j] == h3.objects[j] by {
        assert(f1.contains(j));
        assert(big.contains(j));
    }
    assert forall|j: int| #[trigger] slot_range(mid, hi4).contains(j) implies 0 <= j
        < h5.objects.len() && h5.objects[j] == h4.objects[j] by {
        assert(big.contains(j));
    }
    lemma_denotes_stable(h3.objects, h5.objects, car, d1, slot_range(lo, mid));
    lemma_denotes_stable(h4.objects, h5.objects, cdr, d2, slot_range(mid, hi4));
    lemma_tree_in_grow(h5.objects, car, d1, slot_range(lo, mid), slot_range(lo, hi5));
    lemma_tree_in_grow(h5.objects, cdr, d2, slot_range(mid, hi4), slot_range(lo, hi5));
    assert(slot_range(lo, hi5).contains(n));
    assert forall|j: int| #[trigger] f.contains(j) implies h5.objects[j] == h0.objects[j] by {
        assert(f1.contains(j));
        assert(big.contains(j));
    }
    lemma_scale(stream_measure(v2), stream_measure(v0));
    lemma_scale(stream_measure(v3), stream_measure(v3) + 1);
    lemma_scale(stream_measure(v4), stream_measure(v4) + 1);
}

// ------------------------------------------------------------------------
// The parser
// ------------------------------------------------------------------------

/// A parser that reads expressions from a token stream and builds them in
/// the heap of a [`Store`](crate::store::Store).
pub struct Parser<'a> {
    tokens: TokenStream<'a>,
}

impl<'a> Parser<'a> {
    /// The token stream is well formed.
    pub closed spec fn wf(&self) -> bool {
        self.tokens.wf()
    }

    /// The model of the token stream.
    pub closed spec fn stream(&self) -> StreamView {
        self.tokens@
    }

    /// The source text.
    pub closed spec fn source_text(&self) -> &'a str {
        self.tokens.source_text()
    }

    /// A parser reading `tokens`.
    pub fn new(tokens: TokenStream<'a>) -> (parser: Self)
        requires
            tokens.wf(),
        ensures
            parser.wf(),
            parser.stream() == tokens@,
            parser.source_text() == tokens.source_text(),
    {
        Parser { tokens }
    }

    /// Parse one expression (see [`parse_expr_spec`]) and build it in the
    /// store's heap: the tree read, or the failure, as the grammar says.
    pub fn parse_expression(&mut self, store: &mut Store) -> (res: Result<Value, Error>)
        requires
            old(self).wf(),
            old(store).wf(),
            parse_expr_spec(old(self).stream()) is Done,
            budget(old(store).heap_view(), stream_measure(old(self).stream())),
        ensures
            final(self).wf(),
            final(store).wf(),
            final(self).source_text() == old(self).source_text(),
            match parse_expr_spec(old(self).stream()) {
                Parsed::Done(r, v) => final(self).stream() == v && result_matches(
                    res,
                    r,
                    final(store).heap_view().objects,
                ),
                Parsed::Unfinished => false,
            },
    {
        proof {
            store.lemma_parts();
        }
        let res = self.parse_expr_inner(&mut store.heap, Ghost(Set::empty()), Ghost(Set::empty()));
        proof {
            store.lemma_wf_intro();
        }
        res
    }

    /// Parse an expression, keeping the objects of `f` guarded.
    fn parse_expr_inner(
        &mut self,
        heap: &mut GcHeap<Object>,
        Ghost(f): Ghost<Set<int>>,
        Ghost(roots): Ghost<Set<int>>,
    ) -> (res: Result<Value, Error>)
        requires
            old(self).wf(),
            old(heap).wf(),
            handles_bounded(old(heap)@.objects),
            guarded(old(heap)@.objects, f, roots),
            budget(old(heap)@, stream_measure(old(self).stream())),
            parse_expr_spec(old(self).stream()) is Done,
        ensures
            final(self).wf(),
            final(heap).wf(),
            final(self).source_text() == old(self).source_text(),
            stepped(
                old(self).stream(),
                final(self).stream(),
                old(heap)@,
                final(heap)@,
                f,
                roots,
                res,
                parse_expr_spec(old(self).stream()),
            ),
        decreases stream_measure(old(self).stream()), 2int,
    {
        let ghost v0 = self.tokens@;
        let ghost h0 = heap@;
        proof {
            self.tokens.lemma_wf();
            lemma_peek_measure(v0);
            lemma_guarded_below(h0.objects, f, roots);
        }
        let kind = self.tokens.peek_kind();
        let ghost v1 = self.tokens@;
        proof {
            lemma_scale(stream_measure(v1), stream_measure(v0));
        }
        match kind {
            TokenKind::LeftParen => {
                let res = self.parse_procedure_call(heap, Ghost(f), Ghost(roots));
                proof {
                    lemma_stepped_from(v0, v1, self.tokens@, h0, heap@, f, roots, res, parse_call_spec(v1));
                    assert(parse_expr_spec(v0) == parse_call_spec(v1));
                    assert(stepped(v0, self.tokens@, h0, heap@, f, roots, res, parse_expr_spec(v0)));
                }
                res
            },
            TokenKind::Number => {
                let res = self.parse_number();
                proof {
                    lemma_expr_progress(v0);
                    if res is Ok {
                        lemma_scale(stream_measure(self.tokens@) + 1, stream_measure(v0));
                    }
                    assert(f.union(slot_range(h0.objects.len() as int, h0.objects.len() as int))
                        =~= f);
                    let ghost r = res;
                    assert(parse_expr_spec(v0) == parse_number_spec(v1));
                    match r {
                        Ok(value) => {
                            assert(roots.union(value_slots(value)) =~= roots);
                            let d = done_datum(parse_number_spec(v1));
                            assert(denotes(heap@.objects, value, d));
                            assert(tree_in(heap@.objects, value, d, slot_range(h0.objects.len() as int, h0.objects.len() as int)));
                            assert(spent(h0, stream_measure(v0), heap@, stream_measure(self.tokens@), 1));
                        },
                        Err(_) => {
                            lemma_scale(stream_measure(self.tokens@), stream_measure(v0));
                        },
                    }
                    assert(stepped(v0, self.tokens@, h0, heap@, f, roots, r, parse_expr_spec(v0)));
                }
                res
            },
            TokenKind::RightParen => {
                let token = *self.tokens.peek();
                let res = Err(Error::UnexpectedToken(token, String::from_str("expected expression")));
                proof {
                    assert(self.tokens@ == v1);
                    assert(parse_expr_spec(v0) == Parsed::Done(
                        Err(ParseFailure::UnexpectedToken(peeked_token(v1), "expected expression"@)),
                        v1,
                    ));
                    assert(result_matches(res, done_result(parse_expr_spec(v0)), heap@.objects));
                    assert(spent(h0, stream_measure(v0), heap@, stream_measure(v1), 0));
                    assert(fresh_closed(heap@.objects, h0.objects.len() as int));
                }
                res
            },
            TokenKind::EOF => {
                let res = Err(Error::UnexpectedEOF);
                proof {
                    assert(parse_expr_spec(v0) == Parsed::Done(Err(ParseFailure::UnexpectedEOF), v1));
                    assert(spent(h0, stream_measure(v0), heap@, stream_measure(v1), 0));
                }
                res
            },
            _ => {
                proof {
                    assert(parse_expr_spec(v0) is Unfinished);
                }
                Err(Error::UnexpectedEOF)
            },
        }
    }

    /// Parse a number token (see [`parse_number_spec`]).
    fn parse_number(&mut self) -> (res: Result<Value, Error>)
        requires
            old(self).wf(),
        ensures
            final(self).wf(),
            final(self).source_text() == old(self).source_text(),
            parse_number_spec(old(self).stream()) matches Parsed::Done(r, v) && final(self).stream()
                == v && match (res, r) {
                (Ok(value), Ok(d)) => denotes(Seq::empty(), value, d) && value is Num,
                (Err(e), Err(fail)) => error_matches(e, fail),
                _ => false,
            },
    {
        let ghost v0 = self.tokens@;
        proof {
            self.tokens.lemma_wf();
        }
        let token = match self.tokens.consume(TokenKind::Number) {
            Ok(token) => token,
            Err(e) => {
                return Err(e);
            },
        };
        let ghost text = v0.text;
        proof {
            let t = stream_next(v0).0;
            let c = if v0.peeked is Some {
                choose|c: int| 0 <= c <= text.len() && peeked_token(v0) == #[trigger] lexed(text, c)
            } else {
                v0.cur
            };
            assert(t == lexed(text, c));
            lemma_scan_token_bounds(text, c);
            let (kind, s, e) = scan_token(text, c);
            assert(span_covers(token.span@, text, s, e));
        }
        let fragment = token.fragment(self.tokens.source());
        proof {
            let (i, j) = choose|i: int, j: int| span_covers(token.span@, text, i, j);
            assert(fragment@ == span_text(text, token.span@));
        }
        match parse_i64(fragment) {
            Some(n) => Ok(Value::Num(Number::from_i64(n))),
            None => Err(Error::UnexpectedToken(token, String::from_str("invalid number literal"))),
        }
    }

    /// Parse `(` operator operand* `)`.
    fn parse_procedure_call(
        &mut self,
        heap: &mut GcHeap<Object>,
        Ghost(f): Ghost<Set<int>>,
        Ghost(roots): Ghost<Set<int>>,
    ) -> (res: Result<Value, Error>)
        requires
            old(self).wf(),
            old(heap).wf(),
            handles_bounded(old(heap)@.objects),
            guarded(old(heap)@.objects, f, roots),
            budget(old(heap)@, stream_measure(old(self).stream())),
            parse_call_spec(old(self).stream()) is Done,
        ensures
            final(self).wf(),
            final(heap).wf(),
            final(self).source_text() == old(self).source_text(),
            stepped(
                old(self).stream(),
                final(self).stream(),
                old(heap)@,
                final(heap)@,
                f,
                roots,
                res,
                parse_call_spec(old(self).stream()),
            ),
        decreases stream_measure(old(self).stream()), 1int,
    {
        let ghost v0 = self.tokens@;
        let ghost h0 = heap@;
        let ghost lo = h0.objects.len() as int;
        proof {
            self.tokens.lemma_wf();
            lemma_next_measure(v0);
            lemma_guarded_below(h0.objects, f, roots);
        }
        match self.tokens.consume(TokenKind::LeftParen) {
            Ok(_) => {},
            Err(e) => {
                proof {
                    lemma_scale(stream_measure(self.tokens@), stream_measure(v0));
                }
                return Err(e);
            },
        }
        let ghost v2 = self.tokens@;
        proof {
            lemma_scale(stream_measure(v2), stream_measure(v0));
            lemma_expr_progress(v2);
        }
        let operator = match self.parse_expr_inner(heap, Ghost(f), Ghost(roots)) {
            Ok(value) => value,
            Err(e) => {
                proof {
                    lemma_scale(stream_measure(self.tokens@), stream_measure(v2));
                }
                return Err(e);
            },
        };
        let ghost v3 = self.tokens@;
        let ghost h3 = heap@;
        let ghost mid = h3.objects.len() as int;
        let ghost f1 = f.union(slot_range(lo, mid));
        let ghost roots1 = roots.union(value_slots(operator));
        proof {
            lemma_args_progress(v3);
            lemma_scale(stream_measure(v3) + 1, stream_measure(v2));
            lemma_scale(stream_measure(v3), stream_measure(v3) + 1);
        }
        let operands = match self.parse_arguments(heap, Ghost(f1), Ghost(roots1)) {
            Ok(value) => value,
            Err(e) => {
                let ghost h4 = heap@;
                let ghost held = operator;
                proof {
                    lemma_fresh_extend(h3.objects, h4.objects, f1, lo, mid);
                    lemma_restrict(h4.objects, f, slot_range(lo, mid), roots, value_slots(operator), lo);
                    lemma_value_handles(operator);
                }
                drop_value(operator, heap);
                proof {
                    match held {
                        Value::Pair(p) => {
                            lemma_release_keeps(h4.objects, f, roots, lo, p.0.id() as int, (h4.objects[p.0.id() as int]->0.strong - 1) as nat);
                        },
                        _ => {},
                    }
                    lemma_scale(stream_measure(self.tokens@), stream_measure(v3));
                    lemma_scale(stream_measure(v3), stream_measure(v3) + 1);
                    lemma_scale(stream_measure(v2), stream_measure(v0));
                    assert(parse_expr_spec(v2) matches Parsed::Done(Ok(_), vv) && vv == v3);
                    assert(parse_call_spec(v0) == parse_args_spec(v3));
                    let eg = e;
                    let hf = heap@;
                    let vf = self.tokens@;
                    assert(handles_bounded(hf.objects));
                    assert(fresh_closed(hf.objects, lo));
                    assert(lo <= hf.objects.len());
                    assert forall|j: int| #[trigger] f.contains(j) implies hf.objects[j]
                        == h0.objects[j] by {
                        assert(f1.contains(j));
                    }
                    assert(result_matches(Err(eg), done_result(parse_args_spec(v3)), hf.objects));
                    assert(guarded(hf.objects, f, roots));
                    assert(spent(h0, stream_measure(v0), hf, stream_measure(vf), 0));
                }
                return Err(e);
            },
        };
        let ghost v4 = self.tokens@;
        let ghost h4 = heap@;
        let ghost hi4 = h4.objects.len() as int;
        proof {
            lemma_fresh_extend(h3.objects, h4.objects, f1, lo, mid);
            lemma_build_ready(
                h0,
                h3,
                h4,
                stream_measure(v0),
                stream_measure(v2),
                stream_measure(v3),
                stream_measure(v4),
            );
        }
        let pair = PairObject::allocate(heap, operator, operands);
        proof {
            lemma_build_done(h0, h3, h4, heap@, v0, v2, v3, v4, f, roots, operator, operands, pair, lo, mid, parse_expr_spec(v2), parse_args_spec(v3));
        }
        Ok(Value::Pair(pair))
    }

    /// Parse operand* `)`.
    fn parse_arguments(
        &mut self,
        heap: &mut GcHeap<Object>,
        Ghost(f): Ghost<Set<int>>,
        Ghost(roots): Ghost<Set<int>>,
    ) -> (res: Result<Value, Error>)
        requires
            old(self).wf(),
            old(heap).wf(),
            handles_bounded(old(heap)@.objects),
            guarded(old(heap)@.objects, f, roots),
            budget(old(heap)@, stream_measure(old(self).stream())),
            parse_args_spec(old(self).stream()) is Done,
        ensures
            final(self).wf(),
            final(heap).wf(),
            final(self).source_text() == old(self).source_text(),
            stepped(
                old(self).stream(),
                final(self).stream(),
                old(heap)@,
                final(heap)@,
                f,
                roots,
                res,
                parse_args_spec(old(self).stream()),
            ),
        decreases stream_measure(old(self).stream()), 3int,
    {
        let ghost v0 = self.tokens@;
        let ghost h0 = heap@;
        let ghost lo = h0.objects.len() as int;
        proof {
            self.tokens.lemma_wf();
            lemma_peek_measure(v0);
            lemma_guarded_below(h0.objects, f, roots);
        }
        let kind = self.tokens.peek_kind();
        let ghost v1 = self.tokens@;
        proof {
            lemma_scale(stream_measure(v1), stream_measure(v0));
        }
        if kind == TokenKind::RightParen {
            proof {
                lemma_next_measure(v1);
            }
            let res = match self.tokens.consume(TokenKind::RightParen) {
                Ok(_) => Ok(Value::Nil),
                Err(e) => Err(e),
            };
            proof {
                lemma_scale(stream_measure(self.tokens@) + 1, stream_measure(v0));
                lemma_scale(stream_measure(self.tokens@), stream_measure(v0));
                assert(f.union(slot_range(lo, lo)) =~= f);
                assert(roots.union(value_slots(Value::Nil)) =~= roots);
            }
            return res;
        }
        proof {
            lemma_expr_progress(v1);
        }
        let car = match self.parse_expr_inner(heap, Ghost(f), Ghost(roots)) {
            Ok(value) => value,
            Err(e) => {
                proof {
                    lemma_scale(stream_measure(self.tokens@), stream_measure(v1));
                }
                return Err(e);
            },
        };
        let ghost v3 = self.tokens@;
        let ghost h3 = heap@;
        let ghost mid = h3.objects.len() as int;
        let ghost f1 = f.union(slot_range(lo, mid));
        let ghost roots1 = roots.union(value_slots(car));
        proof {
            lemma_args_progress(v3);
            lemma_scale(stream_measure(v3) + 1, stream_measure(v1));
            lemma_scale(stream_measure(v3), stream_measure(v3) + 1);
        }
        let cdr = match self.parse_arguments(heap, Ghost(f1), Ghost(roots1)) {
            Ok(value) => value,
            Err(e) => {
                let ghost h4 = heap@;
                let ghost held = car;
                proof {
                    lemma_fresh_extend(h3.objects, h4.objects, f1, lo, mid);
                    lemma_restrict(h4.objects, f, slot_range(lo, mid), roots, value_slots(car), lo);
                    lemma_value_handles(car);
                }
                drop_value(car, heap);
                proof {
                    match held {
                        Value::Pair(p) => {
                            lemma_release_keeps(h4.objects, f, roots, lo, p.0.id() as int, (h4.objects[p.0.id() as int]->0.strong - 1) as nat);
                        },
                        _ => {},
                    }
                    lemma_scale(stream_measure(self.tokens@), stream_measure(v3));
                    lemma_scale(stream_measure(v3), stream_measure(v3) + 1);
                    lemma_scale(stream_measure(v1), stream_measure(v0));
                    assert(parse_expr_spec(v1) matches Parsed::Done(Ok(_), vv) && vv == v3);
                    assert(parse_args_spec(v0) == parse_args_spec(v3));
                    assert forall|j: int| #[trigger] f.contains(j) implies heap@.objects[j]
                        == h0.objects[j] by {
                        assert(f1.contains(j));
                    }
                }
                return Err(e);
            },
        };
        let ghost v4 = self.tokens@;
        let ghost h4 = heap@;
        proof {
            lemma_fresh_extend(h3.objects, h4.objects, f1, lo, mid);
            lemma_build_ready(
                h0,
                h3,
                h4,
                stream_measure(v0),
                stream_measure(v1),
                stream_measure(v3),
                stream_measure(v4),
            );
        }
        let pair = PairObject::allocate(heap, car, cdr);
        proof {
            lemma_build_done(h0, h3, h4, heap@, v0, v1, v3, v4, f, roots, car, cdr, pair, lo, mid, parse_expr_spec(v1), parse_args_spec(v3));
        }
        Ok(Value::Pair(pair))
    }
}


/// How far a dry run of the parser gets.
pub open spec fn scan_outcome(p: Parsed, code: u8, v: StreamView) -> bool {
    match p {
        Parsed::Done(Ok(_), v2) => code == 0 && v == v2,
        Parsed::Done(Err(_), v2) => code == 1 && v == v2,
        Parsed::Unfinished => code == 2,
    }
}

impl<'a> Parser<'a> {
    /// Whether parsing an expression from here reaches a form the parser has
    /// no rule for yet: a quoted form or an atom. The stream is read as far
    /// as the parser would read it, and no value is built.
    pub fn reaches_unfinished_form(self) -> (b: bool)
        requires
            self.wf(),
        ensures
            b == (parse_expr_spec(self.stream()) is Unfinished),
    {
        let mut parser = self;
        let code = parser.scan_expr();
        code == 2
    }

    /// A dry run of [`Parser::parse_expr_inner`].
    fn scan_expr(&mut self) -> (code: u8)
        requires
            old(self).wf(),
        ensures
            final(self).wf(),
            scan_outcome(parse_expr_spec(old(self).stream()), code, final(self).stream()),
        decreases stream_measure(old(self).stream()), 2int,
    {
        let ghost v0 = self.tokens@;
        proof {
            self.tokens.lemma_wf();
            lemma_peek_measure(v0);
        }
        let kind = self.tokens.peek_kind();
        let ghost v1 = self.tokens@;
        match kind {
            TokenKind::LeftParen => {
                let code = self.scan_call();
                proof {
                    assert(parse_expr_spec(v0) == parse_call_spec(v1));
                }
                code
            },
            TokenKind::Number => {
                let res = self.parse_number();
                proof {
                    assert(parse_expr_spec(v0) == parse_number_spec(v1));
                }
                match res {
                    Ok(_) => 0,
                    Err(_) => 1,
                }
            },
            TokenKind::RightParen => 1,
            TokenKind::EOF => 1,
            _ => 2,
        }
    }

    /// A dry run of [`Parser::parse_procedure_call`].
    fn scan_call(&mut self) -> (code: u8)
        requires
            old(self).wf(),
        ensures
            final(self).wf(),
            scan_outcome(parse_call_spec(old(self).stream()), code, final(self).stream()),
        decreases stream_measure(old(self).stream()), 1int,
    {
        let ghost v0 = self.tokens@;
        proof {
            self.tokens.lemma_wf();
            lemma_next_measure(v0);
        }
        match self.tokens.consume(TokenKind::LeftParen) {
            Ok(_) => {},
            Err(_) => {
                return 1;
            },
        }
        let ghost v2 = self.tokens@;
        proof {
            lemma_expr_progress(v2);
        }
        let code = self.scan_expr();
        if code != 0 {
            return code;
        }
        let ghost v3 = self.tokens@;
        self.scan_args()
    }

    /// A dry run of [`Parser::parse_arguments`].
    fn scan_args(&mut self) -> (code: u8)
        requires
            old(self).wf(),
        ensures
            final(self).wf(),
            scan_outcome(parse_args_spec(old(self).stream()), code, final(self).stream()),
        decreases stream_measure(old(self).stream()), 3int,
    {
        let ghost v0 = self.tokens@;
        proof {
            self.tokens.lemma_wf();
            lemma_peek_measure(v0);
        }
        let kind = self.tokens.peek_kind();
        let ghost v1 = self.tokens@;
        if kind == TokenKind::RightParen {
            return match self.tokens.consume(TokenKind::RightParen) {
                Ok(_) => 0,
                Err(_) => 1,
            };
        }
        proof {
            lemma_expr_progress(v1);
        }
        let code = self.scan_expr();
        if code != 0 {
            return code;
        }
        self.scan_args()
    }
}


/// What the grammar reads is made of numbers, the empty list and pairs.
pub proof fn lemma_expr_reprable(v: StreamView)
    ensures
        parse_expr_spec(v) matches Parsed::Done(Ok(d), _) ==> reprable(d),
    decreases stream_measure(v), 2int,
{
    if stream_valid(v) {
        let v1 = stream_peek(v);
        lemma_peek_measure(v);
        if peeked_token(v1).0 == TokenKind::LeftParen {
            lemma_call_reprable(v1);
        }
    }
}

/// What a call reads is made of numbers, the empty list and pairs.
pub proof fn lemma_call_reprable(v: StreamView)
    ensures
        parse_call_spec(v) matches Parsed::Done(Ok(d), _) ==> reprable(d),
    decreases stream_measure(v), 1int,
{
    if stream_valid(v) {
        let (t, v2) = stream_next(v);
        lemma_next_measure(v);
        if t.0 == TokenKind::LeftParen {
            lemma_expr_reprable(v2);
            match parse_expr_spec(v2) {
                Parsed::Done(Ok(_), v3) => {
                    if stream_valid(v3) && stream_measure(v3) < stream_measure(v) {
                        lemma_args_reprable(v3);
                    }
                },
                _ => {},
            }
        }
    }
}

/// What operands read is made of numbers, the empty list and pairs.
pub proof fn lemma_args_reprable(v: StreamView)
    ensures
        parse_args_spec(v) matches Parsed::Done(Ok(d), _) ==> reprable(d),
    decreases stream_measure(v), 3int,
{
    if stream_valid(v) {
        let v1 = stream_peek(v);
        lemma_peek_measure(v);
        if peeked_token(v1).0 != TokenKind::RightParen {
            lemma_expr_reprable(v1);
            match parse_expr_spec(v1) {
                Parsed::Done(Ok(_), v3) => {
                    if stream_valid(v3) && stream_measure(v3) < stream_measure(v) {
                        lemma_args_reprable(v3);
                    }
                },
                _ => {},
            }
        }
    }
}

/// The stream a fresh parser over `text` starts from.
pub open spec fn initial_stream(text: Seq<char>) -> StreamView {
    StreamView { text, cur: 0, peeked: None }
}

/// Parse one expression of `code` and write it out: `None` where the
/// parser reaches a form it has no rule for yet, else the written form of
/// what was read, or why parsing stopped.
pub fn show_expression(store: &mut Store, code: &str) -> (shown: Option<Result<String, Error>>)
    requires
        old(store).wf(),
        code@.len() > 0,
        vstd::utf8::encode_utf8(code@).len() <= usize::MAX,
        budget(old(store).heap_view(), 2 * code@.len() as int),
    ensures
        final(store).wf(),
        shown is None <==> parse_expr_spec(initial_stream(code@)) is Unfinished,
        match parse_expr_spec(initial_stream(code@)) {
            Parsed::Done(r, _) => shown matches Some(res) && match (res, r) {
                (Ok(text), Ok(d)) => text@ == repr_spec(d),
                (Err(e), Err(fail)) => error_matches(e, fail),
                _ => false,
            },
            Parsed::Unfinished => true,
        },
{
    let probe = Parser::new(TokenStream::new(Lexer::new(code)));
    if probe.reaches_unfinished_form() {
        return None;
    }
    let mut parser = Parser::new(TokenStream::new(Lexer::new(code)));
    proof {
        assert(parser.stream() == initial_stream(code@));
        lemma_expr_reprable(parser.stream());
    }
    match parser.parse_expression(store) {
        Ok(value) => {
            proof {
                store.lemma_parts();
            }
            let text = ReprDisplay::new(&value).to_string(store.heap());
            Some(Ok(text))
        },
        Err(e) => Some(Err(e)),
    }
}

} // verus!
