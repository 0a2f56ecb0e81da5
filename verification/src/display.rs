//! External representation.

use vstd::prelude::*;
use vstd::string::StringExecFns;

use crate::gc::GcHeap;
use crate::object::{denotes, pair_at, Datum, Number, Object, Objects, PairObject, Value};

verus! {

/// The character of a decimal digit.
pub open spec fn digit_char(d: int) -> char {
    ('0' as int + d) as char
}

/// The decimal digits of `n`, most significant first.
pub open spec fn decimal_text(n: nat) -> Seq<char>
    decreases n,
{
    if n < 10 {
        seq![digit_char(n as int)]
    } else {
        decimal_text(n / 10).push(digit_char((n % 10) as int))
    }
}

/// How an integer is written: a minus sign for a negative one, then its
/// decimal digits.
pub open spec fn int_text(n: int) -> Seq<char> {
    if n < 0 {
        "-"@ + decimal_text((-n) as nat)
    } else {
        decimal_text(n as nat)
    }
}

/// The written form of a tree: `'()` for the empty list, the number for a
/// number, and a list in parentheses for a pair, with ` . ` before a final
/// element that is not the empty list.
pub open spec fn repr_spec(d: Datum) -> Seq<char>
    decreases d, 1int,
{
    match d {
        Datum::Nil => "'()"@,
        Datum::Int(n) => int_text(n as int),
        Datum::Pair(a, b) => "("@ + repr_spec(*a) + rest_spec(*b) + ")"@,
        _ => Seq::empty(),
    }
}

/// The written form of the rest of a list whose tail is `d`.
pub open spec fn rest_spec(d: Datum) -> Seq<char>
    decreases d, 2int,
{
    match d {
        Datum::Nil => Seq::empty(),
        Datum::Pair(a, b) => " "@ + repr_spec(*a) + rest_spec(*b),
        _ => " . "@ + repr_spec(d),
    }
}

/// The tree holds only the empty list, numbers and pairs: what can be written.
pub open spec fn reprable(d: Datum) -> bool
    decreases d,
{
    match d {
        Datum::Nil => true,
        Datum::Int(_) => true,
        Datum::Pair(a, b) => reprable(*a) && reprable(*b),
        _ => false,
    }
}

/// A value stands for one tree at most.
pub proof fn lemma_denotes_unique(objs: Objects, v: Value, d1: Datum, d2: Datum)
    requires
        denotes(objs, v, d1),
        denotes(objs, v, d2),
    ensures
        d1 == d2,
    decreases d1,
{
    match d1 {
        Datum::Pair(a1, b1) => {
            match d2 {
                Datum::Pair(a2, b2) => {
                    match v {
                        Value::Pair(p) => {
                            let inner = pair_at(objs, p.0.id() as int)->0;
                            lemma_denotes_unique(objs, inner.car, *a1, *a2);
                            lemma_denotes_unique(objs, inner.cdr, *b1, *b2);
                        },
                        _ => {},
                    }
                },
                _ => {},
            }
        },
        _ => {},
    }
}

/// The text of the digit `d`.
fn digit_str(d: u64) -> (s: &'static str)
    requires
        d < 10,
    ensures
        s@ == seq![digit_char(d as int)],
{
    proof {
        reveal_strlit("0");
        reveal_strlit("1");
        reveal_strlit("2");
        reveal_strlit("3");
        reveal_strlit("4");
        reveal_strlit("5");
        reveal_strlit("6");
        reveal_strlit("7");
        reveal_strlit("8");
        reveal_strlit("9");
    }
    let s = if d == 0 {
        "0"
    } else if d == 1 {
        "1"
    } else if d == 2 {
        "2"
    } else if d == 3 {
        "3"
    } else if d == 4 {
        "4"
    } else if d == 5 {
        "5"
    } else if d == 6 {
        "6"
    } else if d == 7 {
        "7"
    } else if d == 8 {
        "8"
    } else {
        "9"
    };
    assert(s@ =~= seq![digit_char(d as int)]);
    s
}

/// Append the decimal digits of `n`.
fn append_decimal(out: &mut String, n: u64)
    ensures
        final(out)@ == old(out)@ + decimal_text(n as nat),
    decreases n,
{
    if n >= 10 {
        append_decimal(out, n / 10);
    }
    out.append(digit_str(n % 10));
    proof {
        if n >= 10 {
            assert(decimal_text(n as nat) == decimal_text((n / 10) as nat).push(
                digit_char((n % 10) as int),
            ));
        }
    }
    assert(out@ =~= old(out)@ + decimal_text(n as nat));
}

/// Append how the integer `n` is written.
fn append_int(out: &mut String, n: i64)
    ensures
        final(out)@ == old(out)@ + int_text(n as int),
{
    if n < 0 {
        out.append("-");
        let magnitude: u64 = if n == i64::MIN {
            9223372036854775808u64
        } else {
            (-n) as u64
        };
        append_decimal(out, magnitude);
        assert(out@ =~= old(out)@ + int_text(n as int));
    } else {
        append_decimal(out, n as u64);
    }
}

/// Writes a value in its external representation.
pub struct ReprDisplay<'a> {
    value: &'a Value,
}

impl<'a> ReprDisplay<'a> {
    /// The value written.
    pub closed spec fn value(&self) -> Value {
        *self.value
    }

    /// A writer of `value`.
    pub fn new(value: &'a Value) -> (display: Self)
        ensures
            display.value() == *value,
    {
        ReprDisplay { value }
    }

    /// The representation of the value, whose pairs are in `heap`.
    pub fn to_string(&self, heap: &GcHeap<Object>) -> (text: String)
        requires
            heap.wf(),
            exists|d: Datum| denotes(heap@.objects, self.value(), d) && reprable(d),
        ensures
            forall|d: Datum|
                denotes(heap@.objects, self.value(), d) ==> text@ == #[trigger] repr_spec(d),
    {
        let ghost d = choose|d: Datum| denotes(heap@.objects, self.value(), d) && reprable(d);
        let mut out = String::new();
        Self::fmt_value(self.value, heap, &mut out, Ghost(d));
        proof {
            assert(out@ =~= repr_spec(d));
            assert forall|d2: Datum| denotes(heap@.objects, self.value(), d2) implies out@
                == #[trigger] repr_spec(d2) by {
                lemma_denotes_unique(heap@.objects, self.value(), d, d2);
            }
        }
        out
    }

    /// Append the representation of `value`.
    fn fmt_value(value: &Value, heap: &GcHeap<Object>, out: &mut String, Ghost(d): Ghost<Datum>)
        requires
            heap.wf(),
            denotes(heap@.objects, *value, d),
            reprable(d),
        ensures
            final(out)@ == old(out)@ + repr_spec(d),
        decreases d, 1int,
    {
        match value {
            Value::Nil => {
                out.append("'()");
            },
            Value::Num(Number::Integer(n)) => {
                append_int(out, *n);
            },
            Value::Pair(pair) => {
                Self::fmt_list(pair, heap, out, Ghost(d));
            },
            _ => {
                assert(false);
            },
        }
    }

    /// The car and cdr of the pair `pair` holds.
    fn pair_parts<'h>(pair: &PairObject, heap: &'h GcHeap<Object>) -> (parts: Option<
        (&'h Value, &'h Value),
    >)
        requires
            heap.wf(),
            pair_at(heap@.objects, pair.0.id() as int) is Some,
        ensures
            parts matches Some((car, cdr)) && *car == pair_at(heap@.objects, pair.0.id() as int)->0.car
                && *cdr == pair_at(heap@.objects, pair.0.id() as int)->0.cdr,
    {
        match heap.get(&pair.0) {
            Object::Pair(cell) => {
                let inner = cell.peek();
                Some((&inner.car, &inner.cdr))
            },
            Object::Env(_) => None,
        }
    }

    /// Append `(`, the elements of the list that starts at `pair`, and `)`.
    fn fmt_list(pair: &PairObject, heap: &GcHeap<Object>, out: &mut String, Ghost(d): Ghost<Datum>)
        requires
            heap.wf(),
            denotes(heap@.objects, Value::Pair(*pair), d),
            reprable(d),
        ensures
            final(out)@ == old(out)@ + repr_spec(d),
        decreases d, 0int,
    {
        let ghost a = match d {
            Datum::Pair(a, _) => *a,
            _ => Datum::Nil,
        };
        let ghost b = match d {
            Datum::Pair(_, b) => *b,
            _ => Datum::Nil,
        };
        let (car, cdr) = Self::pair_parts(pair, heap).unwrap();
        out.append("(");
        Self::fmt_value(car, heap, out, Ghost(a));
        Self::fmt_rest(cdr, heap, out, Ghost(b));
        out.append(")");
        proof {
            assert(out@ =~= old(out)@ + repr_spec(d));
        }
    }

    /// Append the rest of a list whose tail is `tail`.
    fn fmt_rest(tail: &Value, heap: &GcHeap<Object>, out: &mut String, Ghost(d): Ghost<Datum>)
        requires
            heap.wf(),
            denotes(heap@.objects, *tail, d),
            reprable(d),
        ensures
            final(out)@ == old(out)@ + rest_spec(d),
        decreases d, 2int,
    {
        match tail {
            Value::Nil => {
                assert(out@ =~= old(out)@ + rest_spec(d));
            },
            Value::Pair(next) => {
                let ghost a = match d {
                    Datum::Pair(a, _) => *a,
                    _ => Datum::Nil,
                };
                let ghost b = match d {
                    Datum::Pair(_, b) => *b,
                    _ => Datum::Nil,
                };
                let (car, cdr) = Self::pair_parts(next, heap).unwrap();
                out.append(" ");
                Self::fmt_value(car, heap, out, Ghost(a));
                Self::fmt_rest(cdr, heap, out, Ghost(b));
                assert(out@ =~= old(out)@ + rest_spec(d));
            },
            _ => {
                out.append(" . ");
                Self::fmt_value(tail, heap, out, Ghost(d));
                assert(out@ =~= old(out)@ + rest_spec(d));
            },
        }
    }
}

} // verus!
