//! The core library's native procedures on booleans, pairs and lists, and
//! its assertion.

use vstd::prelude::*;

use crate::environment::{pair_below, pairs_wf, Env, EnvView, Expr};

verus! {

/// Why a native procedure refused its arguments.
#[derive(Debug, Clone, Copy, PartialEq, Eq, Structural)]
pub enum NativeError {
    /// The procedure was given a number of arguments it does not take.
    WrongArgumentCount,
    /// An argument that must be a pair is not.
    ExpectedPair,
    /// `assert` was given nothing to check.
    ExpectedAssertionExpression,
    /// An assertion failed with this message, a string by its handle.
    AssertionError(usize),
    /// An assertion failed and its message is not a string.
    InvalidAssertionMessageType,
    /// An assertion of this value failed, with no message.
    AssertionFailed(Expr),
}

/// `(boolean? x)`: whether the first argument is a boolean; at least one
/// argument is needed.
pub fn boolean_is_boolean(env: &mut Env, args: &[Expr]) -> (res: Result<Expr, NativeError>)
    ensures
        args@.len() == 0 ==> res == Err::<Expr, NativeError>(NativeError::WrongArgumentCount),
        args@.len() > 0 ==> res == Ok::<Expr, NativeError>(Expr::Bool(args@[0] is Bool)),
        *final(env) == *old(env),
{
    if args.len() == 0 {
        return Err(NativeError::WrongArgumentCount);
    }
    let is_bool = match args[0] {
        Expr::Bool(_) => true,
        _ => false,
    };
    Ok(Expr::Bool(is_bool))
}

/// `(not x)`: true exactly for `#f`; more than one argument is refused.
pub fn boolean_not(env: &mut Env, args: &[Expr]) -> (res: Result<Expr, NativeError>)
    requires
        args@.len() > 0,
    ensures
        args@.len() > 1 ==> res == Err::<Expr, NativeError>(NativeError::WrongArgumentCount),
        args@.len() == 1 ==> res == Ok::<Expr, NativeError>(Expr::Bool(args@[0] == Expr::Bool(false))),
        *final(env) == *old(env),
{
    if args.len() > 1 {
        Err(NativeError::WrongArgumentCount)
    } else {
        let is_false = match args[0] {
            Expr::Bool(false) => true,
            _ => false,
        };
        Ok(Expr::Bool(is_false))
    }
}

/// What `(and x ...)` gives: `#f` if an argument is `#f`, else the last
/// argument, or `#t` with none.
pub open spec fn and_spec(args: Seq<Expr>) -> Expr {
    if exists|i: int| 0 <= i < args.len() && args[i] == Expr::Bool(false) {
        Expr::Bool(false)
    } else if args.len() == 0 {
        Expr::Bool(true)
    } else {
        args.last()
    }
}

/// `(and x ...)` (see [`and_spec`]).
pub fn boolean_and(env: &mut Env, args: &[Expr]) -> (res: Result<Expr, NativeError>)
    ensures
        res == Ok::<Expr, NativeError>(and_spec(args@)),
        *final(env) == *old(env),
{
    let mut value = Expr::Bool(true);
    let mut i: usize = 0;
    while i < args.len()
        invariant
            i <= args@.len(),
            forall|k: int| 0 <= k < i ==> args@[k] != Expr::Bool(false),
            i == 0 ==> value == Expr::Bool(true),
            i > 0 ==> value == args@[i - 1],
        decreases args@.len() - i,
    {
        let arg = args[i];
        if arg == Expr::Bool(false) {
            return Ok(Expr::Bool(false));
        }
        value = arg;
        i += 1;
    }
    Ok(value)
}

/// `(number? x)`: whether the first argument is a number; at least one
/// argument is needed.
pub fn number_is_number(env: &mut Env, args: &[Expr]) -> (res: Result<Expr, NativeError>)
    ensures
        args@.len() == 0 ==> res == Err::<Expr, NativeError>(NativeError::WrongArgumentCount),
        args@.len() > 0 ==> res == Ok::<Expr, NativeError>(Expr::Bool(args@[0] is Number)),
        *final(env) == *old(env),
{
    if args.len() == 0 {
        return Err(NativeError::WrongArgumentCount);
    }
    let is_number = match args[0] {
        Expr::Number(_) => true,
        _ => false,
    };
    Ok(Expr::Bool(is_number))
}

/// `(assert x msg?)`: `x` back unless it is `#f`; then the failure, with
/// the message if it is a string.
pub fn ext_assert(env: &mut Env, args: &[Expr]) -> (res: Result<Expr, NativeError>)
    ensures
        *final(env) == *old(env),
        args@.len() == 0 ==> res == Err::<Expr, NativeError>(
            NativeError::ExpectedAssertionExpression,
        ),
        args@.len() > 0 && args@[0] != Expr::Bool(false) ==> res == Ok::<Expr, NativeError>(
            args@[0],
        ),
        args@.len() > 0 && args@[0] == Expr::Bool(false) ==> res == Err::<Expr, NativeError>(
            if args@.len() == 1 {
                NativeError::AssertionFailed(args@[0])
            } else {
                match args@[1] {
                    Expr::String(message) => NativeError::AssertionError(message),
                    _ => NativeError::InvalidAssertionMessageType,
                }
            },
        ),
{
    if args.len() == 0 {
        return Err(NativeError::ExpectedAssertionExpression);
    }
    let expr = args[0];
    if expr == Expr::Bool(false) {
        if args.len() == 1 {
            Err(NativeError::AssertionFailed(expr))
        } else {
            match args[1] {
                Expr::String(message) => Err(NativeError::AssertionError(message)),
                _ => Err(NativeError::InvalidAssertionMessageType),
            }
        }
    } else {
        Ok(expr)
    }
}

/// The arguments name only existing pairs.
pub open spec fn args_valid(env: EnvView, args: Seq<Expr>) -> bool {
    forall|k: int| 0 <= k < args.len() ==> pair_below(#[trigger] args[k], env.pairs.len() as int)
}

/// `(pair? x)`: whether the one argument is a pair.
pub fn pair_is_pair(env: &mut Env, args: &[Expr]) -> (res: Result<Expr, NativeError>)
    ensures
        args@.len() != 1 ==> res == Err::<Expr, NativeError>(NativeError::WrongArgumentCount),
        args@.len() == 1 ==> res == Ok::<Expr, NativeError>(Expr::Bool(args@[0] is Pair)),
        *final(env) == *old(env),
{
    if args.len() != 1 {
        return Err(NativeError::WrongArgumentCount);
    }
    let is_pair = match args[0] {
        Expr::Pair(_) => true,
        _ => false,
    };
    Ok(Expr::Bool(is_pair))
}

/// Following cdrs from pair `k` reaches the empty list.
pub open spec fn list_from(pairs: Seq<(Expr, Expr)>, k: int) -> bool
    decreases k,
{
    if k < 0 || k >= pairs.len() {
        false
    } else {
        match pairs[k].1 {
            Expr::Nil => true,
            Expr::Pair(j) => if j < k {
                list_from(pairs, j as int)
            } else {
                false
            },
            _ => false,
        }
    }
}

/// `e` is a pair from which following cdrs reaches the empty list.
pub open spec fn is_list_spec(pairs: Seq<(Expr, Expr)>, e: Expr) -> bool {
    match e {
        Expr::Pair(k) => list_from(pairs, k as int),
        _ => false,
    }
}

/// `(list? x)`: whether the one argument is a pair that starts a proper
/// list (see [`is_list_spec`]).
pub fn pair_is_list(env: &mut Env, args: &[Expr]) -> (res: Result<Expr, NativeError>)
    requires
        old(env).wf(),
        args_valid(old(env)@, args@),
    ensures
        args@.len() != 1 ==> res == Err::<Expr, NativeError>(NativeError::WrongArgumentCount),
        args@.len() == 1 ==> res == Ok::<Expr, NativeError>(
            Expr::Bool(is_list_spec(old(env)@.pairs, args@[0])),
        ),
        *final(env) == *old(env),
{
    if args.len() != 1 {
        return Err(NativeError::WrongArgumentCount);
    }
    let start = match args[0] {
        Expr::Pair(k) => k,
        _ => {
            return Ok(Expr::Bool(false));
        },
    };
    assert(pair_below(args@[0], env@.pairs.len() as int));
    let mut cur = start;
    loop
        invariant
            env.wf(),
            *env == *old(env),
            args@.len() == 1,
            args@[0] == Expr::Pair(start),
            cur < env@.pairs.len(),
            list_from(env@.pairs, cur as int) == list_from(env@.pairs, start as int),
        decreases cur,
    {
        let (_, cdr) = env.pair_at(cur);
        match cdr {
            Expr::Nil => {
                return Ok(Expr::Bool(true));
            },
            Expr::Pair(j) => {
                if j < cur {
                    cur = j;
                } else {
                    return Ok(Expr::Bool(false));
                }
            },
            _ => {
                return Ok(Expr::Bool(false));
            },
        }
    }
}

/// The pairs that `(list x ...)` makes after the first `base` pairs: one per
/// argument, the last argument first, each but the first with the one
/// before it as its cdr.
pub open spec fn list_pairs(base: int, args: Seq<Expr>) -> Seq<(Expr, Expr)> {
    Seq::new(
        args.len(),
        |j: int|
            (
                args[args.len() - 1 - j],
                if j == 0 {
                    Expr::Nil
                } else {
                    Expr::Pair((base + j - 1) as usize)
                },
            ),
    )
}

/// What `(list x ...)` gives: the empty list with no arguments, else the
/// pair made last.
pub open spec fn list_result(base: int, n: int) -> Expr {
    if n == 0 {
        Expr::Nil
    } else {
        Expr::Pair((base + n - 1) as usize)
    }
}

/// `(list x ...)`: a proper list of the arguments, made of new pairs (see
/// [`list_pairs`]).
pub fn pair_list(env: &mut Env, args: &[Expr]) -> (res: Result<Expr, NativeError>)
    requires
        old(env).wf(),
        args_valid(old(env)@, args@),
        old(env)@.pairs.len() + args@.len() < usize::MAX,
    ensures
        final(env).wf(),
        res == Ok::<Expr, NativeError>(list_result(old(env)@.pairs.len() as int, args@.len() as int)),
        final(env)@ == (EnvView {
            pairs: old(env)@.pairs + list_pairs(old(env)@.pairs.len() as int, args@),
            ..old(env)@
        }),
{
    let ghost before = env@;
    let ghost base = before.pairs.len() as int;
    let ghost all = list_pairs(base, args@);
    let n = args.len();
    let mut tail = Expr::Nil;
    let mut i = n;
    proof {
        assert(before.pairs + all.take(0) =~= before.pairs);
    }
    while i > 0
        invariant
            i <= n,
            n == args@.len(),
            base == before.pairs.len(),
            all == list_pairs(base, args@),
            base + n < usize::MAX,
            args_valid(before, args@),
            env.wf(),
            env@ == (EnvView { pairs: before.pairs + all.take(n - i), ..before }),
            tail == list_result(base, n - i),
        decreases i,
    {
        i -= 1;
        assert(pair_below(args@[i as int], base));
        let k = env.push_pair(args[i], tail);
        tail = Expr::Pair(k);
        proof {
            assert(before.pairs + all.take(n - i) =~= (before.pairs + all.take(n - i - 1)).push(
                (args@[i as int], list_result(base, n - i - 1)),
            ));
        }
    }
    proof {
        assert(all.take(n as int) =~= all);
    }
    Ok(tail)
}

/// `(cons a b)`: a new pair of the two arguments.
pub fn pair_cons(env: &mut Env, args: &[Expr]) -> (res: Result<Expr, NativeError>)
    requires
        old(env).wf(),
        args_valid(old(env)@, args@),
        old(env)@.pairs.len() < usize::MAX,
    ensures
        final(env).wf(),
        args@.len() != 2 ==> res == Err::<Expr, NativeError>(NativeError::WrongArgumentCount)
            && *final(env) == *old(env),
        args@.len() == 2 ==> res == Ok::<Expr, NativeError>(
            Expr::Pair(old(env)@.pairs.len() as usize),
        ) && final(env)@ == (EnvView {
            pairs: old(env)@.pairs.push((args@[0], args@[1])),
            ..old(env)@
        }),
{
    if args.len() != 2 {
        return Err(NativeError::WrongArgumentCount);
    }
    assert(pair_below(args@[0], env@.pairs.len() as int));
    assert(pair_below(args@[1], env@.pairs.len() as int));
    let k = env.push_pair(args[0], args[1]);
    Ok(Expr::Pair(k))
}

/// The car (`first`) or the cdr of the one argument, which must be a pair.
fn pair_field(env: &Env, args: &[Expr], first: bool) -> (res: Result<Expr, NativeError>)
    requires
        env.wf(),
        args_valid(env@, args@),
    ensures
        args@.len() != 1 ==> res == Err::<Expr, NativeError>(NativeError::WrongArgumentCount),
        args@.len() == 1 ==> res == match args@[0] {
            Expr::Pair(k) => Ok::<Expr, NativeError>(
                if first {
                    env@.pairs[k as int].0
                } else {
                    env@.pairs[k as int].1
                },
            ),
            _ => Err::<Expr, NativeError>(NativeError::ExpectedPair),
        },
{
    if args.len() != 1 {
        return Err(NativeError::WrongArgumentCount);
    }
    match args[0] {
        Expr::Pair(k) => {
            assert(pair_below(args@[0], env@.pairs.len() as int));
            let (car, cdr) = env.pair_at(k);
            Ok(
                if first {
                    car
                } else {
                    cdr
                },
            )
        },
        _ => Err(NativeError::ExpectedPair),
    }
}

/// `(car p)`: the first element of the pair `p`.
pub fn pair_car(env: &mut Env, args: &[Expr]) -> (res: Result<Expr, NativeError>)
    requires
        old(env).wf(),
        args_valid(old(env)@, args@),
    ensures
        *final(env) == *old(env),
        args@.len() != 1 ==> res == Err::<Expr, NativeError>(NativeError::WrongArgumentCount),
        args@.len() == 1 ==> res == match args@[0] {
            Expr::Pair(k) => Ok::<Expr, NativeError>(old(env)@.pairs[k as int].0),
            _ => Err::<Expr, NativeError>(NativeError::ExpectedPair),
        },
{
    pair_field(env, args, true)
}

/// `(cdr p)`: the rest of the pair `p`.
pub fn pair_cdr(env: &mut Env, args: &[Expr]) -> (res: Result<Expr, NativeError>)
    requires
        old(env).wf(),
        args_valid(old(env)@, args@),
    ensures
        *final(env) == *old(env),
        args@.len() != 1 ==> res == Err::<Expr, NativeError>(NativeError::WrongArgumentCount),
        args@.len() == 1 ==> res == match args@[0] {
            Expr::Pair(k) => Ok::<Expr, NativeError>(old(env)@.pairs[k as int].1),
            _ => Err::<Expr, NativeError>(NativeError::ExpectedPair),
        },
{
    pair_field(env, args, false)
}

/// Adding a pair does not change whether an older pair starts a list.
proof fn lemma_list_from_push(pairs: Seq<(Expr, Expr)>, x: (Expr, Expr), k: int)
    requires
        0 <= k < pairs.len(),
    ensures
        list_from(pairs.push(x), k) == list_from(pairs, k),
    decreases k,
{
    assert(pairs.push(x)[k] == pairs[k]);
    match pairs[k].1 {
        Expr::Pair(j) => if j < k {
            lemma_list_from_push(pairs, x, j as int);
        },
        _ => {},
    }
}

/// `list?` looks along the whole chain of cdrs: a pair whose cdr is the
/// empty list is a list, a pair whose cdr is another pair is a list exactly
/// when that pair is, and a pair whose cdr is anything else is not.
pub proof fn lemma_list_follows_cdrs(pairs: Seq<(Expr, Expr)>, k: usize)
    requires
        pairs_wf(pairs),
        k < pairs.len(),
    ensures
        pairs[k as int].1 == Expr::Nil ==> is_list_spec(pairs, Expr::Pair(k)),
        pairs[k as int].1 matches Expr::Pair(j) ==> is_list_spec(pairs, Expr::Pair(k))
            == is_list_spec(pairs, Expr::Pair(j)),
        !(pairs[k as int].1 is Nil) && !(pairs[k as int].1 is Pair) ==> !is_list_spec(
            pairs,
            Expr::Pair(k),
        ),
{
    assert(pair_below(pairs[k as int].1, k as int));
}

/// `cons` makes a list exactly when its second argument is the empty list
/// or a list: `(cons a b)` is a list iff `b` is `'()` or `(list? b)`.
pub proof fn lemma_cons_is_list(pairs: Seq<(Expr, Expr)>, a: Expr, b: Expr)
    requires
        pairs_wf(pairs),
        pair_below(b, pairs.len() as int),
        pairs.len() < usize::MAX,
    ensures
        is_list_spec(pairs.push((a, b)), Expr::Pair(pairs.len() as usize)) == (b == Expr::Nil
            || is_list_spec(pairs, b)),
{
    let all = pairs.push((a, b));
    let k = pairs.len() as int;
    assert(all[k] == (a, b));
    assert((pairs.len() as usize) as int == k);
    match b {
        Expr::Pair(j) => {
            lemma_list_from_push(pairs, (a, b), j as int);
        },
        _ => {},
    }
}

/// `(and x ...)` is `#f` exactly when some argument is `#f`; otherwise it
/// is the last argument, or `#t` with none.
pub proof fn lemma_and(args: Seq<Expr>)
    ensures
        (and_spec(args) == Expr::Bool(false)) <==> (exists|i: int|
            0 <= i < args.len() && #[trigger] args[i] == Expr::Bool(false)),
        (forall|i: int| 0 <= i < args.len() ==> #[trigger] args[i] != Expr::Bool(false)) ==> and_spec(
            args,
        ) == if args.len() == 0 {
            Expr::Bool(true)
        } else {
            args[args.len() - 1]
        },
{
    if and_spec(args) == Expr::Bool(false) && args.len() > 0 && !(exists|i: int|
        0 <= i < args.len() && #[trigger] args[i] == Expr::Bool(false)) {
        assert(args[args.len() - 1] != Expr::Bool(false));
    }
}

/// The list that `(list x ...)` makes holds the arguments in order: its
/// `j`-th pair, counted from the one returned, has the `j`-th argument as
/// its car, and its cdr is the next pair, or the empty list after the last.
pub proof fn lemma_list_elements(pairs: Seq<(Expr, Expr)>, args: Seq<Expr>, j: int)
    requires
        0 <= j < args.len(),
        pairs.len() + args.len() < usize::MAX,
    ensures
        ({
            let all = pairs + list_pairs(pairs.len() as int, args);
            let at = pairs.len() + args.len() - 1 - j;
            &&& all[at].0 == args[j]
            &&& j == args.len() - 1 ==> all[at].1 == Expr::Nil
            &&& j < args.len() - 1 ==> all[at].1 == Expr::Pair((at - 1) as usize)
        }),
{
    let all = pairs + list_pairs(pairs.len() as int, args);
    let at = pairs.len() + args.len() - 1 - j;
    assert(all[at] == list_pairs(pairs.len() as int, args)[args.len() - 1 - j]);
}

/// What `(list x ...)` makes is a proper list: following cdrs from its
/// result reaches the empty list.
pub proof fn lemma_list_is_list(pairs: Seq<(Expr, Expr)>, args: Seq<Expr>)
    requires
        args.len() > 0,
        pairs.len() + args.len() < usize::MAX,
    ensures
        is_list_spec(
            pairs + list_pairs(pairs.len() as int, args),
            list_result(pairs.len() as int, args.len() as int),
        ),
{
    lemma_list_from_built(pairs, args, args.len() - 1);
}

/// Each pair that `(list x ...)` makes starts a proper list.
proof fn lemma_list_from_built(pairs: Seq<(Expr, Expr)>, args: Seq<Expr>, j: int)
    requires
        0 <= j < args.len(),
        pairs.len() + args.len() < usize::MAX,
    ensures
        list_from(pairs + list_pairs(pairs.len() as int, args), pairs.len() + j),
    decreases j,
{
    let base = pairs.len() as int;
    let all = pairs + list_pairs(base, args);
    assert(all[base + j] == list_pairs(base, args)[j]);
    if j > 0 {
        lemma_list_from_built(pairs, args, j - 1);
        assert(((base + j - 1) as usize) as int == base + j - 1);
    }
}

} // verus!
