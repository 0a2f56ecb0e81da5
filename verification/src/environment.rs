//! The execution environment: variables known by name, each with a value
//! slot, and the core library bound into it.
//!
//! Native procedures are known by their number in [`CORE_NAMES`] order;
//! whoever runs them keeps the table of their code.

use vstd::prelude::*;

use crate::vm::Op;
use crate::symbol::{interned, SymbolId, SymbolTable};

verus! {

/// A value at run time. Immediate values are held directly; a number by the
/// bits of its floating-point value, which nothing here computes with;
/// closures by their slot in the machine, procedures by their slot in the
/// environment, native procedures by their number, pairs by their slot in
/// the environment's pairs, strings and other data (vectors, symbols) by a
/// handle that the host resolves.
#[derive(Debug, Clone, Copy, PartialEq, Eq, Structural)]
pub enum Expr {
    Nil,
    Void,
    Bool(bool),
    Number(u64),
    String(usize),
    Pair(usize),
    Data(usize),
    Procedure(usize),
    Closure(usize),
    NativeFunc(usize),
}

/// A procedure prototype: its bytecode, its constants, how many locals a
/// call needs, and how many up-values a closure of it captures.
pub struct Proc {
    pub code: Vec<Op>,
    pub constants: Vec<Expr>,
    pub local_count: usize,
    pub up_value_count: usize,
}

/// The model of a procedure prototype.
pub struct ProcView {
    pub code: Seq<Op>,
    pub constants: Seq<Expr>,
    pub local_count: usize,
    pub up_value_count: usize,
}

/// The model of a procedure prototype.
pub open spec fn proc_view(p: Proc) -> ProcView {
    ProcView {
        code: p.code@,
        constants: p.constants@,
        local_count: p.local_count,
        up_value_count: p.up_value_count,
    }
}

/// Why an environment operation failed.
#[derive(Debug)]
pub enum EnvError {
    /// No variable has this identifier.
    NotDeclared(SymbolId),
    /// A variable of this name exists already.
    AlreadyBound(String),
}

/// The model of an environment operation's failure.
pub enum EnvFailure {
    NotDeclared(SymbolId),
    AlreadyBound(Seq<char>),
}

/// The model of an error.
pub open spec fn failure_of(e: EnvError) -> EnvFailure {
    match e {
        EnvError::NotDeclared(id) => EnvFailure::NotDeclared(id),
        EnvError::AlreadyBound(name) => EnvFailure::AlreadyBound(name@),
    }
}

/// The model of an environment: the variable names, in the order they were
/// declared, and their values, slot by slot.
pub struct EnvView {
    pub names: Seq<Seq<char>>,
    pub values: Seq<Expr>,
    pub procedures: Seq<ProcView>,
    pub pairs: Seq<(Expr, Expr)>,
}

/// `e` names no pair at or after slot `n`.
pub open spec fn pair_below(e: Expr, n: int) -> bool {
    e matches Expr::Pair(k) ==> k < n
}

/// Each pair holds only pairs made before it, so following pairs ends.
pub open spec fn pairs_wf(pairs: Seq<(Expr, Expr)>) -> bool {
    forall|i: int|
        0 <= i < pairs.len() ==> pair_below((#[trigger] pairs[i]).0, i) && pair_below(pairs[i].1, i)
}

/// An execution environment.
pub struct Env {
    variables: SymbolTable,
    var_values: Vec<Expr>,
    procedures: Vec<Proc>,
    pairs: Vec<(Expr, Expr)>,
}

impl View for Env {
    type V = EnvView;

    closed spec fn view(&self) -> EnvView {
        EnvView {
            names: self.variables@,
            values: self.var_values@,
            procedures: self.procedures@.map_values(|p: Proc| proc_view(p)),
            pairs: self.pairs@,
        }
    }
}

/// Declaring `name`: a new variable, with no value yet, unless one of that
/// name exists.
pub open spec fn declared(e: EnvView, name: Seq<char>) -> EnvView {
    if e.names.contains(name) {
        e
    } else {
        EnvView { names: e.names.push(name), values: e.values.push(Expr::Nil), ..e }
    }
}

/// Binding the native procedure `func` to a new variable `name`: the new
/// state, and the new variable's slot or the failure when the name is taken.
pub open spec fn bound(e: EnvView, name: Seq<char>, func: usize) -> (EnvView, Result<nat, EnvFailure>) {
    if e.names.contains(name) {
        (e, Err(EnvFailure::AlreadyBound(name)))
    } else {
        (
            EnvView {
                names: e.names.push(name),
                values: e.values.push(Expr::NativeFunc(func)),
                ..e
            },
            Ok(e.names.len()),
        )
    }
}

/// Declaring a name that is declared already changes nothing, its value
/// included; a new name gets a new last slot holding the empty list, the
/// other slots keeping their values; declaring twice is declaring once.
pub proof fn lemma_declared(e: EnvView, name: Seq<char>)
    ensures
        e.names.contains(name) ==> declared(e, name) == e,
        !e.names.contains(name) ==> {
            &&& declared(e, name).names == e.names.push(name)
            &&& declared(e, name).values.len() == e.values.len() + 1
            &&& declared(e, name).values[e.values.len() as int] == Expr::Nil
            &&& forall|i: int|
                0 <= i < e.values.len() ==> #[trigger] declared(e, name).values[i] == e.values[i]
            &&& declared(e, name).procedures == e.procedures
            &&& declared(e, name).pairs == e.pairs
        },
        declared(declared(e, name), name) == declared(e, name),
{
    if !e.names.contains(name) {
        assert(declared(e, name).names[e.names.len() as int] == name);
    }
}

/// Binding a native procedure to a taken name fails and changes nothing; to
/// a new name, the name gets the next slot, holding the procedure, and that
/// slot is returned.
pub proof fn lemma_bound(e: EnvView, name: Seq<char>, func: usize)
    ensures
        e.names.contains(name) ==> bound(e, name, func) == (e, Err::<nat, EnvFailure>(
            EnvFailure::AlreadyBound(name),
        )),
        !e.names.contains(name) ==> {
            &&& bound(e, name, func).1 == Ok::<nat, EnvFailure>(e.names.len())
            &&& bound(e, name, func).0.names == e.names.push(name)
            &&& bound(e, name, func).0.values == e.values.push(Expr::NativeFunc(func))
        },
{
}

/// An identifier and a slot result agree.
pub open spec fn id_result_matches(res: Result<SymbolId, EnvError>, r: Result<nat, EnvFailure>) -> bool {
    match (res, r) {
        (Ok(id), Ok(n)) => id.as_inner_spec() == n,
        (Err(e), Err(f)) => failure_of(e) == f,
        _ => false,
    }
}

/// Extend `table` with empty slots so that slot `index` exists.
fn grow_table(table: &mut Vec<Expr>, index: usize)
    requires
        index < usize::MAX,
    ensures
        old(table)@.len() > index ==> final(table)@ == old(table)@,
        old(table)@.len() <= index ==> final(table)@.len() == index + 1 && final(table)@.subrange(
            0,
            old(table)@.len() as int,
        ) == old(table)@ && forall|i: int|
            old(table)@.len() <= i <= index ==> final(table)@[i] is Nil,
{
    if index >= table.len() {
        let ghost before = table@;
        while table.len() <= index
            invariant
                before.len() <= table@.len() <= index + 1,
                table@.subrange(0, before.len() as int) == before,
                forall|i: int| before.len() <= i < table@.len() ==> table@[i] is Nil,
            decreases index + 1 - table.len(),
        {
            table.push(Expr::Nil);
        }
    }
}

/// The names of the core library's native procedures; a native procedure's
/// number is its position here.
pub open spec fn core_names() -> Seq<Seq<char>> {
    seq![
        "assert"@,
        "assert-eq"@,
        "display"@,
        "newline"@,
        "number?"@,
        "+"@,
        "-"@,
        "*"@,
        "="@,
        "<"@,
        ">"@,
        "<="@,
        ">="@,
        "boolean?"@,
        "not"@,
        "and"@,
        "or"@,
        "pair?"@,
        "list?"@,
        "list"@,
        "cons"@,
        "car"@,
        "cdr"@,
    ]
}

/// Binding the native procedures `names[k..]`, each numbered by its
/// position, one after the other, stopping at the first failure: the state
/// afterwards and the outcome.
pub open spec fn bind_from(e: EnvView, names: Seq<Seq<char>>, k: int) -> (EnvView, Result<(), EnvFailure>)
    decreases names.len() - k,
{
    if k < 0 || k >= names.len() {
        (e, Ok(()))
    } else {
        let (e2, r) = bound(e, names[k], k as usize);
        match r {
            Ok(_) => bind_from(e2, names, k + 1),
            Err(f) => (e2, Err(f)),
        }
    }
}

/// Binding names that are new and distinct, `names[k..]`, succeeds: each
/// name gets the next slot in turn, holding the native procedure numbered by
/// its position in `names`, and nothing else changes.
pub proof fn lemma_bind_fresh(e: EnvView, names: Seq<Seq<char>>, k: int)
    requires
        0 <= k <= names.len(),
        names.len() <= usize::MAX,
        forall|i: int| k <= i < names.len() ==> !e.names.contains(#[trigger] names[i]),
        forall|i: int, j: int| k <= i < j < names.len() ==> names[i] != names[j],
    ensures
        bind_from(e, names, k) == (
            EnvView {
                names: e.names + names.subrange(k, names.len() as int),
                values: e.values + Seq::new(
                    (names.len() - k) as nat,
                    |i: int| Expr::NativeFunc((k + i) as usize),
                ),
                ..e
            },
            Ok::<(), EnvFailure>(()),
        ),
    decreases names.len() - k,
{
    let tail = Seq::new((names.len() - k) as nat, |i: int| Expr::NativeFunc((k + i) as usize));
    if k == names.len() {
        assert(names.subrange(k, names.len() as int) =~= Seq::<Seq<char>>::empty());
        assert(e.names + names.subrange(k, names.len() as int) =~= e.names);
        assert(e.values + tail =~= e.values);
    } else {
        let e2 = bound(e, names[k], k as usize).0;
        assert forall|i: int| k + 1 <= i < names.len() implies !e2.names.contains(
            #[trigger] names[i],
        ) by {
            if e2.names.contains(names[i]) {
                let p = choose|p: int| 0 <= p < e2.names.len() && e2.names[p] == names[i];
                if p < e.names.len() {
                    assert(e.names[p] == names[i]);
                }
            }
        }
        lemma_bind_fresh(e2, names, k + 1);
        let tail2 = Seq::new(
            (names.len() - (k + 1)) as nat,
            |i: int| Expr::NativeFunc((k + 1 + i) as usize),
        );
        assert(e2.names + names.subrange(k + 1, names.len() as int) =~= e.names + names.subrange(
            k,
            names.len() as int,
        ));
        assert(e2.values + tail2 =~= e.values + tail);
    }
}

/// Binding stops at the first name that is taken, with that name's error,
/// leaving the environment as the names before it left it.
pub proof fn lemma_bind_clash(e: EnvView, names: Seq<Seq<char>>, k: int)
    requires
        0 <= k < names.len(),
        e.names.contains(names[k]),
    ensures
        bind_from(e, names, k) == (e, Err::<(), EnvFailure>(EnvFailure::AlreadyBound(names[k]))),
{
}

/// The model of an outcome.
pub open spec fn outcome_of(r: Result<(), EnvError>) -> Result<(), EnvFailure> {
    match r {
        Ok(()) => Ok(()),
        Err(e) => Err(failure_of(e)),
    }
}

impl Env {
    /// Values cover the variables slot for slot, and no name occurs twice.
    pub closed spec fn wf(&self) -> bool {
        &&& self.variables.wf()
        &&& self.var_values@.len() == self.variables@.len()
        &&& self.variables@.len() <= u16::MAX
        &&& pairs_wf(self.pairs@)
    }

    /// What a well-formed environment knows of its names and slots.
    pub proof fn lemma_wf(&self)
        requires
            self.wf(),
        ensures
            self@.values.len() == self@.names.len(),
            self@.names.len() <= u16::MAX,
            forall|i: int, j: int|
                0 <= i < j < self@.names.len() ==> self@.names[i] != self@.names[j],
    {
        self.variables.lemma_wf();
    }

    /// An environment with no variables.
    pub fn new() -> (env: Self)
        ensures
            env.wf(),
            env@.names == Seq::<Seq<char>>::empty(),
            env@.values == Seq::<Expr>::empty(),
            env@.procedures == Seq::<ProcView>::empty(),
            env@.pairs == Seq::<(Expr, Expr)>::empty(),
    {
        let env = Env {
            variables: SymbolTable::new(),
            var_values: Vec::new(),
            procedures: Vec::new(),
            pairs: Vec::new(),
        };
        assert(env@.procedures =~= Seq::<ProcView>::empty());
        env
    }

    /// The identifier of the variable `name`, if it is declared.
    pub fn resolve_var(&self, name: &str) -> (id: Option<SymbolId>)
        requires
            self.wf(),
        ensures
            match id {
                Some(id) => 0 <= id.as_inner_spec() < self@.names.len() && self@.names[id.as_inner_spec() as int]
                    == name@,
                None => !self@.names.contains(name@),
            },
    {
        let id = self.variables.resolve(name);
        proof {
            if id is Some {
                let i = choose|i: int|
                    {
                        &&& 0 <= i < self@.names.len()
                        &&& self@.names[i] == name@
                        &&& id->0.as_inner_spec() == i as u16
                        &&& forall|k: int| 0 <= k < i ==> self@.names[k] != name@
                    };
                assert(i as u16 == i);
            }
            if id is None {
                if self@.names.contains(name@) {
                    let i = choose|i: int| 0 <= i < self@.names.len() && self@.names[i] == name@;
                }
            }
        }
        id
    }

    /// The value of the variable `symbol`, if it is declared.
    pub fn get_var(&self, symbol: SymbolId) -> (value: Option<&Expr>)
        ensures
            symbol.as_inner_spec() < self@.values.len() ==> value == Some(
                &self@.values[symbol.as_inner_spec() as int],
            ),
            symbol.as_inner_spec() >= self@.values.len() ==> value is None,
    {
        let index = symbol.as_usize();
        if index < self.var_values.len() {
            Some(&self.var_values[index])
        } else {
            None
        }
    }

    /// The value of the variable `name`, if it is declared.
    pub fn lookup_var(&self, name: &str) -> (value: Option<&Expr>)
        requires
            self.wf(),
        ensures
            self@.names.contains(name@) ==> exists|i: int|
                0 <= i < self@.names.len() && self@.names[i] == name@ && value == Some(
                    &self@.values[i],
                ),
            !self@.names.contains(name@) ==> value is None,
    {
        match self.resolve_var(name) {
            Some(symbol) => self.get_var(symbol),
            None => None,
        }
    }

    /// Give the variable `symbol` the value `value`; an error if it is not
    /// declared.
    pub fn set_var(&mut self, symbol: SymbolId, value: Expr) -> (res: Result<(), EnvError>)
        requires
            old(self).wf(),
        ensures
            final(self).wf(),
            final(self)@.names == old(self)@.names,
            final(self)@.procedures == old(self)@.procedures,
            final(self)@.pairs == old(self)@.pairs,
            symbol.as_inner_spec() < old(self)@.values.len() ==> res is Ok && final(self)@.values
                == old(self)@.values.update(symbol.as_inner_spec() as int, value),
            symbol.as_inner_spec() >= old(self)@.values.len() ==> (res matches Err(e) && failure_of(e)
                == EnvFailure::NotDeclared(symbol)) && final(self)@ == old(self)@,
    {
        let index = symbol.as_usize();
        if index < self.var_values.len() {
            self.var_values.set(index, value);
            Ok(())
        } else {
            Err(EnvError::NotDeclared(symbol))
        }
    }

    /// Declare the variable `name` (see [`declared`]) and return its
    /// identifier.
    pub fn intern_var(&mut self, name: &str) -> (id: SymbolId)
        requires
            old(self).wf(),
            old(self)@.names.len() < u16::MAX,
        ensures
            final(self).wf(),
            final(self)@ == declared(old(self)@, name@),
            old(self)@.names.contains(name@) ==> final(self)@ == old(self)@,
            !old(self)@.names.contains(name@) ==> final(self)@.names == old(self)@.names.push(name@)
                && final(self)@.values == old(self)@.values.push(Expr::Nil)
                && id.as_inner_spec() == old(self)@.names.len(),
            id.as_inner_spec() < final(self)@.names.len(),
            final(self)@.names[id.as_inner_spec() as int] == name@,
    {
        let ghost before = self@;
        let symbol = self.variables.intern(name);
        proof {
            if before.names.contains(name@) {
                let i = choose|i: int|
                    {
                        &&& 0 <= i < before.names.len()
                        &&& before.names[i] == name@
                        &&& symbol.as_inner_spec() == i as u16
                        &&& forall|k: int| 0 <= k < i ==> before.names[k] != name@
                    };
            }
        }
        grow_table(&mut self.var_values, symbol.as_usize());
        proof {
            if !before.names.contains(name@) {
                assert(self.var_values@ =~= before.values.push(Expr::Nil));
            }
            assert(self.variables@ == interned(before.names, name@));
        }
        symbol
    }

    /// The number of pairs.
    pub fn pair_count(&self) -> (n: usize)
        ensures
            n == self@.pairs.len(),
    {
        self.pairs.len()
    }

    /// The car and cdr of the pair in slot `k`.
    pub fn pair_at(&self, k: usize) -> (pair: (Expr, Expr))
        requires
            k < self@.pairs.len(),
        ensures
            pair == self@.pairs[k as int],
    {
        self.pairs[k]
    }

    /// Make a pair of `car` and `cdr`, which name only existing pairs; its
    /// slot is returned.
    pub fn push_pair(&mut self, car: Expr, cdr: Expr) -> (k: usize)
        requires
            old(self).wf(),
            old(self)@.pairs.len() < usize::MAX,
            pair_below(car, old(self)@.pairs.len() as int),
            pair_below(cdr, old(self)@.pairs.len() as int),
        ensures
            final(self).wf(),
            k == old(self)@.pairs.len(),
            final(self)@ == (EnvView { pairs: old(self)@.pairs.push((car, cdr)), ..old(self)@ }),
    {
        let k = self.pairs.len();
        let ghost before = self@;
        self.pairs.push((car, cdr));
        proof {
            assert(self@.pairs =~= before.pairs.push((car, cdr)));
            assert(self@.procedures =~= before.procedures);
        }
        k
    }

    /// Add a procedure prototype; its slot is returned.
    pub fn add_procedure(&mut self, procedure: Proc) -> (id: u16)
        requires
            old(self).wf(),
            old(self)@.procedures.len() < u16::MAX,
        ensures
            final(self).wf(),
            final(self)@ == (EnvView {
                procedures: old(self)@.procedures.push(proc_view(procedure)),
                ..old(self)@
            }),
            id == old(self)@.procedures.len(),
    {
        let index = self.procedures.len();
        let ghost before = self@;
        self.procedures.push(procedure);
        proof {
            assert(self@.procedures =~= before.procedures.push(proc_view(procedure)));
        }
        index as u16
    }

    /// The procedure prototype in slot `id`, if there is one.
    pub fn procedure(&self, id: usize) -> (p: Option<&Proc>)
        ensures
            id < self@.procedures.len() ==> (p matches Some(q) && proc_view(*q) == self@.procedures[id as int]),
            id >= self@.procedures.len() ==> p is None,
    {
        if id < self.procedures.len() {
            Some(&self.procedures[id])
        } else {
            None
        }
    }

    /// Bind the native procedure `func` to a new variable `name` (see
    /// [`bound`]); an error if a variable of that name exists.
    pub fn bind_native_func(&mut self, name: &str, func: usize) -> (res: Result<SymbolId, EnvError>)
        requires
            old(self).wf(),
            old(self)@.names.len() < u16::MAX,
        ensures
            final(self).wf(),
            final(self)@ == bound(old(self)@, name@, func).0,
            id_result_matches(res, bound(old(self)@, name@, func).1),
    {
        let ghost before = self@;
        match self.variables.insert_unique(name) {
            Some(symbol) => {
                grow_table(&mut self.var_values, symbol.as_usize());
                self.var_values.set(symbol.as_usize(), Expr::NativeFunc(func));
                proof {
                    assert(self.var_values@ =~= before.values.push(Expr::NativeFunc(func)));
                }
                Ok(symbol)
            },
            None => Err(EnvError::AlreadyBound(name.to_owned())),
        }
    }
}

/// Bind the core library's native procedures into `env`, in the order of
/// [`core_names`] (see [`bind_from`]): an error, with the procedures before
/// it bound, at the first name already taken.
pub fn init_core(env: &mut Env) -> (r: Result<(), EnvError>)
    requires
        old(env).wf(),
        old(env)@.names.len() + core_names().len() < u16::MAX,
    ensures
        final(env).wf(),
        (final(env)@, outcome_of(r)) == bind_from(old(env)@, core_names(), 0),
{
    let ghost names = core_names();
    assert(names.len() == 23);
    let ghost prev = env@;
    proof {
        assert(names[0] == "assert"@);
    }
    match env.bind_native_func("assert", 0) {
        Ok(_) => {
            assert(bind_from(prev, names, 0) == bind_from(env@, names, 1));
        },
        Err(e) => {
            assert(bind_from(prev, names, 0) == (env@, outcome_of(Err::<(), EnvError>(e))));
            return Err(e);
        },
    }
    let ghost prev = env@;
    proof {
        assert(names[1] == "assert-eq"@);
    }
    match env.bind_native_func("assert-eq", 1) {
        Ok(_) => {
            assert(bind_from(prev, names, 1) == bind_from(env@, names, 2));
        },
        Err(e) => {
            assert(bind_from(prev, names, 1) == (env@, outcome_of(Err::<(), EnvError>(e))));
            return Err(e);
        },
    }
    let ghost prev = env@;
    proof {
        assert(names[2] == "display"@);
    }
    match env.bind_native_func("display", 2) {
        Ok(_) => {
            assert(bind_from(prev, names, 2) == bind_from(env@, names, 3));
        },
        Err(e) => {
            assert(bind_from(prev, names, 2) == (env@, outcome_of(Err::<(), EnvError>(e))));
            return Err(e);
        },
    }
    let ghost prev = env@;
    proof {
        assert(names[3] == "newline"@);
    }
    match env.bind_native_func("newline", 3) {
        Ok(_) => {
            assert(bind_from(prev, names, 3) == bind_from(env@, names, 4));
        },
        Err(e) => {
            assert(bind_from(prev, names, 3) == (env@, outcome_of(Err::<(), EnvError>(e))));
            return Err(e);
        },
    }
    let ghost prev = env@;
    proof {
        assert(names[4] == "number?"@);
    }
    match env.bind_native_func("number?", 4) {
        Ok(_) => {
            assert(bind_from(prev, names, 4) == bind_from(env@, names, 5));
        },
        Err(e) => {
            assert(bind_from(prev, names, 4) == (env@, outcome_of(Err::<(), EnvError>(e))));
            return Err(e);
        },
    }
    let ghost prev = env@;
    proof {
        assert(names[5] == "+"@);
    }
    match env.bind_native_func("+", 5) {
        Ok(_) => {
            assert(bind_from(prev, names, 5) == bind_from(env@, names, 6));
        },
        Err(e) => {
            assert(bind_from(prev, names, 5) == (env@, outcome_of(Err::<(), EnvError>(e))));
            return Err(e);
        },
    }
    let ghost prev = env@;
    proof {
        assert(names[6] == "-"@);
    }
    match env.bind_native_func("-", 6) {
        Ok(_) => {
            assert(bind_from(prev, names, 6) == bind_from(env@, names, 7));
        },
        Err(e) => {
            assert(bind_from(prev, names, 6) == (env@, outcome_of(Err::<(), EnvError>(e))));
            return Err(e);
        },
    }
    let ghost prev = env@;
    proof {
        assert(names[7] == "*"@);
    }
    match env.bind_native_func("*", 7) {
        Ok(_) => {
            assert(bind_from(prev, names, 7) == bind_from(env@, names, 8));
        },
        Err(e) => {
            assert(bind_from(prev, names, 7) == (env@, outcome_of(Err::<(), EnvError>(e))));
            return Err(e);
        },
    }
    let ghost prev = env@;
    proof {
        assert(names[8] == "="@);
    }
    match env.bind_native_func("=", 8) {
        Ok(_) => {
            assert(bind_from(prev, names, 8) == bind_from(env@, names, 9));
        },
        Err(e) => {
            assert(bind_from(prev, names, 8) == (env@, outcome_of(Err::<(), EnvError>(e))));
            return Err(e);
        },
    }
    let ghost prev = env@;
    proof {
        assert(names[9] == "<"@);
    }
    match env.bind_native_func("<", 9) {
        Ok(_) => {
            assert(bind_from(prev, names, 9) == bind_from(env@, names, 10));
        },
        Err(e) => {
            assert(bind_from(prev, names, 9) == (env@, outcome_of(Err::<(), EnvError>(e))));
            return Err(e);
        },
    }
    let ghost prev = env@;
    proof {
        assert(names[10] == ">"@);
    }
    match env.bind_native_func(">", 10) {
        Ok(_) => {
            assert(bind_from(prev, names, 10) == bind_from(env@, names, 11));
        },
        Err(e) => {
            assert(bind_from(prev, names, 10) == (env@, outcome_of(Err::<(), EnvError>(e))));
            return Err(e);
        },
    }
    let ghost prev = env@;
    proof {
        assert(names[11] == "<="@);
    }
    match env.bind_native_func("<=", 11) {
        Ok(_) => {
            assert(bind_from(prev, names, 11) == bind_from(env@, names, 12));
        },
        Err(e) => {
            assert(bind_from(prev, names, 11) == (env@, outcome_of(Err::<(), EnvError>(e))));
            return Err(e);
        },
    }
    let ghost prev = env@;
    proof {
        assert(names[12] == ">="@);
    }
    match env.bind_native_func(">=", 12) {
        Ok(_) => {
            assert(bind_from(prev, names, 12) == bind_from(env@, names, 13));
        },
        Err(e) => {
            assert(bind_from(prev, names, 12) == (env@, outcome_of(Err::<(), EnvError>(e))));
            return Err(e);
        },
    }
    let ghost prev = env@;
    proof {
        assert(names[13] == "boolean?"@);
    }
    match env.bind_native_func("boolean?", 13) {
        Ok(_) => {
            assert(bind_from(prev, names, 13) == bind_from(env@, names, 14));
        },
        Err(e) => {
            assert(bind_from(prev, names, 13) == (env@, outcome_of(Err::<(), EnvError>(e))));
            return Err(e);
        },
    }
    let ghost prev = env@;
    proof {
        assert(names[14] == "not"@);
    }
    match env.bind_native_func("not", 14) {
        Ok(_) => {
            assert(bind_from(prev, names, 14) == bind_from(env@, names, 15));
        },
        Err(e) => {
            assert(bind_from(prev, names, 14) == (env@, outcome_of(Err::<(), EnvError>(e))));
            return Err(e);
        },
    }
    let ghost prev = env@;
    proof {
        assert(names[15] == "and"@);
    }
    match env.bind_native_func("and", 15) {
        Ok(_) => {
            assert(bind_from(prev, names, 15) == bind_from(env@, names, 16));
        },
        Err(e) => {
            assert(bind_from(prev, names, 15) == (env@, outcome_of(Err::<(), EnvError>(e))));
            return Err(e);
        },
    }
    let ghost prev = env@;
    proof {
        assert(names[16] == "or"@);
    }
    match env.bind_native_func("or", 16) {
        Ok(_) => {
            assert(bind_from(prev, names, 16) == bind_from(env@, names, 17));
        },
        Err(e) => {
            assert(bind_from(prev, names, 16) == (env@, outcome_of(Err::<(), EnvError>(e))));
            return Err(e);
        },
    }
    let ghost prev = env@;
    proof {
        assert(names[17] == "pair?"@);
    }
    match env.bind_native_func("pair?", 17) {
        Ok(_) => {
            assert(bind_from(prev, names, 17) == bind_from(env@, names, 18));
        },
        Err(e) => {
            assert(bind_from(prev, names, 17) == (env@, outcome_of(Err::<(), EnvError>(e))));
            return Err(e);
        },
    }
    let ghost prev = env@;
    proof {
        assert(names[18] == "list?"@);
    }
    match env.bind_native_func("list?", 18) {
        Ok(_) => {
            assert(bind_from(prev, names, 18) == bind_from(env@, names, 19));
        },
        Err(e) => {
            assert(bind_from(prev, names, 18) == (env@, outcome_of(Err::<(), EnvError>(e))));
            return Err(e);
        },
    }
    let ghost prev = env@;
    proof {
        assert(names[19] == "list"@);
    }
    match env.bind_native_func("list", 19) {
        Ok(_) => {
            assert(bind_from(prev, names, 19) == bind_from(env@, names, 20));
        },
        Err(e) => {
            assert(bind_from(prev, names, 19) == (env@, outcome_of(Err::<(), EnvError>(e))));
            return Err(e);
        },
    }
    let ghost prev = env@;
    proof {
        assert(names[20] == "cons"@);
    }
    match env.bind_native_func("cons", 20) {
        Ok(_) => {
            assert(bind_from(prev, names, 20) == bind_from(env@, names, 21));
        },
        Err(e) => {
            assert(bind_from(prev, names, 20) == (env@, outcome_of(Err::<(), EnvError>(e))));
            return Err(e);
        },
    }
    let ghost prev = env@;
    proof {
        assert(names[21] == "car"@);
    }
    match env.bind_native_func("car", 21) {
        Ok(_) => {
            assert(bind_from(prev, names, 21) == bind_from(env@, names, 22));
        },
        Err(e) => {
            assert(bind_from(prev, names, 21) == (env@, outcome_of(Err::<(), EnvError>(e))));
            return Err(e);
        },
    }
    let ghost prev = env@;
    proof {
        assert(names[22] == "cdr"@);
    }
    match env.bind_native_func("cdr", 22) {
        Ok(_) => {
            assert(bind_from(prev, names, 22) == bind_from(env@, names, 23));
        },
        Err(e) => {
            assert(bind_from(prev, names, 22) == (env@, outcome_of(Err::<(), EnvError>(e))));
            return Err(e);
        },
    }
    assert(bind_from(env@, names, 23) == (env@, outcome_of(Ok::<(), EnvError>(()))));
    Ok(())
}

} // verus!
