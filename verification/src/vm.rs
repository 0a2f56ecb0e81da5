//! The bytecode machine's instruction step: what one instruction does to the
//! operand stack, the up-values, the closures, the environment and the
//! current call frame, and what it asks of the loop that drives it (a call,
//! a return, a native call, an error).

use vstd::prelude::*;

use crate::environment::{proc_view, Env, EnvFailure, EnvView, Expr, ProcView};
use crate::symbol::SymbolId;

verus! {

/// Where a captured up-value comes from.
#[derive(Debug, Clone, Copy, PartialEq, Eq, Structural)]
pub enum UpValueOrigin {
    /// A local variable of the running frame.
    Parent(u8),
    /// An up-value of the running closure.
    Outer(u8),
}

/// A bytecode instruction.
#[derive(Debug, Clone, Copy, PartialEq, Eq, Structural)]
pub enum Op {
    Bail,
    PushNil,
    PushVoid,
    PushTrue,
    PushFalse,
    JumpFalse(usize),
    Jump(usize),
    Return,
    LoadEnvVar(SymbolId),
    StoreEnvVar(SymbolId),
    LoadUpValue(u8),
    StoreUpValue(u8),
    LoadLocalVar(u8),
    StoreLocalVar(u8),
    PushConstant(u16),
    Pop,
    CaptureValue(UpValueOrigin),
    CreateClosure(u16),
    CallClosure { arity: u8 },
    CallNative { arity: u8 },
    End,
}

/// A variable captured by a closure: open while it lives on the operand
/// stack (its position there), closed once its frame returned (its value).
#[derive(Debug, Clone, Copy, PartialEq, Eq, Structural)]
pub enum UpValue {
    Open(usize),
    Closed(Expr),
}

/// A closure: its procedure's slot and the slots of its up-values.
pub struct Closure {
    pub proc_id: usize,
    pub up_values: Vec<usize>,
}

/// A call frame: the closure it runs, where its arguments and locals start
/// on the operand stack, the up-values captured from its locals, and its
/// saved program counter.
pub struct CallFrame {
    pub closure: usize,
    pub stack_offset: usize,
    pub up_values: Vec<usize>,
    pub pc: usize,
}

/// Why an instruction failed.
#[derive(Debug, Clone, Copy, PartialEq, Eq, Structural)]
pub enum VmError {
    /// A store to a variable that is not declared.
    NotDeclared(SymbolId),
    /// A closure of a procedure slot that holds no procedure.
    ExpectedProcedureDefinition,
    /// An instruction other than a capture where a capture was expected.
    InvalidCaptureArgument(Op),
    /// A call of a value that cannot be called.
    InvalidCallable(Expr),
    /// A run started while the machine is running.
    AlreadyRunning,
}

/// Where the machine stops the program: the instruction is `Bail` or `End`,
/// a capture outside a closure creation, a call of a procedure value, or an
/// index out of range.
#[derive(Debug, Clone, Copy, PartialEq, Eq, Structural)]
pub enum VmPanic {
    Bail,
    End,
    CaptureOutsideClosure,
    ProcedureCall,
    IndexOutOfBounds,
}

/// What the loop must do after an instruction.
#[derive(Debug, Clone, Copy, PartialEq, Eq, Structural)]
pub enum Step {
    /// Run the next instruction.
    Continue,
    /// Call the closure in slot `.0`, its arguments starting at `.1`.
    Call(usize, usize),
    /// The frame returns this value.
    Return(Expr),
    /// Run native procedure `.0` on the arguments from `.1` to the top, then
    /// put its result in place of the callee and arguments.
    Native(usize, usize),
    /// The run stops with this error.
    Fail(VmError),
    /// The program stops here.
    Panic(VmPanic),
}

/// The operand stack, the call stack below the running frame, the closures
/// and the up-values.
pub struct Vm {
    pub operand: Vec<Expr>,
    pub frames: Vec<CallFrame>,
    pub closures: Vec<Closure>,
    pub up_values: Vec<UpValue>,
}

/// The model of a closure.
pub struct ClosureView {
    pub proc_id: usize,
    pub up_values: Seq<usize>,
}

/// The model of a call frame.
pub struct FrameView {
    pub closure: usize,
    pub stack_offset: usize,
    pub up_values: Seq<usize>,
    pub pc: usize,
}

/// The model of the machine.
pub struct VmView {
    pub operand: Seq<Expr>,
    pub frames: Seq<FrameView>,
    pub closures: Seq<ClosureView>,
    pub up_values: Seq<UpValue>,
}

/// The model of a closure.
pub open spec fn closure_view(c: Closure) -> ClosureView {
    ClosureView { proc_id: c.proc_id, up_values: c.up_values@ }
}

/// The model of a call frame.
pub open spec fn frame_view(f: CallFrame) -> FrameView {
    FrameView { closure: f.closure, stack_offset: f.stack_offset, up_values: f.up_values@, pc: f.pc }
}

impl View for CallFrame {
    type V = FrameView;

    open spec fn view(&self) -> FrameView {
        frame_view(*self)
    }
}

impl View for Vm {
    type V = VmView;

    open spec fn view(&self) -> VmView {
        VmView {
            operand: self.operand@,
            frames: self.frames@.map_values(|f: CallFrame| frame_view(f)),
            closures: self.closures@.map_values(|c: Closure| closure_view(c)),
            up_values: self.up_values@,
        }
    }
}

/// Everything an instruction works on: the machine, the environment, the
/// running frame and the program counter.
pub struct Machine {
    pub vm: VmView,
    pub env: EnvView,
    pub frame: FrameView,
    pub pc: usize,
}

/// The references between the parts hold: the running frame's closure
/// exists, every closure's procedure exists, and every up-value slot that a
/// closure or the frame names exists.
pub open spec fn refs_valid(m: Machine) -> bool {
    &&& m.frame.closure < m.vm.closures.len()
    &&& forall|c: int|
        0 <= c < m.vm.closures.len() ==> (#[trigger] m.vm.closures[c]).proc_id
            < m.env.procedures.len()
    &&& forall|c: int, k: int|
        0 <= c < m.vm.closures.len() && 0 <= k < m.vm.closures[c].up_values.len()
            ==> #[trigger] m.vm.closures[c].up_values[k] < m.vm.up_values.len()
    &&& forall|k: int|
        0 <= k < m.frame.up_values.len() ==> #[trigger] m.frame.up_values[k]
            < m.vm.up_values.len()
}

/// The running closure.
pub open spec fn running(m: Machine) -> ClosureView {
    m.vm.closures[m.frame.closure as int]
}

/// The running procedure.
pub open spec fn running_proc(m: Machine) -> ProcView {
    m.env.procedures[running(m).proc_id as int]
}

/// The lengths stay within what the machine's counters can hold.
pub open spec fn room(m: Machine) -> bool {
    &&& m.vm.operand.len() < usize::MAX
    &&& m.vm.closures.len() < usize::MAX
    &&& m.vm.up_values.len() + running_proc(m).code.len() < usize::MAX
    &&& m.frame.up_values.len() + running_proc(m).code.len() < usize::MAX
    &&& m.frame.stack_offset < usize::MAX - 256
}

/// The top of the operand stack, or void when it is empty.
pub open spec fn top_or_void(s: Seq<Expr>) -> Expr {
    if s.len() > 0 {
        s.last()
    } else {
        Expr::Void
    }
}

/// The machine with `value` pushed and the program counter at `pc`.
pub open spec fn pushed(m: Machine, value: Expr, pc: usize) -> Machine {
    Machine { vm: VmView { operand: m.vm.operand.push(value), ..m.vm }, pc, ..m }
}

/// Capture `remaining` more up-values for a new closure, reading a
/// `CaptureValue` instruction for each at the program counter; `outer` are
/// the running closure's up-values and `list` the captures so far. The
/// machine afterwards, the captures, and the step to stop with, if the
/// capturing stopped.
pub open spec fn capture_spec(
    m: Machine,
    ops: Seq<Op>,
    outer: Seq<usize>,
    remaining: nat,
    list: Seq<usize>,
) -> (Machine, Seq<usize>, Option<Step>)
    decreases remaining,
{
    if remaining == 0 {
        (m, list, None)
    } else if m.pc >= ops.len() {
        (m, list, Some(Step::Panic(VmPanic::IndexOutOfBounds)))
    } else {
        match ops[m.pc as int] {
            Op::CaptureValue(UpValueOrigin::Parent(local)) => {
                let slot = m.vm.up_values.len() as usize;
                let m2 = Machine {
                    vm: VmView {
                        up_values: m.vm.up_values.push(
                            UpValue::Open((m.frame.stack_offset + local) as usize),
                        ),
                        ..m.vm
                    },
                    frame: FrameView { up_values: m.frame.up_values.push(slot), ..m.frame },
                    pc: (m.pc + 1) as usize,
                    ..m
                };
                capture_spec(m2, ops, outer, (remaining - 1) as nat, list.push(slot))
            },
            Op::CaptureValue(UpValueOrigin::Outer(id)) => if id >= outer.len() {
                (m, list, Some(Step::Panic(VmPanic::IndexOutOfBounds)))
            } else {
                capture_spec(
                    Machine { pc: (m.pc + 1) as usize, ..m },
                    ops,
                    outer,
                    (remaining - 1) as nat,
                    list.push(outer[id as int]),
                )
            },
            other => (m, list, Some(Step::Fail(VmError::InvalidCaptureArgument(other)))),
        }
    }
}

/// Close the up-values `list` that are still open, each taking the value at
/// its stack position; `None` where a position is past the top.
pub open spec fn close_spec(ups: Seq<UpValue>, operand: Seq<Expr>, list: Seq<usize>) -> Option<
    Seq<UpValue>,
>
    decreases list.len(),
{
    if list.len() == 0 {
        Some(ups)
    } else {
        let slot = list[0] as int;
        match ups[slot] {
            UpValue::Open(pos) => if pos >= operand.len() {
                None
            } else {
                close_spec(
                    ups.update(slot, UpValue::Closed(operand[pos as int])),
                    operand,
                    list.drop_first(),
                )
            },
            UpValue::Closed(_) => close_spec(ups, operand, list.drop_first()),
        }
    }
}

/// Closing up-values keeps their number.
pub proof fn lemma_close_len(ups: Seq<UpValue>, operand: Seq<Expr>, list: Seq<usize>)
    requires
        forall|k: int| 0 <= k < list.len() ==> #[trigger] list[k] < ups.len(),
    ensures
        close_spec(ups, operand, list) matches Some(u) ==> u.len() == ups.len(),
    decreases list.len(),
{
    if list.len() > 0 {
        let slot = list[0] as int;
        assert forall|k: int| 0 <= k < list.drop_first().len() implies #[trigger] list.drop_first()[k]
            < ups.len() by {
            assert(list.drop_first()[k] == list[k + 1]);
        }
        match ups[slot] {
            UpValue::Open(pos) => if pos < operand.len() {
                lemma_close_len(
                    ups.update(slot, UpValue::Closed(operand[pos as int])),
                    operand,
                    list.drop_first(),
                );
            },
            UpValue::Closed(_) => lemma_close_len(ups, operand, list.drop_first()),
        }
    }
}

/// After a frame's up-values are closed, every one of them is closed, and
/// no up-value that was closed before is open again.
pub proof fn lemma_close_closes(ups: Seq<UpValue>, operand: Seq<Expr>, list: Seq<usize>)
    requires
        forall|k: int| 0 <= k < list.len() ==> #[trigger] list[k] < ups.len(),
        close_spec(ups, operand, list) is Some,
    ensures
        forall|k: int|
            0 <= k < list.len() ==> (#[trigger] close_spec(ups, operand, list)->0[list[k] as int]) is Closed,
        forall|j: int|
            0 <= j < ups.len() && (#[trigger] ups[j]) is Closed ==> close_spec(ups, operand, list)->0[j] is Closed,
    decreases list.len(),
{
    if list.len() > 0 {
        let slot = list[0] as int;
        let rest = list.drop_first();
        assert forall|k: int| 0 <= k < rest.len() implies #[trigger] rest[k] < ups.len() by {
            assert(rest[k] == list[k + 1]);
        }
        let next = match ups[slot] {
            UpValue::Open(pos) => ups.update(slot, UpValue::Closed(operand[pos as int])),
            UpValue::Closed(_) => ups,
        };
        assert(close_spec(ups, operand, list) == close_spec(next, operand, rest));
        lemma_close_closes(next, operand, rest);
        let u = close_spec(ups, operand, list)->0;
        assert forall|k: int| 0 <= k < list.len() implies (#[trigger] u[list[k] as int]) is Closed by {
            if k > 0 {
                assert(list[k] == rest[k - 1]);
            } else {
                assert(next[slot] is Closed);
            }
        }
        assert forall|j: int| 0 <= j < ups.len() && (#[trigger] ups[j]) is Closed implies u[j] is Closed by {
            assert(next[j] is Closed);
        }
    }
}

/// The callee and arguments of a call of `arity` arguments: where the
/// arguments start, or `None` where the stack is too short.
pub open spec fn call_bounds(operand: Seq<Expr>, arity: u8) -> Option<usize> {
    if arity > operand.len() || arity == operand.len() {
        None
    } else {
        Some((operand.len() - arity) as usize)
    }
}

/// What one instruction does (see the cases): the machine afterwards and
/// the step for the loop. Where the step is a panic the machine afterwards
/// is not described.
pub open spec fn step_spec(m: Machine) -> (Machine, Step) {
    let ops = running_proc(m).code;
    let pc = m.pc;
    if pc >= ops.len() {
        (m, Step::Panic(VmPanic::IndexOutOfBounds))
    } else {
        let pc1 = (pc + 1) as usize;
        let operand = m.vm.operand;
        match ops[pc as int] {
            Op::Bail => (m, Step::Panic(VmPanic::Bail)),
            Op::PushNil => (pushed(m, Expr::Nil, pc1), Step::Continue),
            Op::PushVoid => (pushed(m, Expr::Void, pc1), Step::Continue),
            Op::PushTrue => (pushed(m, Expr::Bool(true), pc1), Step::Continue),
            Op::PushFalse => (pushed(m, Expr::Bool(false), pc1), Step::Continue),
            Op::JumpFalse(addr) => (
                Machine {
                    pc: if operand.len() > 0 && operand.last() == Expr::Bool(false) {
                        addr
                    } else {
                        pc1
                    },
                    ..m
                },
                Step::Continue,
            ),
            Op::Jump(addr) => (Machine { pc: addr, ..m }, Step::Continue),
            Op::Return => {
                let value = top_or_void(operand);
                let rest = if operand.len() > 0 {
                    operand.drop_last()
                } else {
                    operand
                };
                match close_spec(m.vm.up_values, rest, m.frame.up_values) {
                    Some(ups) => (
                        Machine {
                            vm: VmView { operand: rest, up_values: ups, ..m.vm },
                            frame: FrameView { up_values: Seq::empty(), ..m.frame },
                            pc: pc1,
                            ..m
                        },
                        Step::Return(value),
                    ),
                    None => (m, Step::Panic(VmPanic::IndexOutOfBounds)),
                }
            },
            Op::LoadEnvVar(symbol) => {
                let i = symbol.as_inner_spec() as int;
                let value = if i < m.env.values.len() {
                    m.env.values[i]
                } else {
                    Expr::Void
                };
                (pushed(m, value, pc1), Step::Continue)
            },
            Op::StoreEnvVar(symbol) => {
                let i = symbol.as_inner_spec() as int;
                if i < m.env.values.len() {
                    (
                        Machine {
                            env: EnvView {
                                values: m.env.values.update(i, top_or_void(operand)),
                                ..m.env
                            },
                            pc: pc1,
                            ..m
                        },
                        Step::Continue,
                    )
                } else {
                    (Machine { pc: pc1, ..m }, Step::Fail(VmError::NotDeclared(symbol)))
                }
            },
            Op::LoadUpValue(id) => if id >= running(m).up_values.len() {
                (m, Step::Panic(VmPanic::IndexOutOfBounds))
            } else {
                match m.vm.up_values[running(m).up_values[id as int] as int] {
                    UpValue::Open(pos) => if pos >= operand.len() {
                        (m, Step::Panic(VmPanic::IndexOutOfBounds))
                    } else {
                        (pushed(m, operand[pos as int], pc1), Step::Continue)
                    },
                    UpValue::Closed(value) => (pushed(m, value, pc1), Step::Continue),
                }
            },
            Op::StoreUpValue(id) => if id >= running(m).up_values.len() {
                (m, Step::Panic(VmPanic::IndexOutOfBounds))
            } else {
                let slot = running(m).up_values[id as int] as int;
                let value = top_or_void(operand);
                match m.vm.up_values[slot] {
                    UpValue::Open(pos) => if pos >= operand.len() {
                        (m, Step::Panic(VmPanic::IndexOutOfBounds))
                    } else {
                        (
                            Machine {
                                vm: VmView { operand: operand.update(pos as int, value), ..m.vm },
                                pc: pc1,
                                ..m
                            },
                            Step::Continue,
                        )
                    },
                    UpValue::Closed(_) => (
                        Machine {
                            vm: VmView {
                                up_values: m.vm.up_values.update(slot, UpValue::Closed(value)),
                                ..m.vm
                            },
                            pc: pc1,
                            ..m
                        },
                        Step::Continue,
                    ),
                }
            },
            Op::LoadLocalVar(local) => {
                let pos = m.frame.stack_offset + local;
                let value = if pos < operand.len() {
                    operand[pos]
                } else {
                    Expr::Void
                };
                (pushed(m, value, pc1), Step::Continue)
            },
            Op::StoreLocalVar(local) => {
                let pos = m.frame.stack_offset + local;
                if pos >= operand.len() {
                    (m, Step::Panic(VmPanic::IndexOutOfBounds))
                } else {
                    (
                        Machine {
                            vm: VmView { operand: operand.update(pos, top_or_void(operand)), ..m.vm },
                            pc: pc1,
                            ..m
                        },
                        Step::Continue,
                    )
                }
            },
            Op::PushConstant(c) => {
                let constants = running_proc(m).constants;
                let value = if c < constants.len() {
                    constants[c as int]
                } else {
                    Expr::Void
                };
                (pushed(m, value, pc1), Step::Continue)
            },
            Op::Pop => (
                Machine {
                    vm: VmView {
                        operand: if operand.len() > 0 {
                            operand.drop_last()
                        } else {
                            operand
                        },
                        ..m.vm
                    },
                    pc: pc1,
                    ..m
                },
                Step::Continue,
            ),
            Op::CaptureValue(_) => (m, Step::Panic(VmPanic::CaptureOutsideClosure)),
            Op::CreateClosure(p) => if p >= m.env.procedures.len() {
                (Machine { pc: pc1, ..m }, Step::Fail(VmError::ExpectedProcedureDefinition))
            } else {
                let (m2, list, stop) = capture_spec(
                    Machine { pc: pc1, ..m },
                    ops,
                    running(m).up_values,
                    m.env.procedures[p as int].up_value_count as nat,
                    Seq::empty(),
                );
                match stop {
                    Some(step) => (m2, step),
                    None => {
                        let slot = m2.vm.closures.len() as usize;
                        (
                            Machine {
                                vm: VmView {
                                    closures: m2.vm.closures.push(
                                        ClosureView { proc_id: p as usize, up_values: list },
                                    ),
                                    operand: m2.vm.operand.push(Expr::Closure(slot)),
                                    ..m2.vm
                                },
                                ..m2
                            },
                            Step::Continue,
                        )
                    },
                }
            },
            Op::CallClosure { arity } => match call_bounds(operand, arity) {
                None => (m, Step::Panic(VmPanic::IndexOutOfBounds)),
                Some(lo) => match operand[lo - 1] {
                    Expr::Closure(c) => (Machine { pc: pc1, ..m }, Step::Call(c, lo)),
                    other => (Machine { pc: pc1, ..m }, Step::Fail(VmError::InvalidCallable(other))),
                },
            },
            Op::CallNative { arity } => match call_bounds(operand, arity) {
                None => (m, Step::Panic(VmPanic::IndexOutOfBounds)),
                Some(lo) => match operand[lo - 1] {
                    Expr::NativeFunc(f) => (Machine { pc: pc1, ..m }, Step::Native(f, lo)),
                    Expr::Closure(c) => (
                        Machine { frame: FrameView { pc: pc1, ..m.frame }, pc: pc1, ..m },
                        Step::Call(c, lo),
                    ),
                    Expr::Procedure(_) => (m, Step::Panic(VmPanic::ProcedureCall)),
                    other => (Machine { pc: pc1, ..m }, Step::Fail(VmError::InvalidCallable(other))),
                },
            },
            Op::End => (m, Step::Panic(VmPanic::End)),
        }
    }
}

// ------------------------------------------------------------------------
// What each instruction does
// ------------------------------------------------------------------------

/// The instruction at the program counter of the running frame is `op`.
pub open spec fn at_op(m: Machine, op: Op) -> bool {
    m.pc < running_proc(m).code.len() && running_proc(m).code[m.pc as int] == op
}

/// A jump goes to its target, whatever the stack holds, and changes nothing
/// else.
pub proof fn lemma_jump(m: Machine, addr: usize)
    requires
        at_op(m, Op::Jump(addr)),
    ensures
        step_spec(m).1 == Step::Continue,
        step_spec(m).0 == (Machine { pc: addr, ..m }),
{
}

/// A conditional jump goes to its target exactly when the top of the stack
/// is `#f`, else to the next instruction; it pops nothing.
pub proof fn lemma_jump_false(m: Machine, addr: usize)
    requires
        at_op(m, Op::JumpFalse(addr)),
    ensures
        step_spec(m).1 == Step::Continue,
        step_spec(m).0.vm == m.vm,
        step_spec(m).0.env == m.env,
        step_spec(m).0.frame == m.frame,
        m.vm.operand.len() > 0 && m.vm.operand[m.vm.operand.len() - 1] == Expr::Bool(false)
            ==> step_spec(m).0.pc == addr,
        !(m.vm.operand.len() > 0 && m.vm.operand[m.vm.operand.len() - 1] == Expr::Bool(false))
            ==> step_spec(m).0.pc == (m.pc + 1) as usize,
{
}

/// The literal instructions push their value and go on to the next
/// instruction.
pub proof fn lemma_push_literals(m: Machine)
    requires
        m.pc < running_proc(m).code.len(),
    ensures
        ({
            let op = running_proc(m).code[m.pc as int];
            let value = match op {
                Op::PushNil => Expr::Nil,
                Op::PushVoid => Expr::Void,
                Op::PushTrue => Expr::Bool(true),
                _ => Expr::Bool(false),
            };
            (op == Op::PushNil || op == Op::PushVoid || op == Op::PushTrue || op == Op::PushFalse)
                ==> {
                &&& step_spec(m).1 == Step::Continue
                &&& step_spec(m).0.vm.operand.len() == m.vm.operand.len() + 1
                &&& step_spec(m).0.vm.operand.last() == value
                &&& step_spec(m).0.vm.operand.drop_last() == m.vm.operand
                &&& step_spec(m).0.pc == (m.pc + 1) as usize
                &&& step_spec(m).0.env == m.env
                &&& step_spec(m).0.frame == m.frame
            }
        }),
{
    let op = running_proc(m).code[m.pc as int];
    if op == Op::PushNil || op == Op::PushVoid || op == Op::PushTrue || op == Op::PushFalse {
        assert(step_spec(m).0.vm.operand.drop_last() =~= m.vm.operand);
    }
}

/// A constant is pushed from the running procedure's constants; one past
/// them pushes void.
pub proof fn lemma_push_constant(m: Machine, c: u16)
    requires
        at_op(m, Op::PushConstant(c)),
    ensures
        step_spec(m).1 == Step::Continue,
        step_spec(m).0.vm.operand == m.vm.operand.push(
            if c < running_proc(m).constants.len() {
                running_proc(m).constants[c as int]
            } else {
                Expr::Void
            },
        ),
        step_spec(m).0.pc == (m.pc + 1) as usize,
{
}

/// `Pop` removes the top of the stack, if there is one.
pub proof fn lemma_pop(m: Machine)
    requires
        at_op(m, Op::Pop),
    ensures
        step_spec(m).1 == Step::Continue,
        m.vm.operand.len() > 0 ==> step_spec(m).0.vm.operand == m.vm.operand.subrange(
            0,
            m.vm.operand.len() - 1,
        ),
        m.vm.operand.len() == 0 ==> step_spec(m).0.vm.operand == m.vm.operand,
        step_spec(m).0.pc == (m.pc + 1) as usize,
{
    if m.vm.operand.len() > 0 {
        assert(m.vm.operand.drop_last() =~= m.vm.operand.subrange(0, m.vm.operand.len() - 1));
    }
}

/// Loading a local pushes the value at the frame's offset plus the local's
/// number, or void past the top; storing it writes the top there, keeping
/// the stack's length, and stops the program past the top.
pub proof fn lemma_locals(m: Machine, local: u8)
    ensures
        at_op(m, Op::LoadLocalVar(local)) ==> {
            let pos = m.frame.stack_offset + local;
            &&& step_spec(m).1 == Step::Continue
            &&& step_spec(m).0.vm.operand == m.vm.operand.push(
                if pos < m.vm.operand.len() {
                    m.vm.operand[pos]
                } else {
                    Expr::Void
                },
            )
            &&& step_spec(m).0.pc == (m.pc + 1) as usize
        },
        at_op(m, Op::StoreLocalVar(local)) ==> {
            let pos = m.frame.stack_offset + local;
            &&& pos < m.vm.operand.len() ==> step_spec(m).1 == Step::Continue
                && step_spec(m).0.vm.operand.len() == m.vm.operand.len()
                && step_spec(m).0.vm.operand[pos] == m.vm.operand.last() && (forall|i: int|
                0 <= i < m.vm.operand.len() && i != pos ==> step_spec(m).0.vm.operand[i]
                    == m.vm.operand[i]) && step_spec(m).0.pc == (m.pc + 1) as usize
            &&& pos >= m.vm.operand.len() ==> step_spec(m).1 == Step::Panic(
                VmPanic::IndexOutOfBounds,
            )
        },
{
}

/// Loading a variable pushes its value, or void when it is not declared;
/// storing one writes the top of the stack into it, leaving the stack as it
/// is, and fails when it is not declared.
pub proof fn lemma_env_vars(m: Machine, symbol: SymbolId)
    ensures
        at_op(m, Op::LoadEnvVar(symbol)) ==> {
            let i = symbol.as_inner_spec() as int;
            &&& step_spec(m).1 == Step::Continue
            &&& step_spec(m).0.vm.operand == m.vm.operand.push(
                if i < m.env.values.len() {
                    m.env.values[i]
                } else {
                    Expr::Void
                },
            )
        },
        at_op(m, Op::StoreEnvVar(symbol)) ==> {
            let i = symbol.as_inner_spec() as int;
            &&& step_spec(m).0.vm == m.vm
            &&& i < m.env.values.len() ==> step_spec(m).1 == Step::Continue
                && step_spec(m).0.env.values[i] == top_or_void(m.vm.operand)
                && step_spec(m).0.env.values.len() == m.env.values.len()
            &&& i >= m.env.values.len() ==> step_spec(m).1 == Step::Fail(
                VmError::NotDeclared(symbol),
            ) && step_spec(m).0.env == m.env
        },
{
}

/// `Return` returns the top of the stack (void on an empty stack) and takes
/// it off; afterwards the frame holds no up-values, and every up-value it
/// held is closed.
pub proof fn lemma_return(m: Machine)
    requires
        at_op(m, Op::Return),
        refs_valid(m),
        !(step_spec(m).1 is Panic),
    ensures
        step_spec(m).1 == Step::Return(
            if m.vm.operand.len() > 0 {
                m.vm.operand.last()
            } else {
                Expr::Void
            },
        ),
        m.vm.operand.len() > 0 ==> step_spec(m).0.vm.operand == m.vm.operand.subrange(
            0,
            m.vm.operand.len() - 1,
        ),
        step_spec(m).0.frame.up_values.len() == 0,
        forall|k: int|
            0 <= k < m.frame.up_values.len() ==> (#[trigger] step_spec(
                m,
            ).0.vm.up_values[m.frame.up_values[k] as int]) is Closed,
{
    let rest = if m.vm.operand.len() > 0 {
        m.vm.operand.drop_last()
    } else {
        m.vm.operand
    };
    if m.vm.operand.len() > 0 {
        assert(rest =~= m.vm.operand.subrange(0, m.vm.operand.len() - 1));
    }
    lemma_close_closes(m.vm.up_values, rest, m.frame.up_values);
}

/// A call through `CallClosure` or `CallNative` of `arity` arguments looks
/// at the value just below them: a closure is called with its arguments
/// starting at the stack's length less the arity; through `CallNative` a
/// native procedure is run there; the stack itself is left as it is.
pub proof fn lemma_calls(m: Machine, arity: u8)
    ensures
        (at_op(m, Op::CallClosure { arity }) || at_op(m, Op::CallNative { arity }))
            && arity < m.vm.operand.len() && m.vm.operand.len() <= usize::MAX ==> {
            let lo = m.vm.operand.len() - arity;
            &&& step_spec(m).0.vm == m.vm
            &&& m.vm.operand[lo - 1] matches Expr::Closure(c) ==> step_spec(m).1 == Step::Call(
                c,
                lo as usize,
            )
            &&& at_op(m, Op::CallNative { arity }) ==> (m.vm.operand[lo - 1] matches Expr::NativeFunc(
                f,
            ) ==> step_spec(m).1 == Step::Native(f, lo as usize))
        },
        (at_op(m, Op::CallClosure { arity }) || at_op(m, Op::CallNative { arity })) && arity
            >= m.vm.operand.len() ==> step_spec(m).1 == Step::Panic(VmPanic::IndexOutOfBounds),
{
}

/// Up-values are read and written where they live: an open one on the
/// stack at its position, a closed one in itself.
pub proof fn lemma_up_values(m: Machine, id: u8)
    requires
        refs_valid(m),
        id < running(m).up_values.len(),
    ensures
        ({
            let slot = running(m).up_values[id as int] as int;
            let top = top_or_void(m.vm.operand);
            &&& at_op(m, Op::LoadUpValue(id)) ==> match m.vm.up_values[slot] {
                UpValue::Closed(v) => step_spec(m).1 == Step::Continue
                    && step_spec(m).0.vm.operand == m.vm.operand.push(v),
                UpValue::Open(pos) => pos < m.vm.operand.len() ==> step_spec(m).1
                    == Step::Continue && step_spec(m).0.vm.operand == m.vm.operand.push(
                    m.vm.operand[pos as int],
                ),
            }
            &&& at_op(m, Op::StoreUpValue(id)) ==> match m.vm.up_values[slot] {
                UpValue::Closed(_) => step_spec(m).1 == Step::Continue
                    && step_spec(m).0.vm.up_values[slot] == UpValue::Closed(top)
                    && step_spec(m).0.vm.operand == m.vm.operand,
                UpValue::Open(pos) => pos < m.vm.operand.len() ==> step_spec(m).1
                    == Step::Continue && step_spec(m).0.vm.operand[pos as int] == top
                    && step_spec(m).0.vm.up_values == m.vm.up_values,
            }
        }),
{
}

/// Creating a closure of a procedure that captures nothing pushes a new
/// closure, in the next closure slot, of that procedure with no up-values.
pub proof fn lemma_create_closure(m: Machine, p: u16)
    requires
        at_op(m, Op::CreateClosure(p)),
        p < m.env.procedures.len(),
        m.env.procedures[p as int].up_value_count == 0,
        m.vm.closures.len() <= usize::MAX,
    ensures
        step_spec(m).1 == Step::Continue,
        step_spec(m).0.vm.closures == m.vm.closures.push(
            ClosureView { proc_id: p as usize, up_values: Seq::empty() },
        ),
        step_spec(m).0.vm.operand == m.vm.operand.push(Expr::Closure(m.vm.closures.len() as usize)),
        step_spec(m).0.pc == (m.pc + 1) as usize,
{
}

/// The machine made of its parts.
pub open spec fn machine_of(vm: VmView, env: EnvView, frame: FrameView, pc: usize) -> Machine {
    Machine { vm, env, frame, pc }
}

/// Capture up-values for a new closure (see [`capture_spec`]).
fn capture(
    vm: &mut Vm,
    env: &Env,
    frame: &mut CallFrame,
    pc: &mut usize,
    remaining: usize,
    list: &mut Vec<usize>,
) -> (stop: Option<Step>)
    requires
        env.wf(),
        refs_valid(machine_of(old(vm)@, env@, old(frame)@, *old(pc))),
        forall|k: int|
            0 <= k < old(list)@.len() ==> #[trigger] old(list)@[k] < old(vm)@.up_values.len(),
        old(vm)@.up_values.len() + running_proc(machine_of(old(vm)@, env@, old(frame)@, *old(pc))).code.len()
            < usize::MAX + *old(pc),
        old(frame)@.up_values.len() + running_proc(machine_of(old(vm)@, env@, old(frame)@, *old(pc))).code.len()
            < usize::MAX + *old(pc),
        old(list)@.len() + running_proc(machine_of(old(vm)@, env@, old(frame)@, *old(pc))).code.len()
            < usize::MAX + *old(pc),
        old(frame)@.stack_offset < usize::MAX - 256,
    ensures
        ({
            let m0 = machine_of(old(vm)@, env@, old(frame)@, *old(pc));
            let (m1, l1, st) = capture_spec(
                m0,
                running_proc(m0).code,
                running(m0).up_values,
                remaining as nat,
                old(list)@,
            );
            &&& stop == st
            &&& !(st matches Some(Step::Panic(_))) ==> machine_of(
                final(vm)@,
                env@,
                final(frame)@,
                *final(pc),
            ) == m1 && final(list)@ == l1
            &&& refs_valid(machine_of(final(vm)@, env@, final(frame)@, *final(pc)))
            &&& forall|k: int|
                0 <= k < final(list)@.len() ==> #[trigger] final(list)@[k]
                    < final(vm)@.up_values.len()
        }),
    decreases remaining,
{
    let ghost m0 = machine_of(vm@, env@, frame@, *pc);
    if remaining == 0 {
        return None;
    }
    let proc_id = vm.closures[frame.closure].proc_id;
    let op = match env.procedure(proc_id) {
        Some(pr) => {
            if *pc >= pr.code.len() {
                return Some(Step::Panic(VmPanic::IndexOutOfBounds));
            }
            pr.code[*pc]
        },
        None => {
            assert(false);
            return None;
        },
    };
    match op {
        Op::CaptureValue(UpValueOrigin::Parent(local)) => {
            let slot = vm.up_values.len();
            vm.up_values.push(UpValue::Open(frame.stack_offset + local as usize));
            frame.up_values.push(slot);
            list.push(slot);
            *pc = *pc + 1;
            proof {
                assert(vm@.closures == m0.vm.closures);
            }
            capture(vm, env, frame, pc, remaining - 1, list)
        },
        Op::CaptureValue(UpValueOrigin::Outer(id)) => {
            let c = frame.closure;
            if id as usize >= vm.closures[c].up_values.len() {
                return Some(Step::Panic(VmPanic::IndexOutOfBounds));
            }
            let slot = vm.closures[c].up_values[id as usize];
            proof {
                assert(running(m0).up_values[id as int] == slot);
            }
            list.push(slot);
            *pc = *pc + 1;
            capture(vm, env, frame, pc, remaining - 1, list)
        },
        other => Some(Step::Fail(VmError::InvalidCaptureArgument(other))),
    }
}

/// Close the still-open up-values of `list` from its `i`-th on (see
/// [`close_spec`]); `false` where a stack position is past the top.
fn close_up_values(vm: &mut Vm, list: &Vec<usize>, i: usize) -> (ok: bool)
    requires
        i <= list@.len(),
        forall|k: int| 0 <= k < list@.len() ==> #[trigger] list@[k] < old(vm)@.up_values.len(),
    ensures
        match close_spec(old(vm)@.up_values, old(vm)@.operand, list@.skip(i as int)) {
            Some(ups) => ok && final(vm)@ == (VmView { up_values: ups, ..old(vm)@ }),
            None => !ok,
        },
    decreases list@.len() - i,
{
    if i >= list.len() {
        assert(list@.skip(i as int) =~= Seq::<usize>::empty());
        return true;
    }
    let slot = list[i];
    let ghost rest = list@.skip(i as int);
    assert(rest[0] == slot);
    assert(rest.drop_first() =~= list@.skip(i + 1));
    match vm.up_values[slot] {
        UpValue::Open(pos) => {
            if pos >= vm.operand.len() {
                return false;
            }
            let value = vm.operand[pos];
            vm.up_values.set(slot, UpValue::Closed(value));
        },
        UpValue::Closed(_) => {},
    }
    close_up_values(vm, list, i + 1)
}

/// Run the instruction at `pc` of the running frame (see [`step_spec`]):
/// `pc` is the loop's program counter, which the frame saves only where an
/// instruction says so.
pub fn run_instruction(vm: &mut Vm, env: &mut Env, frame: &mut CallFrame, pc: &mut usize) -> (step: Step)
    requires
        old(env).wf(),
        refs_valid(machine_of(old(vm)@, old(env)@, old(frame)@, *old(pc))),
        room(machine_of(old(vm)@, old(env)@, old(frame)@, *old(pc))),
    ensures
        final(env).wf(),
        step == step_spec(machine_of(old(vm)@, old(env)@, old(frame)@, *old(pc))).1,
        !(step is Panic) ==> machine_of(final(vm)@, final(env)@, final(frame)@, *final(pc))
            == step_spec(machine_of(old(vm)@, old(env)@, old(frame)@, *old(pc))).0,
        !(step is Panic) ==> refs_valid(
            machine_of(final(vm)@, final(env)@, final(frame)@, *final(pc)),
        ),
{
    let ghost m0 = machine_of(vm@, env@, frame@, *pc);
    let c = frame.closure;
    let proc_id = vm.closures[c].proc_id;
    let op = match env.procedure(proc_id) {
        Some(pr) => {
            if *pc >= pr.code.len() {
                return Step::Panic(VmPanic::IndexOutOfBounds);
            }
            pr.code[*pc]
        },
        None => {
            assert(false);
            return Step::Continue;
        },
    };
    let pc1 = *pc + 1;
    let len = vm.operand.len();
    let top = if len > 0 {
        vm.operand[len - 1]
    } else {
        Expr::Void
    };
    match op {
        Op::Bail => Step::Panic(VmPanic::Bail),
        Op::PushNil => {
            vm.operand.push(Expr::Nil);
            *pc = pc1;
            Step::Continue
        },
        Op::PushVoid => {
            vm.operand.push(Expr::Void);
            *pc = pc1;
            Step::Continue
        },
        Op::PushTrue => {
            vm.operand.push(Expr::Bool(true));
            *pc = pc1;
            Step::Continue
        },
        Op::PushFalse => {
            vm.operand.push(Expr::Bool(false));
            *pc = pc1;
            Step::Continue
        },
        Op::JumpFalse(addr) => {
            *pc = if len > 0 && top == Expr::Bool(false) {
                addr
            } else {
                pc1
            };
            Step::Continue
        },
        Op::Jump(addr) => {
            *pc = addr;
            Step::Continue
        },
        Op::Return => {
            let value = match vm.operand.pop() {
                Some(v) => v,
                None => Expr::Void,
            };
            proof {
                assert(frame.up_values@.skip(0) =~= frame.up_values@);
                if len > 0 {
                    assert(vm@.operand =~= m0.vm.operand.drop_last());
                }
            }
            proof {
                lemma_close_len(vm@.up_values, vm@.operand, frame.up_values@);
            }
            if !close_up_values(vm, &frame.up_values, 0) {
                return Step::Panic(VmPanic::IndexOutOfBounds);
            }
            frame.up_values.clear();
            *pc = pc1;
            Step::Return(value)
        },
        Op::LoadEnvVar(symbol) => {
            let value = match env.get_var(symbol) {
                Some(v) => *v,
                None => Expr::Void,
            };
            vm.operand.push(value);
            *pc = pc1;
            Step::Continue
        },
        Op::StoreEnvVar(symbol) => {
            *pc = pc1;
            match env.set_var(symbol, top) {
                Ok(()) => Step::Continue,
                Err(_) => Step::Fail(VmError::NotDeclared(symbol)),
            }
        },
        Op::LoadUpValue(id) => {
            if id as usize >= vm.closures[c].up_values.len() {
                return Step::Panic(VmPanic::IndexOutOfBounds);
            }
            let slot = vm.closures[c].up_values[id as usize];
            let value = match vm.up_values[slot] {
                UpValue::Open(pos) => {
                    if pos >= len {
                        return Step::Panic(VmPanic::IndexOutOfBounds);
                    }
                    vm.operand[pos]
                },
                UpValue::Closed(v) => v,
            };
            vm.operand.push(value);
            *pc = pc1;
            Step::Continue
        },
        Op::StoreUpValue(id) => {
            if id as usize >= vm.closures[c].up_values.len() {
                return Step::Panic(VmPanic::IndexOutOfBounds);
            }
            let slot = vm.closures[c].up_values[id as usize];
            match vm.up_values[slot] {
                UpValue::Open(pos) => {
                    if pos >= len {
                        return Step::Panic(VmPanic::IndexOutOfBounds);
                    }
                    vm.operand.set(pos, top);
                },
                UpValue::Closed(_) => {
                    vm.up_values.set(slot, UpValue::Closed(top));
                },
            }
            *pc = pc1;
            Step::Continue
        },
        Op::LoadLocalVar(local) => {
            let pos = frame.stack_offset + local as usize;
            let value = if pos < len {
                vm.operand[pos]
            } else {
                Expr::Void
            };
            vm.operand.push(value);
            *pc = pc1;
            Step::Continue
        },
        Op::StoreLocalVar(local) => {
            let pos = frame.stack_offset + local as usize;
            if pos >= len {
                return Step::Panic(VmPanic::IndexOutOfBounds);
            }
            vm.operand.set(pos, top);
            *pc = pc1;
            Step::Continue
        },
        Op::PushConstant(k) => {
            let value = match env.procedure(proc_id) {
                Some(pr) => if (k as usize) < pr.constants.len() {
                    pr.constants[k as usize]
                } else {
                    Expr::Void
                },
                None => Expr::Void,
            };
            vm.operand.push(value);
            *pc = pc1;
            Step::Continue
        },
        Op::Pop => {
            let _ = vm.operand.pop();
            proof {
                if len > 0 {
                    assert(vm@.operand =~= m0.vm.operand.drop_last());
                }
            }
            *pc = pc1;
            Step::Continue
        },
        Op::CaptureValue(_) => Step::Panic(VmPanic::CaptureOutsideClosure),
        Op::CreateClosure(p) => {
            *pc = pc1;
            let count = match env.procedure(p as usize) {
                Some(pr) => pr.up_value_count,
                None => {
                    return Step::Fail(VmError::ExpectedProcedureDefinition);
                },
            };
            let mut list: Vec<usize> = Vec::new();
            match capture(vm, env, frame, pc, count, &mut list) {
                Some(step) => step,
                None => {
                    let slot = vm.closures.len();
                    let ghost before = vm@;
                    vm.closures.push(Closure { proc_id: p as usize, up_values: list });
                    vm.operand.push(Expr::Closure(slot));
                    proof {
                        assert(vm@.closures =~= before.closures.push(
                            ClosureView { proc_id: p as usize, up_values: list@ },
                        ));
                        let m2 = machine_of(vm@, env@, frame@, *pc);
                        assert forall|i: int, k: int|
                            0 <= i < m2.vm.closures.len() && 0 <= k < m2.vm.closures[i].up_values.len()
                            implies #[trigger] m2.vm.closures[i].up_values[k] < m2.vm.up_values.len() by {
                            if i < before.closures.len() {
                                assert(m2.vm.closures[i] == before.closures[i]);
                            }
                        }
                    }
                    Step::Continue
                },
            }
        },
        Op::CallClosure { arity } => {
            if arity as usize >= len {
                return Step::Panic(VmPanic::IndexOutOfBounds);
            }
            let lo = len - arity as usize;
            let callee = vm.operand[lo - 1];
            *pc = pc1;
            match callee {
                Expr::Closure(closure) => Step::Call(closure, lo),
                other => Step::Fail(VmError::InvalidCallable(other)),
            }
        },
        Op::CallNative { arity } => {
            if arity as usize >= len {
                return Step::Panic(VmPanic::IndexOutOfBounds);
            }
            let lo = len - arity as usize;
            let callee = vm.operand[lo - 1];
            match callee {
                Expr::NativeFunc(f) => {
                    *pc = pc1;
                    Step::Native(f, lo)
                },
                Expr::Closure(closure) => {
                    frame.pc = pc1;
                    *pc = pc1;
                    Step::Call(closure, lo)
                },
                Expr::Procedure(_) => Step::Panic(VmPanic::ProcedureCall),
                other => {
                    *pc = pc1;
                    Step::Fail(VmError::InvalidCallable(other))
                },
            }
        },
        Op::End => Step::Panic(VmPanic::End),
    }
}

/// `n` void values.
pub open spec fn voids(n: nat) -> Seq<Expr> {
    Seq::new(n, |i: int| Expr::Void)
}

/// The operand stack cut to its first `n` values, or kept when shorter.
pub open spec fn cut(s: Seq<Expr>, n: int) -> Seq<Expr> {
    if n <= s.len() {
        s.subrange(0, n)
    } else {
        s
    }
}

/// The number of locals a call of closure `c` needs.
pub open spec fn locals_of(vm: VmView, env: EnvView, c: usize) -> nat {
    env.procedures[vm.closures[c as int].proc_id as int].local_count as nat
}

/// Make room on the operand stack for the locals of the frame's closure:
/// as many void values as its procedure has locals.
pub fn prepare(vm: &mut Vm, env: &Env, frame: &CallFrame)
    requires
        env.wf(),
        frame.closure < old(vm)@.closures.len(),
        old(vm)@.closures[frame.closure as int].proc_id < env@.procedures.len(),
        old(vm)@.operand.len() + locals_of(old(vm)@, env@, frame.closure) <= usize::MAX,
    ensures
        final(vm)@ == (VmView {
            operand: old(vm)@.operand + voids(locals_of(old(vm)@, env@, frame.closure)),
            ..old(vm)@
        }),
{
    let ghost before = vm@;
    let count = match env.procedure(vm.closures[frame.closure].proc_id) {
        Some(pr) => pr.local_count,
        None => 0,
    };
    let mut i: usize = 0;
    while i < count
        invariant
            i <= count,
            count == locals_of(before, env@, frame.closure),
            before.operand.len() + count <= usize::MAX,
            vm@ == (VmView { operand: before.operand + voids(i as nat), ..before }),
        decreases count - i,
    {
        vm.operand.push(Expr::Void);
        i += 1;
        proof {
            assert(vm@.operand =~= before.operand + voids(i as nat));
        }
    }
}

/// Start a run of closure `closure` with `args`: the closure value and the
/// arguments go on the operand stack, then room for the locals; the frame
/// to run is returned. An error if the machine is running.
pub fn start(vm: &mut Vm, env: &Env, closure: usize, args: &[Expr]) -> (res: Result<
    CallFrame,
    VmError,
>)
    requires
        env.wf(),
        closure < old(vm)@.closures.len(),
        old(vm)@.closures[closure as int].proc_id < env@.procedures.len(),
        old(vm)@.operand.len() + 1 + args@.len() + locals_of(old(vm)@, env@, closure) <= usize::MAX,
    ensures
        old(vm)@.frames.len() > 0 ==> res == Err::<CallFrame, VmError>(VmError::AlreadyRunning)
            && final(vm)@ == old(vm)@,
        old(vm)@.frames.len() == 0 ==> (res matches Ok(frame) && frame@ == (FrameView {
            closure,
            stack_offset: (old(vm)@.operand.len() + 1) as usize,
            up_values: Seq::empty(),
            pc: 0,
        }) && final(vm)@ == (VmView {
            operand: old(vm)@.operand.push(Expr::Closure(closure)) + args@ + voids(
                locals_of(old(vm)@, env@, closure),
            ),
            ..old(vm)@
        })),
{
    if vm.frames.len() > 0 {
        return Err(VmError::AlreadyRunning);
    }
    let ghost before = vm@;
    vm.operand.push(Expr::Closure(closure));
    let mut i: usize = 0;
    while i < args.len()
        invariant
            i <= args@.len(),
            before.operand.len() + 1 + args@.len() <= usize::MAX,
            vm@ == (VmView {
                operand: before.operand.push(Expr::Closure(closure)) + args@.subrange(0, i as int),
                ..before
            }),
        decreases args@.len() - i,
    {
        vm.operand.push(args[i]);
        i += 1;
        proof {
            assert(vm@.operand =~= before.operand.push(Expr::Closure(closure)) + args@.subrange(
                0,
                i as int,
            ));
        }
    }
    proof {
        assert(args@.subrange(0, args@.len() as int) =~= args@);
    }
    let stack_offset = vm.operand.len() - args.len();
    let frame = CallFrame { closure, stack_offset, up_values: Vec::new(), pc: 0 };
    prepare(vm, env, &frame);
    proof {
        assert(frame@.up_values =~= Seq::<usize>::empty());
    }
    Ok(frame)
}

/// Enter a call of closure `closure`, its arguments starting at
/// `stack_offset`: the running frame is saved on the call stack and a new
/// frame, with room for its locals, runs.
pub fn enter_call(
    vm: &mut Vm,
    env: &Env,
    frame: &mut CallFrame,
    closure: usize,
    stack_offset: usize,
)
    requires
        env.wf(),
        closure < old(vm)@.closures.len(),
        old(vm)@.closures[closure as int].proc_id < env@.procedures.len(),
        old(vm)@.operand.len() + locals_of(old(vm)@, env@, closure) <= usize::MAX,
    ensures
        final(frame)@ == (FrameView { closure, stack_offset, up_values: Seq::empty(), pc: 0 }),
        final(vm)@ == (VmView {
            frames: old(vm)@.frames.push(old(frame)@),
            operand: old(vm)@.operand + voids(locals_of(old(vm)@, env@, closure)),
            ..old(vm)@
        }),
{
    let mut next = CallFrame { closure, stack_offset, up_values: Vec::new(), pc: 0 };
    core::mem::swap(frame, &mut next);
    let ghost before = vm@;
    vm.frames.push(next);
    proof {
        assert(vm@.frames =~= before.frames.push(old(frame)@));
        assert(frame@.up_values =~= Seq::<usize>::empty());
    }
    prepare(vm, env, frame);
}

/// Leave the running frame, which returned `value`: the callee and what is
/// above it leave the operand stack; the caller's frame, if any, runs again
/// with `value` pushed, else the run is over and its result is `value`.
pub fn leave_frame(vm: &mut Vm, frame: &mut CallFrame, value: Expr) -> (done: Option<Expr>)
    requires
        old(frame).stack_offset >= 1,
    ensures
        old(vm)@.frames.len() > 0 ==> done is None && final(frame)@ == old(vm)@.frames.last()
            && final(vm)@ == (VmView {
            operand: cut(old(vm)@.operand, old(frame).stack_offset - 1).push(value),
            frames: old(vm)@.frames.drop_last(),
            ..old(vm)@
        }),
        old(vm)@.frames.len() == 0 ==> done == Some(value) && final(vm)@ == (VmView {
            operand: Seq::empty(),
            ..old(vm)@
        }),
{
    vm.operand.truncate(frame.stack_offset - 1);
    let ghost before = vm@;
    match vm.frames.pop() {
        Some(prev) => {
            *frame = prev;
            vm.operand.push(value);
            proof {
                assert(vm@.frames =~= old(vm)@.frames.drop_last());
            }
            None
        },
        None => {
            vm.operand.clear();
            Some(value)
        },
    }
}

/// After native procedure returned `value` for a call whose arguments
/// started at `lo`: the callee and its arguments leave the operand stack
/// and `value` takes their place.
pub fn finish_native(vm: &mut Vm, lo: usize, value: Expr)
    requires
        lo >= 1,
    ensures
        final(vm)@ == (VmView { operand: cut(old(vm)@.operand, lo - 1).push(value), ..old(vm)@ }),
{
    vm.operand.truncate(lo - 1);
    vm.operand.push(value);
}

/// Whether the machine, environment and frame are in a state that
/// [`run_instruction`] accepts: their references hold and their lengths
/// leave room (see [`refs_valid`] and [`room`]).
pub fn machine_ready(vm: &Vm, env: &Env, frame: &CallFrame, pc: usize) -> (ok: bool)
    requires
        env.wf(),
    ensures
        ok == (refs_valid(machine_of(vm@, env@, frame@, pc)) && room(machine_of(vm@, env@, frame@, pc))),
{
    let ghost m = machine_of(vm@, env@, frame@, pc);
    let n = vm.closures.len();
    let ups = vm.up_values.len();
    if frame.closure >= n {
        return false;
    }
    let mut c: usize = 0;
    while c < n
        invariant
            c <= n,
            n == m.vm.closures.len(),
            ups == m.vm.up_values.len(),
            m == machine_of(vm@, env@, frame@, pc),
            forall|i: int| 0 <= i < c ==> (#[trigger] m.vm.closures[i]).proc_id < m.env.procedures.len(),
            forall|i: int, k: int|
                0 <= i < c && 0 <= k < m.vm.closures[i].up_values.len()
                    ==> #[trigger] m.vm.closures[i].up_values[k] < ups,
        decreases n - c,
    {
        if env.procedure(vm.closures[c].proc_id).is_none() {
            assert(m.vm.closures[c as int].proc_id >= m.env.procedures.len());
            return false;
        }
        let list = &vm.closures[c].up_values;
        let mut k: usize = 0;
        while k < list.len()
            invariant
                k <= list@.len(),
                c < n,
                n == m.vm.closures.len(),
                ups == m.vm.up_values.len(),
                m == machine_of(vm@, env@, frame@, pc),
                list@ == m.vm.closures[c as int].up_values,
                forall|j: int| 0 <= j < k ==> #[trigger] list@[j] < ups,
            decreases list@.len() - k,
        {
            if list[k] >= ups {
                assert(m.vm.closures[c as int].up_values[k as int] >= m.vm.up_values.len());
                return false;
            }
            k += 1;
        }
        c += 1;
    }
    let mut k: usize = 0;
    while k < frame.up_values.len()
        invariant
            k <= frame.up_values@.len(),
            ups == m.vm.up_values.len(),
            m == machine_of(vm@, env@, frame@, pc),
            forall|j: int| 0 <= j < k ==> #[trigger] frame.up_values@[j] < ups,
        decreases frame.up_values@.len() - k,
    {
        if frame.up_values[k] >= ups {
            assert(m.frame.up_values[k as int] >= m.vm.up_values.len());
            return false;
        }
        k += 1;
    }
    proof {
        assert(refs_valid(m));
    }
    let code_len = match env.procedure(vm.closures[frame.closure].proc_id) {
        Some(pr) => pr.code.len(),
        None => 0,
    };
    vm.operand.len() < usize::MAX && n < usize::MAX && ups < usize::MAX - code_len
        && frame.up_values.len() < usize::MAX - code_len && frame.stack_offset < usize::MAX - 256
}

} // verus!
