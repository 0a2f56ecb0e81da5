use scheme::environment::{Env, Expr, Proc};
use scheme::natives::{
    boolean_and, boolean_is_boolean, boolean_not, ext_assert, number_is_number, pair_car, pair_cdr,
    pair_cons, pair_is_list, pair_is_pair, pair_list, NativeError,
};
use scheme::symbol::SymbolId;
use scheme::vm::{
    enter_call, finish_native, leave_frame, machine_ready, run_instruction, start, CallFrame,
    Closure, Op, Step, UpValue, UpValueOrigin, Vm, VmError, VmPanic,
};

fn machine(procs: Vec<Proc>) -> (Vm, Env) {
    let mut env = Env::new();
    for p in procs {
        env.add_procedure(p);
    }
    let vm = Vm {
        operand: Vec::new(),
        frames: Vec::new(),
        closures: vec![Closure { proc_id: 0, up_values: Vec::new() }],
        up_values: Vec::new(),
    };
    (vm, env)
}

fn proc_of(code: Vec<Op>, constants: Vec<Expr>, local_count: usize, up_value_count: usize) -> Proc {
    Proc { code, constants, local_count, up_value_count }
}

/// Drive the machine as the interpreter loop does; natives add their
/// arguments' bits.
fn run(vm: &mut Vm, env: &mut Env, mut frame: CallFrame) -> Result<Expr, Step> {
    loop {
        let mut pc = frame.pc;
        loop {
            assert!(machine_ready(vm, env, &frame, pc));
            match run_instruction(vm, env, &mut frame, &mut pc) {
                Step::Continue => {}
                Step::Native(_, lo) => {
                    let mut sum = 0u64;
                    for arg in &vm.operand[lo..] {
                        if let Expr::Number(bits) = arg {
                            sum += bits;
                        }
                    }
                    finish_native(vm, lo, Expr::Number(sum));
                }
                Step::Call(closure, lo) => {
                    enter_call(vm, env, &mut frame, closure, lo);
                    break;
                }
                Step::Return(value) => match leave_frame(vm, &mut frame, value) {
                    Some(result) => return Ok(result),
                    None => break,
                },
                other => return Err(other),
            }
        }
    }
}

#[test]
fn a_constant_is_returned() {
    let (mut vm, mut env) = machine(vec![proc_of(
        vec![Op::PushConstant(0), Op::Return],
        vec![Expr::Number(7)],
        0,
        0,
    )]);
    let frame = start(&mut vm, &env, 0, &[]).ok().expect("idle machine");
    assert_eq!(frame.stack_offset, 1);
    assert_eq!(run(&mut vm, &mut env, frame), Ok(Expr::Number(7)));
    assert!(vm.operand.is_empty());
}

#[test]
fn jump_false_branches_on_false_only() {
    let code = vec![
        Op::PushFalse,
        Op::JumpFalse(4),
        Op::PushConstant(0),
        Op::Return,
        Op::PushConstant(1),
        Op::Return,
    ];
    let (mut vm, mut env) = machine(vec![proc_of(code, vec![Expr::Number(1), Expr::Number(2)], 0, 0)]);
    let frame = start(&mut vm, &env, 0, &[]).ok().unwrap();
    assert_eq!(run(&mut vm, &mut env, frame), Ok(Expr::Number(2)));
}

#[test]
fn locals_and_arguments_live_on_the_stack() {
    let code = vec![
        Op::LoadLocalVar(0),
        Op::StoreLocalVar(1),
        Op::Pop,
        Op::LoadLocalVar(1),
        Op::Return,
    ];
    let (mut vm, mut env) = machine(vec![proc_of(code, vec![], 1, 0)]);
    let frame = start(&mut vm, &env, 0, &[Expr::Number(40)]).ok().unwrap();
    assert_eq!(vm.operand, vec![Expr::Closure(0), Expr::Number(40), Expr::Void]);
    assert_eq!(run(&mut vm, &mut env, frame), Ok(Expr::Number(40)));
}

#[test]
fn native_calls_replace_callee_and_arguments() {
    let mut env = Env::new();
    let plus = env.bind_native_func("+", 5).ok().unwrap();
    env.add_procedure(proc_of(
        vec![
            Op::LoadEnvVar(plus),
            Op::PushConstant(0),
            Op::PushConstant(1),
            Op::CallNative { arity: 2 },
            Op::Return,
        ],
        vec![Expr::Number(2), Expr::Number(3)],
        0,
        0,
    ));
    let mut vm = Vm {
        operand: Vec::new(),
        frames: Vec::new(),
        closures: vec![Closure { proc_id: 0, up_values: Vec::new() }],
        up_values: Vec::new(),
    };
    let mut frame = start(&mut vm, &env, 0, &[]).ok().unwrap();
    let mut pc = frame.pc;
    for _ in 0..3 {
        assert_eq!(run_instruction(&mut vm, &mut env, &mut frame, &mut pc), Step::Continue);
    }
    assert_eq!(run_instruction(&mut vm, &mut env, &mut frame, &mut pc), Step::Native(5, 2));
    finish_native(&mut vm, 2, Expr::Number(5));
    assert_eq!(vm.operand, vec![Expr::Closure(0), Expr::Number(5)]);
    assert_eq!(run_instruction(&mut vm, &mut env, &mut frame, &mut pc), Step::Return(Expr::Number(5)));
}

#[test]
fn closures_capture_and_close_up_values() {
    // Procedure 0 makes a closure of procedure 1 over its local 0, then
    // calls it through a native call site; procedure 1 reads the captured
    // variable.
    let outer = proc_of(
        vec![
            Op::PushConstant(0),
            Op::StoreLocalVar(0),
            Op::Pop,
            Op::CreateClosure(1),
            Op::CaptureValue(UpValueOrigin::Parent(0)),
            Op::CallNative { arity: 0 },
            Op::Return,
        ],
        vec![Expr::Number(9)],
        1,
        0,
    );
    let inner = proc_of(vec![Op::LoadUpValue(0), Op::Return], vec![], 0, 1);
    let (mut vm, mut env) = machine(vec![outer, inner]);
    let frame = start(&mut vm, &env, 0, &[]).ok().unwrap();
    assert_eq!(run(&mut vm, &mut env, frame), Ok(Expr::Number(9)));
    assert_eq!(vm.closures.len(), 2);
    assert_eq!(vm.closures[1].up_values, vec![0]);
    assert_eq!(vm.up_values, vec![UpValue::Closed(Expr::Number(9))]);
}

#[test]
fn failures_and_panics_are_reported() {
    let (mut vm, mut env) = machine(vec![proc_of(vec![Op::StoreEnvVar(SymbolId::new(3))], vec![], 0, 0)]);
    let frame = start(&mut vm, &env, 0, &[]).ok().unwrap();
    assert_eq!(run(&mut vm, &mut env, frame), Err(Step::Fail(VmError::NotDeclared(SymbolId::new(3)))));

    let (mut vm, mut env) = machine(vec![proc_of(vec![Op::Bail], vec![], 0, 0)]);
    let frame = start(&mut vm, &env, 0, &[]).ok().unwrap();
    assert_eq!(run(&mut vm, &mut env, frame), Err(Step::Panic(VmPanic::Bail)));

    let (mut vm, mut env) = machine(vec![proc_of(vec![Op::PushTrue, Op::CallClosure { arity: 0 }], vec![], 0, 0)]);
    let frame = start(&mut vm, &env, 0, &[]).ok().unwrap();
    assert_eq!(
        run(&mut vm, &mut env, frame),
        Err(Step::Fail(VmError::InvalidCallable(Expr::Bool(true))))
    );

    let (mut vm, mut env) = machine(vec![proc_of(vec![Op::CreateClosure(4)], vec![], 0, 0)]);
    let frame = start(&mut vm, &env, 0, &[]).ok().unwrap();
    assert_eq!(run(&mut vm, &mut env, frame), Err(Step::Fail(VmError::ExpectedProcedureDefinition)));
}

#[test]
fn a_running_machine_refuses_a_second_start() {
    let (mut vm, env) = machine(vec![proc_of(vec![Op::Return], vec![], 0, 0)]);
    vm.frames.push(CallFrame { closure: 0, stack_offset: 1, up_values: Vec::new(), pc: 0 });
    assert!(matches!(start(&mut vm, &env, 0, &[]), Err(VmError::AlreadyRunning)));
}

#[test]
fn boolean_natives() {
    let mut env = Env::new();
    assert_eq!(boolean_is_boolean(&mut env, &[Expr::Bool(false)]), Ok(Expr::Bool(true)));
    assert_eq!(boolean_is_boolean(&mut env, &[Expr::Number(0)]), Ok(Expr::Bool(false)));
    assert_eq!(boolean_is_boolean(&mut env, &[]), Err(NativeError::WrongArgumentCount));
    assert_eq!(boolean_not(&mut env, &[Expr::Bool(false)]), Ok(Expr::Bool(true)));
    assert_eq!(boolean_not(&mut env, &[Expr::Nil]), Ok(Expr::Bool(false)));
    assert_eq!(
        boolean_not(&mut env, &[Expr::Nil, Expr::Nil]),
        Err(NativeError::WrongArgumentCount)
    );
    assert_eq!(boolean_and(&mut env, &[]), Ok(Expr::Bool(true)));
    assert_eq!(boolean_and(&mut env, &[Expr::Bool(true), Expr::Number(4)]), Ok(Expr::Number(4)));
    assert_eq!(
        boolean_and(&mut env, &[Expr::Number(1), Expr::Bool(false), Expr::Number(2)]),
        Ok(Expr::Bool(false))
    );
}

#[test]
fn pair_and_list_natives() {
    let mut env = Env::new();
    let list = pair_list(&mut env, &[Expr::Number(1), Expr::Number(2), Expr::Number(3)]).unwrap();
    assert_eq!(env.pair_count(), 3);
    assert_eq!(pair_is_list(&mut env, &[list]), Ok(Expr::Bool(true)));
    assert_eq!(pair_is_pair(&mut env, &[list]), Ok(Expr::Bool(true)));
    assert_eq!(pair_car(&mut env, &[list]), Ok(Expr::Number(1)));
    let rest = pair_cdr(&mut env, &[list]).unwrap();
    assert_eq!(pair_car(&mut env, &[rest]), Ok(Expr::Number(2)));
    assert_eq!(pair_list(&mut env, &[]), Ok(Expr::Nil));

    let dotted = pair_cons(&mut env, &[Expr::Number(1), Expr::Number(2)]).unwrap();
    assert_eq!(pair_is_list(&mut env, &[dotted]), Ok(Expr::Bool(false)));
    let proper = pair_cons(&mut env, &[Expr::Number(0), list]).unwrap();
    assert_eq!(pair_is_list(&mut env, &[proper]), Ok(Expr::Bool(true)));
    assert_eq!(pair_is_list(&mut env, &[Expr::Nil]), Ok(Expr::Bool(false)));
    assert_eq!(pair_is_pair(&mut env, &[Expr::Nil]), Ok(Expr::Bool(false)));
    assert_eq!(pair_car(&mut env, &[Expr::Bool(true)]), Err(NativeError::ExpectedPair));
    assert_eq!(pair_cons(&mut env, &[Expr::Nil]), Err(NativeError::WrongArgumentCount));
    assert_eq!(pair_cdr(&mut env, &[]), Err(NativeError::WrongArgumentCount));
}

#[test]
fn number_and_assert_natives() {
    let mut env = Env::new();
    assert_eq!(number_is_number(&mut env, &[Expr::Number(3)]), Ok(Expr::Bool(true)));
    assert_eq!(number_is_number(&mut env, &[Expr::Nil]), Ok(Expr::Bool(false)));
    assert_eq!(number_is_number(&mut env, &[]), Err(NativeError::WrongArgumentCount));
    assert_eq!(ext_assert(&mut env, &[Expr::Number(3)]), Ok(Expr::Number(3)));
    assert_eq!(ext_assert(&mut env, &[]), Err(NativeError::ExpectedAssertionExpression));
    assert_eq!(
        ext_assert(&mut env, &[Expr::Bool(false)]),
        Err(NativeError::AssertionFailed(Expr::Bool(false)))
    );
    assert_eq!(
        ext_assert(&mut env, &[Expr::Bool(false), Expr::String(4)]),
        Err(NativeError::AssertionError(4))
    );
    assert_eq!(
        ext_assert(&mut env, &[Expr::Bool(false), Expr::Number(1)]),
        Err(NativeError::InvalidAssertionMessageType)
    );
}
