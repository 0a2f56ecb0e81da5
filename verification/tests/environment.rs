use scheme::environment::{init_core, Env, EnvError, Expr};
use scheme::symbol::SymbolId;

#[test]
fn init_core_binds_each_native_by_its_number() {
    let mut env = Env::new();
    assert!(init_core(&mut env).is_ok());
    assert!(matches!(env.lookup_var("assert"), Some(Expr::NativeFunc(0))));
    assert!(matches!(env.lookup_var("+"), Some(Expr::NativeFunc(5))));
    assert!(matches!(env.lookup_var(">="), Some(Expr::NativeFunc(12))));
    assert!(matches!(env.lookup_var("car"), Some(Expr::NativeFunc(21))));
    assert!(matches!(env.lookup_var("cdr"), Some(Expr::NativeFunc(22))));
    assert!(env.lookup_var("lambda").is_none());
    assert_eq!(env.resolve_var("cons").map(|id| id.as_inner()), Some(20));
}

#[test]
fn init_core_twice_stops_at_the_first_name() {
    let mut env = Env::new();
    assert!(init_core(&mut env).is_ok());
    match init_core(&mut env) {
        Err(EnvError::AlreadyBound(name)) => assert_eq!(name, "assert"),
        _ => panic!("binding the core twice must fail"),
    }
}

#[test]
fn init_core_after_a_clash_keeps_earlier_bindings() {
    let mut env = Env::new();
    let newline = env.intern_var("newline");
    assert_eq!(newline.as_inner(), 0);
    match init_core(&mut env) {
        Err(EnvError::AlreadyBound(name)) => assert_eq!(name, "newline"),
        _ => panic!("newline is taken"),
    }
    assert!(matches!(env.lookup_var("assert"), Some(Expr::NativeFunc(0))));
    assert!(matches!(env.lookup_var("display"), Some(Expr::NativeFunc(2))));
    assert!(matches!(env.lookup_var("newline"), Some(Expr::Nil)));
    assert!(env.lookup_var("+").is_none());
}

#[test]
fn variables_are_declared_set_and_read() {
    let mut env = Env::new();
    let x = env.intern_var("x");
    let again = env.intern_var("x");
    assert_eq!(x, again);
    assert!(matches!(env.get_var(x), Some(Expr::Nil)));
    assert!(env.set_var(x, Expr::Bool(true)).is_ok());
    assert!(matches!(env.get_var(x), Some(Expr::Bool(true))));
    assert!(matches!(env.lookup_var("x"), Some(Expr::Bool(true))));

    let missing = SymbolId::new(7);
    match env.set_var(missing, Expr::Nil) {
        Err(EnvError::NotDeclared(id)) => assert_eq!(id.as_inner(), 7),
        _ => panic!("slot 7 is not declared"),
    }
    assert!(env.get_var(missing).is_none());
}

#[test]
fn binding_a_native_to_a_taken_name_fails() {
    let mut env = Env::new();
    let id = env.bind_native_func("f", 3).expect("new name");
    assert_eq!(id.as_inner(), 0);
    assert!(matches!(env.lookup_var("f"), Some(Expr::NativeFunc(3))));
    match env.bind_native_func("f", 4) {
        Err(EnvError::AlreadyBound(name)) => assert_eq!(name, "f"),
        _ => panic!("f is taken"),
    }
    assert!(matches!(env.lookup_var("f"), Some(Expr::NativeFunc(3))));
}
