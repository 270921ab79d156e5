use pal::ast::{Statement, Type, Value};
use pal::error::ErrorType;
use pal::state::function::Function;
use pal::state::scope::Scope;
use pal::state::State;

#[test]
fn scope_binds_and_finds() {
    let mut scope = Scope::new(None);
    assert_eq!(0, scope.len());
    assert!(!scope.contains_var("x"));
    assert_eq!(None, scope.lookup("x"));
    assert!(scope.parent().is_none());
    scope.assign("x", Value::Int(1));
    scope.assign("y", Value::Bool(true));
    scope.assign("x", Value::Int(2));
    assert_eq!(2, scope.len());
    assert!(scope.contains_var("x"));
    assert_eq!(Some(&Value::Int(2)), scope.lookup("x"));
    assert_eq!(Some(&Value::Bool(true)), scope.lookup("y"));
}

#[test]
fn scope_chain() {
    let mut outer = Scope::new(None);
    outer.assign("a", Value::Int(1));
    outer.assign("b", Value::Int(2));
    let mut inner = Scope::new(Some(outer));
    inner.assign("c", Value::Int(3));
    assert_eq!(1, inner.len());
    assert_eq!(3, inner.chain_len());
    // A scope does not answer for the scope that contains it.
    assert!(!inner.contains_var("a"));
    let parent = inner.parent().unwrap();
    assert_eq!(2, parent.len());
    assert!(parent.contains_var("a"));
    assert!(parent.parent().is_none());
}

#[test]
fn state_assign_needs_a_binding() {
    let mut state = State::new();
    assert_eq!(0, state.len());
    let e = state.assign("x", Value::Int(1)).unwrap_err();
    assert_eq!(ErrorType::UndefinedVariable, e.err_type());
    assert_eq!(
        "The variable `x` has not been declared, so it can't have a value assigned to it",
        e.message
    );
    assert_eq!(None, state.lookup("x"));
    state.define_var("x", Value::Int(1));
    assert!(state.assign("x", Value::Int(2)).is_ok());
    assert_eq!(Some(&Value::Int(2)), state.lookup("x"));
    assert!(state.contains_var("x"));
    assert!(!state.contains_var("y"));
    assert_eq!(1, state.len());
}

#[test]
fn state_scopes() {
    let mut state = State::new();
    state.define_var("g", Value::Int(1));
    state.define_var("h", Value::Int(2));
    state.enter_scope();
    // A new variable goes to the innermost scope, and hides the global one.
    state.define_var("g", Value::Int(10));
    state.define_var("l", Value::Int(20));
    assert_eq!(Some(&Value::Int(10)), state.lookup("g"));
    assert_eq!(Some(&Value::Int(2)), state.lookup("h"));
    assert_eq!(4, state.len());
    // An assignment goes to the scope that holds the variable.
    state.assign("g", Value::Int(11)).unwrap();
    state.assign("h", Value::Int(3)).unwrap();
    state.enter_scope();
    // Only the innermost scope and the global one are visible.
    assert_eq!(Some(&Value::Int(1)), state.lookup("g"));
    assert_eq!(None, state.lookup("l"));
    assert!(!state.contains_var("l"));
    assert!(state.assign("l", Value::Int(0)).is_err());
    state.define_var("m", Value::Int(30));
    assert_eq!(5, state.len());
    state.exit_scope();
    assert_eq!(Some(&Value::Int(11)), state.lookup("g"));
    assert_eq!(Some(&Value::Int(20)), state.lookup("l"));
    assert_eq!(4, state.len());
    state.exit_scope();
    assert_eq!(Some(&Value::Int(1)), state.lookup("g"));
    assert_eq!(Some(&Value::Int(3)), state.lookup("h"));
    assert_eq!(None, state.lookup("l"));
    assert_eq!(2, state.len());
    // Nothing is open: nothing is closed.
    state.exit_scope();
    assert_eq!(2, state.len());
}

#[test]
fn state_functions_are_defined_once() {
    let mut state = State::new();
    let params = vec![String::from("a")];
    let body: Vec<Statement> = vec![];
    assert!(state.function("f").is_none());
    assert!(state.define_func(&Type::Int, "f", &params, &body).is_ok());
    let e = state.define_func(&Type::Void, "f", &[], &body).unwrap_err();
    assert_eq!(ErrorType::RedefinedFunction, e.err_type());
    assert_eq!("The function f has already been defined, so it can't be defined again", e.message);
    let f = state.function("f").unwrap();
    assert_eq!(Type::Int, f.return_type);
    assert_eq!(params, f.params);
    assert!(state.define_func(&Type::Void, "g", &[], &body).is_ok());
    assert_eq!(0, state.len());
}

#[test]
fn function_copies_its_parts() {
    let params = vec![String::from("a"), String::from("b")];
    let body = vec![Statement::Return(pal::ast::Expr::Var(String::from("a")))];
    let f = Function::new(&Type::Str, &params, &body);
    assert_eq!(Type::Str, f.return_type);
    assert_eq!(params, f.params);
    assert_eq!(1, f.body.len());
    assert_eq!("return a;\n", f.body[0].to_string());
}

#[test]
fn checked_len_counts_every_open_scope() {
    let mut state = State::new();
    assert_eq!(Some(0), state.checked_len());
    state.define_var("a", Value::Int(1));
    state.define_var("b", Value::Int(2));
    state.enter_scope();
    state.define_var("a", Value::Int(3));
    state.enter_scope();
    state.define_var("c", Value::Int(4));
    assert_eq!(Some(4), state.checked_len());
    assert_eq!(4, state.len());
    state.exit_scope();
    assert_eq!(Some(3), state.checked_len());
    state.exit_scope();
    assert_eq!(Some(2), state.checked_len());
    assert_eq!(2, state.len());
}
