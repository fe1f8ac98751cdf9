use lambda_calc::ast::Term;
use lambda_calc::interpreter::{eval, reify, Env, Value};

#[test]
fn test_variable_evaluation() {
    let mut env = Env::new();
    env.insert("x".to_string(), Value::Var("x_value".to_string()));

    let term = Term::Var("x".to_string());
    let result = eval(term, &env);

    assert_eq!(result, Value::Var("x_value".to_string()));
}

#[test]
fn test_identity_function() {
    let env = Env::new();
    let identity = Term::Abs("x".to_string(), Box::new(Term::Var("x".to_string())));

    let app = Term::App(Box::new(identity), Box::new(Term::Var("y".to_string())));

    let result = eval(app, &env);

    assert_eq!(result, Value::Var("y".to_string()));
}

#[test]
fn test_function_application() {
    let env = Env::new();

    let constant_func = Term::Abs(
        "x".to_string(),
        Box::new(Term::Abs(
            "y".to_string(),
            Box::new(Term::Var("x".to_string())),
        )),
    );

    let app1 = Term::App(Box::new(constant_func), Box::new(Term::Var("a".to_string())));
    let app2 = Term::App(Box::new(app1), Box::new(Term::Var("b".to_string())));

    let result = eval(app2, &env);
    assert_eq!(result, Value::Var("a".to_string()));
}

#[test]
fn test_environment_closure() {
    let mut env = Env::new();
    env.insert("z".to_string(), Value::Var("z_value".to_string()));

    let closure_with_env = Term::Abs("x".to_string(), Box::new(Term::Var("z".to_string())));

    let app = Term::App(Box::new(closure_with_env), Box::new(Term::Var("ignored".to_string())));
    let result = eval(app, &env);
    assert_eq!(result, Value::Var("z_value".to_string()));
}

#[test]
fn test_reify_variable() {
    let var_value = Value::Var("x".to_string());
    let reified = reify(var_value);
    assert_eq!(reified, Term::Var("x".to_string()));
}

#[test]
fn test_reify_identity_function() {
    // the closure that returns its argument
    let identity_closure = Value::Closure(
        "arg".to_string(),
        Box::new(Term::Var("arg".to_string())),
        Env::new(),
    );
    let reified = reify(identity_closure);
    assert_eq!(
        reified,
        Term::Abs("x".to_string(), Box::new(Term::Var("x".to_string())))
    );
}

#[test]
fn test_reify_constant_function() {
    // a closure that ignores its argument and always returns `a`
    let constant_closure = Value::Closure(
        "arg".to_string(),
        Box::new(Term::Var("a".to_string())),
        Env::new(),
    );
    let reified = reify(constant_closure);
    assert_eq!(
        reified,
        Term::Abs("x".to_string(), Box::new(Term::Var("a".to_string())))
    );
}

#[test]
fn test_reify_nested_function() {
    // a closure that returns a closure returning the first argument
    let nested_closure = Value::Closure(
        "arg".to_string(),
        Box::new(Term::Abs(
            "arg2".to_string(),
            Box::new(Term::Var("arg".to_string())),
        )),
        Env::new(),
    );

    let reified = reify(nested_closure);
    assert_eq!(
        reified,
        Term::Abs(
            "x".to_string(),
            Box::new(Term::Abs("x".to_string(), Box::new(Term::Var("x".to_string()))))
        )
    );
}

#[test]
fn test_reify_environment_closure() {
    // a closure that returns the value of `z` it captured
    let mut env = Env::new();
    env.insert("z".to_string(), Value::Var("z_value".to_string()));

    let closure_with_env = Value::Closure(
        "arg".to_string(),
        Box::new(Term::Var("z".to_string())),
        env,
    );

    let reified = reify(closure_with_env);
    assert_eq!(
        reified,
        Term::Abs("x".to_string(), Box::new(Term::Var("z_value".to_string())))
    );
}

#[test]
fn reify_of_evaluated_identity() {
    let identity = Term::Abs("x".to_string(), Box::new(Term::Var("x".to_string())));
    let reified = reify(eval(identity.clone(), &Env::new()));
    assert_eq!(reified, identity);
}

#[test]
fn unbound_variable_evaluates_to_itself() {
    assert_eq!(eval(Term::Var("q".to_string()), &Env::new()), Value::Var("q".to_string()));
}

#[test]
fn later_binding_hides_earlier() {
    let mut env = Env::new();
    env.insert("x".to_string(), Value::Var("first".to_string()));
    env.insert("x".to_string(), Value::Var("second".to_string()));
    assert_eq!(eval(Term::Var("x".to_string()), &env), Value::Var("second".to_string()));
    assert_eq!(env.get(&"x".to_string()), Some(&Value::Var("second".to_string())));
    assert_eq!(env.get(&"y".to_string()), None);
}

#[test]
fn closures_are_never_equal() {
    let closure = eval(
        Term::Abs("x".to_string(), Box::new(Term::Var("x".to_string()))),
        &Env::new(),
    );
    assert!(closure != closure.clone());
    assert!(Value::Var("a".to_string()) != Value::Var("b".to_string()));
}

#[test]
fn closure_keeps_captured_environment() {
    let mut env = Env::new();
    env.insert("z".to_string(), Value::Var("before".to_string()));
    let closure = eval(
        Term::Abs("x".to_string(), Box::new(Term::Var("z".to_string()))),
        &env,
    );
    env.insert("z".to_string(), Value::Var("after".to_string()));
    assert_eq!(
        reify(closure),
        Term::Abs("x".to_string(), Box::new(Term::Var("before".to_string())))
    );
}
