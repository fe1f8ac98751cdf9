use lambda_calc::ast::{subst, Term};

fn var(name: &str) -> Term {
    Term::Var(name.to_string())
}

fn abs(param: &str, body: Term) -> Term {
    Term::Abs(param.to_string(), Box::new(body))
}

fn app(func: Term, arg: Term) -> Term {
    Term::App(Box::new(func), Box::new(arg))
}

#[test]
fn test_pretty_print() {
    let var = Term::Var("x".to_string());
    assert_eq!(var.pretty_print(), "x");
    let abs = Term::Abs("x".to_string(), Box::new(Term::Var("x".to_string())));
    assert_eq!(abs.pretty_print(), "\\x. x");

    let app = Term::App(
        Box::new(Term::Var("f".to_string())),
        Box::new(Term::Var("x".to_string())),
    );
    assert_eq!(app.pretty_print(), "f x");

    let complex_term = Term::App(
        Box::new(Term::Abs(
            "x".to_string(),
            Box::new(Term::Abs(
                "y".to_string(),
                Box::new(Term::Var("x".to_string())),
            )),
        )),
        Box::new(Term::Var("a".to_string())),
    );
    assert_eq!(complex_term.pretty_print(), "(\\x. \\y. x) a");
}

#[test]
fn test_substitution() {
    let var_x = Term::Var("x".to_string());
    let var_y = Term::Var("y".to_string());
    let abs = Term::Abs("x".to_string(), Box::new(var_x.clone()));
    let app = Term::App(Box::new(var_y.clone()), Box::new(var_x.clone()));

    assert_eq!(subst("x", &var_y, &var_x), var_y);
    assert_eq!(subst("x", &var_y, &abs), abs);
    assert_eq!(
        subst("x", &var_y, &app),
        Term::App(Box::new(var_y.clone()), Box::new(var_y))
    );
}

#[test]
fn pretty_print_parenthesizes_arguments() {
    assert_eq!(app(var("f"), app(var("g"), var("x"))).pretty_print(), "f (g x)");
    assert_eq!(app(var("f"), abs("x", var("x"))).pretty_print(), "f (\\x. x)");
    assert_eq!(app(app(var("f"), var("x")), var("y")).pretty_print(), "f x y");
    assert_eq!(abs("x", app(var("x"), var("y"))).pretty_print(), "\\x. x y");
}

#[test]
fn subst_shadowed_by_binder() {
    let body = app(var("x"), var("z"));
    let term = abs("x", body.clone());
    assert_eq!(subst("x", &app(var("a"), var("b")), &term), term);
}

#[test]
fn subst_free_variable() {
    assert_eq!(subst("x", &var("y"), &var("x")), var("y"));
    assert_eq!(subst("x", &var("y"), &var("z")), var("z"));
}

#[test]
fn subst_under_other_binder_captures() {
    // no renaming: the free `y` of the replacement is captured by the binder `y`
    let term = abs("y", app(var("x"), var("y")));
    assert_eq!(subst("x", &var("y"), &term), abs("y", app(var("y"), var("y"))));
}

#[test]
fn ascii_tree_of_application() {
    let term = app(abs("x", var("x")), var("y"));
    let expected = "\u{2514}\u{2500}\u{2500} App\n\
                    \u{2502} \u{251c}\u{2500}\u{2500} Abs (x)\n\
                    \u{2502}   \u{2514}\u{2500}\u{2500} Var (x)\n  \
                    \u{2514}\u{2500}\u{2500} Var (y)\n";
    assert_eq!(term.ascii_tree(), expected);
}

#[test]
fn ascii_tree_of_variable() {
    assert_eq!(var("v").ascii_tree(), "\u{2514}\u{2500}\u{2500} Var (v)\n");
}
