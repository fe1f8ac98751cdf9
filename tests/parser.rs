use lambda_calc::ast::Term;
use lambda_calc::lexer::Token;
use lambda_calc::parser::{parse, ParseError, Parser};

fn var(name: &str) -> Term {
    Term::Var(name.to_string())
}

fn abs(param: &str, body: Term) -> Term {
    Term::Abs(param.to_string(), Box::new(body))
}

fn app(func: Term, arg: Term) -> Term {
    Term::App(Box::new(func), Box::new(arg))
}

#[test]
fn test_parse_variable() {
    assert_eq!(parse("x"), Ok(Term::Var("x".to_string())));
}

#[test]
fn test_parse_abstraction() {
    assert_eq!(
        parse("\\x. x"),
        Ok(Term::Abs("x".to_string(), Box::new(Term::Var("x".to_string()))))
    );
}

#[test]
fn test_parse_application() {
    assert_eq!(
        parse("x y"),
        Ok(Term::App(
            Box::new(Term::Var("x".to_string())),
            Box::new(Term::Var("y".to_string()))
        ))
    );
}

#[test]
fn test_parse_complex_term() {
    assert_eq!(
        parse("(\\x. x y) (\\z. z)"),
        Ok(Term::App(
            Box::new(Term::Abs(
                "x".to_string(),
                Box::new(Term::App(
                    Box::new(Term::Var("x".to_string())),
                    Box::new(Term::Var("y".to_string()))
                ))
            )),
            Box::new(Term::Abs(
                "z".to_string(),
                Box::new(Term::Var("z".to_string()))
            ))
        ))
    );
}

#[test]
fn parse_application_is_left_associative() {
    assert_eq!(parse("f x y"), Ok(app(app(var("f"), var("x")), var("y"))));
}

#[test]
fn parse_abstraction_body_is_greedy() {
    assert_eq!(parse("\\x. x y"), Ok(abs("x", app(var("x"), var("y")))));
}

#[test]
fn parse_unclosed_parenthesis() {
    assert_eq!(parse("(x"), Err(ParseError::UnexpectedEndOfInput));
}

#[test]
fn parse_stray_right_parenthesis() {
    assert_eq!(parse("x)"), Err(ParseError::TrailingInput));
}

#[test]
fn parse_reports_lexical_error() {
    assert_eq!(parse("x $ y"), Err(ParseError::UnexpectedCharacter('$', 2)));
}

#[test]
fn parse_errors_inside_constructs() {
    assert_eq!(parse(""), Err(ParseError::UnexpectedEndOfInput));
    assert_eq!(parse("\\"), Err(ParseError::UnexpectedEndOfInput));
    assert_eq!(parse("\\x"), Err(ParseError::UnexpectedEndOfInput));
    assert_eq!(parse("\\x."), Err(ParseError::UnexpectedEndOfInput));
    assert_eq!(parse("\\. x"), Err(ParseError::UnexpectedToken(Token::Dot)));
    assert_eq!(parse("\\x y"), Err(ParseError::UnexpectedToken(Token::Identifier("y".to_string()))));
    assert_eq!(parse(")"), Err(ParseError::InvalidExpression));
    assert_eq!(parse("x . y"), Err(ParseError::InvalidExpression));
    assert_eq!(parse("()"), Err(ParseError::InvalidExpression));
}

#[test]
fn parser_parses_from_the_start() {
    let mut parser = Parser::new("(\u{3bb}f. f) g");
    assert_eq!(parser.parse(), Ok(app(abs("f", var("f")), var("g"))));
}

#[test]
fn parse_of_pretty_print_gives_the_term_back() {
    for text in ["(\\x. \\y. x) a", "f (g x) (\\z. z z) y", "\\a. \\b. (a b) (\\c. c)"] {
        let term = parse(text).unwrap();
        assert_eq!(parse(&term.pretty_print()), Ok(term));
    }
}
