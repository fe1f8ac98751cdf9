use vstd::prelude::*;
use crate::ast::{Term, Tm};
use crate::lexer::{lex, tokens_view, LexError, Lexer, Token, TokenV};

verus! {

/// The model of a parse error.
pub enum ParseErrorV {
    UnexpectedToken(TokenV),
    UnexpectedEndOfInput,
    InvalidExpression,
    TrailingInput,
    UnexpectedCharacter(char, usize),
}

/// Why parsing failed.
#[derive(Debug, PartialEq)]
pub enum ParseError {
    /// A construct expected one kind of token and found this one.
    UnexpectedToken(Token),
    /// The tokens ran out inside a construct.
    UnexpectedEndOfInput,
    /// A term cannot start with the token found.
    InvalidExpression,
    /// Tokens are left after a complete term.
    TrailingInput,
    /// Lexing failed: a character that starts no token, and its index.
    UnexpectedCharacter(char, usize),
}

impl View for ParseError {
    type V = ParseErrorV;

    open spec fn view(&self) -> ParseErrorV {
        match self {
            ParseError::UnexpectedToken(t) => ParseErrorV::UnexpectedToken(t@),
            ParseError::UnexpectedEndOfInput => ParseErrorV::UnexpectedEndOfInput,
            ParseError::InvalidExpression => ParseErrorV::InvalidExpression,
            ParseError::TrailingInput => ParseErrorV::TrailingInput,
            ParseError::UnexpectedCharacter(c, p) => ParseErrorV::UnexpectedCharacter(*c, *p),
        }
    }
}

/// The model of what parsing returned.
pub open spec fn parsed(r: Result<Term, ParseError>) -> Result<Tm, ParseErrorV> {
    match r {
        Ok(t) => Ok(t@),
        Err(e) => Err(e@),
    }
}

/// A term (`application := atom atom*`) read from index `i` of `ts`: the term,
/// folded to the left, and the index after it. The application stops at the end
/// of the tokens or at a right parenthesis.
pub open spec fn p_term(ts: Seq<TokenV>, i: int) -> Result<(Tm, int), ParseErrorV>
    decreases ts.len() - i, 2int,
{
    match p_atom(ts, i) {
        Ok((t, j)) => if i < j <= ts.len() {
            p_apps(ts, j, t)
        } else {
            Err(ParseErrorV::InvalidExpression)
        },
        Err(e) => Err(e),
    }
}

/// The atoms from index `j` on, applied one by one to `acc`.
pub open spec fn p_apps(ts: Seq<TokenV>, j: int, acc: Tm) -> Result<(Tm, int), ParseErrorV>
    decreases ts.len() - j, 3int,
{
    if !(0 <= j < ts.len()) || ts[j] is RightParen {
        Ok((acc, j))
    } else {
        match p_atom(ts, j) {
            Ok((t, k)) => if j < k <= ts.len() {
                p_apps(ts, k, Tm::App(Box::new(acc), Box::new(t)))
            } else {
                Err(ParseErrorV::InvalidExpression)
            },
            Err(e) => Err(e),
        }
    }
}

/// An atom read from index `i`: an identifier, an abstraction, or a term between
/// parentheses.
pub open spec fn p_atom(ts: Seq<TokenV>, i: int) -> Result<(Tm, int), ParseErrorV>
    decreases ts.len() - i, 1int,
{
    if !(0 <= i < ts.len()) {
        Err(ParseErrorV::UnexpectedEndOfInput)
    } else {
        match ts[i] {
            TokenV::Identifier(x) => Ok((Tm::Var(x), i + 1)),
            TokenV::Lambda => p_abs(ts, i + 1),
            TokenV::LeftParen => match p_term(ts, i + 1) {
                Ok((t, j)) => if !(0 <= j < ts.len()) {
                    Err(ParseErrorV::UnexpectedEndOfInput)
                } else if ts[j] is RightParen {
                    Ok((t, j + 1))
                } else {
                    Err(ParseErrorV::UnexpectedToken(ts[j]))
                },
                Err(e) => Err(e),
            },
            _ => Err(ParseErrorV::InvalidExpression),
        }
    }
}

/// The rest of an abstraction after its lambda, from index `i`: the parameter,
/// the dot, and a body that extends as far as a term does.
pub open spec fn p_abs(ts: Seq<TokenV>, i: int) -> Result<(Tm, int), ParseErrorV>
    decreases ts.len() - i, 0int,
{
    if !(0 <= i < ts.len()) {
        Err(ParseErrorV::UnexpectedEndOfInput)
    } else {
        match ts[i] {
            TokenV::Identifier(x) => if i + 1 >= ts.len() {
                Err(ParseErrorV::UnexpectedEndOfInput)
            } else if ts[i + 1] is Dot {
                match p_term(ts, i + 2) {
                    Ok((b, j)) => Ok((Tm::Abs(x, Box::new(b)), j)),
                    Err(e) => Err(e),
                }
            } else {
                Err(ParseErrorV::UnexpectedToken(ts[i + 1]))
            },
            other => Err(ParseErrorV::UnexpectedToken(other)),
        }
    }
}

/// A whole term read from index `i` to the end of `ts`.
pub open spec fn parse_tokens_from(ts: Seq<TokenV>, i: int) -> Result<Tm, ParseErrorV> {
    match p_term(ts, i) {
        Ok((t, j)) => if j == ts.len() {
            Ok(t)
        } else {
            Err(ParseErrorV::TrailingInput)
        },
        Err(e) => Err(e),
    }
}

/// What parsing gives on lexed input, from token index `i`.
pub open spec fn parse_lexed(input: Result<Seq<TokenV>, LexError>, i: int) -> Result<
    Tm,
    ParseErrorV,
> {
    match input {
        Ok(ts) => parse_tokens_from(ts, i),
        Err(LexError::UnexpectedCharacter(c, p)) => Err(ParseErrorV::UnexpectedCharacter(c, p)),
    }
}

/// The term that the text `s` denotes, or why it denotes none.
pub open spec fn parse_text(s: Seq<char>) -> Result<Tm, ParseErrorV> {
    parse_lexed(lex(s), 0)
}

/// `r`, ending at token index `pos`, is what the model gives.
pub open spec fn agrees(r: Result<Term, ParseError>, pos: int, m: Result<(Tm, int), ParseErrorV>) -> bool {
    match m {
        Ok((t, j)) => r is Ok && r->Ok_0@ == t && pos == j,
        Err(e) => r is Err && r->Err_0@ == e,
    }
}

impl Token {
    /// A copy of this token.
    pub fn duplicate(&self) -> (r: Token)
        ensures
            r@ == self@,
    {
        match self {
            Token::Lambda => Token::Lambda,
            Token::Dot => Token::Dot,
            Token::LeftParen => Token::LeftParen,
            Token::RightParen => Token::RightParen,
            Token::Identifier(name) => Token::Identifier(name.clone()),
        }
    }
}

/// A recursive-descent parser over the tokens of one input.
pub struct Parser {
    tokens: Vec<Token>,
    current: usize,
    lex_error: Option<LexError>,
}

impl Parser {
    /// The tokens of the input, or why lexing failed.
    pub closed spec fn input(&self) -> Result<Seq<TokenV>, LexError> {
        match self.lex_error {
            Some(e) => Err(e),
            None => Ok(tokens_view(self.tokens@)),
        }
    }

    /// The index of the next token to read.
    pub closed spec fn pos(&self) -> int {
        self.current as int
    }

    /// The position lies within the tokens.
    pub closed spec fn wf(&self) -> bool {
        self.current <= self.tokens.len()
    }

    /// `other` reads the same tokens as `self`, from a position within them.
    spec fn same_input(&self, other: Parser) -> bool {
        &&& self.tokens@ == other.tokens@
        &&& self.lex_error == other.lex_error
        &&& other.current <= other.tokens.len()
    }

    /// A parser at the start of the tokens of `input`.
    pub fn new(input: &str) -> (r: Parser)
        ensures
            r.wf(),
            r.input() == lex(input@),
            r.pos() == 0,
    {
        let mut lexer = Lexer::new(input);
        match lexer.tokenize() {
            Ok(tokens) => Parser { tokens, current: 0, lex_error: None },
            Err(e) => Parser { tokens: Vec::new(), current: 0, lex_error: Some(e) },
        }
    }

    /// Parses a whole term from the current position to the end of the tokens.
    pub fn parse(&mut self) -> (r: Result<Term, ParseError>)
        requires
            old(self).wf(),
        ensures
            final(self).wf(),
            final(self).input() == old(self).input(),
            parsed(r) == parse_lexed(old(self).input(), old(self).pos()),
    {
        match self.lex_error {
            Some(LexError::UnexpectedCharacter(c, p)) => {
                return Err(ParseError::UnexpectedCharacter(c, p));
            },
            None => {},
        }
        let term = self.expression();
        match term {
            Ok(t) => {
                if self.current < self.tokens.len() {
                    Err(ParseError::TrailingInput)
                } else {
                    Ok(t)
                }
            },
            Err(e) => Err(e),
        }
    }

    fn expression(&mut self) -> (r: Result<Term, ParseError>)
        requires
            old(self).wf(),
        ensures
            old(self).same_input(*final(self)),
            agrees(r, final(self).pos(), p_term(tokens_view(old(self).tokens@), old(self).pos())),
            r is Ok ==> old(self).current < final(self).current,
        decreases old(self).tokens.len() - old(self).current, 2int,
    {
        let ghost ts = tokens_view(self.tokens@);
        let ghost i = self.current as int;
        let mut expr = match self.atom() {
            Ok(t) => t,
            Err(e) => {
                return Err(e);
            },
        };
        while self.current < self.tokens.len() && !self.at_right_paren()
            invariant
                old(self).same_input(*self),
                ts == tokens_view(self.tokens@),
                i == old(self).current,
                i < self.current,
                p_term(ts, i) == p_apps(ts, self.current as int, expr@),
            decreases self.tokens.len() - self.current,
        {
            let right = match self.atom() {
                Ok(t) => t,
                Err(e) => {
                    return Err(e);
                },
            };
            expr = Term::App(Box::new(expr), Box::new(right));
        }
        Ok(expr)
    }

    fn at_right_paren(&self) -> (r: bool)
        requires
            self.current < self.tokens.len(),
        ensures
            r == (self.tokens@[self.current as int]@ is RightParen),
    {
        match self.tokens[self.current] {
            Token::RightParen => true,
            _ => false,
        }
    }

    fn atom(&mut self) -> (r: Result<Term, ParseError>)
        requires
            old(self).wf(),
        ensures
            old(self).same_input(*final(self)),
            agrees(r, final(self).pos(), p_atom(tokens_view(old(self).tokens@), old(self).pos())),
            r is Ok ==> old(self).current < final(self).current,
        decreases old(self).tokens.len() - old(self).current, 1int,
    {
        if self.current >= self.tokens.len() {
            return Err(ParseError::UnexpectedEndOfInput);
        }
        let ghost ts = tokens_view(self.tokens@);
        assert(ts[self.current as int] == self.tokens@[self.current as int]@);
        match &self.tokens[self.current] {
            Token::Identifier(name) => {
                let name = name.clone();
                self.current = self.current + 1;
                Ok(Term::Var(name))
            },
            Token::Lambda => {
                self.current = self.current + 1;
                self.abstraction()
            },
            Token::LeftParen => {
                self.current = self.current + 1;
                let expr = match self.expression() {
                    Ok(t) => t,
                    Err(e) => {
                        return Err(e);
                    },
                };
                if self.current >= self.tokens.len() {
                    return Err(ParseError::UnexpectedEndOfInput);
                }
                assert(ts[self.current as int] == self.tokens@[self.current as int]@);
                if self.at_right_paren() {
                    self.current = self.current + 1;
                    Ok(expr)
                } else {
                    Err(ParseError::UnexpectedToken(self.tokens[self.current].duplicate()))
                }
            },
            _ => Err(ParseError::InvalidExpression),
        }
    }

    fn abstraction(&mut self) -> (r: Result<Term, ParseError>)
        requires
            old(self).wf(),
        ensures
            old(self).same_input(*final(self)),
            agrees(r, final(self).pos(), p_abs(tokens_view(old(self).tokens@), old(self).pos())),
            r is Ok ==> old(self).current < final(self).current,
        decreases old(self).tokens.len() - old(self).current, 0int,
    {
        if self.current >= self.tokens.len() {
            return Err(ParseError::UnexpectedEndOfInput);
        }
        let ghost ts = tokens_view(self.tokens@);
        assert(ts[self.current as int] == self.tokens@[self.current as int]@);
        let param = match &self.tokens[self.current] {
            Token::Identifier(name) => name.clone(),
            other => {
                return Err(ParseError::UnexpectedToken(other.duplicate()));
            },
        };
        self.current = self.current + 1;
        if self.current >= self.tokens.len() {
            return Err(ParseError::UnexpectedEndOfInput);
        }
        assert(ts[self.current as int] == self.tokens@[self.current as int]@);
        match &self.tokens[self.current] {
            Token::Dot => {},
            other => {
                return Err(ParseError::UnexpectedToken(other.duplicate()));
            },
        }
        self.current = self.current + 1;
        let body = match self.expression() {
            Ok(t) => t,
            Err(e) => {
                return Err(e);
            },
        };
        Ok(Term::Abs(param, Box::new(body)))
    }
}

/// Parses `input` as one whole term.
pub fn parse(input: &str) -> (r: Result<Term, ParseError>)
    ensures
        parsed(r) == parse_text(input@),
{
    let mut parser = Parser::new(input);
    parser.parse()
}

} // verus!
