use vstd::prelude::*;
use crate::text::{alphabetic, is_alphabetic, is_whitespace, push_char, white_space};

verus! {

/// The model of a token.
pub enum TokenV {
    Lambda,
    Dot,
    LeftParen,
    RightParen,
    Identifier(Seq<char>),
}

/// A token of the surface syntax.
#[derive(Debug, PartialEq, Clone)]
pub enum Token {
    Lambda,
    Dot,
    LeftParen,
    RightParen,
    Identifier(String),
}

impl View for Token {
    type V = TokenV;

    open spec fn view(&self) -> TokenV {
        match self {
            Token::Lambda => TokenV::Lambda,
            Token::Dot => TokenV::Dot,
            Token::LeftParen => TokenV::LeftParen,
            Token::RightParen => TokenV::RightParen,
            Token::Identifier(name) => TokenV::Identifier(name@),
        }
    }
}

/// Why lexing failed: a character that starts no token, and its index among the
/// characters of the input.
#[derive(Debug, PartialEq, Eq, Clone, Copy, Structural)]
pub enum LexError {
    UnexpectedCharacter(char, usize),
}

/// The models of a sequence of tokens.
pub open spec fn tokens_view(ts: Seq<Token>) -> Seq<TokenV> {
    ts.map_values(|t: Token| t@)
}

/// The model of what lexing returned.
pub open spec fn lexed(r: Result<Vec<Token>, LexError>) -> Result<Seq<TokenV>, LexError> {
    match r {
        Ok(ts) => Ok(tokens_view(ts@)),
        Err(e) => Err(e),
    }
}

/// A letter: for ASCII characters `a`-`z` and `A`-`Z`, otherwise the Unicode
/// Alphabetic property.
pub open spec fn letter(c: char) -> bool {
    if (c as u32) <= 0x7f {
        ('a' <= c && c <= 'z') || ('A' <= c && c <= 'Z')
    } else {
        alphabetic(c)
    }
}

/// Whitespace: for ASCII characters the space and `\t` to `\r`, otherwise the
/// Unicode White_Space property.
pub open spec fn blank(c: char) -> bool {
    if (c as u32) <= 0x7f {
        c == ' ' || ('\t' <= c && c <= '\r')
    } else {
        white_space(c)
    }
}

/// The characters that start an abstraction.
pub open spec fn lambda_char(c: char) -> bool {
    c == '\\' || c == '\u{3bb}'
}

/// The characters that identifiers are made of: letters other than the lambda glyph.
pub open spec fn ident_char(c: char) -> bool {
    letter(c) && c != '\u{3bb}'
}

/// How many identifier characters follow one another from index `i` on.
pub open spec fn ident_len(s: Seq<char>, i: int) -> nat
    decreases s.len() - i,
{
    if 0 <= i < s.len() && ident_char(s[i]) {
        1 + ident_len(s, i + 1)
    } else {
        0
    }
}

/// `r` with `t` put in front of its tokens.
pub open spec fn cons(t: TokenV, r: Result<Seq<TokenV>, LexError>) -> Result<Seq<TokenV>, LexError> {
    match r {
        Ok(ts) => Ok(seq![t] + ts),
        Err(e) => Err(e),
    }
}

/// The tokens of the characters of `s` from index `i` on, or the first character
/// that starts no token.
pub open spec fn lex_from(s: Seq<char>, i: int) -> Result<Seq<TokenV>, LexError>
    decreases s.len() - i via lex_from_decreases
{
    if i < 0 || i >= s.len() {
        Ok(Seq::empty())
    } else {
        let c = s[i];
        if lambda_char(c) {
            cons(TokenV::Lambda, lex_from(s, i + 1))
        } else if c == '.' {
            cons(TokenV::Dot, lex_from(s, i + 1))
        } else if c == '(' {
            cons(TokenV::LeftParen, lex_from(s, i + 1))
        } else if c == ')' {
            cons(TokenV::RightParen, lex_from(s, i + 1))
        } else if blank(c) {
            lex_from(s, i + 1)
        } else if ident_char(c) {
            let n = 1 + ident_len(s, i + 1);
            cons(TokenV::Identifier(s.subrange(i, i + n)), lex_from(s, i + n))
        } else {
            Err(LexError::UnexpectedCharacter(c, i as usize))
        }
    }
}

#[via_fn]
proof fn lex_from_decreases(s: Seq<char>, i: int) {
    if 0 <= i < s.len() {
        lemma_ident_len_bound(s, i + 1);
    }
}

proof fn lemma_ident_len_bound(s: Seq<char>, i: int)
    requires
        0 <= i <= s.len(),
    ensures
        ident_len(s, i) <= s.len() - i,
    decreases s.len() - i,
{
    if i < s.len() {
        lemma_ident_len_bound(s, i + 1);
    }
}

/// The tokens of `s`, or the first character that starts no token.
pub open spec fn lex(s: Seq<char>) -> Result<Seq<TokenV>, LexError> {
    lex_from(s, 0)
}

fn is_ident_char(c: char) -> (r: bool)
    ensures
        r == ident_char(c),
{
    c != '\u{3bb}' && is_alphabetic(c)
}

/// A single forward pass over the characters of an input.
pub struct Lexer {
    input: Vec<char>,
    position: usize,
}

impl Lexer {
    /// The characters of the input.
    pub closed spec fn chars(&self) -> Seq<char> {
        self.input@
    }

    /// The index of the next character to read.
    pub closed spec fn pos(&self) -> int {
        self.position as int
    }

    /// The position lies within the input.
    pub closed spec fn wf(&self) -> bool {
        self.position <= self.input.len()
    }

    /// A lexer at the start of `input`.
    pub fn new(input: &str) -> (r: Lexer)
        ensures
            r.wf(),
            r.chars() == input@,
            r.pos() == 0,
    {
        let mut chars: Vec<char> = Vec::new();
        for c in iter: input.chars()
            invariant
                chars@ == iter.history(),
        {
            chars.push(c);
        }
        assert(chars@ =~= input@);
        Lexer { input: chars, position: 0 }
    }

    /// The tokens of the rest of the input, or the first character that starts no token.
    pub fn tokenize(&mut self) -> (r: Result<Vec<Token>, LexError>)
        requires
            old(self).wf(),
        ensures
            final(self).wf(),
            final(self).chars() == old(self).chars(),
            lexed(r) == lex_from(old(self).chars(), old(self).pos()),
    {
        let ghost s = self.input@;
        let ghost start = self.position as int;
        let mut tokens: Vec<Token> = Vec::new();
        while self.position < self.input.len()
            invariant
                self.input@ == s,
                s == old(self).input@,
                start == old(self).position,
                start <= self.position <= s.len(),
                lex_from(s, start) == match lex_from(s, self.position as int) {
                    Ok(rest) => Ok(tokens_view(tokens@) + rest),
                    Err(e) => Err(e),
                },
            decreases s.len() - self.position,
        {
            let ghost before = tokens@;
            let ghost p = self.position as int;
            let ch = self.input[self.position];
            let token: Option<Token>;
            if ch == '\\' || ch == '\u{3bb}' {
                self.position = self.position + 1;
                token = Some(Token::Lambda);
            } else if ch == '.' {
                self.position = self.position + 1;
                token = Some(Token::Dot);
            } else if ch == '(' {
                self.position = self.position + 1;
                token = Some(Token::LeftParen);
            } else if ch == ')' {
                self.position = self.position + 1;
                token = Some(Token::RightParen);
            } else if is_whitespace(ch) {
                self.position = self.position + 1;
                token = None;
            } else if is_ident_char(ch) {
                let name = self.read_identifier();
                token = Some(Token::Identifier(name));
            } else {
                return Err(LexError::UnexpectedCharacter(ch, self.position));
            }
            match token {
                Some(t) => {
                    tokens.push(t);
                    proof {
                        assert(tokens_view(tokens@) =~= tokens_view(before).push(t@));
                        match lex_from(s, self.position as int) {
                            Ok(rest) => {
                                assert(tokens_view(tokens@) + rest =~= tokens_view(before) + (
                                seq![t@] + rest));
                            },
                            Err(e) => {},
                        }
                    }
                },
                None => {},
            }
        }
        assert(tokens_view(tokens@) + Seq::empty() =~= tokens_view(tokens@));
        Ok(tokens)
    }

    /// Reads the run of identifier characters that starts at the current position.
    fn read_identifier(&mut self) -> (r: String)
        requires
            old(self).wf(),
        ensures
            final(self).wf(),
            final(self).chars() == old(self).chars(),
            final(self).pos() == old(self).pos() + ident_len(old(self).chars(), old(self).pos()),
            r@ == old(self).chars().subrange(
                old(self).pos(),
                old(self).pos() + ident_len(old(self).chars(), old(self).pos()),
            ),
    {
        let ghost s = self.input@;
        let start = self.position;
        while self.position < self.input.len() && is_ident_char(self.input[self.position])
            invariant
                self.input@ == s,
                start <= self.position <= s.len(),
                ident_len(s, start as int) == (self.position - start) + ident_len(
                    s,
                    self.position as int,
                ),
            decreases s.len() - self.position,
        {
            self.position = self.position + 1;
        }
        let mut name = String::new();
        let mut i: usize = start;
        while i < self.position
            invariant
                self.input@ == s,
                start <= i <= self.position <= s.len(),
                name@ == s.subrange(start as int, i as int),
            decreases self.position - i,
        {
            push_char(&mut name, self.input[i]);
            i = i + 1;
            assert(name@ =~= s.subrange(start as int, i as int));
        }
        name
    }
}

} // verus!
