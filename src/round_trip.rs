use vstd::prelude::*;
use crate::ast::{parens_if, pretty, Tm};
use crate::lexer::{blank, ident_char, ident_len, lambda_char, lex, lex_from, TokenV};
use crate::parser::{p_abs, p_apps, p_atom, p_term, parse_text, ParseErrorV};

verus! {

/// A name that the lexer reads back as one identifier: identifier characters
/// only, the first of which is no whitespace.
pub open spec fn valid_name(x: Seq<char>) -> bool {
    &&& x.len() > 0
    &&& !blank(x[0])
    &&& forall|k: int| 0 <= k < x.len() ==> #[trigger] ident_char(x[k])
}

/// Every variable and parameter of `t` has a valid name.
pub open spec fn well_named(t: Tm) -> bool
    decreases t,
{
    match t {
        Tm::Var(x) => valid_name(x),
        Tm::Abs(p, b) => valid_name(p) && well_named(*b),
        Tm::App(f, a) => well_named(*f) && well_named(*a),
    }
}

/// Every identifier token of `ts` has a valid name.
pub open spec fn names_valid(ts: Seq<TokenV>) -> bool {
    forall|k: int|
        0 <= k < ts.len() && (#[trigger] ts[k]) is Identifier ==> valid_name(ts[k]->Identifier_0)
}

/// `ts` between parentheses when `b` holds.
pub open spec fn paren_toks(b: bool, ts: Seq<TokenV>) -> Seq<TokenV> {
    if b {
        seq![TokenV::LeftParen] + ts + seq![TokenV::RightParen]
    } else {
        ts
    }
}

/// The tokens of the text of `t`.
pub open spec fn toks(t: Tm) -> Seq<TokenV>
    decreases t,
{
    match t {
        Tm::Var(x) => seq![TokenV::Identifier(x)],
        Tm::Abs(p, b) => seq![TokenV::Lambda, TokenV::Identifier(p), TokenV::Dot] + toks(*b),
        Tm::App(f, a) => paren_toks((*f) is Abs, toks(*f)) + paren_toks(!((*a) is Var), toks(*a)),
    }
}

/// The tokens of `t` in argument position.
pub open spec fn atom_toks(t: Tm) -> Seq<TokenV> {
    paren_toks(!(t is Var), toks(t))
}

/// The tokens of `t` in function position.
pub open spec fn head_toks(t: Tm) -> Seq<TokenV> {
    paren_toks(t is Abs, toks(t))
}

/// Lexing cannot join the end of `a` and the start of `b` into one identifier.
pub open spec fn boundary(a: Seq<char>, b: Seq<char>) -> bool {
    ident_len(b, 0) == 0 || (a.len() > 0 && !ident_char(a[a.len() - 1]))
}

/// `block` stands in `ts` from index `i` on.
pub open spec fn fits(ts: Seq<TokenV>, i: int, block: Seq<TokenV>) -> bool {
    &&& 0 <= i
    &&& i + block.len() <= ts.len()
    &&& ts.subrange(i, i + block.len()) == block
}

/// An application that reaches index `j` stops there.
pub open spec fn stops(ts: Seq<TokenV>, j: int) -> bool {
    j == ts.len() || (0 <= j < ts.len() && ts[j] is RightParen)
}

// ---- names that come out of a parse ----

proof fn lemma_ident_run(s: Seq<char>, i: int)
    requires
        0 <= i <= s.len(),
    ensures
        i + ident_len(s, i) <= s.len(),
        forall|k: int| i <= k < i + ident_len(s, i) ==> ident_char(#[trigger] s[k]),
    decreases s.len() - i,
{
    if i < s.len() && ident_char(s[i]) {
        lemma_ident_run(s, i + 1);
    }
}

proof fn lemma_cons_names(t: TokenV, rest: Seq<TokenV>)
    requires
        names_valid(rest),
        t is Identifier ==> valid_name(t->Identifier_0),
    ensures
        names_valid(seq![t] + rest),
{
    let ts = seq![t] + rest;
    assert forall|k: int| 0 <= k < ts.len() && (#[trigger] ts[k]) is Identifier implies valid_name(
        ts[k]->Identifier_0,
    ) by {
        if k > 0 {
            assert(ts[k] == rest[k - 1]);
        }
    }
}

proof fn lemma_lexed_names(s: Seq<char>, i: int)
    requires
        0 <= i,
        lex_from(s, i) is Ok,
    ensures
        names_valid(lex_from(s, i)->Ok_0),
    decreases s.len() - i,
{
    if i < s.len() {
        let c = s[i];
        if lambda_char(c) || c == '.' || c == '(' || c == ')' || blank(c) {
            lemma_lexed_names(s, i + 1);
            if !blank(c) || lambda_char(c) || c == '.' || c == '(' || c == ')' {
                let t = if lambda_char(c) {
                    TokenV::Lambda
                } else if c == '.' {
                    TokenV::Dot
                } else if c == '(' {
                    TokenV::LeftParen
                } else {
                    TokenV::RightParen
                };
                lemma_cons_names(t, lex_from(s, i + 1)->Ok_0);
            }
        } else if ident_char(c) {
            lemma_ident_run(s, i + 1);
            let n = 1 + ident_len(s, i + 1);
            lemma_lexed_names(s, i + n);
            let name = s.subrange(i, i + n);
            assert forall|k: int| 0 <= k < name.len() implies #[trigger] ident_char(name[k]) by {
                assert(name[k] == s[i + k]);
            }
            lemma_cons_names(TokenV::Identifier(name), lex_from(s, i + n)->Ok_0);
        }
    } else {
        assert(names_valid(Seq::<TokenV>::empty()));
    }
}

proof fn lemma_term_names(ts: Seq<TokenV>, i: int)
    requires
        names_valid(ts),
        p_term(ts, i) is Ok,
    ensures
        well_named(p_term(ts, i)->Ok_0.0),
    decreases ts.len() - i, 2int,
{
    lemma_atom_names(ts, i);
    let (t, j) = p_atom(ts, i)->Ok_0;
    if i < j <= ts.len() {
        lemma_apps_names(ts, j, t);
    }
}

proof fn lemma_apps_names(ts: Seq<TokenV>, j: int, acc: Tm)
    requires
        names_valid(ts),
        well_named(acc),
        p_apps(ts, j, acc) is Ok,
    ensures
        well_named(p_apps(ts, j, acc)->Ok_0.0),
    decreases ts.len() - j, 3int,
{
    if 0 <= j < ts.len() && !(ts[j] is RightParen) {
        lemma_atom_names(ts, j);
        let (t, k) = p_atom(ts, j)->Ok_0;
        if j < k <= ts.len() {
            lemma_apps_names(ts, k, Tm::App(Box::new(acc), Box::new(t)));
        }
    }
}

proof fn lemma_atom_names(ts: Seq<TokenV>, i: int)
    requires
        names_valid(ts),
        p_atom(ts, i) is Ok,
    ensures
        well_named(p_atom(ts, i)->Ok_0.0),
    decreases ts.len() - i, 1int,
{
    if 0 <= i < ts.len() {
        match ts[i] {
            TokenV::Lambda => lemma_abs_names(ts, i + 1),
            TokenV::LeftParen => lemma_term_names(ts, i + 1),
            _ => {},
        }
    }
}

proof fn lemma_abs_names(ts: Seq<TokenV>, i: int)
    requires
        names_valid(ts),
        p_abs(ts, i) is Ok,
    ensures
        well_named(p_abs(ts, i)->Ok_0.0),
    decreases ts.len() - i, 0int,
{
    if 0 <= i && i + 1 < ts.len() && ts[i] is Identifier && ts[i + 1] is Dot {
        lemma_term_names(ts, i + 2);
    }
}

/// The terms that parsing gives have valid names.
pub proof fn lemma_parsed_well_named(s: Seq<char>)
    requires
        parse_text(s) is Ok,
    ensures
        well_named(parse_text(s)->Ok_0),
{
    lemma_lexed_names(s, 0);
    lemma_term_names(lex(s)->Ok_0, 0);
}

// ---- lexing the text of a term ----

proof fn lemma_ident_len_shift(a: Seq<char>, b: Seq<char>, k: int)
    requires
        0 <= k <= b.len(),
    ensures
        ident_len(a + b, a.len() + k) == ident_len(b, k),
    decreases b.len() - k,
{
    if k < b.len() {
        assert((a + b)[a.len() + k] == b[k]);
        if ident_char(b[k]) {
            lemma_ident_len_shift(a, b, k + 1);
        }
    }
}

proof fn lemma_lex_shift(a: Seq<char>, b: Seq<char>, k: int)
    requires
        0 <= k <= b.len(),
        lex_from(b, k) is Ok,
    ensures
        lex_from(a + b, a.len() + k) == lex_from(b, k),
    decreases b.len() - k,
{
    if k < b.len() {
        let c = b[k];
        assert((a + b)[a.len() + k] == c);
        if lambda_char(c) || c == '.' || c == '(' || c == ')' || blank(c) {
            lemma_lex_shift(a, b, k + 1);
        } else if ident_char(c) {
            lemma_ident_len_shift(a, b, k + 1);
            lemma_ident_run(b, k + 1);
            let n = 1 + ident_len(b, k + 1);
            lemma_lex_shift(a, b, k + n);
            assert((a + b).subrange(a.len() + k, a.len() + k + n) =~= b.subrange(k, k + n));
        }
    }
}

proof fn lemma_ident_len_prefix(a: Seq<char>, b: Seq<char>, i: int)
    requires
        0 <= i <= a.len(),
        boundary(a, b),
        i == a.len() ==> ident_len(b, 0) == 0,
    ensures
        ident_len(a + b, i) == ident_len(a, i),
    decreases a.len() - i,
{
    if i == a.len() {
        lemma_ident_len_shift(a, b, 0);
    } else {
        assert((a + b)[i] == a[i]);
        if ident_char(a[i]) {
            lemma_ident_len_prefix(a, b, i + 1);
        }
    }
}

proof fn lemma_lex_concat_from(a: Seq<char>, b: Seq<char>, i: int)
    requires
        0 <= i <= a.len(),
        boundary(a, b),
        lex_from(a, i) is Ok,
        lex_from(b, 0) is Ok,
    ensures
        lex_from(a + b, i) == Ok::<Seq<TokenV>, crate::lexer::LexError>(
            lex_from(a, i)->Ok_0 + lex_from(b, 0)->Ok_0,
        ),
    decreases a.len() - i,
{
    let y = lex_from(b, 0)->Ok_0;
    if i == a.len() {
        lemma_lex_shift(a, b, 0);
        assert(Seq::<TokenV>::empty() + y =~= y);
    } else {
        let c = a[i];
        assert((a + b)[i] == c);
        if lambda_char(c) || c == '.' || c == '(' || c == ')' {
            lemma_lex_concat_from(a, b, i + 1);
            let t = if lambda_char(c) {
                TokenV::Lambda
            } else if c == '.' {
                TokenV::Dot
            } else if c == '(' {
                TokenV::LeftParen
            } else {
                TokenV::RightParen
            };
            let x = lex_from(a, i + 1)->Ok_0;
            assert(seq![t] + (x + y) =~= (seq![t] + x) + y);
        } else if blank(c) {
            lemma_lex_concat_from(a, b, i + 1);
        } else if ident_char(c) {
            lemma_ident_len_prefix(a, b, i + 1);
            lemma_ident_run(a, i + 1);
            let n = 1 + ident_len(a, i + 1);
            lemma_lex_concat_from(a, b, i + n);
            let name = a.subrange(i, i + n);
            assert((a + b).subrange(i, i + n) =~= name);
            let x = lex_from(a, i + n)->Ok_0;
            let t = TokenV::Identifier(name);
            assert(seq![t] + (x + y) =~= (seq![t] + x) + y);
        }
    }
}

proof fn lemma_lex_concat(a: Seq<char>, b: Seq<char>)
    requires
        boundary(a, b),
        lex(a) is Ok,
        lex(b) is Ok,
    ensures
        lex(a + b) == Ok::<Seq<TokenV>, crate::lexer::LexError>(lex(a)->Ok_0 + lex(b)->Ok_0),
{
    lemma_lex_concat_from(a, b, 0);
}

proof fn lemma_ident_all(x: Seq<char>, i: int)
    requires
        0 <= i <= x.len(),
        forall|k: int| 0 <= k < x.len() ==> #[trigger] ident_char(x[k]),
    ensures
        ident_len(x, i) == x.len() - i,
    decreases x.len() - i,
{
    if i < x.len() {
        lemma_ident_all(x, i + 1);
    }
}

proof fn lemma_lex_name(x: Seq<char>)
    requires
        valid_name(x),
    ensures
        lex(x) == Ok::<Seq<TokenV>, crate::lexer::LexError>(seq![TokenV::Identifier(x)]),
{
    lemma_ident_all(x, 1);
    assert(ident_char(x[0]));
    assert(x.subrange(0, x.len() as int) =~= x);
    assert(lex_from(x, x.len() as int) == Ok::<Seq<TokenV>, crate::lexer::LexError>(Seq::empty()));
    assert(seq![TokenV::Identifier(x)] + Seq::<TokenV>::empty() =~= seq![TokenV::Identifier(x)]);
}

proof fn lemma_lex_symbol(c: char, t: TokenV)
    requires
        (c == '\\' && t == TokenV::Lambda) || (c == '.' && t == TokenV::Dot) || (c == '('
            && t == TokenV::LeftParen) || (c == ')' && t == TokenV::RightParen),
    ensures
        lex(seq![c]) == Ok::<Seq<TokenV>, crate::lexer::LexError>(seq![t]),
        ident_len(seq![c], 0) == 0,
        !ident_char(c),
{
    let s = seq![c];
    assert(lex_from(s, 1) == Ok::<Seq<TokenV>, crate::lexer::LexError>(Seq::empty()));
    assert(seq![t] + Seq::<TokenV>::empty() =~= seq![t]);
}

proof fn lemma_lex_space()
    ensures
        lex(seq![' ']) == Ok::<Seq<TokenV>, crate::lexer::LexError>(Seq::empty()),
        ident_len(seq![' '], 0) == 0,
        !ident_char(' '),
{
    let s = seq![' '];
    assert(lex_from(s, 1) == Ok::<Seq<TokenV>, crate::lexer::LexError>(Seq::empty()));
}

proof fn lemma_lex_parens(b: bool, s: Seq<char>)
    requires
        lex(s) is Ok,
    ensures
        lex(parens_if(b, s)) == Ok::<Seq<TokenV>, crate::lexer::LexError>(
            paren_toks(b, lex(s)->Ok_0),
        ),
{
    if b {
        lemma_lex_symbol('(', TokenV::LeftParen);
        lemma_lex_symbol(')', TokenV::RightParen);
        let open = seq!['('];
        lemma_lex_concat(open, s);
        lemma_lex_concat(open + s, seq![')']);
    }
}

proof fn lemma_lex_pretty(t: Tm)
    requires
        well_named(t),
    ensures
        lex(pretty(t)) == Ok::<Seq<TokenV>, crate::lexer::LexError>(toks(t)),
    decreases t,
{
    match t {
        Tm::Var(x) => lemma_lex_name(x),
        Tm::Abs(p, b) => {
            lemma_lex_pretty(*b);
            lemma_lex_name(p);
            lemma_lex_symbol('\\', TokenV::Lambda);
            lemma_lex_symbol('.', TokenV::Dot);
            lemma_lex_space();
            let dot_space = seq!['.', ' '];
            assert(dot_space =~= seq!['.'] + seq![' ']);
            lemma_lex_concat(seq!['.'], seq![' ']);
            assert(seq![TokenV::Dot] + Seq::<TokenV>::empty() =~= seq![TokenV::Dot]);
            let a1 = seq!['\\'];
            let a2 = a1 + p;
            let a3 = a2 + dot_space;
            lemma_lex_concat(a1, p);
            assert(ident_len(dot_space, 0) == 0);
            lemma_lex_concat(a2, dot_space);
            assert(a3[a3.len() - 1] == ' ');
            lemma_lex_concat(a3, pretty(*b));
            assert(pretty(t) == a3 + pretty(*b));
            assert(seq![TokenV::Lambda] + seq![TokenV::Identifier(p)] + seq![TokenV::Dot] + toks(*b)
                =~= toks(t));
        },
        Tm::App(f, a) => {
            lemma_lex_pretty(*f);
            lemma_lex_pretty(*a);
            lemma_lex_space();
            let pf = parens_if((*f) is Abs, pretty(*f));
            let pa = parens_if(!((*a) is Var), pretty(*a));
            lemma_lex_parens((*f) is Abs, pretty(*f));
            lemma_lex_parens(!((*a) is Var), pretty(*a));
            lemma_lex_concat(pf, seq![' ']);
            let a2 = pf + seq![' '];
            assert(a2[a2.len() - 1] == ' ');
            lemma_lex_concat(a2, pa);
            let tf = paren_toks((*f) is Abs, toks(*f));
            assert(tf + Seq::<TokenV>::empty() =~= tf);
        },
    }
}

// ---- parsing the tokens of a term ----

proof fn lemma_toks_nonempty(t: Tm)
    ensures
        toks(t).len() > 0,
    decreases t,
{
    match t {
        Tm::Var(_) => {},
        Tm::Abs(_, _) => {},
        Tm::App(f, a) => {
            lemma_toks_nonempty(*f);
        },
    }
}

proof fn lemma_fits_split(ts: Seq<TokenV>, i: int, a: Seq<TokenV>, b: Seq<TokenV>)
    requires
        fits(ts, i, a + b),
    ensures
        fits(ts, i, a),
        fits(ts, i + a.len(), b),
{
    assert(ts.subrange(i, i + a.len()) =~= (a + b).subrange(0, a.len() as int));
    assert((a + b).subrange(0, a.len() as int) =~= a);
    assert(ts.subrange(i + a.len(), i + a.len() + b.len()) =~= (a + b).subrange(
        a.len() as int,
        (a.len() + b.len()) as int,
    ));
    assert((a + b).subrange(a.len() as int, (a.len() + b.len()) as int) =~= b);
}

proof fn lemma_fits_at(ts: Seq<TokenV>, i: int, block: Seq<TokenV>, k: int)
    requires
        fits(ts, i, block),
        0 <= k < block.len(),
    ensures
        ts[i + k] == block[k],
{
    assert(ts.subrange(i, i + block.len())[k] == ts[i + k]);
}

/// `t` in function position: a term read where its tokens stand goes on as an
/// application with `t` as its function.
proof fn lemma_parse_head(ts: Seq<TokenV>, i: int, t: Tm)
    requires
        fits(ts, i, head_toks(t)),
    ensures
        p_term(ts, i) == p_apps(ts, i + head_toks(t).len(), t),
    decreases t, if t is App {
        1int
    } else if t is Abs {
        3int
    } else {
        2int
    },
{
    match t {
        Tm::Var(x) => {
            lemma_fits_at(ts, i, head_toks(t), 0);
        },
        Tm::Abs(_, _) => {
            lemma_parse_atom(ts, i, t);
        },
        Tm::App(f, a) => {
            lemma_fits_split(ts, i, head_toks(*f), atom_toks(*a));
            lemma_parse_head(ts, i, *f);
            let j = i + head_toks(*f).len();
            lemma_toks_nonempty(*a);
            lemma_fits_at(ts, j, atom_toks(*a), 0);
            lemma_parse_atom(ts, j, *a);
            assert(head_toks(t) == head_toks(*f) + atom_toks(*a));
        },
    }
}

/// `t` in argument position is read as one atom.
proof fn lemma_parse_atom(ts: Seq<TokenV>, i: int, t: Tm)
    requires
        fits(ts, i, atom_toks(t)),
    ensures
        p_atom(ts, i) == Ok::<(Tm, int), ParseErrorV>((t, i + atom_toks(t).len())),
    decreases t, if t is App {
        3int
    } else if t is Abs {
        2int
    } else {
        1int
    },
{
    if t is Var {
        lemma_fits_at(ts, i, atom_toks(t), 0);
    } else {
        let inner = toks(t);
        let open = seq![TokenV::LeftParen];
        let close = seq![TokenV::RightParen];
        lemma_fits_split(ts, i, open + inner, close);
        lemma_fits_split(ts, i, open, inner);
        lemma_fits_at(ts, i, open, 0);
        lemma_fits_at(ts, i + 1 + inner.len(), close, 0);
        lemma_parse_term(ts, i + 1, t);
    }
}

/// `t`, followed by the end of the tokens or a right parenthesis, is read whole.
proof fn lemma_parse_term(ts: Seq<TokenV>, i: int, t: Tm)
    requires
        fits(ts, i, toks(t)),
        stops(ts, i + toks(t).len()),
    ensures
        p_term(ts, i) == Ok::<(Tm, int), ParseErrorV>((t, i + toks(t).len())),
    decreases t, if t is App {
        2int
    } else if t is Abs {
        1int
    } else {
        3int
    },
{
    let n = toks(t).len();
    match t {
        Tm::Abs(p, b) => {
            let front = seq![TokenV::Lambda, TokenV::Identifier(p), TokenV::Dot];
            lemma_fits_split(ts, i, front, toks(*b));
            lemma_toks_nonempty(*b);
            lemma_fits_at(ts, i, front, 0);
            lemma_fits_at(ts, i, front, 1);
            lemma_fits_at(ts, i, front, 2);
            lemma_parse_term(ts, i + 3, *b);
            assert(p_abs(ts, i + 1) == Ok::<(Tm, int), ParseErrorV>((t, i + n)));
            assert(p_atom(ts, i) == Ok::<(Tm, int), ParseErrorV>((t, i + n)));
        },
        _ => {
            lemma_parse_head(ts, i, t);
        },
    }
}

/// Reading the text of a well-named term gives the term back.
pub proof fn lemma_parse_pretty(t: Tm)
    requires
        well_named(t),
    ensures
        parse_text(pretty(t)) == Ok::<Tm, ParseErrorV>(t),
{
    lemma_lex_pretty(t);
    let ts = toks(t);
    assert(ts.subrange(0, ts.len() as int) =~= ts);
    lemma_parse_term(ts, 0, t);
}

/// Round trip: a term that parsing gives is given back by parsing its pretty-printed text.
pub proof fn lemma_round_trip(s: Seq<char>, t: Tm)
    requires
        parse_text(s) == Ok::<Tm, ParseErrorV>(t),
    ensures
        parse_text(pretty(t)) == Ok::<Tm, ParseErrorV>(t),
{
    lemma_parsed_well_named(s);
    lemma_parse_pretty(t);
}

} // verus!
