use vstd::prelude::*;
use crate::text::push_char;

verus! {

/// The mathematical model of a lambda term.
pub enum Tm {
    Var(Seq<char>),
    Abs(Seq<char>, Box<Tm>),
    App(Box<Tm>, Box<Tm>),
}

/// A lambda term: a variable, an abstraction or an application.
#[derive(PartialEq, Eq, Debug)]
pub enum Term {
    Var(String),
    Abs(String, Box<Term>),
    App(Box<Term>, Box<Term>),
}

impl View for Term {
    type V = Tm;

    open spec fn view(&self) -> Tm
        decreases self,
    {
        match self {
            Term::Var(x) => Tm::Var(x@),
            Term::Abs(p, b) => Tm::Abs(p@, Box::new((**b).view())),
            Term::App(f, a) => Tm::App(Box::new((**f).view()), Box::new((**a).view())),
        }
    }
}

/// Capture-unsafe substitution of `r` for the free occurrences of `x` in `t`:
/// a binder of `x` stops it, and no binder is renamed.
pub open spec fn subst_tm(x: Seq<char>, r: Tm, t: Tm) -> Tm
    decreases t,
{
    match t {
        Tm::Var(y) => if y == x { r } else { t },
        Tm::Abs(p, b) => if p == x { t } else { Tm::Abs(p, Box::new(subst_tm(x, r, *b))) },
        Tm::App(f, a) => Tm::App(Box::new(subst_tm(x, r, *f)), Box::new(subst_tm(x, r, *a))),
    }
}


/// `s`, between parentheses when `b` holds.
pub open spec fn parens_if(b: bool, s: Seq<char>) -> Seq<char> {
    if b {
        seq!['('] + s + seq![')']
    } else {
        s
    }
}

/// The surface text of a term, with parentheses only where the parse needs them:
/// around an abstraction in function position, and around an application or an
/// abstraction in argument position.
pub open spec fn pretty(t: Tm) -> Seq<char>
    decreases t,
{
    match t {
        Tm::Var(x) => x,
        Tm::Abs(p, b) => seq!['\\'] + p + seq!['.', ' '] + pretty(*b),
        Tm::App(f, a) => parens_if((*f) is Abs, pretty(*f)) + seq![' '] + parens_if(
            !((*a) is Var),
            pretty(*a),
        ),
    }
}

/// One line of the tree diagram and the lines of the subtrees below it.
pub open spec fn tree_lines(t: Tm, indent: Seq<char>, is_last: bool) -> Seq<char>
    decreases t,
{
    indent + (if is_last {
        "\u{2514}\u{2500}\u{2500} "@
    } else {
        "\u{251c}\u{2500}\u{2500} "@
    }) + match t {
        Tm::Var(v) => "Var ("@ + v + ")\n"@,
        Tm::Abs(p, b) => "Abs ("@ + p + ")\n"@ + tree_lines(*b, indent + "  "@, true),
        Tm::App(f, a) => "App\n"@ + tree_lines(*f, indent + "\u{2502} "@, false) + tree_lines(
            *a,
            indent + "  "@,
            true,
        ),
    }
}

/// Substitution stops at a binder of the substituted name: the abstraction comes
/// back unchanged, whatever the replacement and the body.
pub proof fn lemma_subst_shadowed(x: Seq<char>, r: Tm, body: Tm)
    ensures
        subst_tm(x, r, Tm::Abs(x, Box::new(body))) == Tm::Abs(x, Box::new(body)),
{
}

/// On a variable, substitution gives the replacement when the names agree and the
/// variable otherwise.
pub proof fn lemma_subst_var(x: Seq<char>, r: Tm, y: Seq<char>)
    ensures
        subst_tm(x, r, Tm::Var(x)) == r,
        y != x ==> subst_tm(x, r, Tm::Var(y)) == Tm::Var(y),
{
}

impl Term {
    /// A copy of this term.
    pub fn duplicate(&self) -> (r: Term)
        ensures
            r@ == self@,
        decreases self,
    {
        match self {
            Term::Var(x) => Term::Var(x.clone()),
            Term::Abs(p, b) => Term::Abs(p.clone(), Box::new(b.duplicate())),
            Term::App(f, a) => Term::App(Box::new(f.duplicate()), Box::new(a.duplicate())),
        }
    }

    /// Renders the term in surface syntax.
    pub fn pretty_print(&self) -> (r: String)
        ensures
            r@ == pretty(self@),
    {
        let mut out = String::new();
        self.write_pretty(&mut out);
        out
    }

    fn write_parenthesized(&self, parens: bool, out: &mut String)
        ensures
            final(out)@ == old(out)@ + parens_if(parens, pretty(self@)),
        decreases self, 1int,
    {
        if parens {
            push_char(out, '(');
            self.write_pretty(out);
            push_char(out, ')');
        } else {
            self.write_pretty(out);
        }
    }

    fn write_pretty(&self, out: &mut String)
        ensures
            final(out)@ == old(out)@ + pretty(self@),
        decreases self, 0int,
    {
        match self {
            Term::Var(x) => {
                out.append(x.as_str());
            },
            Term::Abs(param, body) => {
                push_char(out, '\\');
                out.append(param.as_str());
                push_char(out, '.');
                push_char(out, ' ');
                body.write_pretty(out);
            },
            Term::App(func, arg) => {
                let func_parens = match **func {
                    Term::Abs(_, _) => true,
                    _ => false,
                };
                let arg_parens = match **arg {
                    Term::Var(_) => false,
                    _ => true,
                };
                func.write_parenthesized(func_parens, out);
                push_char(out, ' ');
                arg.write_parenthesized(arg_parens, out);
            },
        }
    }

    /// Renders the term as an indented tree diagram, one node per line.
    pub fn ascii_tree(&self) -> (r: String)
        ensures
            r@ == tree_lines(self@, Seq::empty(), true),
    {
        let indent = String::new();
        let mut out = String::new();
        self.write_tree(&indent, true, &mut out);
        out
    }

    fn write_tree(&self, indent: &String, is_last: bool, out: &mut String)
        ensures
            final(out)@ == old(out)@ + tree_lines(self@, indent@, is_last),
        decreases self,
    {
        out.append(indent.as_str());
        if is_last {
            out.append("\u{2514}\u{2500}\u{2500} ");
        } else {
            out.append("\u{251c}\u{2500}\u{2500} ");
        }
        match self {
            Term::Var(var) => {
                out.append("Var (");
                out.append(var.as_str());
                out.append(")\n");
            },
            Term::Abs(param, body) => {
                out.append("Abs (");
                out.append(param.as_str());
                out.append(")\n");
                let deeper = indent.clone().concat("  ");
                body.write_tree(&deeper, true, out);
            },
            Term::App(func, arg) => {
                out.append("App\n");
                let bar = indent.clone().concat("\u{2502} ");
                func.write_tree(&bar, false, out);
                let deeper = indent.clone().concat("  ");
                arg.write_tree(&deeper, true, out);
            },
        }
    }
}

impl Clone for Term {
    fn clone(&self) -> Term {
        self.duplicate()
    }
}

fn subst_named(var: &String, replacement: &Term, term: &Term) -> (r: Term)
    ensures
        r@ == subst_tm(var@, replacement@, term@),
    decreases term,
{
    match term {
        Term::Var(x) => {
            if *x == *var {
                replacement.duplicate()
            } else {
                Term::Var(x.clone())
            }
        },
        Term::Abs(param, body) => {
            if *param == *var {
                Term::Abs(param.clone(), Box::new(body.duplicate()))
            } else {
                Term::Abs(param.clone(), Box::new(subst_named(var, replacement, body)))
            }
        },
        Term::App(t1, t2) => Term::App(
            Box::new(subst_named(var, replacement, t1)),
            Box::new(subst_named(var, replacement, t2)),
        ),
    }
}

/// Replaces the free occurrences of `var` in `term` by `replacement`, without renaming.
pub fn subst(var: &str, replacement: &Term, term: &Term) -> (r: Term)
    ensures
        r@ == subst_tm(var@, replacement@, term@),
{
    let name = String::from_str(var);
    subst_named(&name, replacement, term)
}

} // verus!
