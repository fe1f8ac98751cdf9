use vstd::prelude::*;
use crate::ast::{Term, Tm};

verus! {

/// The model of a value: an unresolved variable, or a closure made of its
/// parameter, its body and the bindings it captured.
pub enum Val {
    Var(Seq<char>),
    Closure(Seq<char>, Tm, Map<Seq<char>, Val>),
}

/// A value of evaluation. A closure holds its parameter, its body and a copy of
/// the environment it was created in; applying it evaluates the body in that
/// environment extended with the argument.
#[derive(Debug)]
pub enum Value {
    Var(String),
    Closure(String, Box<Term>, Env),
}

/// Bindings from names to values; a later binding of a name hides an earlier one.
#[derive(Debug)]
pub struct Env {
    head: Option<Box<Binding>>,
}

#[derive(Debug)]
struct Binding {
    name: String,
    value: Value,
    rest: Env,
}

/// The model of a value.
pub open spec fn value_model(v: Value) -> Val
    decreases v,
{
    match v {
        Value::Var(x) => Val::Var(x@),
        Value::Closure(p, b, env) => Val::Closure(p@, (*b)@, env_model(env)),
    }
}

/// The bindings of an environment that are not hidden by later ones.
pub closed spec fn env_model(e: Env) -> Map<Seq<char>, Val>
    decreases e,
{
    match e.head {
        None => Map::empty(),
        Some(b) => env_model(b.rest).insert(b.name@, value_model(b.value)),
    }
}

impl View for Value {
    type V = Val;

    open spec fn view(&self) -> Val {
        value_model(*self)
    }
}

impl View for Env {
    type V = Map<Seq<char>, Val>;

    open spec fn view(&self) -> Map<Seq<char>, Val> {
        env_model(*self)
    }
}

/// The value of `t` in `env`, when `fuel` bounds the depth of the evaluation;
/// `None` when the fuel runs out or a non-function is applied.
pub open spec fn eval_fuel(t: Tm, env: Map<Seq<char>, Val>, fuel: nat) -> Option<Val>
    decreases fuel,
{
    if fuel == 0 {
        None
    } else {
        match t {
            Tm::Var(x) => Some(
                if env.contains_key(x) {
                    env[x]
                } else {
                    Val::Var(x)
                },
            ),
            Tm::Abs(p, b) => Some(Val::Closure(p, *b, env)),
            Tm::App(f, a) => match eval_fuel(*f, env, (fuel - 1) as nat) {
                Some(Val::Closure(p, b, captured)) => match eval_fuel(*a, env, (fuel - 1) as nat) {
                    Some(v) => eval_fuel(b, captured.insert(p, v), (fuel - 1) as nat),
                    None => None,
                },
                _ => None,
            },
        }
    }
}

/// Evaluation of `t` in `env` ends, and applies no non-function.
pub open spec fn evaluates(t: Tm, env: Map<Seq<char>, Val>) -> bool {
    exists|n: nat| #[trigger] eval_fuel(t, env, n) is Some
}

/// The value of `t` in `env`.
pub open spec fn evaluation(t: Tm, env: Map<Seq<char>, Val>) -> Val {
    eval_fuel(t, env, choose|n: nat| #[trigger] eval_fuel(t, env, n) is Some)->0
}

/// The name of the variable with which closures are probed.
pub open spec fn probe() -> Seq<char> {
    seq!['x']
}

/// The term that `v` reads back to, when `fuel` bounds the work; `None` when it
/// runs out or a probe applies a non-function.
pub open spec fn reify_fuel(v: Val, fuel: nat) -> Option<Tm>
    decreases fuel,
{
    match v {
        Val::Var(x) => Some(Tm::Var(x)),
        Val::Closure(p, b, env) => if fuel == 0 {
            None
        } else {
            match eval_fuel(b, env.insert(p, Val::Var(probe())), fuel) {
                Some(r) => match reify_fuel(r, (fuel - 1) as nat) {
                    Some(t) => Some(Tm::Abs(probe(), Box::new(t))),
                    None => None,
                },
                None => None,
            }
        },
    }
}

/// Reading `v` back ends, and no probe applies a non-function.
pub open spec fn reifies(v: Val) -> bool {
    exists|n: nat| #[trigger] reify_fuel(v, n) is Some
}

/// The term that `v` reads back to.
pub open spec fn reification(v: Val) -> Tm {
    reify_fuel(v, choose|n: nat| #[trigger] reify_fuel(v, n) is Some)->0
}

/// More fuel changes nothing once evaluation has ended.
pub proof fn lemma_eval_fuel_monotone(t: Tm, env: Map<Seq<char>, Val>, n: nat, m: nat)
    requires
        n <= m,
        eval_fuel(t, env, n) is Some,
    ensures
        eval_fuel(t, env, m) == eval_fuel(t, env, n),
    decreases n,
{
    if let Tm::App(f, a) = t {
        let less = (n - 1) as nat;
        let more = (m - 1) as nat;
        lemma_eval_fuel_monotone(*f, env, less, more);
        if let Some(Val::Closure(p, b, captured)) = eval_fuel(*f, env, less) {
            lemma_eval_fuel_monotone(*a, env, less, more);
            let v = eval_fuel(*a, env, less)->0;
            lemma_eval_fuel_monotone(b, captured.insert(p, v), less, more);
        }
    }
}

/// The value of a term does not depend on the fuel: any fuel with which
/// evaluation ends gives it.
pub proof fn lemma_evaluation_any_fuel(t: Tm, env: Map<Seq<char>, Val>, n: nat)
    requires
        eval_fuel(t, env, n) is Some,
    ensures
        evaluates(t, env),
        evaluation(t, env) == eval_fuel(t, env, n)->0,
{
    let k = choose|k: nat| #[trigger] eval_fuel(t, env, k) is Some;
    if k <= n {
        lemma_eval_fuel_monotone(t, env, k, n);
    } else {
        lemma_eval_fuel_monotone(t, env, n, k);
    }
}

/// More fuel changes nothing once reading back has ended.
pub proof fn lemma_reify_fuel_monotone(v: Val, n: nat, m: nat)
    requires
        n <= m,
        reify_fuel(v, n) is Some,
    ensures
        reify_fuel(v, m) == reify_fuel(v, n),
    decreases n,
{
    if let Val::Closure(p, b, env) = v {
        let probed = env.insert(p, Val::Var(probe()));
        lemma_eval_fuel_monotone(b, probed, n, m);
        let r = eval_fuel(b, probed, n)->0;
        lemma_reify_fuel_monotone(r, (n - 1) as nat, (m - 1) as nat);
    }
}

/// The term read back from a value does not depend on the fuel: any fuel with
/// which reading back ends gives it.
pub proof fn lemma_reification_any_fuel(v: Val, n: nat)
    requires
        reify_fuel(v, n) is Some,
    ensures
        reifies(v),
        reification(v) == reify_fuel(v, n)->0,
{
    let k = choose|k: nat| #[trigger] reify_fuel(v, k) is Some;
    if k <= n {
        lemma_reify_fuel_monotone(v, k, n);
    } else {
        lemma_reify_fuel_monotone(v, n, k);
    }
}

impl Value {
    /// A copy of this value.
    pub fn duplicate(&self) -> (r: Value)
        ensures
            r@ == self@,
        decreases self,
    {
        match self {
            Value::Var(x) => Value::Var(x.clone()),
            Value::Closure(p, b, env) => Value::Closure(p.clone(), Box::new(b.duplicate()), env.duplicate()),
        }
    }
}

impl Clone for Value {
    fn clone(&self) -> Value {
        self.duplicate()
    }
}

impl PartialEq for Value {
    /// Variables are equal when their names are; a closure equals nothing.
    fn eq(&self, other: &Value) -> (r: bool) {
        match (self, other) {
            (Value::Var(x), Value::Var(y)) => *x == *y,
            _ => false,
        }
    }
}

impl vstd::std_specs::cmp::PartialEqSpecImpl for Value {
    open spec fn obeys_eq_spec() -> bool {
        true
    }

    open spec fn eq_spec(&self, other: &Value) -> bool {
        self is Var && other is Var && self->Var_0@ == other->Var_0@
    }
}

impl Env {
    /// An environment without bindings.
    pub fn new() -> (r: Env)
        ensures
            r@ == Map::<Seq<char>, Val>::empty(),
    {
        Env { head: None }
    }

    /// Binds `name` to `value`, hiding any earlier binding of `name`.
    pub fn insert(&mut self, name: String, value: Value)
        ensures
            final(self)@ == old(self)@.insert(name@, value@),
    {
        let rest = Env { head: self.head.take() };
        self.head = Some(Box::new(Binding { name, value, rest }));
    }

    /// The value bound to `name`, if any.
    pub fn get(&self, name: &String) -> (r: Option<&Value>)
        ensures
            match r {
                Some(v) => self@.contains_key(name@) && v@ == self@[name@],
                None => !self@.contains_key(name@),
            },
        decreases self,
    {
        match &self.head {
            None => None,
            Some(b) => {
                if b.name == *name {
                    Some(&b.value)
                } else {
                    b.rest.get(name)
                }
            },
        }
    }

    /// A copy of this environment.
    pub fn duplicate(&self) -> (r: Env)
        ensures
            r@ == self@,
        decreases self,
    {
        match &self.head {
            None => Env { head: None },
            Some(b) => Env {
                head: Some(
                    Box::new(
                        Binding {
                            name: b.name.clone(),
                            value: b.value.duplicate(),
                            rest: b.rest.duplicate(),
                        },
                    ),
                ),
            },
        }
    }
}

impl Clone for Env {
    fn clone(&self) -> Env {
        self.duplicate()
    }
}

fn eval_in(term: Term, env: &Env, Ghost(fuel): Ghost<nat>) -> (r: Value)
    requires
        eval_fuel(term@, env@, fuel) is Some,
    ensures
        r@ == eval_fuel(term@, env@, fuel)->0,
    decreases fuel,
{
    match term {
        Term::Var(x) => match env.get(&x) {
            Some(v) => v.duplicate(),
            None => Value::Var(x),
        },
        Term::Abs(x, body) => Value::Closure(x, body, env.duplicate()),
        Term::App(t1, t2) => {
            let ghost less = (fuel - 1) as nat;
            let func = eval_in(*t1, env, Ghost(less));
            let arg = eval_in(*t2, env, Ghost(less));
            match func {
                Value::Closure(param, body, captured) => {
                    let mut extended = captured;
                    extended.insert(param, arg);
                    eval_in(*body, &extended, Ghost(less))
                },
                Value::Var(x) => {
                    // the precondition leaves out the application of a non-function
                    proof {
                        assert(false);
                    }
                    Value::Var(x)
                },
            }
        },
    }
}

/// Evaluates `term` in `env`, call by value: a variable is looked up (and stands
/// for itself when unbound), an abstraction becomes a closure over a copy of `env`,
/// and an application evaluates function and argument and applies the closure.
pub fn eval(term: Term, env: &Env) -> (r: Value)
    requires
        evaluates(term@, env@),
    ensures
        r@ == evaluation(term@, env@),
{
    let ghost n = choose|n: nat| #[trigger] eval_fuel(term@, env@, n) is Some;
    eval_in(term, env, Ghost(n))
}

fn reify_in(val: Value, Ghost(fuel): Ghost<nat>) -> (r: Term)
    requires
        reify_fuel(val@, fuel) is Some,
    ensures
        r@ == reify_fuel(val@, fuel)->0,
    decreases fuel,
{
    match val {
        Value::Var(x) => Term::Var(x),
        Value::Closure(param, body, captured) => {
            let mut probed = captured;
            probed.insert(param, Value::Var(String::from_str("x")));
            proof {
                reveal_strlit("x");
                assert("x"@ =~= probe());
            }
            let result = eval_in(*body, &probed, Ghost(fuel));
            let inner = reify_in(result, Ghost((fuel - 1) as nat));
            Term::Abs(String::from_str("x"), Box::new(inner))
        },
    }
}

/// Reads `val` back into a term: a variable as itself, a closure as an abstraction
/// over the fixed name `x`, whose body is what the closure gives when applied to
/// the variable `x`, read back in turn.
pub fn reify(val: Value) -> (r: Term)
    requires
        reifies(val@),
    ensures
        r@ == reification(val@),
{
    let ghost n = choose|n: nat| #[trigger] reify_fuel(val@, n) is Some;
    reify_in(val, Ghost(n))
}

} // verus!
