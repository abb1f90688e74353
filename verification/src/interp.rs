//! The evaluator's value model and default environment.
//!
//! Values are atoms, lists, or native functions; the native functions form a
//! closed set (`Builtin`), and the default environment binds `+` and
//! `type-of`. Numbers are exact: an integer or a rational. Addition of two
//! rationals is exact and unreduced: `a/b + c/d` is `(ad + cb) / bd`.

use vstd::prelude::*;
use vstd::string::StringExecFns;
use crate::token::Rational;

verus! {

/// An exact number: a machine integer or a rational.
#[derive(Clone, Copy, PartialEq, Eq, Structural, Debug)]
pub enum Number {
    Fixnum(i64),
    Rational(Rational),
}

impl Number {
    /// The numerator of the number's exact value.
    pub open spec fn top(self) -> int {
        match self {
            Number::Fixnum(i) => i as int,
            Number::Rational(r) => r.num as int,
        }
    }

    /// The denominator of the number's exact value.
    pub open spec fn bottom(self) -> int {
        match self {
            Number::Fixnum(_) => 1,
            Number::Rational(r) => r.den as int,
        }
    }

    /// Whether the representation is valid: a positive denominator.
    pub open spec fn wf(self) -> bool {
        self.bottom() > 0
    }
}

/// A literal value.
#[derive(Clone, Debug)]
pub enum Lit {
    Number(Number),
    Bool(bool),
    Str(String),
}

/// An atom: a symbol or a literal.
#[derive(Clone, Debug)]
pub enum Atom {
    Sym(String),
    Lit(Lit),
}

/// The built-in functions of the default environment, as a closed set.
#[derive(Clone, Copy, PartialEq, Eq, Structural, Debug)]
pub enum Builtin {
    Add,
    TypeOf,
}

/// A value of the evaluator.
pub enum Sexpr {
    Atom(Atom),
    List(Vec<Sexpr>),
    NativeFn(Builtin),
}

/// An error raised by a native function.
#[derive(Clone, Copy, PartialEq, Eq, Structural, Debug)]
pub enum RuntimeError {
    IvalidFunctionArgumentsError,
}

/// An environment: name-to-value bindings, later definitions shadowing
/// earlier ones.
pub struct Env {
    pub bindings: Vec<(String, Sexpr)>,
}

/// The value bound to `name`, searching the latest bindings first.
pub open spec fn spec_find(bs: Seq<(String, Sexpr)>, name: Seq<char>) -> Option<Sexpr>
    decreases bs.len(),
{
    if bs.len() == 0 {
        None
    } else if bs.last().0@ == name {
        Some(bs.last().1)
    } else {
        spec_find(bs.drop_last(), name)
    }
}

impl Env {
    pub fn new() -> (e: Env)
        ensures
            e.bindings@.len() == 0,
    {
        Env { bindings: Vec::new() }
    }

    /// Bind `name` to `value`, shadowing any earlier binding of `name`.
    pub fn define(&mut self, name: String, value: Sexpr)
        ensures
            final(self).bindings@ == old(self).bindings@.push((name, value)),
    {
        self.bindings.push((name, value));
    }

    /// Look `name` up, latest binding first.
    pub fn find(&self, name: &String) -> (r: Option<&Sexpr>)
        ensures
            match r {
                Some(v) => spec_find(self.bindings@, name@) == Some(*v),
                None => spec_find(self.bindings@, name@) is None,
            },
    {
        let ghost bs = self.bindings@;
        let mut i: usize = self.bindings.len();
        proof {
            assert(bs.take(i as int) =~= bs);
        }
        while i > 0
            invariant
                i <= bs.len(),
                bs == self.bindings@,
                spec_find(bs, name@) == spec_find(bs.take(i as int), name@),
            decreases i,
        {
            i = i - 1;
            let entry = &self.bindings[i];
            proof {
                assert(bs.take(i as int + 1).last() == bs[i as int]);
                assert(bs.take(i as int + 1).drop_last() =~= bs.take(i as int));
            }
            if entry.0 == *name {
                return Some(&entry.1);
            }
        }
        proof {
            assert(bs.take(0) =~= Seq::<(String, Sexpr)>::empty());
        }
        None
    }
}

/// The default environment: `+` bound to the addition built-in and
/// `type-of` bound to the type inspector, and nothing else.
pub fn default_env() -> (e: Box<Env>)
    ensures
        e.bindings@.len() == 2,
        e.bindings@[0].0@ == "+"@,
        e.bindings@[0].1 == Sexpr::NativeFn(Builtin::Add),
        e.bindings@[1].0@ == "type-of"@,
        e.bindings@[1].1 == Sexpr::NativeFn(Builtin::TypeOf),
{
    let mut env = Env::new();
    env.define(String::from_str("+"), Sexpr::NativeFn(Builtin::Add));
    env.define(String::from_str("type-of"), Sexpr::NativeFn(Builtin::TypeOf));
    Box::new(env)
}

/// Whether a value is a number atom.
pub open spec fn is_num(s: Sexpr) -> bool {
    s matches Sexpr::Atom(Atom::Lit(Lit::Number(_)))
}

/// The number a number atom holds.
pub open spec fn num_of(s: Sexpr) -> Number
    recommends
        is_num(s),
{
    match s {
        Sexpr::Atom(Atom::Lit(Lit::Number(n))) => n,
        _ => Number::Fixnum(0),
    }
}

/// Exact addition of two numbers, or nothing where a machine word would
/// overflow. Two integers stay an integer; otherwise the exact unreduced
/// rational sum `(ad + cb) / bd`.
pub open spec fn spec_add(a: Number, b: Number) -> Option<Number> {
    match (a, b) {
        (Number::Fixnum(x), Number::Fixnum(y)) => {
            if i64::MIN <= x + y <= i64::MAX {
                Some(Number::Fixnum((x + y) as i64))
            } else {
                None
            }
        },
        _ => {
            let n1 = a.top() * b.bottom();
            let n2 = b.top() * a.bottom();
            let d = a.bottom() * b.bottom();
            if i64::MIN <= n1 <= i64::MAX && i64::MIN <= n2 <= i64::MAX && i64::MIN <= n1 + n2
                <= i64::MAX && i64::MIN <= d <= i64::MAX {
                Some(Number::Rational(Rational { num: (n1 + n2) as i64, den: d as i64 }))
            } else {
                None
            }
        },
    }
}

/// The outcome of summing a list of values.
pub ghost enum SumOut {
    Total(Number),
    NotNumber,
    Overflow,
}

/// Fold exact addition over `args` from `acc`: the first non-number value
/// rejects the whole list, and an overflowing step gives `Overflow`.
pub open spec fn spec_sum(args: Seq<Sexpr>, acc: Number) -> SumOut
    decreases args.len(),
{
    if args.len() == 0 {
        SumOut::Total(acc)
    } else if !is_num(args[0]) {
        SumOut::NotNumber
    } else {
        match spec_add(acc, num_of(args[0])) {
            None => SumOut::Overflow,
            Some(acc2) => spec_sum(args.drop_first(), acc2),
        }
    }
}

/// Sum a list of number atoms, starting from the integer zero.
///
/// Every argument must be a number atom, else the list is rejected; the
/// arguments must be representable (positive denominators) and the exact sum
/// must stay within machine words at every step.
pub fn sum_number_list(args: &Vec<Sexpr>) -> (r: Result<Sexpr, RuntimeError>)
    requires
        forall|k: int|
            0 <= k < args@.len() ==> (is_num(#[trigger] args@[k]) ==> num_of(args@[k]).wf()),
        !(spec_sum(args@, Number::Fixnum(0)) is Overflow),
    ensures
        match spec_sum(args@, Number::Fixnum(0)) {
            SumOut::Total(n) => r == Ok::<Sexpr, RuntimeError>(
                Sexpr::Atom(Atom::Lit(Lit::Number(n))),
            ),
            SumOut::NotNumber => r == Err::<Sexpr, RuntimeError>(
                RuntimeError::IvalidFunctionArgumentsError,
            ),
            SumOut::Overflow => false,
        },
{
    let mut acc = Number::Fixnum(0);
    let mut i: usize = 0;
    proof {
        assert(args@.skip(0) =~= args@);
    }
    while i < args.len()
        invariant
            0 <= i <= args@.len(),
            spec_sum(args@, Number::Fixnum(0)) == spec_sum(args@.skip(i as int), acc),
            forall|k: int|
                0 <= k < args@.len() ==> (is_num(#[trigger] args@[k]) ==> num_of(args@[k]).wf()),
            !(spec_sum(args@, Number::Fixnum(0)) is Overflow),
            acc.wf(),
        decreases args@.len() - i,
    {
        proof {
            assert(args@.skip(i as int)[0] == args@[i as int]);
            assert(args@.skip(i as int).drop_first() =~= args@.skip(i as int + 1));
        }
        match &args[i] {
            Sexpr::Atom(Atom::Lit(Lit::Number(n))) => {
                let n = *n;
                let next = match (acc, n) {
                    (Number::Fixnum(x), Number::Fixnum(y)) => Number::Fixnum(x + y),
                    _ => {
                        let (an, ad) = match acc {
                            Number::Fixnum(x) => (x, 1i64),
                            Number::Rational(r) => (r.num, r.den),
                        };
                        let (bn, bd) = match n {
                            Number::Fixnum(y) => (y, 1i64),
                            Number::Rational(r) => (r.num, r.den),
                        };
                        proof {
                            assert(ad * bd > 0) by (nonlinear_arith)
                                requires
                                    ad > 0,
                                    bd > 0,
                            ;
                        }
                        Number::Rational(Rational { num: an * bd + bn * ad, den: ad * bd })
                    },
                };
                acc = next;
            },
            _ => {
                return Err(RuntimeError::IvalidFunctionArgumentsError);
            },
        }
        i = i + 1;
    }
    proof {
        assert(args@.skip(args@.len() as int) =~= Seq::<Sexpr>::empty());
    }
    Ok(Sexpr::Atom(Atom::Lit(Lit::Number(acc))))
}

/// The name of a value's type, resolving bound symbols through the
/// environment, with at most `fuel` lookups; a chain longer than the fuel
/// counts as a symbol.
pub open spec fn spec_type_name(bs: Seq<(String, Sexpr)>, v: Sexpr, fuel: nat) -> Seq<char>
    decreases fuel,
{
    match v {
        Sexpr::Atom(Atom::Sym(s)) => {
            if fuel == 0 {
                "Symbol"@
            } else {
                match spec_find(bs, s@) {
                    Some(v2) => spec_type_name(bs, v2, (fuel - 1) as nat),
                    None => "Symbol"@,
                }
            }
        },
        Sexpr::Atom(Atom::Lit(Lit::Number(Number::Fixnum(_)))) => "Fixnum"@,
        Sexpr::Atom(Atom::Lit(Lit::Number(Number::Rational(_)))) => "Rational"@,
        Sexpr::Atom(Atom::Lit(Lit::Bool(_))) => "Boolean"@,
        Sexpr::Atom(Atom::Lit(Lit::Str(_))) => "String"@,
        Sexpr::List(_) => "List"@,
        Sexpr::NativeFn(_) => "NativeFn"@,
    }
}

/// The type of the first argument, as a symbol atom: a bound symbol is
/// resolved through the environment first, an unbound one is a `Symbol`.
pub fn type_of(env: &Env, args: &Vec<Sexpr>) -> (r: Result<Sexpr, RuntimeError>)
    requires
        args@.len() >= 1,
        env.bindings@.len() < usize::MAX,
    ensures
        r is Ok,
        r->Ok_0 matches Sexpr::Atom(Atom::Sym(s)) && s@ == spec_type_name(
            env.bindings@,
            args@[0],
            env.bindings@.len() + 1,
        ),
{
    let ghost bs = env.bindings@;
    let mut cur: &Sexpr = &args[0];
    let mut fuel: usize = env.bindings.len() + 1;
    loop
        invariant
            bs == env.bindings@,
            spec_type_name(bs, args@[0], bs.len() + 1) == spec_type_name(bs, *cur, fuel as nat),
        decreases fuel,
    {
        match cur {
            Sexpr::Atom(Atom::Sym(s)) => {
                if fuel == 0 {
                    return Ok(mk_sym("Symbol"));
                }
                match env.find(s) {
                    Some(v) => {
                        cur = v;
                        fuel = fuel - 1;
                    },
                    None => {
                        return Ok(mk_sym("Symbol"));
                    },
                }
            },
            Sexpr::Atom(Atom::Lit(Lit::Number(Number::Fixnum(_)))) => {
                return Ok(mk_sym("Fixnum"));
            },
            Sexpr::Atom(Atom::Lit(Lit::Number(Number::Rational(_)))) => {
                return Ok(mk_sym("Rational"));
            },
            Sexpr::Atom(Atom::Lit(Lit::Bool(_))) => {
                return Ok(mk_sym("Boolean"));
            },
            Sexpr::Atom(Atom::Lit(Lit::Str(_))) => {
                return Ok(mk_sym("String"));
            },
            Sexpr::List(_) => {
                return Ok(mk_sym("List"));
            },
            Sexpr::NativeFn(_) => {
                return Ok(mk_sym("NativeFn"));
            },
        }
    }
}

/// A symbol atom with the given name.
fn mk_sym(name: &str) -> (r: Sexpr)
    ensures
        r matches Sexpr::Atom(Atom::Sym(s)) && s@ == name@,
{
    Sexpr::Atom(Atom::Sym(String::from_str(name)))
}

} // verus!
