use sexpr_reader::interp::{default_env, sum_number_list, type_of, Atom as IAtom, Builtin, Env,
    Lit as ILit, Number, RuntimeError, Sexpr as ISexpr};
use sexpr_reader::list::List;
use sexpr_reader::read::{read, Diagnostic, DiagnosticKind};
use sexpr_reader::serialize::to_tokens;
use sexpr_reader::sexpr::{Atom, Sexpr};
use sexpr_reader::span::{Span, SrcNode};
use sexpr_reader::token::{Rational, Token};

fn sp(a: usize, b: usize) -> Span {
    Span::new(a, b)
}

#[test]
fn span_extend_covers_both() {
    let a = sp(3, 7);
    let b = sp(5, 11);
    let m = a.extend(b);
    assert_eq!(m, sp(3, 11));
    // Order of arguments does not change the result.
    assert_eq!(b.extend(a), m);
    // Disjoint ranges: the merge covers the gap too.
    assert_eq!(sp(10, 12).extend(sp(0, 1)), sp(0, 12));
}

#[test]
fn src_node_pairs_value_and_span() {
    let n = SrcNode::new(41i64, sp(2, 4));
    assert_eq!(n.value, 41);
    assert_eq!(n.span(), sp(2, 4));
}

#[test]
fn diagnostic_messages() {
    assert_eq!(Diagnostic::new(DiagnosticKind::UnexpectedToken, sp(0, 1)).message(),
        "unexpected token");
    assert_eq!(Diagnostic::new(DiagnosticKind::UnterminatedForm, sp(0, 1)).message(),
        "unterminated form");
    assert_eq!(Diagnostic::new(DiagnosticKind::MalformedDottedForm, sp(0, 1)).message(),
        "malformed dotted form");
    let lex = Diagnostic::lexical(sp(4, 5));
    assert_eq!(lex.kind, DiagnosticKind::LexicalError);
    assert_eq!(lex.message(), "lexical error");
}

#[test]
fn list_from_vec_reverses() {
    let l = List::from_vec(vec![1i64, 2, 3]);
    assert_eq!(l.len(), 3);
    assert_eq!(l.to_vec(), vec![3, 2, 1]);
}

#[test]
fn list_empty() {
    let l: List<i64> = List::from_vec(vec![]);
    assert_eq!(l.len(), 0);
    assert!(l.to_vec().is_empty());
}

#[test]
fn default_env_binds_builtins() {
    let env = default_env();
    assert_eq!(env.bindings.len(), 2);
    assert_eq!(env.bindings[0].0, "+");
    assert!(matches!(env.bindings[0].1, ISexpr::NativeFn(Builtin::Add)));
    assert_eq!(env.bindings[1].0, "type-of");
    assert!(matches!(env.bindings[1].1, ISexpr::NativeFn(Builtin::TypeOf)));
}

#[test]
fn env_find_prefers_latest_binding() {
    let mut env = Env::new();
    env.define(String::from("x"), ISexpr::Atom(IAtom::Lit(ILit::Number(Number::Fixnum(1)))));
    env.define(String::from("x"), ISexpr::Atom(IAtom::Lit(ILit::Number(Number::Fixnum(2)))));
    match env.find(&String::from("x")) {
        Some(ISexpr::Atom(IAtom::Lit(ILit::Number(Number::Fixnum(n))))) => assert_eq!(*n, 2),
        _ => panic!("expected the latest binding"),
    }
    assert!(env.find(&String::from("y")).is_none());
}

fn fix(n: i64) -> ISexpr {
    ISexpr::Atom(IAtom::Lit(ILit::Number(Number::Fixnum(n))))
}

fn rat(num: i64, den: i64) -> ISexpr {
    ISexpr::Atom(IAtom::Lit(ILit::Number(Number::Rational(Rational::new(num, den)))))
}

#[test]
fn sum_of_fixnums() {
    let r = sum_number_list(&vec![fix(1), fix(2), fix(3)]);
    match r {
        Ok(ISexpr::Atom(IAtom::Lit(ILit::Number(Number::Fixnum(n))))) => assert_eq!(n, 6),
        _ => panic!("expected a fixnum sum"),
    }
}

#[test]
fn sum_of_rationals_is_exact() {
    // 1/2 + 1/3 = (1*3 + 1*2) / 6 = 5/6, unreduced.
    let r = sum_number_list(&vec![rat(1, 2), rat(1, 3)]);
    match r {
        Ok(ISexpr::Atom(IAtom::Lit(ILit::Number(Number::Rational(q))))) => {
            // First step: 0/1 + 1/2 = 1/2; second: 1/2 + 1/3 = 5/6.
            assert_eq!(q.num * 6, q.den * 5);
        }
        _ => panic!("expected a rational sum"),
    }
}

#[test]
fn sum_rejects_non_number() {
    let r = sum_number_list(&vec![fix(1), ISexpr::Atom(IAtom::Sym(String::from("x")))]);
    match r {
        Err(e) => assert_eq!(e, RuntimeError::IvalidFunctionArgumentsError),
        Ok(_) => panic!("expected an error"),
    }
}

#[test]
fn sum_of_nothing_is_zero() {
    let r = sum_number_list(&vec![]);
    match r {
        Ok(ISexpr::Atom(IAtom::Lit(ILit::Number(Number::Fixnum(n))))) => assert_eq!(n, 0),
        _ => panic!("expected zero"),
    }
}

fn expect_type(r: Result<ISexpr, RuntimeError>, expected: &str) {
    match r {
        Ok(ISexpr::Atom(IAtom::Sym(s))) => assert_eq!(s, expected),
        _ => panic!("expected a type symbol"),
    }
}

#[test]
fn type_of_literals() {
    let env = Env::new();
    expect_type(type_of(&env, &vec![fix(1)]), "Fixnum");
    expect_type(type_of(&env, &vec![rat(1, 2)]), "Rational");
    expect_type(type_of(&env, &vec![ISexpr::Atom(IAtom::Lit(ILit::Bool(true)))]), "Boolean");
    expect_type(
        type_of(&env, &vec![ISexpr::Atom(IAtom::Lit(ILit::Str(String::from("s"))))]),
        "String",
    );
    expect_type(type_of(&env, &vec![ISexpr::List(vec![])]), "List");
    expect_type(type_of(&env, &vec![ISexpr::NativeFn(Builtin::Add)]), "NativeFn");
}

#[test]
fn type_of_resolves_symbols() {
    let mut env = Env::new();
    env.define(String::from("x"), fix(3));
    expect_type(type_of(&env, &vec![ISexpr::Atom(IAtom::Sym(String::from("x")))]), "Fixnum");
    // An unbound symbol is a symbol.
    expect_type(type_of(&env, &vec![ISexpr::Atom(IAtom::Sym(String::from("y")))]), "Symbol");
    // A chain of symbols resolves through the environment.
    env.define(String::from("y"), ISexpr::Atom(IAtom::Sym(String::from("x"))));
    expect_type(type_of(&env, &vec![ISexpr::Atom(IAtom::Sym(String::from("y")))]), "Fixnum");
}

fn num(n: i64) -> Token {
    Token::Number(Rational::from_int(n))
}

fn structurally_equal(a: &Sexpr, b: &Sexpr) -> bool {
    match (a, b) {
        (Sexpr::Atom(Atom::Symbol(x)), Sexpr::Atom(Atom::Symbol(y))) => x == y,
        (Sexpr::Atom(Atom::Number(x)), Sexpr::Atom(Atom::Number(y))) => x == y,
        (Sexpr::Atom(Atom::String(x)), Sexpr::Atom(Atom::String(y))) => x == y,
        (Sexpr::List(xs), Sexpr::List(ys)) => {
            xs.len() == ys.len()
                && xs.iter().zip(ys.iter()).all(|(x, y)| structurally_equal(&x.value, &y.value))
        }
        (Sexpr::Pair(p), Sexpr::Pair(q)) => {
            structurally_equal(&p.head().value, &q.head().value)
                && structurally_equal(&p.tail().value, &q.tail().value)
        }
        _ => false,
    }
}

#[test]
fn reread_serialization_reproduces_tree() {
    // "(1 2 . 3) '(x)" read, serialized, and read again: the trees agree
    // structurally, spans aside.
    let tokens = vec![
        (Token::LParen, sp(0, 1)),
        (num(1), sp(1, 2)),
        (num(2), sp(3, 4)),
        (Token::Period, sp(5, 6)),
        (num(3), sp(7, 8)),
        (Token::RParen, sp(8, 9)),
        (Token::Quote, sp(10, 11)),
        (Token::LParen, sp(11, 12)),
        (Token::Symbol(String::from("x")), sp(12, 13)),
        (Token::RParen, sp(13, 14)),
    ];
    let (root, errs) = read(&tokens, sp(14, 14));
    assert!(errs.is_empty());
    let again = to_tokens(&root);
    let (root2, errs2) = read(&again, sp(0, 0));
    assert!(errs2.is_empty());
    assert_eq!(root.forms.len(), root2.forms.len());
    for (a, b) in root.forms.iter().zip(root2.forms.iter()) {
        assert!(structurally_equal(&a.value, &b.value));
    }
}
