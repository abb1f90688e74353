use sexpr_reader::read::{read, DiagnosticKind};
use sexpr_reader::sexpr::{Atom, Sexpr, Root};
use sexpr_reader::span::{Span, SrcNode};
use sexpr_reader::token::{Rational, Token};

fn sp(a: usize, b: usize) -> Span {
    Span::new(a, b)
}

fn num(n: i64) -> Token {
    Token::Number(Rational::from_int(n))
}

fn sym(s: &str) -> Token {
    Token::Symbol(String::from(s))
}

fn expect_num(node: &SrcNode<Sexpr>, n: i64) {
    match &node.value {
        Sexpr::Atom(Atom::Number(r)) => {
            assert_eq!(r.num, n);
            assert_eq!(r.den, 1);
        }
        _ => panic!("expected a number atom"),
    }
}

fn expect_sym(node: &SrcNode<Sexpr>, name: &str) {
    match &node.value {
        Sexpr::Atom(Atom::Symbol(s)) => assert_eq!(s, name),
        _ => panic!("expected a symbol atom"),
    }
}

fn expect_list(node: &SrcNode<Sexpr>) -> &Vec<SrcNode<Sexpr>> {
    match &node.value {
        Sexpr::List(items) => items,
        _ => panic!("expected a list"),
    }
}

fn read_ok(tokens: Vec<(Token, Span)>, eoi: Span) -> Root {
    let (root, errs) = read(&tokens, eoi);
    if !errs.is_empty() {
        panic!("{:?}", errs);
    }
    root
}

#[test]
fn read_int() {
    // "42"
    let root = read_ok(vec![(num(42), sp(0, 2))], sp(2, 2));
    assert_eq!(root.forms.len(), 1);
    expect_num(&root.forms[0], 42);
    assert_eq!(root.forms[0].span, sp(0, 2));
    assert_eq!(root.span, sp(0, 2));
}

#[test]
fn read_list() {
    // "(1 2 3)"
    let root = read_ok(
        vec![
            (Token::LParen, sp(0, 1)),
            (num(1), sp(1, 2)),
            (num(2), sp(3, 4)),
            (num(3), sp(5, 6)),
            (Token::RParen, sp(6, 7)),
        ],
        sp(7, 7),
    );
    assert_eq!(root.forms.len(), 1);
    let items = expect_list(&root.forms[0]);
    assert_eq!(items.len(), 3);
    expect_num(&items[0], 1);
    expect_num(&items[1], 2);
    expect_num(&items[2], 3);
    assert_eq!(root.forms[0].span, sp(0, 7));
    assert_eq!(root.span, sp(0, 7));
}

#[test]
fn read_quote() {
    // "'(1 2 3)"
    let root = read_ok(
        vec![
            (Token::Quote, sp(0, 1)),
            (Token::LParen, sp(1, 2)),
            (num(1), sp(2, 3)),
            (num(2), sp(4, 5)),
            (num(3), sp(6, 7)),
            (Token::RParen, sp(7, 8)),
        ],
        sp(8, 8),
    );
    assert_eq!(root.forms.len(), 1);
    let items = expect_list(&root.forms[0]);
    assert_eq!(items.len(), 2);
    expect_sym(&items[0], "quote");
    assert_eq!(items[0].span, sp(0, 1));
    let inner = expect_list(&items[1]);
    assert_eq!(inner.len(), 3);
    expect_num(&inner[0], 1);
    expect_num(&inner[1], 2);
    expect_num(&inner[2], 3);
    assert_eq!(items[1].span, sp(1, 8));
    assert_eq!(root.forms[0].span, sp(0, 8));
}

#[test]
fn read_quasiquote() {
    // "`(1 2 3)"
    let root = read_ok(
        vec![
            (Token::Backquote, sp(0, 1)),
            (Token::LParen, sp(1, 2)),
            (num(1), sp(2, 3)),
            (num(2), sp(4, 5)),
            (num(3), sp(6, 7)),
            (Token::RParen, sp(7, 8)),
        ],
        sp(8, 8),
    );
    assert_eq!(root.forms.len(), 1);
    let items = expect_list(&root.forms[0]);
    assert_eq!(items.len(), 2);
    expect_sym(&items[0], "quasiquote");
    let inner = expect_list(&items[1]);
    assert_eq!(inner.len(), 3);
}

#[test]
fn read_unquote() {
    // ",(1 2 3)"
    let root = read_ok(
        vec![
            (Token::Comma, sp(0, 1)),
            (Token::LParen, sp(1, 2)),
            (num(1), sp(2, 3)),
            (num(2), sp(4, 5)),
            (num(3), sp(6, 7)),
            (Token::RParen, sp(7, 8)),
        ],
        sp(8, 8),
    );
    assert_eq!(root.forms.len(), 1);
    let items = expect_list(&root.forms[0]);
    assert_eq!(items.len(), 2);
    expect_sym(&items[0], "unquote");
    let inner = expect_list(&items[1]);
    assert_eq!(inner.len(), 3);
}

#[test]
fn read_quasi_unquote() {
    // "`(1 ,(+ 1 1) 3)"
    let root = read_ok(
        vec![
            (Token::Backquote, sp(0, 1)),
            (Token::LParen, sp(1, 2)),
            (num(1), sp(2, 3)),
            (Token::Comma, sp(4, 5)),
            (Token::LParen, sp(5, 6)),
            (sym("+"), sp(6, 7)),
            (num(1), sp(8, 9)),
            (num(1), sp(10, 11)),
            (Token::RParen, sp(11, 12)),
            (num(3), sp(13, 14)),
            (Token::RParen, sp(14, 15)),
        ],
        sp(15, 15),
    );
    assert_eq!(root.forms.len(), 1);
    let quasi = expect_list(&root.forms[0]);
    assert_eq!(quasi.len(), 2);
    expect_sym(&quasi[0], "quasiquote");
    let outer = expect_list(&quasi[1]);
    assert_eq!(outer.len(), 3);
    expect_num(&outer[0], 1);
    expect_num(&outer[2], 3);
    let unq = expect_list(&outer[1]);
    assert_eq!(unq.len(), 2);
    expect_sym(&unq[0], "unquote");
    let call = expect_list(&unq[1]);
    assert_eq!(call.len(), 3);
    expect_sym(&call[0], "+");
    expect_num(&call[1], 1);
    expect_num(&call[2], 1);
}

#[test]
fn read_dot() {
    // "(1 . 2)"
    let root = read_ok(
        vec![
            (Token::LParen, sp(0, 1)),
            (num(1), sp(1, 2)),
            (Token::Period, sp(3, 4)),
            (num(2), sp(5, 6)),
            (Token::RParen, sp(6, 7)),
        ],
        sp(7, 7),
    );
    assert_eq!(root.forms.len(), 1);
    match &root.forms[0].value {
        Sexpr::Pair(p) => {
            expect_num(p.head(), 1);
            expect_num(p.tail(), 2);
            assert_eq!(p.head().span, sp(1, 2));
            assert_eq!(p.tail().span, sp(5, 6));
        }
        _ => panic!("expected a dotted pair"),
    }
    assert_eq!(root.forms[0].span, sp(0, 7));
}

#[test]
fn read_list_dot() {
    // "(1 2 . 3)"
    let root = read_ok(
        vec![
            (Token::LParen, sp(0, 1)),
            (num(1), sp(1, 2)),
            (num(2), sp(3, 4)),
            (Token::Period, sp(5, 6)),
            (num(3), sp(7, 8)),
            (Token::RParen, sp(8, 9)),
        ],
        sp(9, 9),
    );
    assert_eq!(root.forms.len(), 1);
    match &root.forms[0].value {
        Sexpr::Pair(p) => {
            let head_items = expect_list(p.head());
            assert_eq!(head_items.len(), 2);
            expect_num(&head_items[0], 1);
            expect_num(&head_items[1], 2);
            assert_eq!(p.head().span, sp(1, 4));
            expect_num(p.tail(), 3);
        }
        _ => panic!("expected a dotted pair"),
    }
    assert_eq!(root.forms[0].span, sp(0, 9));
}

#[test]
fn read_symbol_atom() {
    // A flat symbol alone: one form, no diagnostics, the full input's span.
    let root = read_ok(vec![(sym("hello"), sp(0, 5))], sp(5, 5));
    assert_eq!(root.forms.len(), 1);
    expect_sym(&root.forms[0], "hello");
    assert_eq!(root.span, sp(0, 5));
}

#[test]
fn read_string_atom() {
    let root = read_ok(vec![(Token::String(String::from("hi")), sp(0, 4))], sp(4, 4));
    assert_eq!(root.forms.len(), 1);
    match &root.forms[0].value {
        Sexpr::Atom(Atom::String(s)) => assert_eq!(s, "hi"),
        _ => panic!("expected a string atom"),
    }
    assert_eq!(root.span, sp(0, 4));
}

#[test]
fn read_unbalanced_reports_unterminated() {
    // "(1 2" ends while the list is open.
    let tokens = vec![
        (Token::LParen, sp(0, 1)),
        (num(1), sp(1, 2)),
        (num(2), sp(3, 4)),
    ];
    let (root, errs) = read(&tokens, sp(4, 4));
    assert!(root.forms.is_empty());
    assert!(!errs.is_empty());
    assert_eq!(errs[0].kind, DiagnosticKind::UnterminatedForm);
    // The diagnostic lies at or after the last consumed token.
    assert!(errs[0].span.start >= 4);
}

#[test]
fn read_lone_rparen_reports_unexpected() {
    let tokens = vec![(Token::RParen, sp(0, 1))];
    let (root, errs) = read(&tokens, sp(1, 1));
    assert!(root.forms.is_empty());
    assert_eq!(errs.len(), 1);
    assert_eq!(errs[0].kind, DiagnosticKind::UnexpectedToken);
    assert_eq!(errs[0].span, sp(0, 1));
}

#[test]
fn read_lone_period_reports_unexpected() {
    let tokens = vec![(Token::Period, sp(0, 1))];
    let (_, errs) = read(&tokens, sp(1, 1));
    assert_eq!(errs.len(), 1);
    assert_eq!(errs[0].kind, DiagnosticKind::UnexpectedToken);
}

#[test]
fn read_empty_dotted_tail_is_malformed() {
    // "(1 . )"
    let tokens = vec![
        (Token::LParen, sp(0, 1)),
        (num(1), sp(1, 2)),
        (Token::Period, sp(3, 4)),
        (Token::RParen, sp(5, 6)),
    ];
    let (_, errs) = read(&tokens, sp(6, 6));
    assert_eq!(errs.len(), 1);
    assert_eq!(errs[0].kind, DiagnosticKind::MalformedDottedForm);
    assert_eq!(errs[0].span, sp(5, 6));
}

#[test]
fn read_extra_dotted_tail_is_malformed() {
    // "(1 . 2 3)"
    let tokens = vec![
        (Token::LParen, sp(0, 1)),
        (num(1), sp(1, 2)),
        (Token::Period, sp(3, 4)),
        (num(2), sp(5, 6)),
        (num(3), sp(7, 8)),
        (Token::RParen, sp(8, 9)),
    ];
    let (_, errs) = read(&tokens, sp(9, 9));
    assert!(!errs.is_empty());
    assert_eq!(errs[0].kind, DiagnosticKind::MalformedDottedForm);
    assert_eq!(errs[0].span, sp(7, 8));
}

#[test]
fn read_quote_at_end_is_unterminated() {
    // "'" with nothing after it.
    let tokens = vec![(Token::Quote, sp(0, 1))];
    let (root, errs) = read(&tokens, sp(1, 1));
    assert!(root.forms.is_empty());
    assert_eq!(errs.len(), 1);
    assert_eq!(errs[0].kind, DiagnosticKind::UnterminatedForm);
    assert_eq!(errs[0].span, sp(1, 1));
}

#[test]
fn read_empty_input_gives_empty_root() {
    let tokens: Vec<(Token, Span)> = vec![];
    let (root, errs) = read(&tokens, sp(0, 0));
    assert!(root.forms.is_empty());
    assert!(errs.is_empty());
    assert_eq!(root.span, sp(0, 0));
}

#[test]
fn read_recovers_after_error() {
    // ") 42": the lone delimiter is reported and the number still parses.
    let tokens = vec![(Token::RParen, sp(0, 1)), (num(42), sp(2, 4))];
    let (root, errs) = read(&tokens, sp(4, 4));
    assert_eq!(errs.len(), 1);
    assert_eq!(errs[0].kind, DiagnosticKind::UnexpectedToken);
    assert_eq!(root.forms.len(), 1);
    expect_num(&root.forms[0], 42);
}

#[test]
fn read_two_top_level_forms() {
    // "1 (2)"
    let tokens = vec![
        (num(1), sp(0, 1)),
        (Token::LParen, sp(2, 3)),
        (num(2), sp(3, 4)),
        (Token::RParen, sp(4, 5)),
    ];
    let root = read_ok(tokens, sp(5, 5));
    assert_eq!(root.forms.len(), 2);
    expect_num(&root.forms[0], 1);
    let items = expect_list(&root.forms[1]);
    assert_eq!(items.len(), 1);
    expect_num(&items[0], 2);
    assert_eq!(root.span, sp(0, 5));
}

#[test]
fn read_empty_list_is_rejected() {
    // "()" has no element, which the grammar does not accept.
    let tokens = vec![(Token::LParen, sp(0, 1)), (Token::RParen, sp(1, 2))];
    let (root, errs) = read(&tokens, sp(2, 2));
    assert!(root.forms.is_empty());
    assert_eq!(errs.len(), 1);
    assert_eq!(errs[0].kind, DiagnosticKind::UnexpectedToken);
    assert_eq!(errs[0].span, sp(1, 2));
}

#[test]
fn read_unquote_splice() {
    // ",@(1)"
    let root = read_ok(
        vec![
            (Token::CommaAt, sp(0, 2)),
            (Token::LParen, sp(2, 3)),
            (num(1), sp(3, 4)),
            (Token::RParen, sp(4, 5)),
        ],
        sp(5, 5),
    );
    assert_eq!(root.forms.len(), 1);
    let items = expect_list(&root.forms[0]);
    assert_eq!(items.len(), 2);
    expect_sym(&items[0], "unquote-splice");
    assert_eq!(items[0].span, sp(0, 2));
    assert_eq!(root.forms[0].span, sp(0, 5));
}

#[test]
fn read_dotted_with_list_tail() {
    // "(1 . (2 3))"
    let root = read_ok(
        vec![
            (Token::LParen, sp(0, 1)),
            (num(1), sp(1, 2)),
            (Token::Period, sp(3, 4)),
            (Token::LParen, sp(5, 6)),
            (num(2), sp(6, 7)),
            (num(3), sp(8, 9)),
            (Token::RParen, sp(9, 10)),
            (Token::RParen, sp(10, 11)),
        ],
        sp(11, 11),
    );
    assert_eq!(root.forms.len(), 1);
    match &root.forms[0].value {
        Sexpr::Pair(p) => {
            expect_num(p.head(), 1);
            let tail_items = expect_list(p.tail());
            assert_eq!(tail_items.len(), 2);
            expect_num(&tail_items[0], 2);
            expect_num(&tail_items[1], 3);
        }
        _ => panic!("expected a dotted pair"),
    }
    assert_eq!(root.forms[0].span, sp(0, 11));
}

#[test]
fn read_rational_number_token() {
    // "5/3"
    let root = read_ok(vec![(Token::Number(Rational::new(5, 3)), sp(0, 3))], sp(3, 3));
    assert_eq!(root.forms.len(), 1);
    match &root.forms[0].value {
        Sexpr::Atom(Atom::Number(r)) => {
            assert_eq!(r.num, 5);
            assert_eq!(r.den, 3);
        }
        _ => panic!("expected a number atom"),
    }
}

#[test]
fn read_nested_lists_spans_contain_children() {
    // "((1) 2)"
    let root = read_ok(
        vec![
            (Token::LParen, sp(0, 1)),
            (Token::LParen, sp(1, 2)),
            (num(1), sp(2, 3)),
            (Token::RParen, sp(3, 4)),
            (num(2), sp(5, 6)),
            (Token::RParen, sp(6, 7)),
        ],
        sp(7, 7),
    );
    let items = expect_list(&root.forms[0]);
    assert_eq!(items.len(), 2);
    let outer = root.forms[0].span;
    for item in items {
        assert!(outer.start <= item.span.start && item.span.end <= outer.end);
    }
    let inner_items = expect_list(&items[0]);
    assert!(items[0].span.start <= inner_items[0].span.start);
    assert!(inner_items[0].span.end <= items[0].span.end);
}

#[test]
fn read_resync_skips_to_next_form() {
    // ") . 7": one rejection; resynchronization skips the period, which
    // cannot begin a form, and the number still parses.
    let tokens = vec![
        (Token::RParen, sp(0, 1)),
        (Token::Period, sp(2, 3)),
        (num(7), sp(4, 5)),
    ];
    let (root, errs) = read(&tokens, sp(5, 5));
    assert_eq!(errs.len(), 1);
    assert_eq!(errs[0].kind, DiagnosticKind::UnexpectedToken);
    assert_eq!(errs[0].span, sp(0, 1));
    assert_eq!(root.forms.len(), 1);
    expect_num(&root.forms[0], 7);
}

#[test]
fn read_reports_an_error_for_each_bad_form() {
    // "(1 . ) 8 )": a malformed dotted form, a good form, a stray delimiter.
    let tokens = vec![
        (Token::LParen, sp(0, 1)),
        (num(1), sp(1, 2)),
        (Token::Period, sp(3, 4)),
        (Token::RParen, sp(5, 6)),
        (num(8), sp(7, 8)),
        (Token::RParen, sp(9, 10)),
    ];
    let (root, errs) = read(&tokens, sp(10, 10));
    assert_eq!(errs.len(), 2);
    assert_eq!(errs[0].kind, DiagnosticKind::MalformedDottedForm);
    assert_eq!(errs[1].kind, DiagnosticKind::UnexpectedToken);
    assert_eq!(root.forms.len(), 1);
    expect_num(&root.forms[0], 8);
}
