use lispcore::compactor::Compactor;
use lispcore::exprs::{Expr, Meta, Special, Table};
use lispcore::forms::{Form, FormError, Forms, Macro, Partial};
use lispcore::reader::read;
use lispcore::spans::{Pos, Span, Spanning};
use lispcore::stack::Stack;
use lispcore::eval::EvalError;
use lispcore::tokens::{is_close, is_open, is_prefix, is_symbol, Literal, Paren, Prefix, Token, TokenError, Tokens};

fn tokens_of(source: &str) -> Vec<Token> {
    let mut t = Tokens::new(source);
    let mut out = Vec::new();
    while let Some(r) = t.next() {
        out.push(r.unwrap().inner);
    }
    out
}

fn forms_of(source: &str) -> Vec<Result<Form, FormError>> {
    let mut f = Forms::new(source);
    let mut out = Vec::new();
    while let Some(r) = f.next() {
        let stop = r.is_err();
        out.push(r);
        if stop {
            break;
        }
    }
    out
}

#[test]
fn position_after_text_tracks_lines() {
    let p = Pos::default().after("ab\ncd");
    assert_eq!(p, Pos { offset: 5, line: 1, column: 2 });
    let q = Pos::default().advance_columns(3);
    assert_eq!(q, Pos { offset: 3, line: 0, column: 3 });
    let r = q.advance_lines(2, 4);
    assert_eq!(r, Pos { offset: 7, line: 2, column: 0 });
    let s = Pos::default().span(q);
    assert_eq!(s, Span { start: Pos::default(), end: q });
    let sp = Spanning::new(7u8, s);
    assert_eq!(sp.inner, 7);
}

#[test]
fn bracket_and_prefix_characters() {
    assert_eq!(Paren::Paren.open(), '(');
    assert_eq!(Paren::Brace.open(), '{');
    assert_eq!(Paren::Square.close(), ']');
    assert_eq!(Paren::from_char('}'), Some(Paren::Brace));
    assert_eq!(Prefix::from_char('\''), Some(Prefix::Quote));
    assert_eq!(Prefix::from_char('`'), Some(Prefix::Quasiquote));
    assert_eq!(Prefix::from_char('~'), Some(Prefix::Unquote));
    assert_eq!(Prefix::from_char(':'), Some(Prefix::HasType));
    assert_eq!(Prefix::from_char('\\'), Some(Prefix::Lambda));
    assert_eq!(Prefix::from_char('a'), None);
    assert!(is_open('[') && is_close(')') && is_prefix('~'));
    assert!(is_symbol('a') && !is_symbol('1') && !is_symbol(' ') && !is_symbol('('));
}

#[test]
fn tokens_of_a_small_program() {
    let toks = tokens_of("(foo 12 0x1F)");
    assert_eq!(toks, vec![
        Token::Open(Paren::Paren),
        Token::Literal(Literal::Symbol("foo".to_string())),
        Token::Whitespace(" ".to_string()),
        Token::Literal(Literal::Int(12)),
        Token::Whitespace(" ".to_string()),
        Token::Literal(Literal::Int(31)),
        Token::Close(Paren::Paren),
    ]);
    assert!(Token::Whitespace(" ".to_string()).may_continue());
    assert!(!Token::Open(Paren::Paren).may_continue());
}

#[test]
fn token_spans_and_lines() {
    let mut t = Tokens::new("a\n bc");
    let a = t.next().unwrap().unwrap();
    assert_eq!(a.span.end, Pos { offset: 1, line: 0, column: 1 });
    let ws = t.next().unwrap().unwrap();
    assert_eq!(ws.span.end, Pos { offset: 3, line: 1, column: 1 });
    let bc = t.next().unwrap().unwrap();
    assert_eq!(bc.inner, Token::Literal(Literal::Symbol("bc".to_string())));
    assert_eq!(bc.span.end, Pos { offset: 5, line: 1, column: 3 });
    assert!(t.at_end());
    assert!(t.next().is_none());
    assert_eq!(t.pos(), Pos { offset: 5, line: 1, column: 3 });
}

#[test]
fn token_errors() {
    assert_eq!(Tokens::new("\u{1}").next(), Some(Err(TokenError::InvalidChar('\u{1}'))));
    assert_eq!(Tokens::new("0x").next(), Some(Err(TokenError::Partial)));
    assert_eq!(Tokens::new("99999999999999999999").next(), Some(Err(TokenError::Overflow)));
    assert_eq!(tokens_of("9223372036854775807"), vec![Token::Literal(Literal::Int(i64::MAX))]);
}

#[test]
fn parses_group_with_quote() {
    let forms = forms_of("(a 'b)");
    assert_eq!(forms.len(), 1);
    match &forms[0] {
        Ok(Form::Group(g)) => {
            assert_eq!(g.open.inner, Paren::Paren);
            assert_eq!(g.vals.len(), 2);
            assert!(matches!(&g.vals[1], Form::Macro(Macro::Quote(_, _))));
            assert_eq!(g.span().start.offset, 0);
            assert_eq!(g.span().end.offset, 6);
        }
        other => panic!("unexpected {:?}", other),
    }
}

#[test]
fn parses_several_top_level_forms() {
    let forms = forms_of("1 foo [x]");
    assert_eq!(forms.len(), 3);
    assert!(matches!(&forms[0], Ok(Form::Int(i)) if i.inner == 1));
    assert!(matches!(&forms[1], Ok(Form::Symbol(s)) if s.inner == "foo"));
    match &forms[2] {
        Ok(f) => assert_eq!((f.span().start.offset, f.span().end.offset), (6, 9)),
        Err(e) => panic!("unexpected {:?}", e),
    }
}

#[test]
fn type_ascription_takes_two_forms() {
    let forms = forms_of(":int 5");
    match &forms[0] {
        Ok(Form::Macro(Macro::HasType(p, t, v))) => {
            assert_eq!(p.inner, Prefix::HasType);
            assert!(matches!(**t, Form::Symbol(_)));
            assert!(matches!(**v, Form::Int(_)));
        }
        other => panic!("unexpected {:?}", other),
    }
}

#[test]
fn nested_prefixes_complete_at_once() {
    let forms = forms_of("''x");
    match &forms[0] {
        Ok(f @ Form::Macro(Macro::Quote(_, inner))) => {
            assert!(matches!(**inner, Form::Macro(Macro::Quote(_, _))));
            assert_eq!(f.span().end.offset, 3);
        }
        other => panic!("unexpected {:?}", other),
    }
}

#[test]
fn mismatched_close_reports_pending_constructs() {
    let forms = forms_of("(a]");
    match &forms[0] {
        Err(FormError::DoesNotComplete(close, pending)) => {
            assert_eq!(close.inner, Paren::Square);
            assert_eq!(pending.len(), 1);
            match pending.back() {
                Some(Partial::Group(open, vals)) => {
                    assert_eq!(open.inner, Paren::Paren);
                    assert_eq!(vals.len(), 1);
                }
                other => panic!("unexpected {:?}", other),
            }
        }
        other => panic!("unexpected {:?}", other),
    }
}

#[test]
fn truncated_input_is_incomplete() {
    let forms = forms_of("(a (b");
    match &forms[0] {
        Err(FormError::Incomplete(pending)) => assert_eq!(pending.len(), 2),
        other => panic!("unexpected {:?}", other),
    }
}

#[test]
fn close_with_nothing_open_is_incomplete() {
    let forms = forms_of(")");
    match &forms[0] {
        Err(FormError::Incomplete(pending)) => assert_eq!(pending.len(), 0),
        other => panic!("unexpected {:?}", other),
    }
}

#[test]
fn token_error_surfaces_from_parser() {
    let forms = forms_of("(a \u{7f})");
    assert!(matches!(&forms[0], Err(FormError::Token(TokenError::InvalidChar('\u{7f}')))));
}

fn read_source(source: &str) -> Expr {
    let mut f = Forms::new(source);
    read(f.next().unwrap().unwrap()).ok().unwrap()
}

fn list_values(e: &Expr) -> &Vec<Expr> {
    match e {
        Expr::List(l) => &l.values,
        other => panic!("expected a list, got {:?}", other),
    }
}

fn symbol_name(e: &Expr) -> &str {
    match e {
        Expr::Symbol(s) => &s.name,
        other => panic!("expected a symbol, got {:?}", other),
    }
}

#[test]
fn reads_brackets_as_application_lists() {
    let e = read_source("(f 1)");
    let v = list_values(&e);
    assert_eq!(v.len(), 2);
    assert_eq!(symbol_name(&v[0]), "f");
    let e = read_source("[1 2]");
    let v = list_values(&e);
    assert_eq!(v.len(), 3);
    assert_eq!(symbol_name(&v[0]), "list");
    let e = read_source("{a b}");
    let v = list_values(&e);
    assert_eq!(symbol_name(&v[0]), "map");
    match &e {
        Expr::List(l) => assert_eq!(l.meta.span.map(|s| (s.start.offset, s.end.offset)), Some((0, 5))),
        _ => unreachable!(),
    }
}

#[test]
fn reads_prefixes_as_special_lists() {
    let e = read_source("'x");
    let v = list_values(&e);
    assert!(matches!(v[0], Expr::Special { kind: Special::Quote, .. }));
    assert_eq!(symbol_name(&v[1]), "x");
    let e = read_source(":t v");
    let v = list_values(&e);
    assert_eq!(v.len(), 3);
    assert!(matches!(v[0], Expr::Special { kind: Special::The, .. }));
    let e = read_source("`x");
    assert!(matches!(list_values(&e)[0], Expr::Special { kind: Special::Quasiquote, .. }));
    let e = read_source("~x");
    assert!(matches!(list_values(&e)[0], Expr::Special { kind: Special::Unquote, .. }));
    let e = read_source("\\x");
    assert!(matches!(list_values(&e)[0], Expr::Special { kind: Special::Lambda, .. }));
}

#[test]
fn reading_equal_literals_gives_alike_exprs() {
    let a = read_source("42");
    let b = read_source("  42");
    assert!(a.alike(&b));
    assert!(matches!(a, Expr::Int(ref i) if i.value == 42));
}

#[test]
fn read_then_evaluate_quote() {
    let mut stack = Stack::new();
    let e = read_source("'(a b c)");
    let r = lispcore::eval::eval(e, &mut stack).unwrap();
    assert_eq!(list_values(&r).len(), 3);
}

#[test]
fn checkpoint_rolls_back_assignment() {
    let mut stack = Stack::new();
    let x = "x".to_string();
    stack.enter();
    stack.assign(x.clone(), Expr::Nil);
    stack.leave().unwrap();
    assert!(matches!(stack.lookup(&x), Err(EvalError::UnknownBinding(_))));

    stack.assign(x.clone(), read_source("1"));
    stack.enter();
    stack.assign(x.clone(), read_source("2"));
    assert!(matches!(stack.lookup(&x), Ok(Expr::Int(ref i)) if i.value == 2));
    stack.leave().unwrap();
    assert!(matches!(stack.lookup(&x), Ok(Expr::Int(ref i)) if i.value == 1));
}

#[test]
fn enter_keeps_bindings_visible() {
    let mut stack = Stack::new();
    stack.assign("y".to_string(), read_source("3"));
    stack.enter();
    assert!(matches!(stack.lookup(&"y".to_string()), Ok(Expr::Int(ref i)) if i.value == 3));
}

#[test]
fn leave_without_enter_underflows() {
    let mut stack = Stack::new();
    assert!(matches!(stack.leave(), Err(EvalError::StackUnderflow)));
}

#[test]
fn interning_is_idempotent() {
    let mut c = Compactor::new();
    let a = c.create("hello");
    let b = c.create("world");
    let a2 = c.create("hello");
    assert_eq!(a, a2);
    assert_ne!(a, b);
    assert_eq!(c.resolve(&a).0, "hello");
    assert_eq!(c.resolve(&b).0, "world");
}

#[test]
fn list_operations_copy() {
    let l = match read_source("(a b)") {
        Expr::List(l) => l,
        _ => unreachable!(),
    };
    let c = l.cons(read_source("z"));
    assert_eq!(c.values.len(), 3);
    assert_eq!(symbol_name(c.front().unwrap()), "z");
    assert_eq!(l.values.len(), 2);
    let p = l.push(read_source("q"));
    assert_eq!(symbol_name(p.back().unwrap()), "q");
    assert_eq!(symbol_name(l.uncons().front().unwrap()), "b");
    assert_eq!(symbol_name(l.pop().back().unwrap()), "a");
    let empty = l.pop().pop();
    assert!(empty.front().is_none() && empty.back().is_none());
    assert_eq!(empty.pop().values.len(), 0);
    assert_eq!(empty.uncons().values.len(), 0);
}

#[test]
fn forms_tile_the_text() {
    let forms = forms_of(" (a b)  'c\n[d]");
    let spans: Vec<(usize, usize)> = forms
        .iter()
        .map(|f| {
            let s = f.as_ref().unwrap().span();
            (s.start.offset, s.end.offset)
        })
        .collect();
    assert_eq!(spans, vec![(1, 6), (8, 10), (11, 14)]);
    match &forms[2] {
        Ok(f) => assert_eq!((f.span().start.line, f.span().start.column), (1, 0)),
        Err(e) => panic!("unexpected {:?}", e),
    }
}

#[test]
fn token_errors_skip_the_bad_text() {
    let mut t = Tokens::new("\u{1}a 0x b 99999999999999999999 c");
    assert_eq!(t.next(), Some(Err(TokenError::InvalidChar('\u{1}'))));
    assert_eq!(t.next().unwrap().unwrap().inner, Token::Literal(Literal::Symbol("a".to_string())));
    t.next();
    assert_eq!(t.next(), Some(Err(TokenError::Partial)));
    t.next();
    assert_eq!(t.next().unwrap().unwrap().inner, Token::Literal(Literal::Symbol("b".to_string())));
    t.next();
    assert_eq!(t.next(), Some(Err(TokenError::Overflow)));
    t.next();
    assert_eq!(t.next().unwrap().unwrap().inner, Token::Literal(Literal::Symbol("c".to_string())));
    assert!(t.next().is_none());
}

#[test]
fn parser_goes_on_after_a_token_error() {
    let mut f = Forms::new("(a \u{1} b)");
    assert!(matches!(f.next(), Some(Err(FormError::Token(TokenError::InvalidChar('\u{1}'))))));
    match f.next() {
        Some(Ok(Form::Group(g))) => assert_eq!(g.vals.len(), 2),
        other => panic!("unexpected {:?}", other),
    }
    assert!(f.next().is_none());
}

#[test]
fn reader_follows_the_macro_variant() {
    // A quote macro whose prefix records another kind still reads as quote.
    let p = Pos::default();
    let sp = Span::new(p, p.advance_columns(1));
    let x = Form::Symbol(Spanning::new("x".to_string(), Span::new(p.advance_columns(1), p.advance_columns(2))));
    let m = Form::Macro(Macro::Quote(Spanning::new(Prefix::Unquote, sp), Box::new(x)));
    let e = read(m).ok().unwrap();
    let v = list_values(&e);
    assert_eq!(v.len(), 2);
    assert!(matches!(v[0], Expr::Special { kind: Special::Quote, .. }));
    let t = Form::Symbol(Spanning::new("t".to_string(), sp));
    let y = Form::Symbol(Spanning::new("y".to_string(), sp));
    let h = Form::Macro(Macro::HasType(Spanning::new(Prefix::Quote, sp), Box::new(t), Box::new(y)));
    let e = read(h).ok().unwrap();
    let v = list_values(&e);
    assert_eq!(v.len(), 3);
    assert!(matches!(v[0], Expr::Special { kind: Special::The, .. }));
    assert_eq!(symbol_name(&v[1]), "t");
}

#[test]
fn table_keeps_keys_distinct() {
    let mut t = Table::new(Meta::none());
    t.insert(read_source("a"), read_source("1"));
    t.insert(read_source("b"), read_source("2"));
    t.insert(read_source(" a"), read_source("3"));
    assert_eq!(t.entries.len(), 2);
    assert!(matches!(t.get(&read_source("a")), Some(Expr::Int(i)) if i.value == 3));
    assert!(matches!(t.get(&read_source("b")), Some(Expr::Int(i)) if i.value == 2));
    assert!(t.get(&read_source("c")).is_none());
}
