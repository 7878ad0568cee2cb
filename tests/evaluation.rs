use lispcore::eval::{eval, eval_within, EvalError, BUDGET};
use lispcore::exprs::{Expr, Fun, Int, List, Meta, Special, Symbol};
use lispcore::spans::{Pos, Span};
use lispcore::stack::Stack;

fn sym(name: &str) -> Expr {
    Expr::Symbol(Symbol::new(name.to_string(), Meta::none()))
}

fn num(value: i64) -> Expr {
    Expr::Int(Int::new(value, Meta::none()))
}

fn special(kind: Special) -> Expr {
    Expr::Special { kind, meta: Meta::none() }
}

fn list(values: Vec<Expr>) -> Expr {
    Expr::List(List::new(values, Meta::none()))
}

fn lambda(param: &str, body: Expr) -> Expr {
    list(vec![special(Special::Lambda), sym(param), body])
}

fn span_at(offset: usize) -> Span {
    let p = Pos { offset, line: 0, column: offset };
    Span::new(p, p.advance_columns(1))
}

fn int_value(e: &Expr) -> i64 {
    match e {
        Expr::Int(i) => i.value,
        other => panic!("expected an integer, got {:?}", other),
    }
}

#[test]
fn identity_applied_to_five() {
    let mut stack = Stack::new();
    let call = list(vec![lambda("x", sym("x")), num(5)]);
    let r = eval(call, &mut stack).unwrap();
    assert_eq!(int_value(&r), 5);
}

#[test]
fn returned_function_does_not_capture_parameter() {
    // Functions hold no environment: once the outer call has left its
    // checkpoint, `x` is no longer bound when the inner function runs.
    let mut stack = Stack::new();
    let inner = lambda("y", sym("x"));
    let outer = lambda("x", inner);
    let call = list(vec![list(vec![outer, num(1)]), num(2)]);
    match eval(call, &mut stack) {
        Err(EvalError::UnknownBinding(name)) => assert_eq!(name, "x"),
        other => panic!("unexpected {:?}", other),
    }
}

#[test]
fn curried_application_sees_ambient_binding() {
    // With `x` bound around the call, the inner function finds it at call time.
    let mut stack = Stack::new();
    stack.assign("x".to_string(), num(1));
    let inner = lambda("y", sym("x"));
    let outer = lambda("z", inner);
    let call = list(vec![list(vec![outer, num(3)]), num(2)]);
    assert_eq!(int_value(&eval(call, &mut stack).unwrap()), 1);
}

#[test]
fn multi_argument_call_is_curried() {
    let mut stack = Stack::new();
    let k = lambda("x", lambda("y", sym("y")));
    let call = list(vec![k, num(1), num(2)]);
    let r = eval(call, &mut stack).unwrap();
    assert_eq!(int_value(&r), 2);
}

#[test]
fn unknown_binding_on_empty_stack() {
    let mut stack = Stack::new();
    match eval(sym("nope"), &mut stack) {
        Err(EvalError::UnknownBinding(name)) => assert_eq!(name, "nope"),
        other => panic!("unexpected {:?}", other),
    }
}

#[test]
fn quote_returns_operand_unevaluated() {
    let mut stack = Stack::new();
    let quoted = list(vec![sym("a"), sym("b"), sym("c")]);
    let form = list(vec![special(Special::Quote), quoted.clone()]);
    let r = eval(form, &mut stack).unwrap();
    assert!(r.alike(&quoted));
    match r {
        Expr::List(l) => assert_eq!(l.values.len(), 3),
        other => panic!("unexpected {:?}", other),
    }
}

#[test]
fn quasiquote_behaves_as_quote() {
    let mut stack = Stack::new();
    let form = list(vec![special(Special::Quasiquote), sym("a")]);
    let r = eval(form, &mut stack).unwrap();
    assert!(r.alike(&sym("a")));
}

#[test]
fn quote_without_operand_is_missing_one() {
    let mut stack = Stack::new();
    match eval(list(vec![special(Special::Quote)]), &mut stack) {
        Err(EvalError::MissingArguments(_, n)) => assert_eq!(n, 1),
        other => panic!("unexpected {:?}", other),
    }
}

#[test]
fn quote_with_two_operands_carries_the_surplus() {
    let mut stack = Stack::new();
    match eval(list(vec![special(Special::Quote), sym("a"), sym("b")]), &mut stack) {
        Err(EvalError::ExtraArguments(_, extra)) => {
            assert_eq!(extra.len(), 1);
            assert!(extra[0].alike(&sym("b")));
        }
        other => panic!("unexpected {:?}", other),
    }
}

#[test]
fn the_evaluates_both_and_returns_value() {
    let mut stack = Stack::new();
    stack.assign("t".to_string(), num(0));
    let form = list(vec![special(Special::The), sym("t"), num(9)]);
    assert_eq!(int_value(&eval(form, &mut stack).unwrap()), 9);
}

#[test]
fn the_evaluates_its_type() {
    let mut stack = Stack::new();
    let form = list(vec![special(Special::The), sym("missing"), num(9)]);
    assert!(matches!(eval(form, &mut stack), Err(EvalError::UnknownBinding(_))));
}

#[test]
fn the_arity_errors() {
    let mut stack = Stack::new();
    match eval(list(vec![special(Special::The)]), &mut stack) {
        Err(EvalError::MissingArguments(_, n)) => assert_eq!(n, 2),
        other => panic!("unexpected {:?}", other),
    }
    match eval(list(vec![special(Special::The), num(1)]), &mut stack) {
        Err(EvalError::MissingArguments(_, n)) => assert_eq!(n, 1),
        other => panic!("unexpected {:?}", other),
    }
    match eval(list(vec![special(Special::The), num(1), num(2), num(3)]), &mut stack) {
        Err(EvalError::ExtraArguments(_, extra)) => assert_eq!(extra.len(), 1),
        other => panic!("unexpected {:?}", other),
    }
}

#[test]
fn lambda_needs_symbol_parameter() {
    let mut stack = Stack::new();
    let form = list(vec![special(Special::Lambda), num(3), sym("x")]);
    match eval(form, &mut stack) {
        Err(EvalError::BadParameter(p)) => assert_eq!(int_value(&p), 3),
        other => panic!("unexpected {:?}", other),
    }
}

#[test]
fn lambda_arity_errors() {
    let mut stack = Stack::new();
    match eval(list(vec![special(Special::Lambda)]), &mut stack) {
        Err(EvalError::MissingArguments(_, n)) => assert_eq!(n, 2),
        other => panic!("unexpected {:?}", other),
    }
    match eval(list(vec![special(Special::Lambda), sym("x")]), &mut stack) {
        Err(EvalError::MissingArguments(_, n)) => assert_eq!(n, 1),
        other => panic!("unexpected {:?}", other),
    }
    match eval(list(vec![special(Special::Lambda), sym("x"), sym("x"), sym("y")]), &mut stack) {
        Err(EvalError::ExtraArguments(_, extra)) => {
            assert_eq!(extra.len(), 1);
            assert!(extra[0].alike(&sym("y")));
        }
        other => panic!("unexpected {:?}", other),
    }
}

#[test]
fn lambda_builds_a_function() {
    let mut stack = Stack::new();
    match eval(lambda("x", sym("x")), &mut stack) {
        Ok(Expr::Fun(f)) => {
            assert_eq!(f.param.name, "x");
            assert!(f.body.alike(&sym("x")));
        }
        other => panic!("unexpected {:?}", other),
    }
}

#[test]
fn unquote_is_unsupported() {
    let mut stack = Stack::new();
    let form = list(vec![special(Special::Unquote), sym("a")]);
    assert!(matches!(eval(form, &mut stack), Err(EvalError::Unsupported(_))));
}

#[test]
fn calling_an_integer_is_not_callable() {
    let mut stack = Stack::new();
    match eval(list(vec![num(5), num(6)]), &mut stack) {
        Err(EvalError::NotCallable(callee, site)) => {
            assert_eq!(int_value(&callee), 5);
            assert!(site.alike(&list(vec![num(5), num(6)])));
        }
        other => panic!("unexpected {:?}", other),
    }
}

#[test]
fn self_evaluating_values() {
    let mut stack = Stack::new();
    assert_eq!(int_value(&eval(num(42), &mut stack).unwrap()), 42);
    assert!(matches!(eval(Expr::Nil, &mut stack), Ok(Expr::Nil)));
    assert!(matches!(eval(list(vec![]), &mut stack), Ok(Expr::List(_))));
    assert!(matches!(eval(special(Special::Quote), &mut stack), Ok(Expr::Special { kind: Special::Quote, .. })));
}

#[test]
fn special_bound_to_a_name_dispatches() {
    let mut stack = Stack::new();
    stack.assign("q".to_string(), special(Special::Quote));
    let form = list(vec![sym("q"), sym("unbound")]);
    assert!(eval(form, &mut stack).unwrap().alike(&sym("unbound")));
}

#[test]
fn lambda_body_sees_bindings_at_call_time() {
    let mut stack = Stack::new();
    stack.assign("f".to_string(), Expr::Fun(Fun {
        param: Symbol::new("x".to_string(), Meta::none()),
        body: Box::new(sym("z")),
        meta: Meta::none(),
    }));
    stack.assign("z".to_string(), num(7));
    let form = list(vec![sym("f"), num(0)]);
    assert_eq!(int_value(&eval(form, &mut stack).unwrap()), 7);
}

#[test]
fn evaluation_leaves_the_stack_as_it_was() {
    let mut stack = Stack::new();
    let call = list(vec![lambda("x", sym("x")), num(5)]);
    eval(call, &mut stack).unwrap();
    assert!(matches!(stack.lookup(&"x".to_string()), Err(EvalError::UnknownBinding(_))));
    assert!(matches!(stack.leave(), Err(EvalError::StackUnderflow)));
}

#[test]
fn unexpanded_macro_value_fails() {
    let mut stack = Stack::new();
    let m = Expr::Macro(Fun {
        param: Symbol::new("x".to_string(), Meta::none()),
        body: Box::new(sym("x")),
        meta: Meta::none(),
    });
    assert!(matches!(eval(m, &mut stack), Err(EvalError::UnexpandedMacro(_))));
}

fn quoting_macro(body: Expr) -> Expr {
    Expr::Macro(Fun {
        param: Symbol::new("args".to_string(), Meta::none()),
        body: Box::new(body),
        meta: Meta::none(),
    })
}

#[test]
fn macro_that_reproduces_its_call_reaches_a_fixpoint() {
    let mut stack = Stack::new();
    let body = list(vec![special(Special::Quote), list(vec![sym("m")])]);
    stack.assign("m".to_string(), quoting_macro(body));
    // The expansion of `(m)` is `(m)` again: expansion stops after one step.
    // Evaluation proper then reads `(m)` as a call with no argument, which
    // gives its head: the macro value bound to `m`.
    let r = eval(list(vec![sym("m")]), &mut stack);
    assert!(matches!(r, Ok(Expr::Macro(_))));
}

#[test]
fn macro_receives_unevaluated_arguments() {
    let mut stack = Stack::new();
    // (m a b) expands to what the body gives with `args` bound to (a b):
    // the body `args` returns that list, whose head `a` is then unbound.
    stack.assign("m".to_string(), quoting_macro(sym("args")));
    let r = eval(list(vec![sym("m"), sym("a"), sym("b")]), &mut stack);
    match r {
        Err(EvalError::UnknownBinding(name)) => assert_eq!(name, "a"),
        other => panic!("unexpected {:?}", other),
    }
}

#[test]
fn macro_expansion_result_is_evaluated() {
    let mut stack = Stack::new();
    let body = list(vec![special(Special::Quote), num(7)]);
    stack.assign("m".to_string(), quoting_macro(body));
    assert_eq!(int_value(&eval(list(vec![sym("m")]), &mut stack).unwrap()), 7);
}

#[test]
fn budget_zero_is_exhausted() {
    let mut stack = Stack::new();
    assert!(matches!(eval_within(num(1), &mut stack, 0), Err(EvalError::Exhausted)));
    assert!(BUDGET >= 3);
}

#[test]
fn runaway_recursion_is_exhausted() {
    let mut stack = Stack::new();
    let omega = lambda("x", list(vec![sym("x"), sym("x")]));
    let form = list(vec![omega.clone(), omega]);
    assert!(matches!(eval_within(form, &mut stack, 40), Err(EvalError::Exhausted)));
}

#[test]
fn lookup_records_the_reference_site() {
    let mut stack = Stack::new();
    let defined = Meta::at(span_at(0));
    stack.assign("x".to_string(), Expr::Int(Int::new(5, defined)));
    let site = Meta::at(span_at(10));
    let r = eval(Expr::Symbol(Symbol::new("x".to_string(), site)), &mut stack).unwrap();
    match r {
        Expr::Int(i) => {
            assert_eq!(i.meta.span, Some(span_at(0)));
            let old = i.meta.old.expect("the reference site is recorded");
            assert_eq!(old.span, Some(span_at(10)));
        }
        other => panic!("unexpected {:?}", other),
    }
    // The binding itself is unchanged.
    match stack.lookup(&"x".to_string()).unwrap() {
        Expr::Int(i) => assert!(i.meta.old.is_none()),
        other => panic!("unexpected {:?}", other),
    }
}
