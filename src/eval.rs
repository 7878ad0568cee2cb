//! Evaluation: macro expansion to a fixpoint, then evaluation proper.
//!
//! Every evaluation step runs within a nesting budget, so that evaluation
//! provably ends: a form nested deeper than the budget allows fails with
//! `Exhausted`. [`eval`] imposes no bound of its own (its budget is
//! `u64::MAX`); a caller that needs one passes it to [`eval_within`].
use vstd::prelude::*;
use crate::exprs::{Expr, Fun, List, Meta, Sexp, Special, Symbol, alike, lemma_alike_refl,
    lemma_list_view, meta_with_old, views};
use crate::stack::{Env, Stack, lemma_checkpoint_rollback};

verus! {

/// Why evaluation failed.
#[derive(Debug)]
pub enum EvalError {
    /// A `lambda` whose parameter is not a symbol.
    BadParameter(Expr),
    /// A special form given too few operands: the form, and how many more it needs.
    MissingArguments(Expr, usize),
    /// A special form given too many operands: the form, and the surplus.
    ExtraArguments(Expr, Vec<Expr>),
    /// A call of a value that cannot be called: the value, and the call.
    NotCallable(Expr, Expr),
    /// A name with no binding.
    UnknownBinding(String),
    /// A macro value that was evaluated rather than expanded.
    UnexpandedMacro(Expr),
    /// A special form that has no meaning here: `unquote` outside a quasiquote.
    Unsupported(Expr),
    /// `leave` without a matching `enter`.
    StackUnderflow,
    /// The nesting budget ran out before evaluation finished.
    Exhausted,
}

/// The mathematical value of an [`EvalError`].
pub enum Fault {
    BadParameter(Sexp),
    MissingArguments(Sexp, nat),
    ExtraArguments(Sexp, Seq<Sexp>),
    NotCallable(Sexp, Sexp),
    UnknownBinding(Seq<char>),
    UnexpandedMacro(Sexp),
    Unsupported(Sexp),
    StackUnderflow,
    Exhausted,
}

impl EvalError {
    pub open spec fn view(&self) -> Fault {
        match self {
            EvalError::BadParameter(e) => Fault::BadParameter(e@),
            EvalError::MissingArguments(e, n) => Fault::MissingArguments(e@, *n as nat),
            EvalError::ExtraArguments(e, v) => Fault::ExtraArguments(e@, views(v@)),
            EvalError::NotCallable(e, s) => Fault::NotCallable(e@, s@),
            EvalError::UnknownBinding(n) => Fault::UnknownBinding(n@),
            EvalError::UnexpandedMacro(e) => Fault::UnexpandedMacro(e@),
            EvalError::Unsupported(e) => Fault::Unsupported(e@),
            EvalError::StackUnderflow => Fault::StackUnderflow,
            EvalError::Exhausted => Fault::Exhausted,
        }
    }
}

/// The mathematical value of an evaluation result.
pub open spec fn outcome(r: Result<Expr, EvalError>) -> Result<Sexp, Fault> {
    match r {
        Ok(e) => Ok(e@),
        Err(f) => Err(f@),
    }
}

/// `v` with `site` added to the end of its provenance chain.
pub open spec fn with_site(v: Sexp, site: Meta) -> Sexp {
    match v {
        Sexp::Nil => Sexp::Nil,
        Sexp::Int(i, m) => Sexp::Int(i, meta_with_old(m, site)),
        Sexp::Symbol(n, m) => Sexp::Symbol(n, meta_with_old(m, site)),
        Sexp::List(xs, m) => Sexp::List(xs, meta_with_old(m, site)),
        Sexp::Table(xs, m) => Sexp::Table(xs, meta_with_old(m, site)),
        Sexp::Fun(p, pm, b, m) => Sexp::Fun(p, pm, b, meta_with_old(m, site)),
        Sexp::Macro(p, pm, b, m) => Sexp::Macro(p, pm, b, meta_with_old(m, site)),
        Sexp::Special(k, m) => Sexp::Special(k, meta_with_old(m, site)),
    }
}

/// Evaluate `e` in `env` with a nesting budget of `fuel`: expand macros to
/// a fixpoint, then evaluate what results.
pub open spec fn eval_spec(e: Sexp, env: Env, fuel: nat) -> Result<Sexp, Fault>
    decreases fuel, 0nat,
{
    if fuel == 0 {
        Err(Fault::Exhausted)
    } else {
        match expand_spec(e, env, (fuel - 1) as nat) {
            Ok(x) => form_spec(x, env, (fuel - 1) as nat),
            Err(f) => Err(f),
        }
    }
}

/// Expand `e` once at a time until an expansion is alike to what it expanded.
pub open spec fn expand_spec(e: Sexp, env: Env, fuel: nat) -> Result<Sexp, Fault>
    decreases fuel, 0nat,
{
    if fuel == 0 {
        Err(Fault::Exhausted)
    } else {
        match expand_once_spec(e, env, (fuel - 1) as nat) {
            Ok(x) => if alike(x, e) {
                Ok(x)
            } else {
                expand_spec(x, env, (fuel - 1) as nat)
            },
            Err(f) => Err(f),
        }
    }
}

/// The macro that a call's head names: a macro value, or a symbol bound to
/// one; `Nil` when it names none.
pub open spec fn macro_of(head: Sexp, env: Env) -> Sexp {
    if head is Macro {
        head
    } else if head is Symbol && env.contains_key(head->Symbol_0) && env[head->Symbol_0] is Macro {
        env[head->Symbol_0]
    } else {
        Sexp::Nil
    }
}

/// One expansion: a list headed by a macro becomes what the macro's body
/// gives with its parameter bound to the rest of the list, unevaluated;
/// anything else stays as it is.
pub open spec fn expand_once_spec(e: Sexp, env: Env, fuel: nat) -> Result<Sexp, Fault>
    decreases fuel, 1nat,
{
    match e {
        Sexp::List(xs, m) => if xs.len() > 0 && macro_of(xs[0], env) is Macro {
            let mac = macro_of(xs[0], env);
            eval_spec(*mac->Macro_2, env.insert(mac->Macro_0, Sexp::List(xs.drop_first(), m)), fuel)
        } else {
            Ok(e)
        },
        _ => Ok(e),
    }
}

/// Evaluation proper of an expanded expression.
pub open spec fn form_spec(x: Sexp, env: Env, fuel: nat) -> Result<Sexp, Fault>
    decreases fuel, 3nat,
{
    match x {
        Sexp::Symbol(n, m) => if env.contains_key(n) {
            Ok(with_site(env[n], m))
        } else {
            Err(Fault::UnknownBinding(n))
        },
        Sexp::Macro(..) => Err(Fault::UnexpandedMacro(x)),
        Sexp::List(xs, _) => if xs.len() == 0 {
            Ok(x)
        } else {
            match eval_spec(xs[0], env, fuel) {
                Ok(h) => if h is Special {
                    special_spec(h, xs.drop_first(), x, env, fuel)
                } else {
                    apply_spec(h, xs.drop_first(), x, env, fuel)
                },
                Err(f) => Err(f),
            }
        },
        _ => Ok(x),
    }
}

/// Curried application: evaluate each argument in turn and call the callee
/// on it; the result is the callee of the next argument.
pub open spec fn apply_spec(callee: Sexp, args: Seq<Sexp>, site: Sexp, env: Env, fuel: nat) -> Result<Sexp, Fault>
    decreases fuel, 2nat, args.len(),
{
    if args.len() == 0 {
        Ok(callee)
    } else {
        match eval_spec(args[0], env, fuel) {
            Ok(v) => match call_spec(callee, v, site, env, fuel) {
                Ok(r) => apply_spec(r, args.drop_first(), site, env, fuel),
                Err(f) => Err(f),
            },
            Err(f) => Err(f),
        }
    }
}

/// Call `callee` on the evaluated argument `arg`: a function's body is
/// evaluated with its parameter bound to `arg`.
pub open spec fn call_spec(callee: Sexp, arg: Sexp, site: Sexp, env: Env, fuel: nat) -> Result<Sexp, Fault>
    decreases fuel, 1nat,
{
    match callee {
        Sexp::Fun(p, _, body, _) => eval_spec(*body, env.insert(p, arg), fuel),
        _ => Err(Fault::NotCallable(callee, site)),
    }
}

/// A special form `sp` applied to its raw operands `args`, in the call `site`.
pub open spec fn special_spec(sp: Sexp, args: Seq<Sexp>, site: Sexp, env: Env, fuel: nat) -> Result<Sexp, Fault>
    decreases fuel, 1nat,
{
    let n = args.len();
    match sp->Special_0 {
        Special::Quote | Special::Quasiquote => if n == 0 {
            Err(Fault::MissingArguments(sp, 1))
        } else if n > 1 {
            Err(Fault::ExtraArguments(sp, args.subrange(1, n as int)))
        } else {
            Ok(args[0])
        },
        Special::Unquote => Err(Fault::Unsupported(sp)),
        Special::The => if n < 2 {
            Err(Fault::MissingArguments(sp, (2 - n) as nat))
        } else if n > 2 {
            Err(Fault::ExtraArguments(sp, args.subrange(2, n as int)))
        } else {
            match eval_spec(args[0], env, fuel) {
                Ok(_) => eval_spec(args[1], env, fuel),
                Err(f) => Err(f),
            }
        },
        Special::Lambda => if n == 0 {
            Err(Fault::MissingArguments(sp, 2))
        } else if !(args[0] is Symbol) {
            Err(Fault::BadParameter(args[0]))
        } else if n == 1 {
            Err(Fault::MissingArguments(sp, 1))
        } else if n > 2 {
            Err(Fault::ExtraArguments(sp, args.subrange(2, n as int)))
        } else {
            Ok(Sexp::Fun(args[0]->Symbol_0, args[0]->Symbol_1, Box::new(args[1]), site->List_1))
        },
    }
}

/// Quoting gives back its operand unevaluated, whatever the bindings: with
/// a budget of three nesting levels or more, `(quote x)` evaluates to `x`.
pub proof fn lemma_quote(x: Sexp, quote_meta: Meta, meta: Meta, env: Env, fuel: nat)
    requires
        fuel >= 3,
    ensures
        eval_spec(Sexp::List(seq![Sexp::Special(Special::Quote, quote_meta), x], meta), env, fuel)
            == Ok::<Sexp, Fault>(x),
{
    let sp = Sexp::Special(Special::Quote, quote_meta);
    let e = Sexp::List(seq![sp, x], meta);
    lemma_alike_refl(e);
    lemma_alike_refl(sp);
    assert(expand_once_spec(e, env, (fuel - 2) as nat) == Ok::<Sexp, Fault>(e));
    assert(expand_spec(e, env, (fuel - 1) as nat) == Ok::<Sexp, Fault>(e));
    assert(expand_once_spec(sp, env, (fuel - 3) as nat) == Ok::<Sexp, Fault>(sp));
    assert(expand_spec(sp, env, (fuel - 2) as nat) == Ok::<Sexp, Fault>(sp));
    assert(eval_spec(sp, env, (fuel - 1) as nat) == Ok::<Sexp, Fault>(sp));
    assert(seq![sp, x].drop_first() =~= seq![x]);
    assert(special_spec(sp, seq![x], e, env, (fuel - 1) as nat) == Ok::<Sexp, Fault>(x));
    assert(form_spec(e, env, (fuel - 1) as nat) == Ok::<Sexp, Fault>(x));
}

/// Expansion stops at the first expansion that is alike to what it
/// expanded, and gives that expansion: a macro call that expands to an
/// equal call takes exactly one expansion step.
pub proof fn lemma_expansion_fixpoint(e: Sexp, env: Env, fuel: nat, x: Sexp)
    requires
        expand_once_spec(e, env, fuel) == Ok::<Sexp, Fault>(x),
        alike(x, e),
    ensures
        expand_spec(e, env, fuel + 1) == Ok::<Sexp, Fault>(x),
{
}

/// Evaluating a macro call whose one expansion is alike to the call
/// expands it exactly once, and goes on to evaluate that expansion.
pub proof fn lemma_eval_expansion_fixpoint(e: Sexp, env: Env, fuel: nat, x: Sexp)
    requires
        expand_once_spec(e, env, fuel) == Ok::<Sexp, Fault>(x),
        alike(x, e),
    ensures
        eval_spec(e, env, fuel + 2) == form_spec(x, env, fuel + 1),
{
    lemma_expansion_fixpoint(e, env, fuel, x);
}

/// The nesting budget of [`eval`]: as large as it can be, so that in
/// practice only the input's own nesting limits evaluation.
pub const BUDGET: u64 = 0xffff_ffff_ffff_ffff;

/// Add `site` to the end of the provenance chain of `e`.
fn add_site(e: &mut Expr, site: Meta)
    ensures
        final(e)@ == with_site(old(e)@, site),
{
    proof {
        broadcast use lemma_list_view, crate::exprs::lemma_table_view;
    }
    match e {
        Expr::Nil => {},
        Expr::Int(i) => i.meta.push_old(site),
        Expr::Symbol(s) => s.meta.push_old(site),
        Expr::List(l) => l.meta.push_old(site),
        Expr::Table(t) => t.meta.push_old(site),
        Expr::Fun(f) => f.meta.push_old(site),
        Expr::Macro(f) => f.meta.push_old(site),
        Expr::Special { meta, .. } => meta.push_old(site),
    }
}

/// Copies of `values[from..]`.
fn copy_from(values: &Vec<Expr>, from: usize) -> (r: Vec<Expr>)
    requires
        from <= values@.len(),
    ensures
        views(r@) == views(values@).subrange(from as int, values@.len() as int),
{
    let mut r: Vec<Expr> = Vec::new();
    let mut k = from;
    while k < values.len()
        invariant
            from <= k <= values@.len(),
            views(r@) == views(values@).subrange(from as int, k as int),
        decreases values@.len() - k,
    {
        let ghost before = r@;
        let d = values[k].duplicate();
        r.push(d);
        assert(views(r@) =~= views(before).push(d@));
        assert(views(values@).subrange(from as int, k + 1) =~= views(values@).subrange(from as int, k as int).push(values@[k as int]@));
        k = k + 1;
    }
    r
}

/// Evaluate `e` in `stack` with the nesting budget `fuel`. The stack is
/// left as it was.
fn eval_ref(e: &Expr, stack: &mut Stack, fuel: u64) -> (r: Result<Expr, EvalError>)
    ensures
        final(stack)@ == old(stack)@,
        outcome(r) == eval_spec(e@, old(stack)@.env, fuel as nat),
    decreases fuel, 0nat,
{
    if fuel == 0 {
        return Err(EvalError::Exhausted);
    }
    match expand(e, stack, fuel - 1) {
        Ok(None) => form(e, stack, fuel - 1),
        Ok(Some(x)) => form(&x, stack, fuel - 1),
        Err(f) => Err(f),
    }
}

/// Expand `e` to a fixpoint; `None` when `e` expands to itself.
fn expand(e: &Expr, stack: &mut Stack, fuel: u64) -> (r: Result<Option<Expr>, EvalError>)
    ensures
        final(stack)@ == old(stack)@,
        match r {
            Ok(None) => expand_spec(e@, old(stack)@.env, fuel as nat) == Ok::<Sexp, Fault>(e@),
            Ok(Some(x)) => expand_spec(e@, old(stack)@.env, fuel as nat) == Ok::<Sexp, Fault>(x@),
            Err(f) => expand_spec(e@, old(stack)@.env, fuel as nat) == Err::<Sexp, Fault>(f@),
        },
    decreases fuel, 0nat,
{
    if fuel == 0 {
        return Err(EvalError::Exhausted);
    }
    match expand_once(e, stack, fuel - 1) {
        Ok(None) => {
            proof {
                lemma_alike_refl(e@);
            }
            Ok(None)
        },
        Ok(Some(x)) => {
            if x.alike(e) {
                Ok(Some(x))
            } else {
                match expand(&x, stack, fuel - 1) {
                    Ok(None) => Ok(Some(x)),
                    Ok(Some(y)) => Ok(Some(y)),
                    Err(f) => Err(f),
                }
            }
        },
        Err(f) => Err(f),
    }
}

/// Expand `e` once; `None` when `e` is not a macro call.
fn expand_once(e: &Expr, stack: &mut Stack, fuel: u64) -> (r: Result<Option<Expr>, EvalError>)
    ensures
        final(stack)@ == old(stack)@,
        match r {
            Ok(None) => expand_once_spec(e@, old(stack)@.env, fuel as nat) == Ok::<Sexp, Fault>(e@),
            Ok(Some(x)) => expand_once_spec(e@, old(stack)@.env, fuel as nat) == Ok::<Sexp, Fault>(x@),
            Err(f) => expand_once_spec(e@, old(stack)@.env, fuel as nat) == Err::<Sexp, Fault>(f@),
        },
    decreases fuel, 1nat,
{
    proof {
        broadcast use lemma_list_view;
    }
    match e {
        Expr::List(l) => {
            if l.values.len() == 0 {
                return Ok(None);
            }
            let mac: Option<Expr> = match &l.values[0] {
                Expr::Macro(_) => Some(l.values[0].duplicate()),
                Expr::Symbol(s) => match stack.lookup(&s.name) {
                    Ok(v) => match v {
                        Expr::Macro(_) => Some(v),
                        _ => None,
                    },
                    Err(_) => None,
                },
                _ => None,
            };
            match mac {
                Some(Expr::Macro(m)) => {
                    let ghost env = stack@.env;
                    let rest = copy_from(&l.values, 1);
                    let arg = Expr::List(List { values: rest, meta: l.meta.clone() });
                    assert(views(l.values@).drop_first() =~= views(l.values@).subrange(1, l.values@.len() as int));
                    proof {
                        lemma_checkpoint_rollback(stack@, m.param.name@, arg@);
                    }
                    stack.enter();
                    stack.assign(m.param.name, arg);
                    let r = eval_ref(&m.body, stack, fuel);
                    match stack.leave() {
                        Ok(()) => match r {
                            Ok(x) => Ok(Some(x)),
                            Err(f) => Err(f),
                        },
                        Err(f) => Err(f),
                    }
                },
                _ => Ok(None),
            }
        },
        _ => Ok(None),
    }
}

/// Evaluation proper of an expanded expression.
fn form(x: &Expr, stack: &mut Stack, fuel: u64) -> (r: Result<Expr, EvalError>)
    ensures
        final(stack)@ == old(stack)@,
        outcome(r) == form_spec(x@, old(stack)@.env, fuel as nat),
    decreases fuel, 3nat,
{
    proof {
        broadcast use lemma_list_view;
    }
    match x {
        Expr::Symbol(s) => match stack.lookup(&s.name) {
            Ok(v) => {
                let mut v = v;
                add_site(&mut v, s.meta.clone());
                Ok(v)
            },
            Err(f) => Err(f),
        },
        Expr::Macro(_) => Err(EvalError::UnexpandedMacro(x.duplicate())),
        Expr::List(l) => {
            if l.values.len() == 0 {
                return Ok(x.duplicate());
            }
            assert(views(l.values@).drop_first() =~= views(l.values@).subrange(1, l.values@.len() as int));
            match eval_ref(&l.values[0], stack, fuel) {
                Ok(h) => match h {
                    Expr::Special { .. } => special(h, &l.values, x, stack, fuel),
                    _ => apply(h, &l.values, x, stack, fuel),
                },
                Err(f) => Err(f),
            }
        },
        _ => Ok(x.duplicate()),
    }
}

/// Apply `callee` to `values[1..]` in turn.
fn apply(callee: Expr, values: &Vec<Expr>, site: &Expr, stack: &mut Stack, fuel: u64) -> (r: Result<Expr, EvalError>)
    requires
        values@.len() >= 1,
    ensures
        final(stack)@ == old(stack)@,
        outcome(r) == apply_spec(callee@, views(values@).subrange(1, values@.len() as int), site@,
            old(stack)@.env, fuel as nat),
    decreases fuel, 2nat,
{
    let ghost env = stack@.env;
    let ghost goal = apply_spec(callee@, views(values@).subrange(1, values@.len() as int), site@, env, fuel as nat);
    let mut f = callee;
    let mut k: usize = 1;
    while k < values.len()
        invariant
            1 <= k <= values@.len(),
            stack@ == old(stack)@,
            env == old(stack)@.env,
            goal == apply_spec(callee@, views(values@).subrange(1, values@.len() as int), site@, env, fuel as nat),
            apply_spec(f@, views(values@).subrange(k as int, values@.len() as int), site@, env, fuel as nat) == goal,
        decreases values@.len() - k,
    {
        let ghost rest = views(values@).subrange(k as int, values@.len() as int);
        assert(rest.drop_first() =~= views(values@).subrange(k + 1, values@.len() as int));
        assert(rest[0] == values@[k as int]@);
        let ar = eval_ref(&values[k], stack, fuel);
        let a = match ar {
            Ok(a) => a,
            Err(e) => return Err(e),
        };
        f = match call(f, a, site, stack, fuel) {
            Ok(g) => g,
            Err(e) => return Err(e),
        };
        k = k + 1;
    }
    Ok(f)
}

/// Call `callee` on the evaluated argument `arg`, in the call `site`.
fn call(callee: Expr, arg: Expr, site: &Expr, stack: &mut Stack, fuel: u64) -> (r: Result<Expr, EvalError>)
    ensures
        final(stack)@ == old(stack)@,
        outcome(r) == call_spec(callee@, arg@, site@, old(stack)@.env, fuel as nat),
    decreases fuel, 1nat,
{
    match callee {
        Expr::Fun(f) => {
            proof {
                lemma_checkpoint_rollback(stack@, f.param.name@, arg@);
            }
            stack.enter();
            stack.assign(f.param.name, arg);
            let r = eval_ref(&f.body, stack, fuel);
            match stack.leave() {
                Ok(()) => r,
                Err(e) => Err(e),
            }
        },
        other => Err(EvalError::NotCallable(other, site.duplicate())),
    }
}

/// The special form `sp` applied to the raw operands `values[1..]`, in the call `site`.
fn special(sp: Expr, values: &Vec<Expr>, site: &Expr, stack: &mut Stack, fuel: u64) -> (r: Result<Expr, EvalError>)
    requires
        sp is Special,
        site@ is List,
        values@.len() >= 1,
    ensures
        final(stack)@ == old(stack)@,
        outcome(r) == special_spec(sp@, views(values@).subrange(1, values@.len() as int), site@,
            old(stack)@.env, fuel as nat),
    decreases fuel, 1nat,
{
    proof {
        broadcast use lemma_list_view;
    }
    let ghost args = views(values@).subrange(1, values@.len() as int);
    let n = values.len() - 1;
    let kind = match &sp {
        Expr::Special { kind, .. } => *kind,
        _ => Special::Quote,
    };
    match kind {
        Special::Quote | Special::Quasiquote => {
            if n == 0 {
                Err(EvalError::MissingArguments(sp, 1))
            } else if n > 1 {
                let surplus = copy_from(values, 2);
                assert(views(surplus@) =~= args.subrange(1, n as int));
                Err(EvalError::ExtraArguments(sp, surplus))
            } else {
                Ok(values[1].duplicate())
            }
        },
        Special::Unquote => Err(EvalError::Unsupported(sp)),
        Special::The => {
            if n < 2 {
                Err(EvalError::MissingArguments(sp, 2 - n))
            } else if n > 2 {
                let surplus = copy_from(values, 3);
                assert(views(surplus@) =~= args.subrange(2, n as int));
                Err(EvalError::ExtraArguments(sp, surplus))
            } else {
                match eval_ref(&values[1], stack, fuel) {
                    Ok(_) => eval_ref(&values[2], stack, fuel),
                    Err(f) => Err(f),
                }
            }
        },
        Special::Lambda => {
            if n == 0 {
                return Err(EvalError::MissingArguments(sp, 2));
            }
            match &values[1] {
                Expr::Symbol(param) => {
                    if n == 1 {
                        Err(EvalError::MissingArguments(sp, 1))
                    } else if n > 2 {
                        let surplus = copy_from(values, 3);
                        assert(views(surplus@) =~= args.subrange(2, n as int));
                        Err(EvalError::ExtraArguments(sp, surplus))
                    } else {
                        let meta = match site {
                            Expr::List(l) => l.meta.clone(),
                            _ => Meta::none(),
                        };
                        let body = values[2].duplicate();
                        Ok(Expr::Fun(Fun { param: param.clone(), body: Box::new(body), meta }))
                    }
                },
                _ => Err(EvalError::BadParameter(values[1].duplicate())),
            }
        },
    }
}

/// Evaluate `expr` in `stack` within the nesting budget `fuel`. The stack
/// is left as it was.
pub fn eval_within(expr: Expr, stack: &mut Stack, fuel: u64) -> (r: Result<Expr, EvalError>)
    ensures
        final(stack)@ == old(stack)@,
        outcome(r) == eval_spec(expr@, old(stack)@.env, fuel as nat),
{
    eval_ref(&expr, stack, fuel)
}

/// Evaluate `expr` in `stack` within the nesting budget [`BUDGET`]. The
/// stack is left as it was.
pub fn eval(expr: Expr, stack: &mut Stack) -> (r: Result<Expr, EvalError>)
    ensures
        final(stack)@ == old(stack)@,
        outcome(r) == eval_spec(expr@, old(stack)@.env, BUDGET as nat),
{
    eval_ref(&expr, stack, BUDGET)
}

} // verus!
