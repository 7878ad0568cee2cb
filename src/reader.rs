//! Reading: forms into expressions, with every piece of surface syntax
//! turned into a plain application list.
use vstd::prelude::*;
use crate::spans::Span;
use crate::tokens::{Paren, Prefix};
use crate::exprs::{Expr, Int, List, Meta, Sexp, Special, Symbol, alike, lemma_list_view, views};
use crate::forms::{Form, Group, Macro, Tree, lemma_group_view, tree_span, trees};

verus! {

/// Why a form could not be read. No form of the grammar gives one today:
/// the variant stands for a malformed map, should map sugar ever check its
/// arity.
#[derive(Debug)]
pub enum ReadError {
    UnbalancedMap(Group),
}

pub open spec fn meta_at(span: Span) -> Meta {
    Meta { span: Some(span), old: None }
}

/// The special form that a prefix reads as.
pub open spec fn prefix_special(p: Prefix) -> Special {
    match p {
        Prefix::HasType => Special::The,
        Prefix::Lambda => Special::Lambda,
        Prefix::Quasiquote => Special::Quasiquote,
        Prefix::Quote => Special::Quote,
        Prefix::Unquote => Special::Unquote,
    }
}

/// The name that heads the list a bracket reads as, if any: `map` for
/// braces, `list` for square brackets.
pub open spec fn bracket_head(p: Paren) -> Option<Seq<char>> {
    match p {
        Paren::Paren => None,
        Paren::Brace => Some(seq!['m', 'a', 'p']),
        Paren::Square => Some(seq!['l', 'i', 's', 't']),
    }
}

/// What a form reads as. An integer or a symbol reads as itself. A group
/// reads as the list of what its forms read as, headed by `map` or `list`
/// for braces and square brackets. A prefix reads as a list of its special
/// form and what its operands read as.
pub open spec fn read_spec(t: Tree) -> Sexp
    decreases t,
{
    match t {
        Tree::Int(v, s) => Sexp::Int(v, meta_at(s)),
        Tree::Symbol(n, s) => Sexp::Symbol(n, meta_at(s)),
        Tree::Group(p, o, c, kids) => {
            let body = Seq::new(kids.len(), |i: int|
                if 0 <= i < kids.len() { read_spec(kids[i]) } else { Sexp::Nil });
            let vals = match bracket_head(p) {
                None => body,
                Some(h) => seq![Sexp::Symbol(h, meta_at(o))] + body,
            };
            Sexp::List(vals, meta_at(Span { start: o.start, end: c.end }))
        },
        Tree::Macro(p, s, ops) => {
            let body = Seq::new(ops.len(), |i: int|
                if 0 <= i < ops.len() { read_spec(ops[i]) } else { Sexp::Nil });
            Sexp::List(seq![Sexp::Special(prefix_special(p), meta_at(s))] + body, meta_at(tree_span(t)))
        },
    }
}

/// Read the forms `kids` into the end of `vals`.
fn read_all(kids: &Vec<Form>, vals: &mut Vec<Expr>, Ghost(whole): Ghost<&Form>)
    requires
        forall|i: int| 0 <= i < kids@.len() ==> decreases_to!(*whole => kids@[i]),
    ensures
        views(final(vals)@) == views(old(vals)@) + Seq::new(kids@.len(), |i: int| read_spec(kids@[i]@)),
    decreases *whole, 0nat,
{
    let ghost start = vals@;
    let mut k: usize = 0;
    while k < kids.len()
        invariant
            forall|i: int| 0 <= i < kids@.len() ==> decreases_to!(*whole => kids@[i]),
            k <= kids@.len(),
            views(vals@) == views(start) + Seq::new(k as nat, |i: int| read_spec(kids@[i]@)),
        decreases kids@.len() - k,
    {
        let ghost before = vals@;
        let e = read_form(&kids[k]);
        vals.push(e);
        assert(views(vals@) =~= views(before).push(e@));
        assert(views(vals@) =~= views(start) + Seq::new((k + 1) as nat, |i: int| read_spec(kids@[i]@)));
        k = k + 1;
    }
}

/// What `form` reads as.
fn read_form(form: &Form) -> (r: Expr)
    ensures
        r@ == read_spec(form@),
    decreases *form, 1nat,
{
    proof {
        broadcast use lemma_list_view, lemma_group_view;
    }
    match form {
        Form::Int(i) => Expr::Int(Int::new(i.inner, Meta::at(i.span))),
        Form::Symbol(s) => Expr::Symbol(Symbol::new(s.inner.clone(), Meta::at(s.span))),
        Form::Group(g) => {
            let mut vals: Vec<Expr> = Vec::new();
            match g.open.inner {
                Paren::Paren => {},
                Paren::Brace => {
                    let name = "map".to_owned();
                    proof {
                        reveal_strlit("map");
                    }
                    assert(name@ == seq!['m', 'a', 'p']);
                    vals.push(Expr::Symbol(Symbol::new(name, Meta::at(g.open.span))));
                },
                Paren::Square => {
                    let name = "list".to_owned();
                    proof {
                        reveal_strlit("list");
                    }
                    assert(name@ == seq!['l', 'i', 's', 't']);
                    vals.push(Expr::Symbol(Symbol::new(name, Meta::at(g.open.span))));
                },
            }
            proof {
                assert forall|i: int| 0 <= i < g.vals@.len() implies decreases_to!(*form => g.vals@[i]) by {
                    vstd::std_specs::vec::axiom_vec_index_decreases(g.vals, i);
                }
            }
            let ghost prefix = views(vals@);
            read_all(&g.vals, &mut vals, Ghost(form));
            let ghost kids = trees(g.vals@);
            let ghost body = Seq::new(kids.len(), |i: int|
                if 0 <= i < kids.len() { read_spec(kids[i]) } else { Sexp::Nil });
            assert(Seq::new(g.vals@.len(), |i: int| read_spec(g.vals@[i]@)) =~= body);
            let span = g.span();
            let r = List { values: vals, meta: Meta::at(span) };
            proof {
                lemma_list_view(r);
                let rd = read_spec(form@)->List_0;
                match g.open.inner {
                    Paren::Paren => {
                        assert(views(r.values@) =~= body);
                        assert(rd =~= body);
                    },
                    _ => {
                        assert(views(r.values@) =~= prefix + body);
                        assert(rd =~= prefix + body);
                    },
                }
            }
            Expr::List(r)
        },
        Form::Macro(m) => {
            let span = form.span();
            let mut vals: Vec<Expr> = Vec::new();
            match m {
                Macro::HasType(p, t, v) => {
                    vals.push(Expr::Special { kind: Special::The, meta: Meta::at(p.span) });
                    vals.push(read_form(t));
                    vals.push(read_form(v));
                },
                Macro::Lambda(p, f) => {
                    vals.push(Expr::Special { kind: Special::Lambda, meta: Meta::at(p.span) });
                    vals.push(read_form(f));
                },
                Macro::Quasiquote(p, f) => {
                    vals.push(Expr::Special { kind: Special::Quasiquote, meta: Meta::at(p.span) });
                    vals.push(read_form(f));
                },
                Macro::Quote(p, f) => {
                    vals.push(Expr::Special { kind: Special::Quote, meta: Meta::at(p.span) });
                    vals.push(read_form(f));
                },
                Macro::Unquote(p, f) => {
                    vals.push(Expr::Special { kind: Special::Unquote, meta: Meta::at(p.span) });
                    vals.push(read_form(f));
                },
            }
            let r = List { values: vals, meta: Meta::at(span) };
            proof {
                lemma_list_view(r);
                let ops = form@->Macro_2;
                let body = Seq::new(ops.len(), |i: int|
                    if 0 <= i < ops.len() { read_spec(ops[i]) } else { Sexp::Nil });
                assert(views(r.values@) =~= read_spec(form@)->List_0);
            }
            Expr::List(r)
        },
    }
}

/// Reading a literal depends on nothing but its value: integer or symbol
/// forms with equal values read as expressions that are alike, and equal
/// forms read as equal expressions.
pub proof fn lemma_read_literal(a: Tree, b: Tree)
    requires
        (a is Int && b is Int && a->Int_0 == b->Int_0) || (a is Symbol && b is Symbol && a->Symbol_0
            == b->Symbol_0),
    ensures
        alike(read_spec(a), read_spec(b)),
        a == b ==> read_spec(a) == read_spec(b),
{
}

/// What `form` reads as; reading never fails on a form of the grammar.
pub fn read(form: Form) -> (r: Result<Expr, ReadError>)
    ensures
        r matches Ok(e) && e@ == read_spec(form@),
{
    Ok(read_form(&form))
}

} // verus!
