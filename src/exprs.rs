//! The expression model that reading produces and evaluation consumes.
use vstd::prelude::*;
use crate::spans::Span;

verus! {

/// The special forms. They are first-class values: evaluation dispatches on a
/// `Special` value wherever it came from, never on the text of a name.
#[derive(Clone, Copy, Debug, PartialEq, Eq, Hash, Structural)]
pub enum Special {
    Lambda,
    Quasiquote,
    Quote,
    The,
    Unquote,
}

/// Provenance of a value: where it was written, and the provenance it had
/// before it was looked up somewhere else.
#[derive(Debug)]
pub struct Meta {
    pub span: Option<Span>,
    pub old: Option<Box<Meta>>,
}

/// `m` with `site` added at the end of its chain of earlier provenance.
pub open spec fn meta_with_old(m: Meta, site: Meta) -> Meta
    decreases m,
{
    match m.old {
        None => Meta { span: m.span, old: Some(Box::new(site)) },
        Some(b) => Meta { span: m.span, old: Some(Box::new(meta_with_old(*b, site))) },
    }
}

impl Meta {
    /// Provenance that records nothing.
    pub fn none() -> (r: Meta)
        ensures
            r == (Meta { span: None, old: None }),
    {
        Meta { span: None, old: None }
    }

    /// Provenance of a value written at `span`.
    pub fn at(span: Span) -> (r: Meta)
        ensures
            r == (Meta { span: Some(span), old: None }),
    {
        Meta { span: Some(span), old: None }
    }

    /// Add `site` at the end of the chain of earlier provenance.
    pub fn push_old(&mut self, site: Meta)
        ensures
            *final(self) == meta_with_old(*old(self), site),
        decreases *old(self),
    {
        match &mut self.old {
            None => {
                self.old = Some(Box::new(site));
            },
            Some(b) => {
                b.push_old(site);
            },
        }
    }
}

impl Clone for Meta {
    fn clone(&self) -> (r: Meta)
        ensures
            r == *self,
        decreases *self,
    {
        match &self.old {
            None => Meta { span: self.span, old: None },
            Some(b) => {
                let inner: Meta = (**b).clone();
                Meta { span: self.span, old: Some(Box::new(inner)) }
            },
        }
    }
}

/// A name, with where it was written.
#[derive(Debug)]
pub struct Symbol {
    pub name: String,
    pub meta: Meta,
}

impl Symbol {
    pub fn new(name: String, meta: Meta) -> (r: Symbol)
        ensures
            r.name@ == name@,
            r.meta == meta,
    {
        Symbol { name, meta }
    }
}

impl Clone for Symbol {
    fn clone(&self) -> (r: Symbol)
        ensures
            r.name@ == self.name@,
            r.meta == self.meta,
    {
        Symbol { name: self.name.clone(), meta: self.meta.clone() }
    }
}

/// An integer, with where it was written.
#[derive(Debug)]
pub struct Int {
    pub value: i64,
    pub meta: Meta,
}

impl Int {
    pub fn new(value: i64, meta: Meta) -> (r: Int)
        ensures
            r.value == value,
            r.meta == meta,
    {
        Int { value, meta }
    }
}

/// A one-parameter function: its parameter, its body and where it was made.
/// It holds no environment: free names in the body are resolved when it is called.
#[derive(Debug)]
pub struct Fun {
    pub param: Symbol,
    pub body: Box<Expr>,
    pub meta: Meta,
}

/// An ordered sequence of expressions.
#[derive(Debug)]
pub struct List {
    pub values: Vec<Expr>,
    pub meta: Meta,
}

/// One key and its value in a map expression.
#[derive(Debug)]
pub struct Entry {
    pub key: Expr,
    pub value: Expr,
}

/// A mapping from expressions to expressions. [`Table::wf`] states that no
/// two keys are alike; [`Table::new`] and [`Table::insert`] keep it so.
#[derive(Debug)]
pub struct Table {
    pub entries: Vec<Entry>,
    pub meta: Meta,
}

/// An expression: what reading produces and what evaluation takes and returns.
#[derive(Debug)]
pub enum Expr {
    Nil,
    Int(Int),
    Symbol(Symbol),
    List(List),
    Table(Table),
    Fun(Fun),
    Macro(Fun),
    Special { kind: Special, meta: Meta },
}

/// The mathematical value of an [`Expr`]: the same tree, with sequences in
/// place of vectors and character sequences in place of strings.
pub enum Sexp {
    Nil,
    Int(i64, Meta),
    Symbol(Seq<char>, Meta),
    List(Seq<Sexp>, Meta),
    Table(Seq<(Sexp, Sexp)>, Meta),
    /// Parameter name, parameter provenance, body, provenance.
    Fun(Seq<char>, Meta, Box<Sexp>, Meta),
    /// Parameter name, parameter provenance, body, provenance.
    Macro(Seq<char>, Meta, Box<Sexp>, Meta),
    Special(Special, Meta),
}

impl Expr {
    pub open spec fn view(&self) -> Sexp
        decreases self,
    {
        match self {
            Expr::Nil => Sexp::Nil,
            Expr::Int(i) => Sexp::Int(i.value, i.meta),
            Expr::Symbol(s) => Sexp::Symbol(s.name@, s.meta),
            Expr::List(l) => Sexp::List(
                Seq::new(l.values.len() as nat, |i: int|
                    if 0 <= i < l.values.len() { l.values[i].view() } else { Sexp::Nil }),
                l.meta,
            ),
            Expr::Table(t) => Sexp::Table(
                Seq::new(t.entries.len() as nat, |i: int|
                    if 0 <= i < t.entries.len() {
                        (t.entries[i].key.view(), t.entries[i].value.view())
                    } else {
                        (Sexp::Nil, Sexp::Nil)
                    }),
                t.meta,
            ),
            Expr::Fun(f) => Sexp::Fun(f.param.name@, f.param.meta, Box::new(f.body.view()), f.meta),
            Expr::Macro(f) => Sexp::Macro(f.param.name@, f.param.meta, Box::new(f.body.view()), f.meta),
            Expr::Special { kind, meta } => Sexp::Special(*kind, *meta),
        }
    }
}

/// The views of a sequence of expressions.
pub open spec fn views(v: Seq<Expr>) -> Seq<Sexp> {
    v.map_values(|e: Expr| e@)
}

pub broadcast proof fn lemma_list_view(l: List)
    ensures
        #[trigger] Expr::List(l)@ == Sexp::List(views(l.values@), l.meta),
{
    let e = Expr::List(l);
    assert(e@->List_0 =~= views(l.values@));
}

/// The views of a sequence of entries.
pub open spec fn entry_views(v: Seq<Entry>) -> Seq<(Sexp, Sexp)> {
    v.map_values(|e: Entry| (e.key@, e.value@))
}

pub broadcast proof fn lemma_table_view(t: Table)
    ensures
        #[trigger] Expr::Table(t)@ == Sexp::Table(entry_views(t.entries@), t.meta),
{
    let e = Expr::Table(t);
    assert(e@->Table_0 =~= entry_views(t.entries@));
}

impl Clone for Expr {
    fn clone(&self) -> (r: Expr)
        ensures
            r@ == self@,
    {
        self.duplicate()
    }
}

impl Expr {
    /// A copy of this expression, equal to it in every part.
    pub fn duplicate(&self) -> (r: Expr)
        ensures
            r@ == self@,
        decreases self,
    {
        proof {
            broadcast use lemma_list_view, lemma_table_view;
        }
        match self {
            Expr::Nil => Expr::Nil,
            Expr::Int(i) => Expr::Int(Int { value: i.value, meta: i.meta.clone() }),
            Expr::Symbol(s) => Expr::Symbol(s.clone()),
            Expr::List(l) => {
                let mut values: Vec<Expr> = Vec::new();
                let mut k: usize = 0;
                while k < l.values.len()
                    invariant
                        *self == Expr::List(*l),
                        self@ == Sexp::List(views(l.values@), l.meta),
                        k <= l.values@.len(),
                        values@.len() == k,
                        forall|j: int| 0 <= j < k ==> (#[trigger] values@[j])@ == l.values@[j]@,
                    decreases l.values@.len() - k,
                {
                    proof {
                        vstd::std_specs::vec::axiom_vec_index_decreases(l.values, k as int);
                    }
                    values.push(l.values[k].duplicate());
                    k = k + 1;
                }
                let r = List { values, meta: l.meta.clone() };
                proof {
                    lemma_list_view(r);
                    lemma_list_view(*l);
                    assert(views(r.values@) =~= views(l.values@));
                }
                Expr::List(r)
            },
            Expr::Table(t) => {
                let mut entries: Vec<Entry> = Vec::new();
                let mut k: usize = 0;
                while k < t.entries.len()
                    invariant
                        *self == Expr::Table(*t),
                        self@ == Sexp::Table(entry_views(t.entries@), t.meta),
                        k <= t.entries@.len(),
                        entries@.len() == k,
                        forall|j: int| 0 <= j < k ==> (#[trigger] entries@[j]).key@ == t.entries@[j].key@
                            && entries@[j].value@ == t.entries@[j].value@,
                    decreases t.entries@.len() - k,
                {
                    proof {
                        vstd::std_specs::vec::axiom_vec_index_decreases(t.entries, k as int);
                    }
                    let key = t.entries[k].key.duplicate();
                    let value = t.entries[k].value.duplicate();
                    entries.push(Entry { key, value });
                    k = k + 1;
                }
                let r = Table { entries, meta: t.meta.clone() };
                proof {
                    lemma_table_view(r);
                    lemma_table_view(*t);
                    assert(entry_views(r.entries@) =~= entry_views(t.entries@));
                }
                Expr::Table(r)
            },
            Expr::Fun(f) => {
                let body: Expr = f.body.duplicate();
                Expr::Fun(Fun { param: f.param.clone(), body: Box::new(body), meta: f.meta.clone() })
            },
            Expr::Macro(f) => {
                let body: Expr = f.body.duplicate();
                Expr::Macro(Fun { param: f.param.clone(), body: Box::new(body), meta: f.meta.clone() })
            },
            Expr::Special { kind, meta } => Expr::Special { kind: *kind, meta: meta.clone() },
        }
    }
}

impl Expr {
    /// Whether the two are equal but for provenance.
    pub fn alike(&self, other: &Expr) -> (r: bool)
        ensures
            r == alike(self@, other@),
        decreases self,
    {
        match (self, other) {
            (Expr::Nil, Expr::Nil) => true,
            (Expr::Int(x), Expr::Int(y)) => x.value == y.value,
            (Expr::Symbol(x), Expr::Symbol(y)) => x.name == y.name,
            (Expr::List(x), Expr::List(y)) => {
                proof {
                    lemma_list_view(*x);
                    lemma_list_view(*y);
                }
                if x.values.len() != y.values.len() {
                    return false;
                }
                let mut k: usize = 0;
                while k < x.values.len()
                    invariant
                        *self == Expr::List(*x),
                        *other == Expr::List(*y),
                        self@ == Sexp::List(views(x.values@), x.meta),
                        other@ == Sexp::List(views(y.values@), y.meta),
                        x.values@.len() == y.values@.len(),
                        k <= x.values@.len(),
                        forall|j: int| 0 <= j < k ==> alike((#[trigger] x.values@[j])@, y.values@[j]@),
                    decreases x.values@.len() - k,
                {
                    proof {
                        vstd::std_specs::vec::axiom_vec_index_decreases(x.values, k as int);
                    }
                    if !x.values[k].alike(&y.values[k]) {
                        assert(!alike(views(x.values@)[k as int], views(y.values@)[k as int]));
                        return false;
                    }
                    k = k + 1;
                }
                assert(forall|j: int| 0 <= j < x.values@.len() ==>
                    alike(#[trigger] views(x.values@)[j], views(y.values@)[j]));
                true
            },
            (Expr::Table(x), Expr::Table(y)) => {
                proof {
                    lemma_table_view(*x);
                    lemma_table_view(*y);
                }
                if x.entries.len() != y.entries.len() {
                    return false;
                }
                let mut k: usize = 0;
                while k < x.entries.len()
                    invariant
                        *self == Expr::Table(*x),
                        *other == Expr::Table(*y),
                        self@ == Sexp::Table(entry_views(x.entries@), x.meta),
                        other@ == Sexp::Table(entry_views(y.entries@), y.meta),
                        x.entries@.len() == y.entries@.len(),
                        k <= x.entries@.len(),
                        forall|j: int| 0 <= j < k ==> alike((#[trigger] x.entries@[j]).key@, y.entries@[j].key@)
                            && alike(x.entries@[j].value@, y.entries@[j].value@),
                    decreases x.entries@.len() - k,
                {
                    proof {
                        vstd::std_specs::vec::axiom_vec_index_decreases(x.entries, k as int);
                    }
                    let same_key = x.entries[k].key.alike(&y.entries[k].key);
                    let same_value = x.entries[k].value.alike(&y.entries[k].value);
                    if !same_key || !same_value {
                        assert(!alike(self@, other@)) by {
                            if alike(self@, other@) {
                                assert(alike(entry_views(x.entries@)[k as int].0, entry_views(y.entries@)[k as int].0));
                            }
                        }
                        return false;
                    }
                    k = k + 1;
                }
                assert(forall|j: int| 0 <= j < x.entries@.len() ==>
                    alike((#[trigger] entry_views(x.entries@)[j]).0, entry_views(y.entries@)[j].0)
                    && alike(entry_views(x.entries@)[j].1, entry_views(y.entries@)[j].1));
                true
            },
            (Expr::Fun(x), Expr::Fun(y)) => x.param.name == y.param.name && x.body.alike(&y.body),
            (Expr::Macro(x), Expr::Macro(y)) => x.param.name == y.param.name && x.body.alike(&y.body),
            (Expr::Special { kind: x, .. }, Expr::Special { kind: y, .. }) => *x == *y,
            _ => false,
        }
    }
}

/// Two values are alike when they are equal but for provenance: evaluation
/// compares expansions this way, so that a new span does not count as a change.
pub open spec fn alike(a: Sexp, b: Sexp) -> bool
    decreases a,
{
    match a {
        Sexp::Nil => b is Nil,
        Sexp::Int(x, _) => b is Int && b->Int_0 == x,
        Sexp::Symbol(x, _) => b is Symbol && b->Symbol_0 == x,
        Sexp::List(xs, _) => b is List && xs.len() == b->List_0.len() && forall|i: int|
            0 <= i < xs.len() ==> alike(#[trigger] xs[i], b->List_0[i]),
        Sexp::Table(xs, _) => b is Table && xs.len() == b->Table_0.len() && forall|i: int|
            0 <= i < xs.len() ==> alike((#[trigger] xs[i]).0, b->Table_0[i].0) && alike(xs[i].1, b->Table_0[i].1),
        Sexp::Fun(p, _, x, _) => b is Fun && b->Fun_0 == p && alike(*x, *b->Fun_2),
        Sexp::Macro(p, _, x, _) => b is Macro && b->Macro_0 == p && alike(*x, *b->Macro_2),
        Sexp::Special(x, _) => b is Special && b->Special_0 == x,
    }
}

/// Every value is alike to itself.
pub proof fn lemma_alike_refl(a: Sexp)
    ensures
        alike(a, a),
    decreases a,
{
    match a {
        Sexp::List(xs, _) => {
            assert forall|i: int| 0 <= i < xs.len() implies alike(#[trigger] xs[i], xs[i]) by {
                lemma_alike_refl(xs[i]);
            }
        },
        Sexp::Table(xs, _) => {
            assert forall|i: int| 0 <= i < xs.len() implies alike((#[trigger] xs[i]).0, xs[i].0)
                && alike(xs[i].1, xs[i].1) by {
                lemma_alike_refl(xs[i].0);
                lemma_alike_refl(xs[i].1);
            }
        },
        Sexp::Fun(_, _, x, _) => lemma_alike_refl(*x),
        Sexp::Macro(_, _, x, _) => lemma_alike_refl(*x),
        _ => {},
    }
}

} // verus!
