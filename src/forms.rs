//! The incremental form parser: tokens into nested forms, with a stack of
//! pending constructs so that incomplete and mismatched input fails with
//! everything that was still open.
use vstd::prelude::*;
use crate::spans::{Pos, Span, Spanning, pos_after};
use crate::tokens::{Lexeme, Literal, Paren, Prefix, Token, TokenError, Tokens, lexeme_at, lexeme_end,
    token_lexeme};
use crate::persistent::{partials_of, empty_partials, push_partial, pop_partial};

verus! {

/// A bracketed group of forms.
#[derive(Debug)]
pub struct Group {
    pub open: Spanning<Paren>,
    pub close: Spanning<Paren>,
    pub vals: Vec<Form>,
}

/// A prefix marker applied to the forms that follow it.
#[derive(Debug)]
pub enum Macro {
    /// A type, then a value.
    HasType(Spanning<Prefix>, Box<Form>, Box<Form>),
    Lambda(Spanning<Prefix>, Box<Form>),
    Quasiquote(Spanning<Prefix>, Box<Form>),
    Quote(Spanning<Prefix>, Box<Form>),
    Unquote(Spanning<Prefix>, Box<Form>),
}

/// A syntax tree, before reading.
#[derive(Debug)]
pub enum Form {
    Macro(Macro),
    Group(Group),
    Int(Spanning<i64>),
    Symbol(Spanning<String>),
}

/// A construct that is still waiting for forms.
#[derive(Debug)]
pub enum Partial {
    /// A type ascription, with its type once that has been read.
    HasType(Spanning<Prefix>, Option<Form>),
    /// A one-operand prefix, waiting for its operand.
    Quoting(Spanning<Prefix>),
    /// An open bracket and the forms read inside it so far.
    Group(Spanning<Paren>, Vec<Form>),
}

/// The mathematical value of a [`Form`].
pub enum Tree {
    Int(i64, Span),
    Symbol(Seq<char>, Span),
    /// Kind of bracket, span of the opening and of the closing bracket, the forms inside.
    Group(Paren, Span, Span, Seq<Tree>),
    /// Kind of prefix, its span, its operands.
    Macro(Prefix, Span, Seq<Tree>),
}

/// The mathematical value of a [`Partial`].
pub enum Pending {
    HasType(Prefix, Span, Option<Tree>),
    Quoting(Prefix, Span),
    Group(Paren, Span, Seq<Tree>),
}

/// The mathematical value of a [`FormError`].
pub enum Fail {
    Token(TokenError),
    DoesNotComplete(Paren, Span, Seq<Pending>),
    Incomplete(Seq<Pending>),
}

impl Form {
    pub open spec fn view(&self) -> Tree
        decreases self,
    {
        match self {
            Form::Int(i) => Tree::Int(i.inner, i.span),
            Form::Symbol(s) => Tree::Symbol(s.inner@, s.span),
            Form::Group(g) => Tree::Group(g.open.inner, g.open.span, g.close.span,
                Seq::new(g.vals.len() as nat, |i: int|
                    if 0 <= i < g.vals.len() { g.vals[i].view() } else { Tree::Int(0, g.open.span) })),
            Form::Macro(Macro::HasType(p, t, v)) => Tree::Macro(Prefix::HasType, p.span, seq![t.view(), v.view()]),
            Form::Macro(Macro::Lambda(p, f)) => Tree::Macro(Prefix::Lambda, p.span, seq![f.view()]),
            Form::Macro(Macro::Quasiquote(p, f)) => Tree::Macro(Prefix::Quasiquote, p.span, seq![f.view()]),
            Form::Macro(Macro::Quote(p, f)) => Tree::Macro(Prefix::Quote, p.span, seq![f.view()]),
            Form::Macro(Macro::Unquote(p, f)) => Tree::Macro(Prefix::Unquote, p.span, seq![f.view()]),
        }
    }
}

/// The views of a sequence of forms.
pub open spec fn trees(v: Seq<Form>) -> Seq<Tree> {
    v.map_values(|f: Form| f@)
}

pub broadcast proof fn lemma_group_view(g: Group)
    ensures
        #[trigger] Form::Group(g)@ == Tree::Group(g.open.inner, g.open.span, g.close.span, trees(g.vals@)),
{
    let f = Form::Group(g);
    assert(f@->Group_3 =~= trees(g.vals@));
}

impl Partial {
    pub open spec fn view(&self) -> Pending {
        match self {
            Partial::HasType(p, None) => Pending::HasType(p.inner, p.span, None),
            Partial::HasType(p, Some(t)) => Pending::HasType(p.inner, p.span, Some(t@)),
            Partial::Quoting(p) => Pending::Quoting(p.inner, p.span),
            Partial::Group(o, vals) => Pending::Group(o.inner, o.span, trees(vals@)),
        }
    }
}

/// The span from the start of `t` to its end.
pub open spec fn tree_span(t: Tree) -> Span
    decreases t,
{
    match t {
        Tree::Int(_, s) => s,
        Tree::Symbol(_, s) => s,
        Tree::Group(_, o, c, _) => Span { start: o.start, end: c.end },
        Tree::Macro(_, p, ops) => if ops.len() == 0 {
            p
        } else {
            Span { start: p.start, end: tree_span(ops.last()).end }
        },
    }
}

impl Form {
    /// A copy of this form, equal to it in every part.
    pub fn duplicate(&self) -> (r: Form)
        ensures
            r@ == self@,
        decreases self,
    {
        proof {
            broadcast use lemma_group_view;
        }
        match self {
            Form::Int(i) => Form::Int(Spanning { inner: i.inner, span: i.span }),
            Form::Symbol(s) => Form::Symbol(Spanning { inner: s.inner.clone(), span: s.span }),
            Form::Group(g) => {
                let mut vals: Vec<Form> = Vec::new();
                let mut k: usize = 0;
                while k < g.vals.len()
                    invariant
                        *self == Form::Group(*g),
                        self@ == Tree::Group(g.open.inner, g.open.span, g.close.span, trees(g.vals@)),
                        k <= g.vals@.len(),
                        trees(vals@) == trees(g.vals@).subrange(0, k as int),
                    decreases g.vals@.len() - k,
                {
                    proof {
                        vstd::std_specs::vec::axiom_vec_index_decreases(g.vals, k as int);
                    }
                    let ghost before = vals@;
                    let d = g.vals[k].duplicate();
                    vals.push(d);
                    assert(trees(vals@) =~= trees(before).push(d@));
                    assert(trees(g.vals@).subrange(0, k + 1) =~= trees(g.vals@).subrange(0, k as int).push(g.vals@[k as int]@));
                    k = k + 1;
                }
                assert(trees(g.vals@).subrange(0, k as int) =~= trees(g.vals@));
                Form::Group(Group { open: g.open, close: g.close, vals })
            },
            Form::Macro(Macro::HasType(p, t, v)) => {
                let t2 = t.duplicate();
                let v2 = v.duplicate();
                Form::Macro(Macro::HasType(*p, Box::new(t2), Box::new(v2)))
            },
            Form::Macro(Macro::Lambda(p, f)) => Form::Macro(Macro::Lambda(*p, Box::new(f.duplicate()))),
            Form::Macro(Macro::Quasiquote(p, f)) => Form::Macro(Macro::Quasiquote(*p, Box::new(f.duplicate()))),
            Form::Macro(Macro::Quote(p, f)) => Form::Macro(Macro::Quote(*p, Box::new(f.duplicate()))),
            Form::Macro(Macro::Unquote(p, f)) => Form::Macro(Macro::Unquote(*p, Box::new(f.duplicate()))),
        }
    }

    /// The span from the start of this form to its end.
    pub fn span(&self) -> (r: Span)
        ensures
            r == tree_span(self@),
        decreases self,
    {
        proof {
            broadcast use lemma_group_view;
        }
        match self {
            Form::Int(i) => i.span,
            Form::Symbol(s) => s.span,
            Form::Group(g) => g.span(),
            Form::Macro(m) => m.span(),
        }
    }
}

impl Macro {
    /// The span from the prefix to the end of the last operand.
    pub fn span(&self) -> (r: Span)
        ensures
            r == tree_span(Form::Macro(*self)@),
        decreases self,
    {
        match self {
            Macro::HasType(p, _, v) => Span { start: p.span.start, end: v.span().end },
            Macro::Lambda(p, f) => Span { start: p.span.start, end: f.span().end },
            Macro::Quasiquote(p, f) => Span { start: p.span.start, end: f.span().end },
            Macro::Quote(p, f) => Span { start: p.span.start, end: f.span().end },
            Macro::Unquote(p, f) => Span { start: p.span.start, end: f.span().end },
        }
    }
}

impl Group {
    /// The span from the opening bracket to the closing one.
    pub fn span(&self) -> (r: Span)
        ensures
            r == (Span { start: self.open.span.start, end: self.close.span.end }),
    {
        self.open.span.start.span(self.close.span.end)
    }
}

impl Clone for Partial {
    fn clone(&self) -> (r: Partial)
        ensures
            r@ == self@,
    {
        match self {
            Partial::HasType(p, None) => Partial::HasType(*p, None),
            Partial::HasType(p, Some(t)) => Partial::HasType(*p, Some(t.duplicate())),
            Partial::Quoting(p) => Partial::Quoting(*p),
            Partial::Group(o, vals) => {
                let mut copy: Vec<Form> = Vec::new();
                let mut k: usize = 0;
                while k < vals.len()
                    invariant
                        k <= vals@.len(),
                        trees(copy@) == trees(vals@).subrange(0, k as int),
                    decreases vals@.len() - k,
                {
                    let ghost before = copy@;
                    let d = vals[k].duplicate();
                    copy.push(d);
                    assert(trees(copy@) =~= trees(before).push(d@));
                    assert(trees(vals@).subrange(0, k + 1) =~= trees(vals@).subrange(0, k as int).push(vals@[k as int]@));
                    k = k + 1;
                }
                assert(trees(vals@).subrange(0, k as int) =~= trees(vals@));
                Partial::Group(*o, copy)
            },
        }
    }
}

/// Why no form could be parsed.
#[derive(Debug)]
pub enum FormError {
    /// No token could be read.
    Token(TokenError),
    /// A closing bracket that does not close the innermost pending
    /// construct, and every construct that was pending, innermost last.
    DoesNotComplete(Spanning<Paren>, im::Vector<Partial>),
    /// The input ended, or a closing bracket came, with these constructs
    /// pending, innermost last.
    Incomplete(im::Vector<Partial>),
}

impl FormError {
    pub open spec fn view(&self) -> Fail {
        match self {
            FormError::Token(e) => Fail::Token(*e),
            FormError::DoesNotComplete(c, v) => Fail::DoesNotComplete(c.inner, c.span, partials_of(*v)),
            FormError::Incomplete(v) => Fail::Incomplete(partials_of(*v)),
        }
    }
}

/// The mathematical value of what [`Forms::next`] returns.
pub open spec fn parsed(r: Option<Result<Form, FormError>>) -> Option<Result<Tree, Fail>> {
    match r {
        None => None,
        Some(Ok(f)) => Some(Ok(f@)),
        Some(Err(e)) => Some(Err(e@)),
    }
}

/// The kind of macro that a one-operand prefix makes: its own kind, and
/// `unquote` for a type-ascription marker, which takes two operands and so
/// never waits for one alone.
pub open spec fn quoting_kind(p: Prefix) -> Prefix {
    if p == Prefix::HasType { Prefix::Unquote } else { p }
}

/// Fold the completed tree `t` into the pending constructs, innermost
/// first: a one-operand prefix completes and goes on folding; a type
/// ascription takes its type and waits, or takes its value, completes and
/// goes on folding; a group takes `t` as its next form and waits. With
/// nothing pending, `t` is a top-level form.
pub open spec fn fold(stack: Seq<Pending>, t: Tree) -> (Seq<Pending>, Option<Tree>)
    decreases stack.len(),
{
    if stack.len() == 0 {
        (stack, Some(t))
    } else {
        let rest = stack.drop_last();
        match stack.last() {
            Pending::Quoting(p, sp) => fold(rest, Tree::Macro(quoting_kind(p), sp, seq![t])),
            Pending::HasType(p, sp, None) => (rest.push(Pending::HasType(p, sp, Some(t))), None),
            Pending::HasType(_, sp, Some(ty)) => fold(rest, Tree::Macro(Prefix::HasType, sp, seq![ty, t])),
            Pending::Group(p, sp, kids) => (rest.push(Pending::Group(p, sp, kids.push(t))), None),
        }
    }
}

pub open spec fn completed(f: (Seq<Pending>, Option<Tree>)) -> (Seq<Pending>, Option<Result<Tree, Fail>>) {
    match f.1 {
        Some(t) => (f.0, Some(Ok(t))),
        None => (f.0, None),
    }
}

/// What one token read at `span` does to the pending constructs, and the
/// form or error it gives, if any.
pub open spec fn step(stack: Seq<Pending>, lx: Lexeme, span: Span) -> (Seq<Pending>, Option<Result<Tree, Fail>>) {
    match lx {
        Lexeme::Open(p) => (stack.push(Pending::Group(p, span, seq![])), None),
        Lexeme::Prefix(p) => if p == Prefix::HasType {
            (stack.push(Pending::HasType(p, span, None)), None)
        } else {
            (stack.push(Pending::Quoting(p, span)), None)
        },
        Lexeme::Close(p) => if stack.len() == 0 {
            (stack, Some(Err(Fail::Incomplete(stack))))
        } else if stack.last() is Group && stack.last()->Group_0 == p {
            completed(fold(stack.drop_last(), Tree::Group(p, stack.last()->Group_1, span, stack.last()->Group_2)))
        } else {
            (Seq::empty(), Some(Err(Fail::DoesNotComplete(p, span, stack))))
        },
        Lexeme::Int(v) => completed(fold(stack, Tree::Int(v as i64, span))),
        Lexeme::Symbol(s) => completed(fold(stack, Tree::Symbol(s, span))),
        _ => (stack, None),
    }
}

/// Read tokens of `s` from `i`, at position `pos`, until one completes a
/// top-level form or fails: the pending constructs, index and position
/// after, and the outcome. At the end of the text, pending constructs make
/// the outcome `Incomplete` and are dropped; with none, there is no outcome.
pub open spec fn run(stack: Seq<Pending>, s: Seq<char>, i: int, pos: Pos)
    -> (Seq<Pending>, int, Pos, Option<Result<Tree, Fail>>)
    decreases s.len() - i,
{
    if i < 0 || i >= s.len() {
        if stack.len() == 0 {
            (stack, i, pos, None)
        } else {
            (Seq::empty(), i, pos, Some(Err(Fail::Incomplete(stack))))
        }
    } else {
        match lexeme_at(s, i) {
            Lexeme::Fail(e) => {
                let end = lexeme_end(s, i);
                (stack, end, pos_after(pos, s.subrange(i, end)), Some(Err(Fail::Token(e))))
            },
            lx => {
                let end = lexeme_end(s, i);
                let after = pos_after(pos, s.subrange(i, end));
                let (next, out) = step(stack, lx, Span { start: pos, end: after });
                match out {
                    Some(o) => (next, end, after, Some(o)),
                    None => if i < end <= s.len() {
                        run(next, s, end, after)
                    } else {
                        (next, end, after, None)
                    },
                }
            },
        }
    }
}

/// A closing bracket that does not close the innermost pending construct
/// fails with `DoesNotComplete`, which carries exactly the constructs that
/// were pending before it, and leaves none pending.
pub proof fn lemma_unmatched_close(stack: Seq<Pending>, p: Paren, span: Span)
    requires
        stack.len() > 0,
        !(stack.last() is Group && stack.last()->Group_0 == p),
    ensures
        step(stack, Lexeme::Close(p), span)
            == (Seq::<Pending>::empty(), Some(Err::<Tree, Fail>(Fail::DoesNotComplete(p, span, stack)))),
{
}

/// An opening bracket leaves a construct pending, and input that ends with
/// constructs pending fails with `Incomplete`, which carries all of them.
pub proof fn lemma_truncated(stack: Seq<Pending>, p: Paren, span: Span, s: Seq<char>, pos: Pos)
    ensures
        step(stack, Lexeme::Open(p), span).0.len() > 0,
        step(stack, Lexeme::Open(p), span).0.last() == Pending::Group(p, span, seq![]),
        stack.len() > 0 ==> run(stack, s, s.len() as int, pos)
            == (Seq::<Pending>::empty(), s.len() as int, pos, Some(Err::<Tree, Fail>(Fail::Incomplete(stack)))),
{
}

/// Where a pending construct starts.
pub open spec fn pending_start(p: Pending) -> Pos {
    match p {
        Pending::HasType(_, sp, _) => sp.start,
        Pending::Quoting(_, sp) => sp.start,
        Pending::Group(_, sp, _) => sp.start,
    }
}

/// Where the first token at or after `i` starts, past any whitespace.
pub open spec fn token_start(s: Seq<char>, i: int, pos: Pos) -> Pos {
    pos_after(pos, s.subrange(i, crate::tokens::run_end(s, i, crate::tokens::Class::Whitespace)))
}

proof fn lemma_fold_span(stack: Seq<Pending>, t: Tree)
    ensures
        fold(stack, t).1 matches Some(u) ==> fold(stack, t).0.len() == 0
            && tree_span(u).end == tree_span(t).end
            && tree_span(u).start == if stack.len() == 0 { tree_span(t).start } else { pending_start(stack[0]) },
        fold(stack, t).1 is None ==> stack.len() > 0 && fold(stack, t).0.len() > 0
            && pending_start(fold(stack, t).0[0]) == pending_start(stack[0]),
    decreases stack.len(),
{
    if stack.len() > 0 {
        let rest = stack.drop_last();
        match stack.last() {
            Pending::Quoting(p, sp) => {
                let m = Tree::Macro(quoting_kind(p), sp, seq![t]);
                lemma_fold_span(rest, m);
                if rest.len() > 0 {
                    assert(rest[0] == stack[0]);
                }
            },
            Pending::HasType(_, sp, Some(ty)) => {
                let m = Tree::Macro(Prefix::HasType, sp, seq![ty, t]);
                lemma_fold_span(rest, m);
                if rest.len() > 0 {
                    assert(rest[0] == stack[0]);
                }
            },
            _ => {
                if rest.len() > 0 {
                    assert(rest[0] == stack[0]);
                }
            },
        }
    }
}

proof fn lemma_step_span(stack: Seq<Pending>, lx: Lexeme, span: Span)
    requires
        !(lx is Fail),
        !(lx is Whitespace),
    ensures
        step(stack, lx, span).1 matches Some(Ok(u)) ==> step(stack, lx, span).0.len() == 0
            && tree_span(u).end == span.end
            && tree_span(u).start == if stack.len() == 0 { span.start } else { pending_start(stack[0]) },
        step(stack, lx, span).1 is None ==> step(stack, lx, span).0.len() > 0
            && pending_start(step(stack, lx, span).0[0]) == if stack.len() == 0 { span.start } else { pending_start(stack[0]) },
{
    match lx {
        Lexeme::Close(p) => {
            if stack.len() > 0 && stack.last() is Group && stack.last()->Group_0 == p {
                let g = Tree::Group(p, stack.last()->Group_1, span, stack.last()->Group_2);
                lemma_fold_span(stack.drop_last(), g);
                if stack.drop_last().len() > 0 {
                    assert(stack.drop_last()[0] == stack[0]);
                }
            }
        },
        Lexeme::Int(v) => lemma_fold_span(stack, Tree::Int(v as i64, span)),
        Lexeme::Symbol(n) => lemma_fold_span(stack, Tree::Symbol(n, span)),
        _ => {
            if stack.len() > 0 {
                assert(step(stack, lx, span).0[0] == stack[0]);
            }
        },
    }
}

proof fn lemma_run_end_max(s: Seq<char>, i: int, class: crate::tokens::Class)
    requires
        0 <= i <= s.len(),
    ensures
        i <= crate::tokens::run_end(s, i, class) <= s.len(),
        crate::tokens::run_end(s, i, class) < s.len() ==> !crate::tokens::in_class(
            s[crate::tokens::run_end(s, i, class)], class),
    decreases s.len() - i,
{
    if i < s.len() && crate::tokens::in_class(s[i], class) {
        lemma_run_end_max(s, i + 1, class);
    }
}

proof fn lemma_run_span(stack: Seq<Pending>, s: Seq<char>, i: int, pos: Pos)
    requires
        0 <= i <= s.len(),
    ensures
        run(stack, s, i, pos).3 matches Some(Ok(t)) ==> tree_span(t).end == run(stack, s, i, pos).2
            && tree_span(t).start == if stack.len() == 0 { token_start(s, i, pos) } else { pending_start(stack[0]) },
    decreases s.len() - i,
{
    if i < s.len() {
        let lx = lexeme_at(s, i);
        if !(lx is Fail) {
            let end = lexeme_end(s, i);
            let after = pos_after(pos, s.subrange(i, end));
            let span = Span { start: pos, end: after };
            let (next, out) = step(stack, lx, span);
            lemma_run_end_max(s, i, crate::tokens::Class::Whitespace);
            if !(lx is Whitespace) {
                assert(!crate::tokens::spec_is_whitespace(s[i]));
                assert(s.subrange(i, i) =~= Seq::<char>::empty());
                lemma_step_span(stack, lx, span);
            }
            if out is None && i < end <= s.len() {
                lemma_run_span(next, s, end, after);
                if lx is Whitespace && stack.len() == 0 {
                    lemma_run_end_max(s, end, crate::tokens::Class::Whitespace);
                    if end < s.len() {
                        assert(!crate::tokens::spec_is_whitespace(s[end]));
                    }
                    assert(s.subrange(end, end) =~= Seq::<char>::empty());
                }
            }
        }
    }
}

/// What [`Forms::next`] does at a closing bracket that does not close the
/// innermost pending construct, after any whitespace: it fails with
/// `DoesNotComplete`, carrying the bracket and exactly the constructs that
/// were pending before it, leaves none pending, and moves past the bracket.
pub proof fn lemma_next_unmatched_close(stack: Seq<Pending>, s: Seq<char>, i: int, pos: Pos, k: Paren)
    requires
        0 <= i <= s.len(),
        stack.len() > 0,
        crate::tokens::run_end(s, i, crate::tokens::Class::Whitespace) < s.len(),
        lexeme_at(s, crate::tokens::run_end(s, i, crate::tokens::Class::Whitespace)) == Lexeme::Close(k),
        !(stack.last() is Group && stack.last()->Group_0 == k),
    ensures
        ({
            let j = crate::tokens::run_end(s, i, crate::tokens::Class::Whitespace);
            let start = token_start(s, i, pos);
            let end = pos_after(start, s.subrange(j, j + 1));
            run(stack, s, i, pos) == (Seq::<Pending>::empty(), j + 1, end,
                Some(Err::<Tree, Fail>(Fail::DoesNotComplete(k, Span { start, end }, stack))))
        }),
{
    let j = crate::tokens::run_end(s, i, crate::tokens::Class::Whitespace);
    lemma_run_end_max(s, i, crate::tokens::Class::Whitespace);
    lemma_run_end_progress(s, i, crate::tokens::Class::Whitespace);
    if j == i {
        assert(s.subrange(i, i) =~= Seq::<char>::empty());
    } else {
        let after = pos_after(pos, s.subrange(i, j));
        assert(lexeme_at(s, i) == Lexeme::Whitespace(s.subrange(i, j)));
        lemma_run_end_max(s, j, crate::tokens::Class::Whitespace);
        assert(s.subrange(j, j) =~= Seq::<char>::empty());
        assert(run(stack, s, i, pos) == run(stack, s, j, after));
    }
}

/// What [`Forms::next`] does when only whitespace is left and constructs
/// are pending: it fails with `Incomplete`, carrying all of them, and leaves
/// none pending; the call after that gives `None`.
pub proof fn lemma_next_truncated(stack: Seq<Pending>, s: Seq<char>, i: int, pos: Pos)
    requires
        0 <= i <= s.len(),
        stack.len() > 0,
        crate::tokens::run_end(s, i, crate::tokens::Class::Whitespace) == s.len(),
    ensures
        run(stack, s, i, pos) == (Seq::<Pending>::empty(), s.len() as int, token_start(s, i, pos),
            Some(Err::<Tree, Fail>(Fail::Incomplete(stack)))),
        run(Seq::<Pending>::empty(), s, s.len() as int, token_start(s, i, pos)).3 is None,
{
    lemma_run_end_progress(s, i, crate::tokens::Class::Whitespace);
    if i < s.len() {
        assert(lexeme_at(s, i) == Lexeme::Whitespace(s.subrange(i, s.len() as int)));
        let after = pos_after(pos, s.subrange(i, s.len() as int));
        assert(run(stack, s, i, pos) == run(stack, s, s.len() as int, after));
    } else {
        assert(s.subrange(i, i) =~= Seq::<char>::empty());
    }
}

/// Parsing always moves on: a call of [`Forms::next`] before the end of the
/// text reads at least one character, and one at the end leaves nothing
/// pending, so that the call after it gives `None`. Iterating over any text
/// thus ends, after at most two calls more than there are characters.
pub proof fn lemma_run_progress(stack: Seq<Pending>, s: Seq<char>, i: int, pos: Pos)
    requires
        0 <= i <= s.len(),
    ensures
        i < s.len() ==> i < run(stack, s, i, pos).1 <= s.len(),
        i == s.len() ==> run(stack, s, i, pos).1 == i && run(stack, s, i, pos).0.len() == 0,
    decreases s.len() - i,
{
    if i < s.len() {
        lemma_lexeme_progress(s, i);
        let end = lexeme_end(s, i);
        lemma_lexeme_bound(s, i);
        let lx = lexeme_at(s, i);
        if !(lx is Fail) {
            let after = pos_after(pos, s.subrange(i, end));
            let (next, out) = step(stack, lx, Span { start: pos, end: after });
            if out is None {
                lemma_run_progress(next, s, end, after);
            }
        }
    }
}

/// No token runs past the end of the text.
proof fn lemma_lexeme_bound(s: Seq<char>, i: int)
    requires
        0 <= i < s.len(),
    ensures
        lexeme_end(s, i) <= s.len(),
{
    lemma_run_end_max(s, i, crate::tokens::Class::Digit);
    lemma_run_end_max(s, i, crate::tokens::Class::Whitespace);
    lemma_run_end_max(s, i, crate::tokens::Class::Symbol);
    if crate::tokens::hex_at(s, i) {
        lemma_run_end_max(s, i + 2, crate::tokens::Class::HexDigit);
    }
}

/// Forms tile the text: parsing from index `i` with nothing pending, a form
/// that comes out spans from the start of the first token after any
/// whitespace at `i` to the end of the last token read, where parsing stops.
/// Consecutive forms thus follow one another with only whitespace between
/// them, and never overlap.
pub proof fn lemma_form_coverage(s: Seq<char>, i: int, pos: Pos)
    requires
        0 <= i <= s.len(),
    ensures
        run(Seq::empty(), s, i, pos).3 matches Some(Ok(t)) ==> tree_span(t) == (Span {
            start: token_start(s, i, pos),
            end: run(Seq::empty(), s, i, pos).2,
        }),
{
    lemma_run_span(Seq::empty(), s, i, pos);
}

proof fn lemma_run_end_progress(s: Seq<char>, i: int, class: crate::tokens::Class)
    requires
        0 <= i,
    ensures
        crate::tokens::run_end(s, i, class) >= i,
        i < s.len() && crate::tokens::in_class(s[i], class) ==> crate::tokens::run_end(s, i, class) > i,
    decreases s.len() - i,
{
    if i < s.len() && crate::tokens::in_class(s[i], class) {
        lemma_run_end_progress(s, i + 1, class);
    }
}

/// Every token, and every stretch of text that fails to be one, is at least
/// one character long.
proof fn lemma_lexeme_progress(s: Seq<char>, i: int)
    requires
        0 <= i < s.len(),
    ensures
        lexeme_end(s, i) > i,
{
    lemma_run_end_progress(s, i, crate::tokens::Class::Digit);
    lemma_run_end_progress(s, i + 2, crate::tokens::Class::HexDigit);
    lemma_run_end_progress(s, i, crate::tokens::Class::Whitespace);
    lemma_run_end_progress(s, i, crate::tokens::Class::Symbol);
}

/// Parses source text into forms, one top-level form at a time.
pub struct Forms<'a> {
    tokens: Tokens<'a>,
    partials: im::Vector<Partial>,
}

impl<'a> Forms<'a> {
    pub closed spec fn wf(&self) -> bool {
        self.tokens.wf()
    }

    /// The characters of the source.
    pub closed spec fn text(&self) -> Seq<char> {
        self.tokens.text()
    }

    /// How many characters have been read.
    pub closed spec fn read_so_far(&self) -> int {
        self.tokens.read_so_far()
    }

    /// The position of the next character.
    pub closed spec fn position(&self) -> Pos {
        self.tokens.position()
    }

    /// The constructs still waiting for forms, innermost last.
    pub closed spec fn pending(&self) -> Seq<Pending> {
        partials_of(self.partials)
    }

    /// Start parsing `source` at its beginning, with nothing pending.
    pub fn new(source: &'a str) -> (r: Forms<'a>)
        ensures
            r.wf(),
            r.text() == source@,
            r.read_so_far() == 0,
            r.position() == (Pos { offset: 0, line: 0, column: 0 }),
            r.pending().len() == 0,
    {
        Forms { tokens: Tokens::new(source), partials: empty_partials() }
    }

    /// Fold a completed form into the pending constructs.
    fn fold(&mut self, form: Form) -> (r: Option<Form>)
        ensures
            final(self).tokens == old(self).tokens,
            fold(old(self).pending(), form@) == (final(self).pending(), match r {
                Some(f) => Some(f@),
                None => None::<Tree>,
            }),
    {
        let ghost goal = fold(self.pending(), form@);
        let mut cur = form;
        loop
            invariant
                self.tokens == old(self).tokens,
                goal == fold(old(self).pending(), form@),
                fold(self.pending(), cur@) == goal,
            decreases self.pending().len(),
        {
            match pop_partial(&mut self.partials) {
                None => {
                    return Some(cur);
                },
                Some(Partial::Quoting(p)) => {
                    let b = Box::new(cur);
                    cur = match p.inner {
                        Prefix::Lambda => Form::Macro(Macro::Lambda(p, b)),
                        Prefix::Quasiquote => Form::Macro(Macro::Quasiquote(p, b)),
                        Prefix::Quote => Form::Macro(Macro::Quote(p, b)),
                        _ => Form::Macro(Macro::Unquote(p, b)),
                    };
                },
                Some(Partial::HasType(p, None)) => {
                    push_partial(&mut self.partials, Partial::HasType(p, Some(cur)));
                    return None;
                },
                Some(Partial::HasType(p, Some(ty))) => {
                    cur = Form::Macro(Macro::HasType(p, Box::new(ty), Box::new(cur)));
                },
                Some(Partial::Group(open, vals)) => {
                    let mut vals = vals;
                    let ghost before = vals@;
                    let ghost c = cur@;
                    vals.push(cur);
                    assert(trees(vals@) =~= trees(before).push(c));
                    push_partial(&mut self.partials, Partial::Group(open, vals));
                    return None;
                },
            }
        }
    }

    /// Open a construct for an opening bracket or a prefix.
    fn push(&mut self, lx: &Lexeme, span: Span)
        requires
            lx is Open || lx is Prefix,
        ensures
            final(self).tokens == old(self).tokens,
            (final(self).pending(), None::<Result<Tree, Fail>>) == step(old(self).pending(), *lx, span),
    {
        match lx {
            Lexeme::Open(p) => {
                let vals: Vec<Form> = Vec::new();
                assert(trees(vals@) =~= Seq::<Tree>::empty());
                push_partial(&mut self.partials, Partial::Group(Spanning { inner: *p, span }, vals));
            },
            Lexeme::Prefix(p) => {
                if *p == Prefix::HasType {
                    push_partial(&mut self.partials, Partial::HasType(Spanning { inner: *p, span }, None));
                } else {
                    push_partial(&mut self.partials, Partial::Quoting(Spanning { inner: *p, span }));
                }
            },
            _ => {},
        }
    }

    /// All pending constructs, leaving none.
    fn take_pending(&mut self) -> (r: im::Vector<Partial>)
        ensures
            final(self).tokens == old(self).tokens,
            partials_of(r) == old(self).pending(),
            final(self).pending().len() == 0,
    {
        let mut taken = empty_partials();
        std::mem::swap(&mut taken, &mut self.partials);
        taken
    }

    /// Close the innermost group with a closing bracket of kind `p`.
    fn close(&mut self, p: Paren, span: Span) -> (r: Option<Result<Form, FormError>>)
        ensures
            final(self).tokens == old(self).tokens,
            (final(self).pending(), parsed(r)) == step(old(self).pending(), Lexeme::Close(p), span),
    {
        let ghost stack = self.pending();
        match pop_partial(&mut self.partials) {
            None => {
                let taken = self.take_pending();
                Some(Err(FormError::Incomplete(taken)))
            },
            Some(top) => {
                let matching = match &top {
                    Partial::Group(open, _) => open.inner == p,
                    _ => false,
                };
                if matching {
                    match top {
                        Partial::Group(open, vals) => {
                            let g = Group { open, close: Spanning { inner: p, span }, vals };
                            proof {
                                lemma_group_view(g);
                            }
                            match self.fold(Form::Group(g)) {
                                Some(f) => Some(Ok(f)),
                                None => None,
                            }
                        },
                        _ => None,
                    }
                } else {
                    push_partial(&mut self.partials, top);
                    assert(self.pending() =~= stack);
                    let taken = self.take_pending();
                    Some(Err(FormError::DoesNotComplete(Spanning { inner: p, span }, taken)))
                }
            },
        }
    }

    /// Apply one token read at `span`.
    fn token(&mut self, token: Token, span: Span) -> (r: Option<Result<Form, FormError>>)
        requires
            !(token_lexeme(token) is Fail),
        ensures
            final(self).tokens == old(self).tokens,
            (final(self).pending(), parsed(r)) == step(old(self).pending(), token_lexeme(token), span),
    {
        match token {
            Token::Open(p) => {
                self.push(&Lexeme::Open(p), span);
                None
            },
            Token::Prefix(p) => {
                self.push(&Lexeme::Prefix(p), span);
                None
            },
            Token::Close(p) => self.close(p, span),
            Token::Literal(Literal::Int(v)) => match self.fold(Form::Int(Spanning { inner: v, span })) {
                Some(f) => Some(Ok(f)),
                None => None,
            },
            Token::Literal(Literal::Symbol(s)) => match self.fold(Form::Symbol(Spanning { inner: s, span })) {
                Some(f) => Some(Ok(f)),
                None => None,
            },
            Token::Whitespace(_) => None,
        }
    }

    /// The next top-level form, or the error that stopped it; `None` once the
    /// source is used up with nothing pending. Errors about brackets hand
    /// over every pending construct and leave none; a token error skips the
    /// text it is about and leaves the pending constructs as they were.
    pub fn next(&mut self) -> (r: Option<Result<Form, FormError>>)
        requires
            old(self).wf(),
        ensures
            final(self).wf(),
            final(self).text() == old(self).text(),
            run(old(self).pending(), old(self).text(), old(self).read_so_far(), old(self).position())
                == (final(self).pending(), final(self).read_so_far(), final(self).position(), parsed(r)),
    {
        let ghost goal = run(self.pending(), self.text(), self.read_so_far(), self.position());
        loop
            invariant
                self.wf(),
                self.text() == old(self).text(),
                goal == run(old(self).pending(), old(self).text(), old(self).read_so_far(), old(self).position()),
                run(self.pending(), self.text(), self.read_so_far(), self.position()) == goal,
            decreases self.text().len() - self.read_so_far(),
        {
            let ghost s = self.text();
            let ghost i = self.read_so_far();
            let ghost pos = self.position();
            match self.tokens.next() {
                None => {
                    let ghost stack0 = self.pending();
                    match pop_partial(&mut self.partials) {
                        None => {
                            return None;
                        },
                        Some(top) => {
                            push_partial(&mut self.partials, top);
                            assert(self.pending() =~= stack0);
                            let taken = self.take_pending();
                            assert(self.pending() =~= Seq::<Pending>::empty());
                            return Some(Err(FormError::Incomplete(taken)));
                        },
                    }
                },
                Some(Err(e)) => {
                    return Some(Err(FormError::Token(e)));
                },
                Some(Ok(t)) => {
                    proof {
                        lemma_lexeme_progress(s, i);
                    }
                    let out = self.token(t.inner, t.span);
                    match out {
                        Some(o) => {
                            return Some(o);
                        },
                        None => {},
                    }
                },
            }
        }
    }
}

} // verus!
