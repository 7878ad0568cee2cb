//! The checkpointed environment that evaluation runs in.
use vstd::prelude::*;
use crate::exprs::{Expr, Sexp};
use crate::eval::EvalError;
use crate::persistent::{bindings_of, empty_bindings, bind, bound, snapshot};

verus! {

/// Bindings from names to values.
pub type Env = Map<Seq<char>, Sexp>;

/// What a [`Stack`] holds: the current bindings, and the saved checkpoints,
/// the latest last.
pub struct StackView {
    pub env: Env,
    pub saved: Seq<Env>,
}

impl StackView {
    /// A new checkpoint saves the current bindings and keeps them visible.
    pub open spec fn entered(self) -> StackView {
        StackView { env: self.env, saved: self.saved.push(self.env) }
    }

    /// Back to the latest checkpoint, if there is one.
    pub open spec fn left(self) -> Option<StackView> {
        if self.saved.len() == 0 {
            None
        } else {
            Some(StackView { env: self.saved.last(), saved: self.saved.drop_last() })
        }
    }

    /// The name bound to the value, in the current bindings.
    pub open spec fn assigned(self, name: Seq<char>, value: Sexp) -> StackView {
        StackView { env: self.env.insert(name, value), saved: self.saved }
    }
}

/// Current bindings in a persistent map, and the checkpoints saved by
/// `enter`, which `leave` returns to. Saving a checkpoint shares the map
/// rather than copying it.
pub struct Stack {
    current: im::HashMap<String, Expr>,
    previous: Vec<im::HashMap<String, Expr>>,
}

impl Stack {
    pub closed spec fn view(&self) -> StackView {
        StackView {
            env: bindings_of(self.current),
            saved: self.previous@.map_values(|m: im::HashMap<String, Expr>| bindings_of(m)),
        }
    }

    /// A stack with no bindings and no checkpoint.
    pub fn new() -> (r: Stack)
        ensures
            r@.env.dom().is_empty(),
            r@.saved.len() == 0,
    {
        Stack { current: empty_bindings(), previous: Vec::new() }
    }

    /// Save a checkpoint of the current bindings, which stay visible.
    pub fn enter(&mut self)
        ensures
            final(self)@ == old(self)@.entered(),
    {
        let saved = snapshot(&self.current);
        self.previous.push(saved);
        assert(final(self)@.saved =~= old(self)@.entered().saved);
    }

    /// Return to the latest checkpoint, dropping every binding made or
    /// changed since it was saved; with no checkpoint, fail and change nothing.
    pub fn leave(&mut self) -> (r: Result<(), EvalError>)
        ensures
            match old(self)@.left() {
                Some(s) => r is Ok && final(self)@ == s,
                None => r matches Err(EvalError::StackUnderflow) && final(self)@ == old(self)@,
            },
    {
        match self.previous.pop() {
            Some(m) => {
                self.current = m;
                assert(final(self)@.saved =~= old(self)@.saved.drop_last());
                Ok(())
            },
            None => Err(EvalError::StackUnderflow),
        }
    }

    /// Bind `name` to `value` in the current bindings.
    pub fn assign(&mut self, name: String, value: Expr)
        ensures
            final(self)@ == old(self)@.assigned(name@, value@),
    {
        bind(&mut self.current, name, value);
    }

    /// The value bound to `name`, or `UnknownBinding` with the name.
    pub fn lookup(&self, name: &String) -> (r: Result<Expr, EvalError>)
        ensures
            self@.env.contains_key(name@) ==> (r matches Ok(v) && v@ == self@.env[name@]),
            !self@.env.contains_key(name@) ==> (r matches Err(EvalError::UnknownBinding(n)) && n@ == name@),
    {
        match bound(&self.current, name) {
            Some(v) => Ok(v.duplicate()),
            None => Err(EvalError::UnknownBinding(name.clone())),
        }
    }
}

/// A checkpoint undoes what was bound after it: after `enter`, `assign` and
/// `leave`, every name is bound as it was before `enter`, or not at all if it
/// was not bound then.
pub proof fn lemma_checkpoint_rollback(s: StackView, name: Seq<char>, value: Sexp)
    ensures
        s.entered().assigned(name, value).left() == Some(s),
        s.entered().assigned(name, value).left()->0.env.contains_key(name) == s.env.contains_key(name),
        s.env.contains_key(name) ==> s.entered().assigned(name, value).left()->0.env[name] == s.env[name],
{
    assert(s.saved.push(s.env).drop_last() =~= s.saved);
}

} // verus!
