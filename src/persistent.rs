//! The persistent collections of `im` that the library keeps its state in.
//! Each call into `im` goes through one function of this module, whose
//! contract states what the call does to the collection's contents.
use vstd::prelude::*;
use crate::exprs::{Expr, Sexp};
use crate::forms::{Partial, Pending};

verus! {

#[verifier::external_type_specification]
#[verifier::external_body]
#[verifier::reject_recursive_types(K)]
#[verifier::reject_recursive_types(V)]
#[verifier::reject_recursive_types(S)]
pub struct ExHashMap<K, V, S>(im::HashMap<K, V, S>);

/// The bindings that a persistent map of names holds, by name.
pub uninterp spec fn bindings_of(m: im::HashMap<String, Expr>) -> Map<Seq<char>, Sexp>;

/// Relies on `im::HashMap::new`: a new map holds nothing.
#[verifier::external_body]
pub(crate) fn empty_bindings() -> (r: im::HashMap<String, Expr>)
    ensures
        bindings_of(r).dom().is_empty(),
{
    im::HashMap::new()
}

/// Relies on `im::HashMap::insert`: the name is bound to the value, and every
/// other binding stays as it was.
#[verifier::external_body]
pub(crate) fn bind(m: &mut im::HashMap<String, Expr>, name: String, value: Expr)
    ensures
        bindings_of(*final(m)) == bindings_of(*old(m)).insert(name@, value@),
{
    m.insert(name, value);
}

/// Relies on `im::HashMap::get`: the value bound to the name, if there is one.
#[verifier::external_body]
pub(crate) fn bound<'a>(m: &'a im::HashMap<String, Expr>, name: &String) -> (r: Option<&'a Expr>)
    ensures
        r is Some <==> bindings_of(*m).contains_key(name@),
        r matches Some(v) ==> v@ == bindings_of(*m)[name@],
{
    m.get(name)
}

/// Relies on `Clone` for `im::HashMap`: the copy shares the map's
/// contents and holds the same bindings.
#[verifier::external_body]
pub(crate) fn snapshot(m: &im::HashMap<String, Expr>) -> (r: im::HashMap<String, Expr>)
    ensures
        bindings_of(r) == bindings_of(*m),
{
    m.clone()
}

#[verifier::external_type_specification]
#[verifier::external_body]
#[verifier::reject_recursive_types(A)]
pub struct ExVector<A>(im::Vector<A>);

/// The constructs that a persistent vector of pending constructs holds, in order.
pub uninterp spec fn partials_of(v: im::Vector<Partial>) -> Seq<Pending>;

/// Relies on `im::Vector::new`: a new vector holds nothing.
#[verifier::external_body]
pub(crate) fn empty_partials() -> (r: im::Vector<Partial>)
    ensures
        partials_of(r).len() == 0,
{
    im::Vector::new()
}

/// Relies on `im::Vector::push_back`: the construct is added at the back.
#[verifier::external_body]
pub(crate) fn push_partial(v: &mut im::Vector<Partial>, p: Partial)
    ensures
        partials_of(*final(v)) == partials_of(*old(v)).push(p@),
{
    v.push_back(p);
}

/// Relies on `im::Vector::pop_back`: the construct at the back is taken
/// out, if there is one.
#[verifier::external_body]
pub(crate) fn pop_partial(v: &mut im::Vector<Partial>) -> (r: Option<Partial>)
    ensures
        partials_of(*old(v)).len() == 0 ==> r is None && partials_of(*final(v)) == partials_of(*old(v)),
        partials_of(*old(v)).len() > 0 ==> (r matches Some(p) && p@ == partials_of(*old(v)).last()
            && partials_of(*final(v)) == partials_of(*old(v)).drop_last()),
{
    v.pop_back()
}

} // verus!
