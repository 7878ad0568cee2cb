//! String interning: each distinct text gets one small key, through
//! `lasso`'s interner.
use vstd::prelude::*;

verus! {

#[verifier::external_type_specification]
#[verifier::external_body]
#[verifier::reject_recursive_types(K)]
#[verifier::reject_recursive_types(S)]
pub struct ExRodeo<K, S>(lasso::Rodeo<K, S>);

#[verifier::external_type_specification]
#[verifier::external_body]
pub struct ExSpur(lasso::Spur);

/// The texts an interner holds, in the order they were interned.
pub uninterp spec fn interned(r: lasso::Rodeo) -> Seq<Seq<char>>;

/// The position, among the interned texts, of the text a key stands for.
pub uninterp spec fn key_index(k: lasso::Spur) -> nat;

/// Relies on `lasso::Rodeo::new`: a new interner holds no text.
#[verifier::external_body]
fn new_rodeo() -> (r: lasso::Rodeo)
    ensures
        interned(r).len() == 0,
{
    lasso::Rodeo::new()
}

/// Relies on `lasso::Rodeo::get_or_intern`: the key of a text already held,
/// else a new key for the text, stored last; and on `Spur::into_usize`,
/// which is one less than the key's non-zero value, so that keys at the same
/// position are equal. It panics only once `u32::MAX`
/// texts are held, or when memory runs out.
#[verifier::external_body]
fn intern(r: &mut lasso::Rodeo, text: &str) -> (k: lasso::Spur)
    requires
        interned(*old(r)).len() < u32::MAX,
    ensures
        interned(*old(r)).contains(text@) ==> interned(*final(r)) == interned(*old(r)),
        !interned(*old(r)).contains(text@) ==> interned(*final(r)) == interned(*old(r)).push(text@),
        key_index(k) < interned(*final(r)).len(),
        interned(*final(r))[key_index(k) as int] == text@,
        forall|other: lasso::Spur| key_index(other) == key_index(k) ==> other == k,
{
    r.get_or_intern(text)
}

/// Relies on `lasso::Rodeo::resolve`: the text that a key of this interner
/// stands for. It panics on a key beyond the texts held.
#[verifier::external_body]
fn text_of<'a>(r: &'a lasso::Rodeo, k: &lasso::Spur) -> (s: &'a str)
    requires
        key_index(*k) < interned(*r).len(),
    ensures
        s@ == interned(*r)[key_index(*k) as int],
{
    r.resolve(k)
}

/// An identifier: the key of an interned text.
#[derive(Clone, Copy, Debug, PartialEq, Eq, Hash)]
pub struct Compact(pub lasso::Spur);

/// Keeps every text used as an identifier once, in one place.
pub struct Compactor(lasso::Rodeo);

/// A view of the text that a [`Compact`] stands for, borrowed from its
/// [`Compactor`]: while it lives, the compactor cannot intern more.
#[derive(Debug)]
pub struct CompactRef<'a>(pub &'a str);

impl Compactor {
    /// The texts held, in the order they were interned.
    pub closed spec fn texts(&self) -> Seq<Seq<char>> {
        interned(self.0)
    }

    /// Each text is held once.
    pub closed spec fn wf(&self) -> bool {
        forall|i: int, j: int| 0 <= i < j < self.texts().len() ==> self.texts()[i] != self.texts()[j]
    }

    /// The position among [`Self::texts`] of the text that `key` stands for.
    pub open spec fn index_of(key: Compact) -> nat {
        key_index(key.0)
    }

    /// An interner that holds no text.
    pub fn new() -> (r: Compactor)
        ensures
            r.wf(),
            r.texts().len() == 0,
    {
        Compactor(new_rodeo())
    }

    /// The key of `val`, interning it if it is new. The same text always
    /// gets the same key: any key already made for `val` is the result.
    pub fn create(&mut self, val: &str) -> (r: Compact)
        requires
            old(self).wf(),
            old(self).texts().len() < u32::MAX,
        ensures
            final(self).wf(),
            old(self).texts().contains(val@) ==> final(self).texts() == old(self).texts(),
            !old(self).texts().contains(val@) ==> final(self).texts() == old(self).texts().push(val@),
            Compactor::index_of(r) < final(self).texts().len(),
            final(self).texts()[Compactor::index_of(r) as int] == val@,
            forall|k: Compact| Compactor::index_of(k) < old(self).texts().len()
                && old(self).texts()[Compactor::index_of(k) as int] == val@ ==> k == r,
    {
        let k = intern(&mut self.0, val);
        proof {
            let old_texts = old(self).texts();
            if !old_texts.contains(val@) {
                assert forall|i: int, j: int| 0 <= i < j < self.texts().len() implies
                    self.texts()[i] != self.texts()[j] by {
                    if j == old_texts.len() {
                        assert(old_texts[i] == self.texts()[i]);
                    }
                }
            }
            assert forall|c: Compact| Compactor::index_of(c) < old_texts.len()
                && old_texts[Compactor::index_of(c) as int] == val@ implies c == Compact(k) by {
                assert(old_texts.contains(val@));
                assert(key_index(c.0) == key_index(k));
            }
        }
        Compact(k)
    }

    /// The text that `key` stands for.
    pub fn resolve<'a>(&'a self, key: &Compact) -> (r: CompactRef<'a>)
        requires
            Compactor::index_of(*key) < self.texts().len(),
        ensures
            r.0@ == self.texts()[Compactor::index_of(*key) as int],
    {
        CompactRef(text_of(&self.0, &key.0))
    }
}

} // verus!
