//! Lists of expressions, changed by copy: each operation returns a new
//! list and leaves the one it was made from as it was. Map expressions,
//! whose keys are distinct.
use vstd::prelude::*;
use crate::exprs::{Entry, Expr, List, Meta, Sexp, Table, alike, entry_views, views};

verus! {

impl List {
    /// The values of the list.
    pub open spec fn items(&self) -> Seq<Sexp> {
        views(self.values@)
    }

    pub fn new(values: Vec<Expr>, meta: Meta) -> (r: List)
        ensures
            r.items() == views(values@),
            r.meta == meta,
    {
        List { values, meta }
    }

    /// A copy of this list.
    fn copy(&self) -> (r: List)
        ensures
            r.items() == self.items(),
            r.meta == self.meta,
    {
        let mut values: Vec<Expr> = Vec::new();
        let mut k: usize = 0;
        while k < self.values.len()
            invariant
                k <= self.values@.len(),
                views(values@) == self.items().subrange(0, k as int),
            decreases self.values@.len() - k,
        {
            let ghost before = values@;
            let d = self.values[k].duplicate();
            values.push(d);
            assert(views(values@) =~= views(before).push(d@));
            assert(self.items().subrange(0, k + 1) =~= self.items().subrange(0, k as int).push(self.values@[k as int]@));
            k = k + 1;
        }
        assert(self.items().subrange(0, k as int) =~= self.items());
        List { values, meta: self.meta.clone() }
    }

    /// A copy with `value` inserted at the front.
    pub fn cons(&self, value: Expr) -> (r: List)
        ensures
            r.items() == seq![value@] + self.items(),
            r.meta == self.meta,
    {
        let mut new = self.copy();
        let ghost v = value@;
        let ghost before = new.values@;
        new.values.insert(0, value);
        assert(views(new.values@) =~= seq![v] + views(before));
        new
    }

    /// A copy without the front value, if any.
    pub fn uncons(&self) -> (r: List)
        ensures
            r.items() == if self.items().len() == 0 { self.items() } else { self.items().drop_first() },
            r.meta == self.meta,
    {
        let mut new = self.copy();
        if new.values.len() > 0 {
            let ghost before = new.values@;
            new.values.remove(0);
            assert(views(new.values@) =~= views(before).drop_first());
        }
        new
    }

    /// A copy with `value` inserted at the back.
    pub fn push(&self, value: Expr) -> (r: List)
        ensures
            r.items() == self.items().push(value@),
            r.meta == self.meta,
    {
        let mut new = self.copy();
        let ghost v = value@;
        let ghost before = new.values@;
        new.values.push(value);
        assert(views(new.values@) =~= views(before).push(v));
        new
    }

    /// A copy without the back value, if any.
    pub fn pop(&self) -> (r: List)
        ensures
            r.items() == if self.items().len() == 0 { self.items() } else { self.items().drop_last() },
            r.meta == self.meta,
    {
        let mut new = self.copy();
        if new.values.len() > 0 {
            let ghost before = new.values@;
            new.values.pop();
            assert(views(new.values@) =~= views(before).drop_last());
        }
        new
    }

    /// The front value, if any.
    pub fn front(&self) -> (r: Option<&Expr>)
        ensures
            self.items().len() == 0 ==> r is None,
            self.items().len() > 0 ==> (r matches Some(e) && e@ == self.items()[0]),
    {
        if self.values.len() == 0 {
            None
        } else {
            Some(&self.values[0])
        }
    }

    /// The back value, if any.
    pub fn back(&self) -> (r: Option<&Expr>)
        ensures
            self.items().len() == 0 ==> r is None,
            self.items().len() > 0 ==> (r matches Some(e) && e@ == self.items().last()),
    {
        if self.values.len() == 0 {
            None
        } else {
            Some(&self.values[self.values.len() - 1])
        }
    }
}

/// Whether `i` is the first position whose key is alike to `key`.
pub open spec fn first_key(entries: Seq<(Sexp, Sexp)>, key: Sexp, i: int) -> bool {
    &&& 0 <= i < entries.len()
    &&& alike(entries[i].0, key)
    &&& forall|j: int| 0 <= j < i ==> !alike(#[trigger] entries[j].0, key)
}

impl Table {
    /// The entries, as key and value pairs.
    pub open spec fn pairs(&self) -> Seq<(Sexp, Sexp)> {
        entry_views(self.entries@)
    }

    /// No two keys are alike.
    pub open spec fn wf(&self) -> bool {
        forall|i: int, j: int| 0 <= i < j < self.pairs().len() ==> !alike(
            #[trigger] self.pairs()[i].0,
            #[trigger] self.pairs()[j].0,
        )
    }

    /// A map with no entry.
    pub fn new(meta: Meta) -> (r: Table)
        ensures
            r.wf(),
            r.pairs().len() == 0,
            r.meta == meta,
    {
        Table { entries: Vec::new(), meta }
    }

    /// The position of the entry whose key is alike to `key`, if any.
    fn position(&self, key: &Expr) -> (r: Option<usize>)
        ensures
            r is None ==> forall|j: int| 0 <= j < self.pairs().len() ==> !alike(#[trigger] self.pairs()[j].0, key@),
            r matches Some(i) ==> first_key(self.pairs(), key@, i as int),
    {
        let mut k: usize = 0;
        while k < self.entries.len()
            invariant
                k <= self.entries@.len(),
                forall|j: int| 0 <= j < k ==> !alike(#[trigger] self.pairs()[j].0, key@),
            decreases self.entries@.len() - k,
        {
            if self.entries[k].key.alike(key) {
                return Some(k);
            }
            k = k + 1;
        }
        None
    }

    /// Bind `key` to `value`: the entry of a key alike to it takes the new
    /// value, else a new entry goes at the end.
    pub fn insert(&mut self, key: Expr, value: Expr)
        requires
            old(self).wf(),
        ensures
            final(self).wf(),
            final(self).meta == old(self).meta,
            (forall|j: int| 0 <= j < old(self).pairs().len() ==> !alike(#[trigger] old(self).pairs()[j].0, key@))
                ==> final(self).pairs() == old(self).pairs().push((key@, value@)),
            forall|i: int| first_key(old(self).pairs(), key@, i) ==> final(self).pairs()
                == old(self).pairs().update(i, (old(self).pairs()[i].0, value@)),
    {
        let ghost before = self.pairs();
        match self.position(&key) {
            Some(i) => {
                let ghost v = value@;
                let k = self.entries[i].key.duplicate();
                self.entries.set(i, Entry { key: k, value });
                assert(self.pairs() =~= before.update(i as int, (before[i as int].0, v)));
                assert forall|a: int, b: int| 0 <= a < b < self.pairs().len() implies !alike(
                    #[trigger] self.pairs()[a].0, #[trigger] self.pairs()[b].0) by {
                    assert(self.pairs()[a].0 == before[a].0 && self.pairs()[b].0 == before[b].0);
                }
                assert forall|j: int| first_key(before, key@, j) implies self.pairs()
                    == before.update(j, (before[j].0, v)) by {
                    if j < i {
                        assert(!alike(before[j].0, key@));
                    } else if j > i {
                        assert(!alike(before[i as int].0, key@));
                    }
                }
            },
            None => {
                let ghost kv = (key@, value@);
                self.entries.push(Entry { key, value });
                assert(self.pairs() =~= before.push(kv));
                assert forall|a: int, b: int| 0 <= a < b < self.pairs().len() implies !alike(
                    #[trigger] self.pairs()[a].0, #[trigger] self.pairs()[b].0) by {
                    if b == before.len() {
                        assert(!alike(before[a].0, kv.0));
                    } else {
                        assert(self.pairs()[a] == before[a] && self.pairs()[b] == before[b]);
                    }
                }
            },
        }
    }

    /// The value of the entry whose key is alike to `key`, if any.
    pub fn get(&self, key: &Expr) -> (r: Option<&Expr>)
        requires
            self.wf(),
        ensures
            r is None <==> forall|j: int| 0 <= j < self.pairs().len() ==> !alike(#[trigger] self.pairs()[j].0, key@),
            r matches Some(v) ==> exists|i: int| first_key(self.pairs(), key@, i) && v@ == self.pairs()[i].1,
    {
        match self.position(key) {
            Some(i) => {
                assert(first_key(self.pairs(), key@, i as int));
                Some(&self.entries[i].value)
            },
            None => None,
        }
    }
}

} // verus!
