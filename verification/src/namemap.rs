//! An association from string names to values with unique keys, used for
//! sprite catalogs, sprite images and archive contents.

use vstd::prelude::*;

use crate::strutil::str_eq;

verus! {

/// A name-keyed table. Keys are unique; its mathematical model is a
/// `Map<Seq<char>, T>`. Entries keep their insertion order, which the
/// sheet composer and the window compositor rely on for a deterministic
/// paint order.
#[derive(Debug, Clone)]
pub struct NameMap<T> {
    entries: Vec<(String, T)>,
}

impl<T> NameMap<T> {
    /// The entries in insertion order.
    pub closed spec fn entries_seq(self) -> Seq<(String, T)> {
        self.entries@
    }

    /// Number of entries.
    pub open spec fn len_spec(self) -> nat {
        self.entries_seq().len()
    }

    /// The key of entry `i`.
    pub open spec fn key_at(self, i: int) -> Seq<char> {
        self.entries_seq()[i].0@
    }

    /// The value of entry `i`.
    pub open spec fn val_at(self, i: int) -> T {
        self.entries_seq()[i].1
    }

    /// Well-formed: no two entries share a key.
    pub open spec fn wf(self) -> bool {
        forall|i: int, j: int|
            0 <= i < j < self.len_spec() ==> self.key_at(i) != self.key_at(j)
    }

    /// Whether some entry has key `k`.
    pub open spec fn has_key(self, k: Seq<char>) -> bool {
        exists|i: int| 0 <= i < self.len_spec() && self.key_at(i) == k
    }

    /// The index of the entry with key `k`, when one exists.
    pub open spec fn index_of(self, k: Seq<char>) -> int {
        choose|i: int| 0 <= i < self.len_spec() && self.key_at(i) == k
    }

    /// The table as a mathematical map.
    pub open spec fn map_view(self) -> Map<Seq<char>, T> {
        Map::new(|k: Seq<char>| self.has_key(k), |k: Seq<char>| self.val_at(self.index_of(k)))
    }

    /// Entry `i` witnesses its own key.
    pub proof fn lemma_has_key_at(self, i: int)
        requires
            0 <= i < self.len_spec(),
        ensures
            self.has_key(self.key_at(i)),
    {
        assert(0 <= i < self.len_spec() && self.key_at(i) == self.key_at(i));
    }

    /// In a well-formed table, `index_of` is the one index holding key `k`.
    pub proof fn lemma_index_of(self, k: Seq<char>)
        requires
            self.wf(),
            self.has_key(k),
        ensures
            0 <= self.index_of(k) < self.len_spec(),
            self.key_at(self.index_of(k)) == k,
            forall|j: int| 0 <= j < self.len_spec() && self.key_at(j) == k ==> j == self.index_of(k),
    {
        let i = self.index_of(k);
        assert(0 <= i < self.len_spec() && self.key_at(i) == k);
        assert forall|j: int| 0 <= j < self.len_spec() && self.key_at(j) == k implies j == i by {
            if j < i {
                assert(self.key_at(j) != self.key_at(i));
            } else if i < j {
                assert(self.key_at(i) != self.key_at(j));
            }
        }
    }

    /// Entry `i` of a well-formed table is visible in the map view.
    pub proof fn lemma_view_at(self, i: int)
        requires
            self.wf(),
            0 <= i < self.len_spec(),
        ensures
            self.map_view().contains_key(self.key_at(i)),
            self.map_view()[self.key_at(i)] == self.val_at(i),
    {
        let k = self.key_at(i);
        self.lemma_has_key_at(i);
        self.lemma_index_of(k);
    }

    /// Creates an empty table.
    pub fn new() -> (r: NameMap<T>)
        ensures
            r.wf(),
            r.len_spec() == 0,
            r.map_view() == Map::<Seq<char>, T>::empty(),
    {
        let r = NameMap { entries: Vec::new() };
        proof {
            assert(r.map_view() =~= Map::<Seq<char>, T>::empty());
        }
        r
    }

    /// Number of entries.
    pub fn len(&self) -> (r: usize)
        ensures
            r == self.len_spec(),
    {
        self.entries.len()
    }

    /// The name of entry `i`.
    pub fn key_ref(&self, i: usize) -> (r: &String)
        requires
            i < self.len_spec(),
        ensures
            r@ == self.key_at(i as int),
    {
        &self.entries[i].0
    }

    /// The value of entry `i`.
    pub fn val_ref(&self, i: usize) -> (r: &T)
        requires
            i < self.len_spec(),
        ensures
            *r == self.val_at(i as int),
    {
        &self.entries[i].1
    }

    /// Inserts a binding, replacing the value if the key is present.
    #[verifier::loop_isolation(false)]
    pub fn insert(&mut self, name: String, value: T)
        requires
            old(self).wf(),
        ensures
            final(self).wf(),
            final(self).map_view() == old(self).map_view().insert(name@, value),
            old(self).has_key(name@) ==> final(self).len_spec() == old(self).len_spec(),
            !old(self).has_key(name@) ==> final(self).len_spec() == old(self).len_spec() + 1
                && final(self).key_at(final(self).len_spec() - 1) == name@,
            forall|i: int|
                0 <= i < final(self).len_spec() && final(self).key_at(i) != name@
                ==> 0 <= i < old(self).len_spec()
                    && final(self).entries_seq()[i] == old(self).entries_seq()[i],
            forall|i: int| 0 <= i < final(self).len_spec() && final(self).key_at(i) == name@
                ==> final(self).val_at(i) == value,
    {
        let ghost prev = *self;
        let mut i: usize = 0;
        while i < self.entries.len()
            invariant
                *self == prev,
                i <= prev.len_spec(),
                forall|j: int| 0 <= j < i ==> prev.key_at(j) != name@,
            decreases prev.len_spec() - i,
        {
            if str_eq(self.entries[i].0.as_str(), name.as_str()) {
                proof {
                    assert(prev.key_at(i as int) == name@);
                    prev.lemma_has_key_at(i as int);
                    prev.lemma_index_of(name@);
                }
                self.entries.remove(i);
                self.entries.insert(i, (name, value));
                proof {
                    let ii = i as int;
                    assert(self.entries_seq() =~= prev.entries_seq().update(ii, (name, value)));
                    assert forall|j: int| 0 <= j < self.len_spec()
                        implies #[trigger] self.key_at(j) == prev.key_at(j) by {}
                    assert forall|k: Seq<char>| #![auto] self.has_key(k) <==> prev.has_key(k) by {
                        if self.has_key(k) {
                            let j = choose|j: int| 0 <= j < self.len_spec() && self.key_at(j) == k;
                            assert(0 <= j < prev.len_spec() && prev.key_at(j) == k);
                        }
                        if prev.has_key(k) {
                            let j = choose|j: int| 0 <= j < prev.len_spec() && prev.key_at(j) == k;
                            assert(0 <= j < self.len_spec() && self.key_at(j) == k);
                        }
                    }
                    assert forall|a: int, b: int|
                        0 <= a < b < self.len_spec() implies self.key_at(a) != self.key_at(b) by {
                        assert(prev.key_at(a) != prev.key_at(b));
                    }
                    assert(self.map_view() =~= prev.map_view().insert(name@, value)) by {
                        assert forall|k: Seq<char>| #[trigger] self.has_key(k)
                            implies self.map_view()[k] == prev.map_view().insert(name@, value)[k] by {
                            self.lemma_index_of(k);
                            let j = self.index_of(k);
                            if k == name@ {
                                assert(self.key_at(ii) == name@);
                                assert(j == ii);
                            } else {
                                assert(j != ii);
                                assert(prev.key_at(j) == k);
                                prev.lemma_has_key_at(j);
                                prev.lemma_index_of(k);
                            }
                        }
                    }
                }
                return;
            }
            i = i + 1;
        }
        proof {
            assert(!prev.has_key(name@));
        }
        self.entries.push((name, value));
        proof {
            let n = prev.len_spec() as int;
            assert(self.key_at(n) == name@);
            assert forall|a: int, b: int|
                0 <= a < b < self.len_spec() implies self.key_at(a) != self.key_at(b) by {
                if b < n {
                    assert(prev.key_at(a) != prev.key_at(b));
                } else {
                    assert(self.key_at(b) == name@);
                    assert(self.key_at(a) == prev.key_at(a));
                    prev.lemma_has_key_at(a);
                }
            }
            assert forall|k: Seq<char>| #![auto] self.has_key(k) <==> prev.has_key(k) || k == name@ by {
                if k == name@ {
                    assert(0 <= n < self.len_spec() && self.key_at(n) == k);
                } else {
                    if prev.has_key(k) {
                        let j = choose|j: int| 0 <= j < prev.len_spec() && prev.key_at(j) == k;
                        assert(0 <= j < self.len_spec() && self.key_at(j) == k);
                    }
                    if self.has_key(k) {
                        let j = choose|j: int| 0 <= j < self.len_spec() && self.key_at(j) == k;
                        assert(j != n);
                        assert(0 <= j < prev.len_spec() && prev.key_at(j) == k);
                    }
                }
            }
            assert(self.map_view() =~= prev.map_view().insert(name@, value)) by {
                assert forall|k: Seq<char>| #[trigger] self.has_key(k)
                    implies self.map_view()[k] == prev.map_view().insert(name@, value)[k] by {
                    self.lemma_index_of(k);
                    let j = self.index_of(k);
                    if k == name@ {
                        assert(self.key_at(n) == k);
                        assert(j == n);
                    } else {
                        assert(j != n);
                        assert(prev.key_at(j) == k);
                        prev.lemma_has_key_at(j);
                        prev.lemma_index_of(k);
                    }
                }
            }
        }
    }

    /// Looks a name up.
    #[verifier::loop_isolation(false)]
    pub fn get<'a>(&'a self, name: &str) -> (r: Option<&'a T>)
        requires
            self.wf(),
        ensures
            match r {
                Some(v) => self.map_view().contains_key(name@) && *v == self.map_view()[name@],
                None => !self.map_view().contains_key(name@),
            },
    {
        let mut i: usize = 0;
        while i < self.entries.len()
            invariant
                self.wf(),
                i <= self.len_spec(),
                forall|j: int| 0 <= j < i ==> self.key_at(j) != name@,
            decreases self.len_spec() - i,
        {
            if str_eq(self.entries[i].0.as_str(), name) {
                proof {
                    self.lemma_view_at(i as int);
                }
                return Some(&self.entries[i].1);
            }
            i = i + 1;
        }
        proof {
            assert(!self.has_key(name@));
        }
        None
    }

    /// Whether a name is present.
    pub fn contains_key(&self, name: &str) -> (r: bool)
        requires
            self.wf(),
        ensures
            r == self.map_view().contains_key(name@),
    {
        match self.get(name) {
            Some(_) => true,
            None => false,
        }
    }

    /// Removes a binding, if present.
    #[verifier::loop_isolation(false)]
    pub fn remove(&mut self, name: &str)
        requires
            old(self).wf(),
        ensures
            final(self).wf(),
            final(self).map_view() == old(self).map_view().remove(name@),
    {
        let ghost prev = *self;
        let mut i: usize = 0;
        while i < self.entries.len()
            invariant
                *self == prev,
                i <= prev.len_spec(),
                forall|j: int| 0 <= j < i ==> prev.key_at(j) != name@,
            decreases prev.len_spec() - i,
        {
            if str_eq(self.entries[i].0.as_str(), name) {
                proof {
                    assert(prev.key_at(i as int) == name@);
                    prev.lemma_has_key_at(i as int);
                    prev.lemma_index_of(name@);
                }
                self.entries.remove(i);
                proof {
                    assert forall|a: int, b: int|
                        0 <= a < b < self.len_spec() implies self.key_at(a) != self.key_at(b) by {
                        let pa: int = if a < i { a } else { a + 1 };
                        let pb: int = if b < i { b } else { b + 1 };
                        assert(self.key_at(a) == prev.key_at(pa));
                        assert(self.key_at(b) == prev.key_at(pb));
                        assert(prev.key_at(pa) != prev.key_at(pb));
                    }
                    assert forall|k: Seq<char>| #![auto] self.has_key(k) <==> (prev.has_key(k) && k != name@) by {
                        if self.has_key(k) {
                            let j = choose|j: int| 0 <= j < self.len_spec() && self.key_at(j) == k;
                            let pj: int = if j < i { j } else { j + 1 };
                            assert(0 <= pj < prev.len_spec() && prev.key_at(pj) == k);
                            assert(pj != i);
                            if k == name@ {
                                assert(prev.key_at(pj) == prev.key_at(i as int));
                                assert(false);
                            }
                        }
                        if prev.has_key(k) && k != name@ {
                            let j = choose|j: int| 0 <= j < prev.len_spec() && prev.key_at(j) == k;
                            assert(j != i);
                            let nj: int = if j < i { j } else { j - 1 };
                            assert(0 <= nj < self.len_spec() && self.key_at(nj) == k);
                        }
                    }
                    assert(self.map_view() =~= prev.map_view().remove(name@)) by {
                        assert forall|k: Seq<char>| #[trigger] self.has_key(k)
                            implies self.map_view()[k] == prev.map_view().remove(name@)[k] by {
                            self.lemma_index_of(k);
                            let j = self.index_of(k);
                            let pj: int = if j < i { j } else { j + 1 };
                            assert(prev.key_at(pj) == k);
                            prev.lemma_has_key_at(pj);
                            prev.lemma_index_of(k);
                        }
                    }
                }
                return;
            }
            i = i + 1;
        }
        proof {
            assert(!prev.has_key(name@));
            assert(!prev.map_view().contains_key(name@));
            assert(self.map_view() =~= prev.map_view().remove(name@));
        }
    }

    /// Moves every binding of `other` into `self`; on a shared key the
    /// binding of `other` wins.
    #[verifier::loop_isolation(false)]
    pub fn extend(&mut self, other: NameMap<T>)
        requires
            old(self).wf(),
            other.wf(),
        ensures
            final(self).wf(),
            final(self).map_view() == old(self).map_view().union_prefer_right(other.map_view()),
    {
        let ghost target = old(self).map_view().union_prefer_right(other.map_view());
        let mut rest = other;
        while rest.entries.len() > 0
            invariant
                self.wf(),
                rest.wf(),
                self.map_view().union_prefer_right(rest.map_view()) == target,
            decreases rest.len_spec(),
        {
            let ghost before_self = *self;
            let ghost before_rest = rest;
            let (name, value) = rest.entries.remove(0);
            proof {
                assert(before_rest.key_at(0) == name@);
                assert forall|a: int, b: int|
                    0 <= a < b < rest.len_spec() implies rest.key_at(a) != rest.key_at(b) by {
                    assert(rest.key_at(a) == before_rest.key_at(a + 1));
                    assert(rest.key_at(b) == before_rest.key_at(b + 1));
                    assert(before_rest.key_at(a + 1) != before_rest.key_at(b + 1));
                }
            }
            self.insert(name, value);
            proof {
                let k = before_rest.key_at(0);
                let v = before_rest.val_at(0);
                assert forall|q: Seq<char>| #![auto] rest.has_key(q) <==> (before_rest.has_key(q) && q != k) by {
                    if rest.has_key(q) {
                        let j = choose|j: int| 0 <= j < rest.len_spec() && rest.key_at(j) == q;
                        assert(0 <= j + 1 < before_rest.len_spec() && before_rest.key_at(j + 1) == q);
                        if q == k {
                            assert(before_rest.key_at(0) != before_rest.key_at(j + 1));
                            assert(false);
                        }
                    }
                    if before_rest.has_key(q) && q != k {
                        let j = choose|j: int| 0 <= j < before_rest.len_spec() && before_rest.key_at(j) == q;
                        assert(j != 0);
                        assert(0 <= j - 1 < rest.len_spec() && rest.key_at(j - 1) == q);
                    }
                }
                assert forall|q: Seq<char>| #[trigger] rest.has_key(q)
                    implies rest.map_view()[q] == before_rest.map_view()[q] by {
                    rest.lemma_index_of(q);
                    let j = rest.index_of(q);
                    assert(before_rest.key_at(j + 1) == q);
                    before_rest.lemma_has_key_at(j + 1);
                    before_rest.lemma_index_of(q);
                }
                before_rest.lemma_view_at(0);
                assert(self.map_view().union_prefer_right(rest.map_view()) =~= target);
            }
        }
        proof {
            assert(rest.map_view() =~= Map::<Seq<char>, T>::empty());
            assert(self.map_view() =~= self.map_view().union_prefer_right(rest.map_view()));
        }
    }
}

} // verus!
