//! A map from names to strings, kept in the order of its keys. The shell
//! holds its variables, its exported environment and its aliases in one each.

use crate::ast::view_seq;
use crate::text::{chars_lt, chars_of, lemma_lex_strict, lemma_lex_total, lemma_lex_transitive, lex_lt};
use vstd::prelude::*;

verus! {

/// Whether the keys of `es` rise strictly.
pub open spec fn keys_increase(es: Seq<(String, String)>) -> bool {
    forall|i: int, j: int| 0 <= i < j < es.len() ==> lex_lt(#[trigger] es[i].0@, #[trigger] es[j].0@)
}

/// Whether an entry of `es` has the key `k`.
pub open spec fn has_key(es: Seq<(String, String)>, k: Seq<char>) -> bool {
    exists|i: int| 0 <= i < es.len() && #[trigger] es[i].0@ == k
}

/// The position of an entry of `es` with the key `k`.
pub open spec fn index_of(es: Seq<(String, String)>, k: Seq<char>) -> int {
    choose|i: int| 0 <= i < es.len() && #[trigger] es[i].0@ == k
}

/// The map that a list of pairs stands for.
pub open spec fn map_of(es: Seq<(String, String)>) -> Map<Seq<char>, Seq<char>> {
    Map::new(|k: Seq<char>| has_key(es, k), |k: Seq<char>| es[index_of(es, k)].1@)
}

proof fn lemma_index_unique(es: Seq<(String, String)>, i: int)
    requires
        keys_increase(es),
        0 <= i < es.len(),
    ensures
        has_key(es, es[i].0@),
        index_of(es, es[i].0@) == i,
        map_of(es).contains_key(es[i].0@),
        map_of(es)[es[i].0@] == es[i].1@,
{
    let k = es[i].0@;
    let j = index_of(es, k);
    lemma_lex_strict(k, k);
    if j < i {
        assert(lex_lt(es[j].0@, es[i].0@));
    } else if i < j {
        assert(lex_lt(es[i].0@, es[j].0@));
    }
}

proof fn lemma_absent(es: Seq<(String, String)>, k: Seq<char>, p: int)
    requires
        keys_increase(es),
        0 <= p <= es.len(),
        forall|i: int| 0 <= i < p ==> lex_lt(#[trigger] es[i].0@, k),
        p < es.len() ==> lex_lt(k, es[p].0@),
    ensures
        !has_key(es, k),
{
    lemma_lex_strict(k, k);
    if has_key(es, k) {
        let i = index_of(es, k);
        if i < p {
            assert(lex_lt(es[i].0@, k));
        } else if i > p {
            assert(lex_lt(es[p].0@, es[i].0@));
            lemma_lex_strict(k, es[p].0@);
        }
    }
}

proof fn lemma_insert(es: Seq<(String, String)>, e: (String, String), p: int)
    requires
        keys_increase(es),
        0 <= p <= es.len(),
        forall|i: int| 0 <= i < p ==> lex_lt(#[trigger] es[i].0@, e.0@),
        forall|i: int| p <= i < es.len() ==> lex_lt(e.0@, #[trigger] es[i].0@),
    ensures
        keys_increase(es.insert(p, e)),
        map_of(es.insert(p, e)) == map_of(es).insert(e.0@, e.1@),
{
    let fs = es.insert(p, e);
    assert forall|i: int, j: int| 0 <= i < j < fs.len() implies lex_lt(
        #[trigger] fs[i].0@,
        #[trigger] fs[j].0@,
    ) by {
        if j < p {
        } else if j == p {
        } else if i < p {
            assert(fs[j] == es[j - 1]);
            if j - 1 < p {
            } else {
                lemma_lex_transitive(es[i].0@, e.0@, es[j - 1].0@);
            }
        } else if i == p {
            assert(fs[j] == es[j - 1]);
        } else {
            assert(fs[i] == es[i - 1]);
            assert(fs[j] == es[j - 1]);
        }
    }
    lemma_absent(es, e.0@, p);
    assert forall|k: Seq<char>| #[trigger]
        map_of(fs).contains_key(k) == map_of(es).insert(e.0@, e.1@).contains_key(k) by {
        if k == e.0@ {
            assert(fs[p].0@ == k);
        } else if has_key(es, k) {
            let i = index_of(es, k);
            if i < p {
                assert(fs[i].0@ == k);
            } else {
                assert(fs[i + 1].0@ == k);
            }
        } else if has_key(fs, k) {
            let i = index_of(fs, k);
            if i < p {
                assert(es[i].0@ == k);
            } else {
                assert(es[i - 1].0@ == k);
            }
        }
    }
    assert forall|k: Seq<char>| #[trigger] map_of(fs).contains_key(k) implies map_of(fs)[k]
        == map_of(es).insert(e.0@, e.1@)[k] by {
        if k == e.0@ {
            lemma_index_unique(fs, p);
        } else {
            let i = index_of(es, k);
            lemma_index_unique(es, i);
            if i < p {
                lemma_index_unique(fs, i);
            } else {
                assert(fs[i + 1] == es[i]);
                lemma_index_unique(fs, i + 1);
            }
        }
    }
    assert(map_of(fs) =~= map_of(es).insert(e.0@, e.1@));
}

proof fn lemma_update(es: Seq<(String, String)>, e: (String, String), p: int)
    requires
        keys_increase(es),
        0 <= p < es.len(),
        es[p].0@ == e.0@,
    ensures
        keys_increase(es.update(p, e)),
        map_of(es.update(p, e)) == map_of(es).insert(e.0@, e.1@),
{
    let fs = es.update(p, e);
    assert forall|i: int, j: int| 0 <= i < j < fs.len() implies lex_lt(
        #[trigger] fs[i].0@,
        #[trigger] fs[j].0@,
    ) by {
        assert(fs[i].0@ == es[i].0@);
        assert(fs[j].0@ == es[j].0@);
    }
    assert forall|k: Seq<char>| #[trigger]
        map_of(fs).contains_key(k) == map_of(es).insert(e.0@, e.1@).contains_key(k) by {
        if has_key(es, k) {
            let i = index_of(es, k);
            assert(fs[i].0@ == k);
        } else if has_key(fs, k) {
            let i = index_of(fs, k);
            assert(es[i].0@ == k);
        } else if k == e.0@ {
            assert(es[p].0@ == k);
        }
    }
    assert forall|k: Seq<char>| #[trigger] map_of(fs).contains_key(k) implies map_of(fs)[k]
        == map_of(es).insert(e.0@, e.1@)[k] by {
        let i = index_of(fs, k);
        lemma_index_unique(fs, i);
        lemma_index_unique(es, p);
        if i != p {
            assert(es[i] == fs[i]);
            lemma_index_unique(es, i);
        }
    }
    assert(map_of(fs) =~= map_of(es).insert(e.0@, e.1@));
}

proof fn lemma_remove(es: Seq<(String, String)>, p: int)
    requires
        keys_increase(es),
        0 <= p < es.len(),
    ensures
        keys_increase(es.remove(p)),
        map_of(es.remove(p)) == map_of(es).remove(es[p].0@),
{
    let fs = es.remove(p);
    let gone = es[p].0@;
    assert forall|i: int, j: int| 0 <= i < j < fs.len() implies lex_lt(
        #[trigger] fs[i].0@,
        #[trigger] fs[j].0@,
    ) by {
        let a = if i < p { i } else { i + 1 };
        let b = if j < p { j } else { j + 1 };
        assert(fs[i] == es[a]);
        assert(fs[j] == es[b]);
    }
    assert forall|k: Seq<char>| #[trigger]
        map_of(fs).contains_key(k) == map_of(es).remove(gone).contains_key(k) by {
        if has_key(fs, k) {
            let i = index_of(fs, k);
            let a = if i < p { i } else { i + 1 };
            assert(es[a].0@ == k);
            lemma_index_unique(es, a);
            lemma_index_unique(es, p);
        } else if has_key(es, k) && k != gone {
            let i = index_of(es, k);
            let a = if i < p { i } else { i - 1 };
            assert(fs[a].0@ == k);
        }
    }
    assert forall|k: Seq<char>| #[trigger] map_of(fs).contains_key(k) implies map_of(fs)[k]
        == map_of(es).remove(gone)[k] by {
        let i = index_of(fs, k);
        lemma_index_unique(fs, i);
        let a = if i < p { i } else { i + 1 };
        assert(fs[i] == es[a]);
        lemma_index_unique(es, a);
    }
    assert(map_of(fs) =~= map_of(es).remove(gone));
}

/// A finite map from strings to strings whose entries can be listed in the
/// lexicographic order of their keys.
pub struct StrMap {
    entries: Vec<(String, String)>,
}

impl View for StrMap {
    type V = Map<Seq<char>, Seq<char>>;

    closed spec fn view(&self) -> Map<Seq<char>, Seq<char>> {
        map_of(self.entries@)
    }
}

impl StrMap {
    /// The keys rise strictly, so none occurs twice.
    pub closed spec fn wf(&self) -> bool {
        keys_increase(self.entries@)
    }

    /// The entries as pairs of views, in the order of their keys.
    pub closed spec fn pairs(&self) -> Seq<(Seq<char>, Seq<char>)> {
        Seq::new(self.entries@.len(), |i: int| (self.entries@[i].0@, self.entries@[i].1@))
    }

    /// `pairs` lists each entry of the map once, by rising key.
    pub proof fn lemma_pairs(&self)
        requires
            self.wf(),
        ensures
            forall|i: int, j: int|
                0 <= i < j < self.pairs().len() ==> lex_lt(
                    #[trigger] self.pairs()[i].0,
                    #[trigger] self.pairs()[j].0,
                ),
            forall|i: int|
                0 <= i < self.pairs().len() ==> self@.contains_key(#[trigger] self.pairs()[i].0)
                    && self@[self.pairs()[i].0] == self.pairs()[i].1,
            forall|k: Seq<char>|
                self@.contains_key(k) ==> exists|i: int|
                    0 <= i < self.pairs().len() && #[trigger] self.pairs()[i].0 == k,
    {
        let es = self.entries@;
        assert forall|i: int| 0 <= i < self.pairs().len() implies self@.contains_key(
            #[trigger] self.pairs()[i].0,
        ) && self@[self.pairs()[i].0] == self.pairs()[i].1 by {
            lemma_index_unique(es, i);
        }
        assert forall|k: Seq<char>| self@.contains_key(k) implies exists|i: int|
            0 <= i < self.pairs().len() && #[trigger] self.pairs()[i].0 == k by {
            let i = index_of(es, k);
            assert(self.pairs()[i].0 == k);
        }
    }

    /// The empty map.
    pub fn new() -> (m: StrMap)
        ensures
            m.wf(),
            m@ == Map::<Seq<char>, Seq<char>>::empty(),
            m.pairs().len() == 0,
    {
        let m = StrMap { entries: Vec::new() };
        assert(m@ =~= Map::<Seq<char>, Seq<char>>::empty());
        m
    }

    /// The number of entries.
    pub fn len(&self) -> (n: usize)
        ensures
            n == self.pairs().len(),
    {
        self.entries.len()
    }

    /// The position of `key`, or the position at which it would be put.
    fn locate(&self, key: &str) -> (r: (usize, bool))
        requires
            self.wf(),
        ensures
            r.0 <= self.entries.len(),
            r.1 ==> r.0 < self.entries.len() && self.entries[r.0 as int].0@ == key@,
            !r.1 ==> !has_key(self.entries@, key@),
            forall|i: int| 0 <= i < r.0 ==> lex_lt(#[trigger] self.entries[i].0@, key@),
            forall|i: int|
                r.0 + (if r.1 { 1int } else { 0int }) <= i < self.entries.len() ==> lex_lt(
                    key@,
                    #[trigger] self.entries[i].0@,
                ),
    {
        let k = chars_of(key);
        let n = self.entries.len();
        let mut i: usize = 0;
        while i < n
            invariant
                0 <= i <= n == self.entries.len(),
                k@ == key@,
                keys_increase(self.entries@),
                forall|j: int| 0 <= j < i ==> lex_lt(#[trigger] self.entries[j].0@, key@),
            decreases n - i,
        {
            let e = chars_of(self.entries[i].0.as_str());
            if chars_lt(&e, &k) {
                i += 1;
            } else {
                let found = !chars_lt(&k, &e);
                proof {
                    lemma_lex_total(k@, e@);
                    if found {
                        assert forall|j: int| i + 1 <= j < self.entries.len() implies lex_lt(
                            key@,
                            #[trigger] self.entries[j].0@,
                        ) by {
                            assert(lex_lt(self.entries[i as int].0@, self.entries[j].0@));
                        }
                    } else {
                        assert forall|j: int| i <= j < self.entries.len() implies lex_lt(
                            key@,
                            #[trigger] self.entries[j].0@,
                        ) by {
                            if j > i {
                                assert(lex_lt(self.entries[i as int].0@, self.entries[j].0@));
                                lemma_lex_transitive(
                                    key@,
                                    self.entries[i as int].0@,
                                    self.entries[j].0@,
                                );
                            }
                        }
                        lemma_absent(self.entries@, key@, i as int);
                    }
                }
                return (i, found);
            }
        }
        proof {
            lemma_absent(self.entries@, key@, n as int);
        }
        (n, false)
    }

    /// Whether `key` is bound.
    pub fn contains_key(&self, key: &str) -> (r: bool)
        requires
            self.wf(),
        ensures
            r == self@.contains_key(key@),
    {
        let (_, found) = self.locate(key);
        found
    }

    /// The value that `key` is bound to.
    pub fn get(&self, key: &str) -> (r: Option<&String>)
        requires
            self.wf(),
        ensures
            match r {
                Some(v) => self@.contains_key(key@) && self@[key@] == v@,
                None => !self@.contains_key(key@),
            },
    {
        let (i, found) = self.locate(key);
        if found {
            proof {
                lemma_index_unique(self.entries@, i as int);
            }
            Some(&self.entries[i].1)
        } else {
            None
        }
    }

    /// Binds `key` to `value`, whether or not it was bound before.
    pub fn insert(&mut self, key: &str, value: &str)
        requires
            old(self).wf(),
        ensures
            final(self).wf(),
            final(self)@ == old(self)@.insert(key@, value@),
    {
        let (i, found) = self.locate(key);
        let e = (key.to_owned(), value.to_owned());
        if found {
            proof {
                lemma_update(self.entries@, e, i as int);
            }
            self.entries[i] = e;
        } else {
            proof {
                lemma_insert(self.entries@, e, i as int);
            }
            self.entries.insert(i, e);
        }
    }

    /// Unbinds `key`, and says whether it was bound.
    pub fn remove(&mut self, key: &str) -> (r: bool)
        requires
            old(self).wf(),
        ensures
            final(self).wf(),
            r == old(self)@.contains_key(key@),
            final(self)@ == old(self)@.remove(key@),
    {
        let (i, found) = self.locate(key);
        if found {
            proof {
                lemma_remove(self.entries@, i as int);
            }
            self.entries.remove(i);
            true
        } else {
            assert(self@ =~= self@.remove(key@));
            false
        }
    }

    /// Unbinds every key.
    pub fn clear(&mut self)
        ensures
            final(self).wf(),
            final(self)@ == Map::<Seq<char>, Seq<char>>::empty(),
    {
        self.entries = Vec::new();
        assert(self@ =~= Map::<Seq<char>, Seq<char>>::empty());
    }

    /// The entry at position `i` in the order of the keys.
    pub fn entry(&self, i: usize) -> (r: (&String, &String))
        requires
            i < self.pairs().len(),
        ensures
            (r.0@, r.1@) == self.pairs()[i as int],
    {
        (&self.entries[i].0, &self.entries[i].1)
    }

    /// All entries, by rising key.
    pub fn to_vec(&self) -> (r: Vec<(String, String)>)
        ensures
            view_seq(r@) == self.pairs(),
    {
        let mut r: Vec<(String, String)> = Vec::new();
        let mut i: usize = 0;
        while i < self.entries.len()
            invariant
                0 <= i <= self.entries.len(),
                r.len() == i,
                forall|j: int| 0 <= j < i ==> (#[trigger] r[j])@ == self.pairs()[j],
            decreases self.entries.len() - i,
        {
            r.push((self.entries[i].0.clone(), self.entries[i].1.clone()));
            i += 1;
        }
        assert(view_seq(r@) =~= self.pairs());
        r
    }
}

} // verus!
