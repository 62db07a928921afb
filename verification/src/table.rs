//! A map from text to values, kept in the order of its keys.

use crate::text::{chars_of, clone_strings, lemma_skip_step, str_eq, texts};
use vstd::prelude::*;

verus! {

/// The order of texts: by the first character in which they differ, a prefix before the
/// longer text.
pub open spec fn text_lt(a: Seq<char>, b: Seq<char>) -> bool
    decreases a.len(),
{
    if b.len() == 0 {
        false
    } else if a.len() == 0 {
        true
    } else if a[0] == b[0] {
        text_lt(a.drop_first(), b.drop_first())
    } else {
        a[0] < b[0]
    }
}

pub proof fn lemma_text_lt_irreflexive(a: Seq<char>)
    ensures
        !text_lt(a, a),
    decreases a.len(),
{
    if a.len() > 0 {
        lemma_text_lt_irreflexive(a.drop_first());
    }
}

pub proof fn lemma_text_lt_total(a: Seq<char>, b: Seq<char>)
    ensures
        text_lt(a, b) || text_lt(b, a) || a == b,
    decreases a.len(),
{
    if a.len() > 0 && b.len() > 0 {
        if a[0] == b[0] {
            lemma_text_lt_total(a.drop_first(), b.drop_first());
            if a.drop_first() == b.drop_first() {
                assert(a =~= seq![a[0]] + a.drop_first());
                assert(b =~= seq![b[0]] + b.drop_first());
            }
        }
    } else if a.len() == 0 && b.len() == 0 {
        assert(a =~= b);
    }
}

pub proof fn lemma_text_lt_transitive(a: Seq<char>, b: Seq<char>, c: Seq<char>)
    requires
        text_lt(a, b),
        text_lt(b, c),
    ensures
        text_lt(a, c),
    decreases a.len(),
{
    if a.len() > 0 {
        if a[0] == b[0] && b[0] == c[0] {
            lemma_text_lt_transitive(a.drop_first(), b.drop_first(), c.drop_first());
        }
    }
}

/// Whether one text comes before another.
pub fn text_before(a: &str, b: &str) -> (r: bool)
    ensures
        r == text_lt(a@, b@),
{
    let x = chars_of(a);
    let y = chars_of(b);
    let mut i: usize = 0;
    proof {
        assert(x@.skip(0) =~= x@);
        assert(y@.skip(0) =~= y@);
    }
    while i < x.len() && i < y.len() && x[i] == y[i]
        invariant
            i <= x@.len(),
            i <= y@.len(),
            text_lt(x@, y@) == text_lt(x@.skip(i as int), y@.skip(i as int)),
        decreases x@.len() - i,
    {
        proof {
            lemma_skip_step(x@, i as int);
            lemma_skip_step(y@, i as int);
        }
        i = i + 1;
    }
    proof {
        if i < x@.len() {
            lemma_skip_step(x@, i as int);
        }
        if i < y@.len() {
            lemma_skip_step(y@, i as int);
        }
    }
    if i >= y.len() {
        false
    } else if i >= x.len() {
        true
    } else {
        x[i] < y[i]
    }
}

/// A map from text to values.
#[derive(Debug)]
pub struct Table<V> {
    keys: Vec<String>,
    values: Vec<V>,
}

/// Whether keys come in order, each once.
pub open spec fn ascending(keys: Seq<Seq<char>>) -> bool {
    forall|i: int, j: int| 0 <= i < j < keys.len() ==> #[trigger] text_lt(keys[i], keys[j])
}

impl<V> Table<V> {
    /// The keys, in order.
    pub closed spec fn keys(&self) -> Seq<Seq<char>> {
        texts(self.keys@)
    }

    /// The values, in the order of their keys.
    pub closed spec fn values(&self) -> Seq<V> {
        self.values@
    }

    pub open spec fn wf(&self) -> bool {
        self.keys().len() == self.values().len() && ascending(self.keys())
    }

    /// Whether there is a value for a key.
    pub open spec fn has(&self, key: Seq<char>) -> bool {
        self.keys().contains(key)
    }

    /// Whether `i` is the place of a key.
    pub open spec fn is_at(&self, key: Seq<char>, i: int) -> bool {
        0 <= i < self.keys().len() && self.keys()[i] == key
    }

    /// The place of a key.
    pub open spec fn place(&self, key: Seq<char>) -> int {
        choose|i: int| self.is_at(key, i)
    }

    /// The value for a key.
    pub open spec fn lookup(&self, key: Seq<char>) -> Option<V> {
        if self.has(key) {
            Some(self.values()[self.place(key)])
        } else {
            None
        }
    }

    pub proof fn lemma_place(&self, key: Seq<char>, i: int)
        requires
            self.wf(),
            self.is_at(key, i),
        ensures
            self.has(key),
            self.place(key) == i,
            self.lookup(key) == Some(self.values()[i]),
    {
        let j = self.place(key);
        assert(self.is_at(key, j));
        lemma_text_lt_irreflexive(key);
        if i < j {
            assert(text_lt(self.keys()[i], self.keys()[j]));
        } else if j < i {
            assert(text_lt(self.keys()[j], self.keys()[i]));
        }
    }

    pub fn new() -> (r: Table<V>)
        ensures
            r.wf(),
            r.keys() == Seq::<Seq<char>>::empty(),
            r.values() == Seq::<V>::empty(),
    {
        let r = Table { keys: Vec::new(), values: Vec::new() };
        proof {
            assert(texts(r.keys@) =~= Seq::<Seq<char>>::empty());
        }
        r
    }

    pub fn len(&self) -> (n: usize)
        requires
            self.wf(),
        ensures
            n == self.keys().len(),
    {
        self.keys.len()
    }

    pub fn key_at(&self, i: usize) -> (r: &str)
        requires
            self.wf(),
            i < self.keys().len(),
        ensures
            r@ == self.keys()[i as int],
    {
        self.keys[i].as_str()
    }

    pub fn value_at(&self, i: usize) -> (r: &V)
        requires
            self.wf(),
            i < self.keys().len(),
        ensures
            *r == self.values()[i as int],
    {
        &self.values[i]
    }

    /// The place of a key, or the place where it belongs.
    fn locate(&self, key: &str) -> (r: (usize, bool))
        requires
            self.wf(),
        ensures
            r.0 <= self.keys().len(),
            r.1 == self.has(key@),
            r.1 ==> self.is_at(key@, r.0 as int),
            forall|k: int| 0 <= k < r.0 ==> text_lt(#[trigger] self.keys()[k], key@),
            !r.1 ==> forall|k: int|
                r.0 <= k < self.keys().len() ==> text_lt(key@, #[trigger] self.keys()[k]),
    {
        let mut i: usize = 0;
        while i < self.keys.len() && text_before(self.keys[i].as_str(), key)
            invariant
                i <= self.keys().len(),
                self.wf(),
                forall|k: int| 0 <= k < i ==> text_lt(#[trigger] self.keys()[k], key@),
            decreases self.keys().len() - i,
        {
            i = i + 1;
        }
        let found = i < self.keys.len() && str_eq(self.keys[i].as_str(), key);
        proof {
            let keys = self.keys();
            if i < keys.len() {
                lemma_text_lt_total(keys[i as int], key@);
            }
            if !found {
                assert forall|k: int| i <= k < keys.len() implies text_lt(
                    key@,
                    #[trigger] keys[k],
                ) by {
                    if k > i {
                        assert(text_lt(keys[i as int], keys[k]));
                        lemma_text_lt_transitive(key@, keys[i as int], keys[k]);
                    }
                }
                lemma_text_lt_irreflexive(key@);
                assert(!keys.contains(key@)) by {
                    if keys.contains(key@) {
                        let k = choose|k: int| 0 <= k < keys.len() && keys[k] == key@;
                        if k < i {
                            assert(text_lt(keys[k], key@));
                        } else {
                            assert(text_lt(key@, keys[k]));
                        }
                    }
                }
            } else {
                assert(self.keys()[i as int] == key@);
            }
        }
        (i, found)
    }

    pub fn contains_key(&self, key: &str) -> (r: bool)
        requires
            self.wf(),
        ensures
            r == self.has(key@),
    {
        self.locate(key).1
    }

    pub fn get(&self, key: &str) -> (r: Option<&V>)
        requires
            self.wf(),
        ensures
            match r {
                Some(v) => self.lookup(key@) == Some(*v),
                None => !self.has(key@),
            },
    {
        let (i, found) = self.locate(key);
        if found {
            proof {
                self.lemma_place(key@, i as int);
            }
            Some(&self.values[i])
        } else {
            None
        }
    }

    /// Sets the value for a key.
    pub fn insert(&mut self, key: &str, value: V)
        requires
            old(self).wf(),
        ensures
            final(self).wf(),
            final(self).lookup(key@) == Some(value),
            forall|k: Seq<char>| k != key@ ==> #[trigger] final(self).lookup(k) == old(self).lookup(
                k,
            ),
            forall|k: Seq<char>| #[trigger] final(self).has(k) <==> old(self).has(k) || k == key@,
    {
        let (i, found) = self.locate(key);
        let ghost before = *self;
        if found {
            self.values.set(i, value);
            proof {
                assert(self.keys() == before.keys());
                self.lemma_place(key@, i as int);
                assert forall|k: Seq<char>| k != key@ implies #[trigger] self.lookup(k)
                    == before.lookup(k) by {
                    if before.has(k) {
                        let j = choose|j: int| 0 <= j < before.keys().len() && before.keys()[j] == k;
                        assert(before.is_at(k, j));
                        before.lemma_place(k, j);
                        self.lemma_place(k, j);
                    }
                }
            }
        } else {
            let owned = key.to_owned();
            self.keys.insert(i, owned);
            self.values.insert(i, value);
            proof {
                let keys = before.keys();
                assert(self.keys() =~= keys.insert(i as int, key@));
                assert(ascending(self.keys())) by {
                    assert forall|a: int, b: int| 0 <= a < b < self.keys().len() implies #[trigger] text_lt(
                        self.keys()[a],
                        self.keys()[b],
                    ) by {
                        let x = if a < i { a } else { a - 1 };
                        let y = if b < i { b } else { b - 1 };
                        if a != i && b != i {
                            assert(text_lt(keys[x], keys[y]));
                        } else if a == i {
                            assert(text_lt(key@, keys[y]));
                        } else {
                            assert(text_lt(keys[x], key@));
                        }
                    }
                }
                assert(self.is_at(key@, i as int));
                self.lemma_place(key@, i as int);
                assert forall|k: Seq<char>| k != key@ implies #[trigger] self.lookup(k)
                    == before.lookup(k) && (self.has(k) <==> before.has(k)) by {
                    if before.has(k) {
                        let j = choose|j: int| 0 <= j < keys.len() && keys[j] == k;
                        assert(before.is_at(k, j));
                        before.lemma_place(k, j);
                        let j2 = if j < i { j } else { j + 1 };
                        assert(self.is_at(k, j2));
                        self.lemma_place(k, j2);
                    }
                    if self.has(k) {
                        let j = choose|j: int| 0 <= j < self.keys().len() && self.keys()[j] == k;
                        let j2 = if j < i { j } else { j - 1 };
                        assert(keys[j2] == k);
                    }
                }
                assert forall|k: Seq<char>| #[trigger] self.has(k) <==> before.has(k) || k
                    == key@ by {
                    if k != key@ {
                        assert(self.lookup(k) == before.lookup(k));
                    }
                }
            }
        }
    }

    /// Removes the value for a key, and says whether there was one.
    pub fn remove(&mut self, key: &str) -> (r: bool)
        requires
            old(self).wf(),
        ensures
            final(self).wf(),
            r == old(self).has(key@),
            !final(self).has(key@),
            forall|k: Seq<char>| k != key@ ==> #[trigger] final(self).lookup(k) == old(self).lookup(
                k,
            ),
    {
        let (i, found) = self.locate(key);
        let ghost before = *self;
        if found {
            self.keys.remove(i);
            self.values.remove(i);
            proof {
                let keys = before.keys();
                assert(self.keys() =~= keys.remove(i as int));
                assert(ascending(self.keys())) by {
                    assert forall|a: int, b: int| 0 <= a < b < self.keys().len() implies #[trigger] text_lt(
                        self.keys()[a],
                        self.keys()[b],
                    ) by {
                        let x = if a < i { a } else { a + 1 };
                        let y = if b < i { b } else { b + 1 };
                        assert(text_lt(keys[x], keys[y]));
                    }
                }
                assert(!self.has(key@)) by {
                    if self.has(key@) {
                        let j = choose|j: int| 0 <= j < self.keys().len() && self.keys()[j] == key@;
                        let j2 = if j < i { j } else { j + 1 };
                        assert(before.is_at(key@, j2));
                        before.lemma_place(key@, j2);
                        before.lemma_place(key@, i as int);
                    }
                }
                assert forall|k: Seq<char>| k != key@ implies #[trigger] self.lookup(k)
                    == before.lookup(k) by {
                    if before.has(k) {
                        let j = choose|j: int| 0 <= j < keys.len() && keys[j] == k;
                        assert(before.is_at(k, j));
                        before.lemma_place(k, j);
                        let j2 = if j < i { j } else { j - 1 };
                        assert(self.is_at(k, j2));
                        self.lemma_place(k, j2);
                    }
                    if self.has(k) {
                        let j = choose|j: int| 0 <= j < self.keys().len() && self.keys()[j] == k;
                        let j2 = if j < i { j } else { j + 1 };
                        assert(keys[j2] == k);
                    }
                }
            }
        }
        found
    }
}

/// A copy of a table of texts.
pub fn copy_table(t: &Table<String>) -> (r: Table<String>)
    requires
        t.wf(),
    ensures
        r.wf(),
        r.keys() == t.keys(),
        texts(r.values()) == texts(t.values()),
{
    let r = Table { keys: clone_strings(&t.keys), values: clone_strings(&t.values) };
    proof {
        assert(texts(r.values@).len() == r.values@.len());
        assert(texts(t.values@).len() == t.values@.len());
    }
    r
}

} // verus!
