//! A map keyed by text that remembers the order in which its keys came in.

use vstd::prelude::*;
use crate::text::text_eq;

verus! {

/// A map from text to `V`. Walking it by index visits the keys in the order in
/// which they were first inserted.
pub struct TextMap<V> {
    entries: Vec<(String, V)>,
}

/// No two pairs share a key.
pub open spec fn keys_distinct<V>(s: Seq<(Seq<char>, V)>) -> bool {
    forall|i: int, j: int| #![trigger s[i], s[j]] 0 <= i < j < s.len() ==> s[i].0 != s[j].0
}

/// Whether some pair has the key `k`.
pub open spec fn has_key<V>(s: Seq<(Seq<char>, V)>, k: Seq<char>) -> bool {
    exists|i: int| 0 <= i < s.len() && #[trigger] s[i].0 == k
}

/// The place of a pair with the key `k`.
pub open spec fn key_index<V>(s: Seq<(Seq<char>, V)>, k: Seq<char>) -> int {
    choose|i: int| 0 <= i < s.len() && #[trigger] s[i].0 == k
}

/// The pairs as a map.
pub open spec fn map_of<V>(s: Seq<(Seq<char>, V)>) -> Map<Seq<char>, V> {
    Map::new(|k: Seq<char>| has_key(s, k), |k: Seq<char>| s[key_index(s, k)].1)
}

/// With distinct keys, `map_of` sends the key of every pair to its value.
pub proof fn lemma_map_of<V>(s: Seq<(Seq<char>, V)>)
    requires
        keys_distinct(s),
    ensures
        forall|i: int|
            0 <= i < s.len() ==> #[trigger] map_of(s).contains_key(s[i].0) && map_of(s)[s[i].0]
                == s[i].1,
        forall|k: Seq<char>| #[trigger]
            map_of(s).contains_key(k) ==> 0 <= key_index(s, k) < s.len() && s[key_index(s, k)].0
                == k,
{
    assert forall|i: int| 0 <= i < s.len() implies #[trigger] map_of(s).contains_key(s[i].0)
        && map_of(s)[s[i].0] == s[i].1 by {
        assert(has_key(s, s[i].0));
        let j = key_index(s, s[i].0);
        assert(0 <= j < s.len() && s[j].0 == s[i].0);
    }
}

/// Adding a pair with a new key adds it to the map.
pub proof fn lemma_map_of_push<V>(s: Seq<(Seq<char>, V)>, k: Seq<char>, v: V)
    requires
        keys_distinct(s),
        !has_key(s, k),
    ensures
        keys_distinct(s.push((k, v))),
        map_of(s.push((k, v))) == map_of(s).insert(k, v),
{
    let t = s.push((k, v));
    assert(keys_distinct(t)) by {
        assert forall|i: int, j: int| #![trigger t[i], t[j]] 0 <= i < j < t.len() implies t[i].0
            != t[j].0 by {
            if j < s.len() {
                assert(t[i] == s[i] && t[j] == s[j]);
            } else {
                assert(t[i] == s[i]);
                assert(s[i].0 != k);
            }
        }
    }
    lemma_map_of(s);
    lemma_map_of(t);
    assert(map_of(t) =~= map_of(s).insert(k, v)) by {
        assert(t[s.len() as int].0 == k);
        assert(has_key(t, k));
        assert forall|q: Seq<char>| map_of(t).contains_key(q) == map_of(s).insert(k, v).contains_key(q) by {
            if map_of(t).contains_key(q) {
                let i = key_index(t, q);
                if i < s.len() {
                    assert(s[i].0 == q);
                    assert(has_key(s, q));
                }
            }
            if map_of(s).contains_key(q) {
                let i = key_index(s, q);
                assert(t[i].0 == q);
                assert(has_key(t, q));
            }
        }
        assert forall|q: Seq<char>| map_of(t).contains_key(q) implies map_of(t)[q] == map_of(
            s,
        ).insert(k, v)[q] by {
            let i = key_index(t, q);
            if i < s.len() {
                assert(s[i].0 == q);
                assert(map_of(s)[s[i].0] == s[i].1);
            }
        }
    }
}

/// Replacing the value of a pair replaces it in the map.
pub proof fn lemma_map_of_update<V>(s: Seq<(Seq<char>, V)>, n: int, v: V)
    requires
        keys_distinct(s),
        0 <= n < s.len(),
    ensures
        keys_distinct(s.update(n, (s[n].0, v))),
        map_of(s.update(n, (s[n].0, v))) == map_of(s).insert(s[n].0, v),
{
    let t = s.update(n, (s[n].0, v));
    assert(forall|i: int| 0 <= i < s.len() ==> #[trigger] t[i].0 == s[i].0);
    assert(keys_distinct(t));
    lemma_map_of(s);
    lemma_map_of(t);
    assert(map_of(t) =~= map_of(s).insert(s[n].0, v)) by {
        assert forall|q: Seq<char>| map_of(t).contains_key(q) == map_of(s).insert(s[n].0, v).contains_key(q) by {
            if map_of(t).contains_key(q) {
                let i = key_index(t, q);
                assert(s[i].0 == q);
                assert(has_key(s, q));
            }
            if map_of(s).contains_key(q) {
                let i = key_index(s, q);
                assert(t[i].0 == q);
                assert(has_key(t, q));
            }
            assert(t[n].0 == s[n].0);
        }
        assert forall|q: Seq<char>| map_of(t).contains_key(q) implies map_of(t)[q] == map_of(
            s,
        ).insert(s[n].0, v)[q] by {
            let i = key_index(t, q);
            assert(s[i].0 == q);
            assert(map_of(s)[s[i].0] == s[i].1);
        }
    }
}

/// Taking a pair out takes its key out of the map.
pub proof fn lemma_map_of_remove<V>(s: Seq<(Seq<char>, V)>, n: int)
    requires
        keys_distinct(s),
        0 <= n < s.len(),
    ensures
        keys_distinct(s.remove(n)),
        map_of(s.remove(n)) == map_of(s).remove(s[n].0),
{
    let t = s.remove(n);
    assert(forall|i: int| 0 <= i < n ==> #[trigger] t[i] == s[i]);
    assert(forall|i: int| n <= i < t.len() ==> #[trigger] t[i] == s[i + 1]);
    assert(keys_distinct(t));
    lemma_map_of(s);
    lemma_map_of(t);
    assert(map_of(t) =~= map_of(s).remove(s[n].0)) by {
        assert forall|q: Seq<char>| map_of(t).contains_key(q) == map_of(s).remove(s[n].0).contains_key(q) by {
            if map_of(t).contains_key(q) {
                let i = key_index(t, q);
                let j = if i < n { i } else { i + 1 };
                assert(s[j].0 == q);
                assert(has_key(s, q));
            }
            if map_of(s).contains_key(q) && q != s[n].0 {
                let i = key_index(s, q);
                let j = if i < n { i } else { i - 1 };
                assert(t[j].0 == q);
                assert(has_key(t, q));
            }
        }
        assert forall|q: Seq<char>| map_of(t).contains_key(q) implies map_of(t)[q] == map_of(
            s,
        ).remove(s[n].0)[q] by {
            let i = key_index(t, q);
            let j = if i < n { i } else { i + 1 };
            assert(s[j].0 == q);
            assert(map_of(s)[s[j].0] == s[j].1);
        }
    }
}

/// There are as many keys in the map as pairs.
pub proof fn lemma_map_of_len<V>(s: Seq<(Seq<char>, V)>)
    requires
        keys_distinct(s),
    ensures
        map_of(s).dom().finite(),
        map_of(s).dom().len() == s.len(),
    decreases s.len(),
{
    if s.len() == 0 {
        assert(map_of(s).dom() =~= Set::<Seq<char>>::empty());
    } else {
        let t = s.drop_last();
        let (k, v) = s.last();
        assert(keys_distinct(t)) by {
            assert forall|i: int, j: int| #![trigger t[i], t[j]] 0 <= i < j < t.len() implies t[i].0
                != t[j].0 by {
                assert(t[i] == s[i] && t[j] == s[j]);
            }
        }
        lemma_map_of_len(t);
        assert(!has_key(t, k)) by {
            assert forall|i: int| 0 <= i < t.len() implies #[trigger] t[i].0 != k by {
                assert(t[i] == s[i]);
                assert(s[s.len() - 1].0 == k);
            }
        }
        lemma_map_of_push(t, k, v);
        assert(t.push((k, v)) =~= s);
        assert(map_of(s).dom() =~= map_of(t).dom().insert(k));
        assert(!map_of(t).dom().contains(k));
    }
}

impl<V> View for TextMap<V> {
    type V = Map<Seq<char>, V>;

    open spec fn view(&self) -> Map<Seq<char>, V> {
        map_of(self.pairs())
    }
}

impl<V> TextMap<V> {
    /// No key occurs twice.
    #[verifier::type_invariant]
    pub open spec fn inv(self) -> bool {
        keys_distinct(self.pairs())
    }

    /// The keys with their values, in insertion order.
    pub closed spec fn pairs(&self) -> Seq<(Seq<char>, V)> {
        self.entries@.map_values(|e: (String, V)| (e.0@, e.1))
    }

    /// An empty map.
    pub fn new() -> (r: TextMap<V>)
        ensures
            r.pairs() == Seq::<(Seq<char>, V)>::empty(),
            r@ == Map::<Seq<char>, V>::empty(),
    {
        let r = TextMap { entries: Vec::new() };
        proof {
            assert(r.pairs() =~= Seq::<(Seq<char>, V)>::empty());
            assert(r@ =~= Map::<Seq<char>, V>::empty());
        }
        r
    }

    /// The number of keys; the keys are pairwise distinct.
    pub fn len(&self) -> (r: usize)
        ensures
            r == self.pairs().len(),
            keys_distinct(self.pairs()),
    {
        proof {
            use_type_invariant(self);
        }
        self.entries.len()
    }

    /// Whether the map has no key.
    pub fn is_empty(&self) -> (r: bool)
        ensures
            r == (self.pairs().len() == 0),
            r == (self@ == Map::<Seq<char>, V>::empty()),
    {
        proof {
            use_type_invariant(self);
            lemma_map_of(self.pairs());
            if self.pairs().len() > 0 {
                assert(self@.contains_key(self.pairs()[0].0));
            } else {
                assert(self@ =~= Map::<Seq<char>, V>::empty());
            }
        }
        self.entries.len() == 0
    }

    /// The key at place `i`.
    pub fn key_at(&self, i: usize) -> (r: &String)
        requires
            i < self.pairs().len(),
        ensures
            r@ == self.pairs()[i as int].0,
    {
        &self.entries[i].0
    }

    /// The value at place `i`.
    pub fn value_at(&self, i: usize) -> (r: &V)
        requires
            i < self.pairs().len(),
        ensures
            *r == self.pairs()[i as int].1,
    {
        &self.entries[i].1
    }

    /// The place of `key`, if it is present.
    pub fn position(&self, key: &str) -> (r: Option<usize>)
        ensures
            match r {
                Some(i) => i < self.pairs().len() && self.pairs()[i as int].0 == key@ && has_key(
                    self.pairs(),
                    key@,
                ),
                None => !has_key(self.pairs(), key@),
            },
    {
        for i in 0..self.entries.len()
            invariant
                forall|j: int| 0 <= j < i ==> #[trigger] self.pairs()[j].0 != key@,
        {
            if text_eq(self.entries[i].0.as_str(), key) {
                assert(self.pairs()[i as int].0 == key@);
                return Some(i);
            }
            assert(self.pairs()[i as int].0 != key@);
        }
        None
    }

    /// Whether `key` is present.
    pub fn contains_key(&self, key: &str) -> (r: bool)
        ensures
            r == self@.contains_key(key@),
    {
        self.position(key).is_some()
    }

    /// The value stored under `key`.
    pub fn get(&self, key: &str) -> (r: Option<&V>)
        ensures
            match r {
                Some(v) => self@.contains_key(key@) && *v == self@[key@],
                None => !self@.contains_key(key@),
            },
    {
        proof {
            use_type_invariant(self);
            lemma_map_of(self.pairs());
        }
        match self.position(key) {
            Some(i) => {
                Some(&self.entries[i].1)
            },
            None => None,
        }
    }

    /// Stores `value` under `key`: in the place of the value that was there, or
    /// behind all other keys.
    pub fn insert(&mut self, key: String, value: V)
        ensures
            final(self)@ == old(self)@.insert(key@, value),
            final(self).pairs() == (if has_key(old(self).pairs(), key@) {
                old(self).pairs().update(key_index(old(self).pairs(), key@), (key@, value))
            } else {
                old(self).pairs().push((key@, value))
            }),
            keys_distinct(final(self).pairs()),
    {
        proof {
            use_type_invariant(&*self);
        }
        let pos = self.position(key.as_str());
        let mut es: Vec<(String, V)> = Vec::new();
        std::mem::swap(&mut es, &mut self.entries);
        let ghost ps = old(self).pairs();
        match pos {
            Some(i) => {
                proof {
                    lemma_map_of(ps);
                    assert(key_index(ps, key@) == i);
                    lemma_map_of_update(ps, i as int, value);
                }
                let ghost k = key@;
                es.set(i, (key, value));
                proof {
                    assert(es@.map_values(|e: (String, V)| (e.0@, e.1)) =~= ps.update(
                        i as int,
                        (k, value),
                    ));
                }
            },
            None => {
                proof {
                    lemma_map_of_push(ps, key@, value);
                }
                let ghost k = key@;
                es.push((key, value));
                proof {
                    assert(es@.map_values(|e: (String, V)| (e.0@, e.1)) =~= ps.push((k, value)));
                }
            },
        }
        self.entries = es;
    }

    /// Takes `key` out and returns its value, if it was present.
    pub fn remove(&mut self, key: &str) -> (r: Option<V>)
        ensures
            match r {
                Some(v) => old(self)@.contains_key(key@) && v == old(self)@[key@]
                    && final(self).pairs() == old(self).pairs().remove(
                    key_index(old(self).pairs(), key@),
                ),
                None => !old(self)@.contains_key(key@) && final(self).pairs() == old(self).pairs(),
            },
            final(self)@ == old(self)@.remove(key@),
            keys_distinct(final(self).pairs()),
    {
        proof {
            use_type_invariant(&*self);
            lemma_map_of(self.pairs());
        }
        match self.position(key) {
            None => {
                assert(self@ =~= self@.remove(key@));
                None
            },
            Some(i) => {
                let mut es: Vec<(String, V)> = Vec::new();
                std::mem::swap(&mut es, &mut self.entries);
                let ghost ps = old(self).pairs();
                proof {
                    lemma_map_of_remove(ps, i as int);
                    assert(key_index(ps, key@) == i);
                }
                let e = es.remove(i);
                proof {
                    assert(es@.map_values(|e: (String, V)| (e.0@, e.1)) =~= ps.remove(i as int));
                    assert(e.1 == ps[i as int].1);
                }
                self.entries = es;
                Some(e.1)
            },
        }
    }

    /// Takes every key out.
    pub fn clear(&mut self)
        ensures
            final(self).pairs() == Seq::<(Seq<char>, V)>::empty(),
            final(self)@ == Map::<Seq<char>, V>::empty(),
    {
        self.entries = Vec::new();
        proof {
            assert(self.pairs() =~= Seq::<(Seq<char>, V)>::empty());
            assert(self@ =~= Map::<Seq<char>, V>::empty());
        }
    }
}

impl<V: Copy> TextMap<V> {
    /// A copy of the map.
    pub fn copied(&self) -> (r: TextMap<V>)
        ensures
            r.pairs() == self.pairs(),
            r@ == self@,
    {
        proof {
            use_type_invariant(self);
        }
        let mut es: Vec<(String, V)> = Vec::new();
        for i in 0..self.entries.len()
            invariant
                es@ == self.entries@.take(i as int),
        {
            es.push((self.entries[i].0.clone(), self.entries[i].1));
            proof {
                assert(es@ =~= self.entries@.take(i + 1));
            }
        }
        proof {
            assert(es@ =~= self.entries@);
        }
        TextMap { entries: es }
    }
}

impl TextMap<String> {
    /// A copy of a map of texts.
    pub fn copied_texts(&self) -> (r: TextMap<String>)
        ensures
            r.pairs() == self.pairs(),
            r@ == self@,
    {
        proof {
            use_type_invariant(self);
        }
        let mut es: Vec<(String, String)> = Vec::new();
        for i in 0..self.entries.len()
            invariant
                es@ == self.entries@.take(i as int),
        {
            es.push((self.entries[i].0.clone(), self.entries[i].1.clone()));
            proof {
                assert(es@ =~= self.entries@.take(i + 1));
            }
        }
        proof {
            assert(es@ =~= self.entries@);
        }
        TextMap { entries: es }
    }
}

/// Pairs put into a map one after another give the map of the pairs.
pub proof fn lemma_map_of_take<V>(s: Seq<(Seq<char>, V)>, n: int)
    requires
        keys_distinct(s),
        0 <= n < s.len(),
    ensures
        map_of(s.take(n + 1)) == map_of(s.take(n)).insert(s[n].0, s[n].1),
        keys_distinct(s.take(n)),
{
    let t = s.take(n);
    assert(keys_distinct(t)) by {
        assert forall|i: int, j: int| #![trigger t[i], t[j]] 0 <= i < j < t.len() implies t[i].0
            != t[j].0 by {
            assert(t[i] == s[i] && t[j] == s[j]);
        }
    }
    assert(!has_key(t, s[n].0)) by {
        assert forall|i: int| 0 <= i < t.len() implies #[trigger] t[i].0 != s[n].0 by {
            assert(t[i] == s[i]);
        }
    }
    lemma_map_of_push(t, s[n].0, s[n].1);
    assert(s.take(n + 1) =~= t.push((s[n].0, s[n].1)));
}

impl<V: Copy> TextMap<V> {
    /// Puts copies of all entries of `other` into the map.
    pub fn extend_copied(&mut self, other: &TextMap<V>)
        ensures
            final(self)@ == old(self)@.union_prefer_right(other@),
    {
        let n: usize = other.len();
        let ghost ps = other.pairs();
        proof {
            assert(map_of(ps.take(0)) =~= Map::<Seq<char>, V>::empty());
            assert(self@ =~= self@.union_prefer_right(map_of(ps.take(0))));
        }
        for i in 0..n
            invariant
                n == ps.len(),
                ps == other.pairs(),
                keys_distinct(ps),
                self@ == old(self)@.union_prefer_right(map_of(ps.take(i as int))),
        {
            let k = other.key_at(i).clone();
            let v = *other.value_at(i);
            self.insert(k, v);
            proof {
                lemma_map_of_take(ps, i as int);
                assert(self@ =~= old(self)@.union_prefer_right(map_of(ps.take(i + 1))));
            }
        }
        assert(ps.take(n as int) =~= ps);
    }
}

impl TextMap<String> {
    /// Puts copies of all entries of `other` into the map.
    pub fn extend_texts(&mut self, other: &TextMap<String>)
        ensures
            final(self)@ == old(self)@.union_prefer_right(other@),
            text_values(final(self)@) == text_values(old(self)@).union_prefer_right(
                text_values(other@),
            ),
    {
        let n: usize = other.len();
        let ghost ps = other.pairs();
        proof {
            assert(map_of(ps.take(0)) =~= Map::<Seq<char>, String>::empty());
            assert(self@ =~= self@.union_prefer_right(map_of(ps.take(0))));
        }
        for i in 0..n
            invariant
                n == ps.len(),
                ps == other.pairs(),
                keys_distinct(ps),
                self@ == old(self)@.union_prefer_right(map_of(ps.take(i as int))),
        {
            let k = other.key_at(i).clone();
            let v = other.value_at(i).clone();
            self.insert(k, v);
            proof {
                lemma_map_of_take(ps, i as int);
                assert(self@ =~= old(self)@.union_prefer_right(map_of(ps.take(i + 1))));
            }
        }
        proof {
            assert(ps.take(n as int) =~= ps);
            assert(text_values(self@) =~= text_values(old(self)@).union_prefer_right(
                text_values(other@),
            ));
        }
    }
}

/// The texts of a map of texts.
pub open spec fn text_values(m: Map<Seq<char>, String>) -> Map<Seq<char>, Seq<char>> {
    m.map_values(|s: String| s@)
}

} // verus!
