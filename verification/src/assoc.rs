//! Specification helpers for association sequences.
//!
//! The graph and topology structures keep their maps as vectors of
//! `(key, value)` pairs with unique keys, so that every lookup and update is
//! verified down to the representation.  These spec functions give such a
//! sequence its mathematical reading.

use vstd::prelude::*;

verus! {

/// Whether some pair in `s` carries the key `k`.
pub open spec fn has_key<K, V>(s: Seq<(K, V)>, k: K) -> bool {
    exists|i: int| 0 <= i < s.len() && s[i].0 == k
}

/// Index of the first pair carrying key `k`; the length of `s` when none does.
pub open spec fn first_key_index<K, V>(s: Seq<(K, V)>, k: K) -> int
    decreases s.len(),
{
    if s.len() == 0 {
        0
    } else if s[0].0 == k {
        0
    } else {
        1 + first_key_index(s.skip(1), k)
    }
}

/// Value of the first pair carrying key `k`.
pub open spec fn assoc_value<K, V>(s: Seq<(K, V)>, k: K) -> V {
    s[first_key_index(s, k)].1
}

/// No two pairs of `s` carry the same key.
pub open spec fn unique_keys<K, V>(s: Seq<(K, V)>) -> bool {
    forall|i: int, j: int| 0 <= i < j < s.len() ==> s[i].0 != s[j].0
}

/// The sequence read as a map from keys to values.
pub open spec fn as_map<K, V>(s: Seq<(K, V)>) -> Map<K, V> {
    Map::new(|k: K| has_key(s, k), |k: K| assoc_value(s, k))
}

pub broadcast proof fn lemma_first_key_index<K, V>(s: Seq<(K, V)>, k: K)
    ensures
        0 <= #[trigger] first_key_index(s, k) <= s.len(),
        has_key(s, k) <==> first_key_index(s, k) < s.len(),
        forall|j: int| 0 <= j < first_key_index(s, k) ==> s[j].0 != k,
        first_key_index(s, k) < s.len() ==> s[first_key_index(s, k)].0 == k,
    decreases s.len(),
{
    if s.len() == 0 {
    } else if s[0].0 == k {
    } else {
        lemma_first_key_index(s.skip(1), k);
        let f = first_key_index(s, k);
        assert forall|j: int| 0 <= j < f implies s[j].0 != k by {
            if j > 0 {
                assert(s.skip(1)[j - 1] == s[j]);
            }
        }
        if has_key(s, k) {
            let w = choose|w: int| 0 <= w < s.len() && s[w].0 == k;
            assert(s.skip(1)[w - 1] == s[w]);
            assert(has_key(s.skip(1), k));
        }
        if has_key(s.skip(1), k) {
            let w = choose|w: int| 0 <= w < s.skip(1).len() && s.skip(1)[w].0 == k;
            assert(s[w + 1] == s.skip(1)[w]);
            assert(has_key(s, k));
        }
    }
}

/// With unique keys, the position of a pair is the first position of its
/// key, so the map reads off that pair's value.
pub proof fn lemma_key_at<K, V>(s: Seq<(K, V)>, i: int)
    requires
        unique_keys(s),
        0 <= i < s.len(),
    ensures
        first_key_index(s, s[i].0) == i,
        has_key(s, s[i].0),
        as_map(s)[s[i].0] == s[i].1,
{
    let k = s[i].0;
    assert(has_key(s, k)) by {
        assert(s[i].0 == k);
    }
    lemma_first_key_index(s, k);
    let f = first_key_index(s, k);
    if f < i {
        assert(s[f].0 == s[i].0);
    }
}

/// Appending a pair with a fresh key leaves every earlier lookup unchanged
/// and adds one binding.
pub proof fn lemma_push_fresh_key<K, V>(s: Seq<(K, V)>, k: K, v: V)
    requires
        !has_key(s, k),
    ensures
        as_map(s.push((k, v))) == as_map(s).insert(k, v),
        unique_keys(s) ==> unique_keys(s.push((k, v))),
{
    let t = s.push((k, v));
    assert forall|q: K| #[trigger] has_key(t, q) implies q == k || has_key(s, q) by {
        let w = choose|w: int| 0 <= w < t.len() && t[w].0 == q;
        if w < s.len() {
            assert(s[w] == t[w]);
        }
    }
    assert forall|q: K| has_key(s, q) implies #[trigger] has_key(t, q) by {
        let w = choose|w: int| 0 <= w < s.len() && s[w].0 == q;
        assert(t[w] == s[w]);
    }
    assert(has_key(t, k)) by {
        assert(t[s.len() as int].0 == k);
    }
    assert forall|q: K| #[trigger] has_key(t, q) implies assoc_value(t, q) == as_map(s).insert(
        k,
        v,
    )[q] by {
        lemma_first_key_index(t, q);
        lemma_first_key_index(s, q);
        let ft = first_key_index(t, q);
        if q == k {
            // every pair before the pushed one misses k
            assert forall|j: int| 0 <= j < s.len() implies t[j].0 != k by {
                assert(s[j] == t[j]);
            }
            assert(ft == s.len());
        } else {
            let fs = first_key_index(s, q);
            assert(s[fs] == t[fs]);
            if ft < fs {
                assert(s[ft] == t[ft]);
            }
            assert(ft == fs);
        }
    }
    assert(as_map(t) =~= as_map(s).insert(k, v));
    if unique_keys(s) {
        assert forall|i: int, j: int| 0 <= i < j < t.len() implies t[i].0 != t[j].0 by {
            if j < s.len() {
                assert(t[i] == s[i] && t[j] == s[j]);
            } else {
                assert(t[i] == s[i]);
                assert(!has_key(s, k));
                if t[i].0 == k {
                    assert(has_key(s, k));
                }
            }
        }
    }
}

/// Updating the value at position `i`, whose key is `k`, rewrites exactly the
/// binding of `k` when keys are unique.
pub proof fn lemma_update_value<K, V>(s: Seq<(K, V)>, i: int, v: V)
    requires
        unique_keys(s),
        0 <= i < s.len(),
    ensures
        as_map(s.update(i, (s[i].0, v))) == as_map(s).insert(s[i].0, v),
        unique_keys(s.update(i, (s[i].0, v))),
{
    let k = s[i].0;
    let t = s.update(i, (k, v));
    assert(has_key(s, k)) by {
        assert(s[i].0 == k);
    }
    assert(has_key(t, k)) by {
        assert(t[i].0 == k);
    }
    assert forall|q: K| #[trigger] has_key(t, q) implies has_key(s, q) by {
        let w = choose|w: int| 0 <= w < t.len() && t[w].0 == q;
        assert(s[w].0 == t[w].0);
    }
    assert forall|q: K| #[trigger] has_key(s, q) implies has_key(t, q) by {
        let w = choose|w: int| 0 <= w < s.len() && s[w].0 == q;
        assert(t[w].0 == s[w].0);
    }
    assert forall|q: K| #[trigger] has_key(t, q) implies assoc_value(t, q) == as_map(s).insert(
        k,
        v,
    )[q] by {
        lemma_first_key_index(t, q);
        lemma_first_key_index(s, q);
        let ft = first_key_index(t, q);
        let fs = first_key_index(s, q);
        assert(s[fs].0 == t[fs].0);
        if ft < fs {
            assert(s[ft].0 == t[ft].0);
        }
        assert(ft == fs);
        if q == k {
            // uniqueness pins the first index of k to i
            assert(s[fs].0 == k);
            assert(fs == i);
        } else {
            assert(fs != i);
        }
    }
    assert(as_map(t) =~= as_map(s).insert(k, v));
    assert forall|a: int, b: int| 0 <= a < b < t.len() implies t[a].0 != t[b].0 by {
        assert(t[a].0 == s[a].0 && t[b].0 == s[b].0);
    }
}

/// An executable map keyed by strings: parallel vectors of keys and values
/// with unique keys.  Lookups are by key content, so the mathematical view
/// is a map from character sequences.
pub struct StrMap<V> {
    pub keys: Vec<String>,
    pub vals: Vec<V>,
}

impl<V> StrMap<V> {
    /// The key/value pairs, keys read as character sequences.
    pub open spec fn pairs(&self) -> Seq<(Seq<char>, V)> {
        Seq::new(self.keys@.len(), |i: int| (self.keys@[i]@, self.vals@[i]))
    }

    /// Keys and values line up and no key occurs twice.
    pub open spec fn wf(&self) -> bool {
        self.keys@.len() == self.vals@.len() && unique_keys(self.pairs())
    }
}

impl<V> View for StrMap<V> {
    type V = Map<Seq<char>, V>;

    open spec fn view(&self) -> Map<Seq<char>, V> {
        as_map(self.pairs())
    }
}

impl<V> StrMap<V> {
    pub fn new() -> (r: StrMap<V>)
        ensures
            r.wf(),
            r@ == Map::<Seq<char>, V>::empty(),
            r.keys@.len() == 0,
    {
        let r = (StrMap { keys: Vec::new(), vals: Vec::new() });
        proof {
            assert(r.pairs() =~= Seq::<(Seq<char>, V)>::empty());
            assert(r@ =~= Map::<Seq<char>, V>::empty());
        }
        r
    }

    pub fn len(&self) -> (r: usize)
        ensures
            r == self.keys@.len(),
    {
        self.keys.len()
    }

    /// Position of the entry carrying `k`, if one does.
    pub fn get_index(&self, k: &String) -> (r: Option<usize>)
        requires
            self.wf(),
        ensures
            match r {
                Some(i) => i < self.keys@.len() && self.keys@[i as int]@ == k@
                    && self@.dom().contains(k@) && self@[k@] == self.vals@[i as int],
                None => !self@.dom().contains(k@),
            },
    {
        let n = self.keys.len();
        let mut i: usize = 0;
        while i < n
            invariant
                self.wf(),
                n == self.keys@.len(),
                i <= n,
                forall|j: int| 0 <= j < i ==> self.keys@[j]@ != k@,
            decreases n - i,
        {
            if self.keys[i] == *k {
                proof {
                    assert(self.pairs()[i as int].0 == k@);
                    lemma_key_at(self.pairs(), i as int);
                }
                return Some(i);
            }
            i += 1;
        }
        proof {
            if self@.dom().contains(k@) {
                let w = choose|w: int|
                    0 <= w < self.pairs().len() && self.pairs()[w].0 == k@;
            }
        }
        None
    }

    pub fn contains_key(&self, k: &String) -> (r: bool)
        requires
            self.wf(),
        ensures
            r == self@.dom().contains(k@),
    {
        match self.get_index(k) {
            Some(_) => true,
            None => false,
        }
    }

    pub fn get(&self, k: &String) -> (r: Option<&V>)
        requires
            self.wf(),
        ensures
            match r {
                Some(v) => self@.dom().contains(k@) && *v == self@[k@],
                None => !self@.dom().contains(k@),
            },
    {
        match self.get_index(k) {
            Some(i) => Some(&self.vals[i]),
            None => None,
        }
    }

    /// Mutable access to the value at position `i`.  The lemma
    /// `lemma_strmap_set` turns the representational change into a map
    /// update.
    pub fn value_at_mut(&mut self, i: usize) -> (r: &mut V)
        requires
            old(self).wf(),
            i < old(self).vals@.len(),
        ensures
            *r == old(self).vals@[i as int],
            final(self).keys@ == old(self).keys@,
            final(self).vals@ == old(self).vals@.update(i as int, *final(r)),
    {
        &mut self.vals[i]
    }

    /// Append an entry whose key is not yet present.
    pub fn insert_new(&mut self, k: String, v: V)
        requires
            old(self).wf(),
            !old(self)@.dom().contains(k@),
        ensures
            final(self).wf(),
            final(self)@ == old(self)@.insert(k@, v),
            final(self).keys@ == old(self).keys@.push(k),
            final(self).vals@ == old(self).vals@.push(v),
    {
        proof {
            lemma_push_fresh_key(old(self).pairs(), k@, v);
        }
        self.keys.push(k);
        self.vals.push(v);
        proof {
            assert(final(self).pairs() =~= old(self).pairs().push((k@, v)));
        }
    }
}

/// An executable map keyed by byte strings, the form document identifiers
/// take on the wire.
pub struct ByteMap<V> {
    pub keys: Vec<Vec<u8>>,
    pub vals: Vec<V>,
}

impl<V> ByteMap<V> {
    /// The key/value pairs, keys read as byte sequences.
    pub open spec fn pairs(&self) -> Seq<(Seq<u8>, V)> {
        Seq::new(self.keys@.len(), |i: int| (self.keys@[i]@, self.vals@[i]))
    }

    /// Keys and values line up and no key occurs twice.
    pub open spec fn wf(&self) -> bool {
        self.keys@.len() == self.vals@.len() && unique_keys(self.pairs())
    }
}

impl<V> View for ByteMap<V> {
    type V = Map<Seq<u8>, V>;

    open spec fn view(&self) -> Map<Seq<u8>, V> {
        as_map(self.pairs())
    }
}

impl<V> ByteMap<V> {
    pub fn new() -> (r: ByteMap<V>)
        ensures
            r.wf(),
            r@ == Map::<Seq<u8>, V>::empty(),
            r.keys@.len() == 0,
    {
        let r = (ByteMap { keys: Vec::new(), vals: Vec::new() });
        proof {
            assert(r.pairs() =~= Seq::<(Seq<u8>, V)>::empty());
            assert(r@ =~= Map::<Seq<u8>, V>::empty());
        }
        r
    }

    pub fn len(&self) -> (r: usize)
        ensures
            r == self.keys@.len(),
    {
        self.keys.len()
    }

    /// Position of the entry carrying `k`, if one does.
    pub fn get_index(&self, k: &Vec<u8>) -> (r: Option<usize>)
        requires
            self.wf(),
        ensures
            match r {
                Some(i) => i < self.keys@.len() && self.keys@[i as int]@ == k@
                    && self@.dom().contains(k@) && self@[k@] == self.vals@[i as int],
                None => !self@.dom().contains(k@),
            },
    {
        let n = self.keys.len();
        let mut i: usize = 0;
        while i < n
            invariant
                self.wf(),
                n == self.keys@.len(),
                i <= n,
                forall|j: int| 0 <= j < i ==> self.keys@[j]@ != k@,
            decreases n - i,
        {
            if crate::util::bytes_eq(&self.keys[i], k) {
                proof {
                    assert(self.pairs()[i as int].0 == k@);
                    lemma_key_at(self.pairs(), i as int);
                }
                return Some(i);
            }
            i += 1;
        }
        proof {
            if self@.dom().contains(k@) {
                let w = choose|w: int|
                    0 <= w < self.pairs().len() && self.pairs()[w].0 == k@;
            }
        }
        None
    }

    pub fn contains_key(&self, k: &Vec<u8>) -> (r: bool)
        requires
            self.wf(),
        ensures
            r == self@.dom().contains(k@),
    {
        match self.get_index(k) {
            Some(_) => true,
            None => false,
        }
    }

    pub fn get(&self, k: &Vec<u8>) -> (r: Option<&V>)
        requires
            self.wf(),
        ensures
            match r {
                Some(v) => self@.dom().contains(k@) && *v == self@[k@],
                None => !self@.dom().contains(k@),
            },
    {
        match self.get_index(k) {
            Some(i) => Some(&self.vals[i]),
            None => None,
        }
    }

    /// Mutable access to the value at position `i`.  The lemma
    /// `lemma_bytemap_set` turns the representational change into a map
    /// update.
    pub fn value_at_mut(&mut self, i: usize) -> (r: &mut V)
        requires
            old(self).wf(),
            i < old(self).vals@.len(),
        ensures
            *r == old(self).vals@[i as int],
            final(self).keys@ == old(self).keys@,
            final(self).vals@ == old(self).vals@.update(i as int, *final(r)),
    {
        &mut self.vals[i]
    }

    /// Append an entry whose key is not yet present.
    pub fn insert_new(&mut self, k: Vec<u8>, v: V)
        requires
            old(self).wf(),
            !old(self)@.dom().contains(k@),
        ensures
            final(self).wf(),
            final(self)@ == old(self)@.insert(k@, v),
            final(self).keys@ == old(self).keys@.push(k),
            final(self).vals@ == old(self).vals@.push(v),
    {
        proof {
            lemma_push_fresh_key(old(self).pairs(), k@, v);
        }
        self.keys.push(k);
        self.vals.push(v);
        proof {
            assert(final(self).pairs() =~= old(self).pairs().push((k@, v)));
        }
    }
}


/// A value update at one position of a well-formed `StrMap` rewrites exactly
/// that key's binding.
pub proof fn lemma_strmap_set<V>(pre: StrMap<V>, post: StrMap<V>, i: int, v: V)
    requires
        pre.wf(),
        0 <= i < pre.vals@.len(),
        post.keys@ == pre.keys@,
        post.vals@ == pre.vals@.update(i, v),
    ensures
        post.wf(),
        post@ == pre@.insert(pre.keys@[i]@, v),
{
    lemma_update_value(pre.pairs(), i, v);
    assert(post.pairs() =~= pre.pairs().update(i, (pre.keys@[i]@, v)));
}

/// A value update at one position of a well-formed `ByteMap` rewrites exactly
/// that key's binding.
pub proof fn lemma_bytemap_set<V>(pre: ByteMap<V>, post: ByteMap<V>, i: int, v: V)
    requires
        pre.wf(),
        0 <= i < pre.vals@.len(),
        post.keys@ == pre.keys@,
        post.vals@ == pre.vals@.update(i, v),
    ensures
        post.wf(),
        post@ == pre@.insert(pre.keys@[i]@, v),
{
    lemma_update_value(pre.pairs(), i, v);
    assert(post.pairs() =~= pre.pairs().update(i, (pre.keys@[i]@, v)));
}


/// A value the map view yields is one of the stored values.
pub proof fn lemma_strmap_value_position<V>(m: StrMap<V>, k: Seq<char>)
    requires
        m.wf(),
        m@.dom().contains(k),
    ensures
        exists|i: int|
            0 <= i < m.vals@.len() && m@[k] == m.vals@[i] && m.keys@[i]@ == k,
{
    lemma_first_key_index(m.pairs(), k);
    let f = first_key_index(m.pairs(), k);
    assert(m@[k] == m.vals@[f] && m.keys@[f]@ == k);
}

/// A value the map view yields is one of the stored values.
pub proof fn lemma_bytemap_value_position<V>(m: ByteMap<V>, k: Seq<u8>)
    requires
        m.wf(),
        m@.dom().contains(k),
    ensures
        exists|i: int|
            0 <= i < m.vals@.len() && m@[k] == m.vals@[i] && m.keys@[i]@ == k,
{
    lemma_first_key_index(m.pairs(), k);
    let f = first_key_index(m.pairs(), k);
    assert(m@[k] == m.vals@[f] && m.keys@[f]@ == k);
}


impl<V> StrMap<V> {
    /// Bind `k` to `v`: rewrite the binding in place when the key is
    /// already present, append it otherwise.
    pub fn set(&mut self, k: String, v: V)
        requires
            old(self).wf(),
        ensures
            final(self).wf(),
            final(self)@ == old(self)@.insert(k@, v),
            ({
                let p = old(self).pairs();
                if has_key(p, k@) {
                    final(self).keys@ == old(self).keys@ && final(self).vals@
                        == old(self).vals@.update(first_key_index(p, k@), v)
                } else {
                    final(self).keys@ == old(self).keys@.push(k) && final(self).vals@
                        == old(self).vals@.push(v)
                }
            }),
    {
        match self.get_index(&k) {
            Some(i) => {
                proof {
                    lemma_first_key_index(old(self).pairs(), k@);
                    let f = first_key_index(old(self).pairs(), k@);
                    if f < i {
                        assert(old(self).pairs()[f].0 == k@);
                        assert(old(self).pairs()[i as int].0 == k@);
                    }
                    assert(old(self).pairs()[i as int].0 == k@);
                    assert(f == i);
                }
                let slot = self.value_at_mut(i);
                *slot = v;
                proof {
                    lemma_strmap_set(*old(self), *self, i as int, self.vals@[i as int]);
                }
            },
            None => {
                self.insert_new(k, v);
            },
        }
    }
}

} // verus!
