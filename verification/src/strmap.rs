//! A map from strings to values that holds its entries in the order of their
//! keys.

use crate::text::{key_lt, key_order, lemma_key_lt_asymmetric, lemma_key_lt_transitive, KeyOrder};
use vstd::prelude::*;

verus! {

/// Each key is below every later one.
pub open spec fn ascending(keys: Seq<Seq<char>>) -> bool {
    forall|i: int, j: int| 0 <= i < j < keys.len() ==> key_lt(#[trigger] keys[i], #[trigger] keys[j])
}

/// `key` is below every key from place `pos` on, and above every key before it.
pub open spec fn belongs_at(keys: Seq<Seq<char>>, key: Seq<char>, pos: int) -> bool {
    &&& 0 <= pos <= keys.len()
    &&& forall|i: int| 0 <= i < pos ==> key_lt(#[trigger] keys[i], key)
    &&& forall|i: int| pos <= i < keys.len() ==> key_lt(key, #[trigger] keys[i])
}

/// The text of each string.
pub open spec fn texts(names: Seq<String>) -> Seq<Seq<char>> {
    Seq::new(names.len(), |i: int| names[i]@)
}

/// What a map holds, as a function of its keys and their values.
pub open spec fn lookup<V>(keys: Seq<Seq<char>>, values: Seq<V>) -> Map<Seq<char>, V> {
    Map::new(|k: Seq<char>| keys.contains(k), |k: Seq<char>| values[keys.index_of(k)])
}

/// Keys in ascending order are all different.
pub proof fn lemma_ascending_distinct(keys: Seq<Seq<char>>)
    requires
        ascending(keys),
    ensures
        forall|i: int, j: int| 0 <= i < keys.len() && 0 <= j < keys.len() && i != j ==> keys[i] != keys[j],
        forall|i: int| 0 <= i < keys.len() ==> keys.index_of(#[trigger] keys[i]) == i,
{
    assert forall|i: int, j: int| 0 <= i < keys.len() && 0 <= j < keys.len() && i != j implies keys[i] != keys[j] by {
        if i < j {
            lemma_key_lt_asymmetric(keys[i], keys[j]);
        } else {
            lemma_key_lt_asymmetric(keys[j], keys[i]);
        }
    }
    assert forall|i: int| 0 <= i < keys.len() implies keys.index_of(#[trigger] keys[i]) == i by {
        let k = keys.index_of(keys[i]);
        assert(keys[k] == keys[i]);
    }
}

/// To change the value at a place is to set the value of the key at that place.
pub proof fn lemma_lookup_update<V>(keys: Seq<Seq<char>>, values: Seq<V>, i: int, value: V)
    requires
        ascending(keys),
        values.len() == keys.len(),
        0 <= i < keys.len(),
    ensures
        lookup(keys, values.update(i, value)) == lookup(keys, values).insert(keys[i], value),
{
    lemma_ascending_distinct(keys);
    assert(keys.contains(keys[i]));
    assert(lookup(keys, values.update(i, value)) =~= lookup(keys, values).insert(keys[i], value));
}

/// To put a key in at the place where it belongs keeps the order, and sets
/// that key's value.
pub proof fn lemma_lookup_insert<V>(keys: Seq<Seq<char>>, values: Seq<V>, pos: int, key: Seq<char>, value: V)
    requires
        ascending(keys),
        values.len() == keys.len(),
        belongs_at(keys, key, pos),
    ensures
        ascending(keys.insert(pos, key)),
        lookup(keys.insert(pos, key), values.insert(pos, value)) == lookup(keys, values).insert(key, value),
{
    let keys2 = keys.insert(pos, key);
    let values2 = values.insert(pos, value);
    assert forall|i: int, j: int| 0 <= i < j < keys2.len() implies key_lt(#[trigger] keys2[i], #[trigger] keys2[j]) by {
        let i0 = if i < pos { i } else { i - 1 };
        let j0 = if j < pos { j } else { j - 1 };
        if i != pos && j != pos {
            assert(key_lt(keys[i0], keys[j0]));
        } else if i == pos {
            assert(key_lt(key, keys[j0]));
        } else {
            assert(key_lt(keys[i0], key));
        }
    }
    lemma_ascending_distinct(keys);
    lemma_ascending_distinct(keys2);
    let m2 = lookup(keys2, values2);
    let m = lookup(keys, values).insert(key, value);
    assert forall|k: Seq<char>| m2.contains_key(k) == m.contains_key(k) by {
        if keys2.contains(k) {
            let j = keys2.index_of(k);
            if j < pos {
                assert(keys[j] == k);
            } else if j > pos {
                assert(keys[j - 1] == k);
            }
        }
        if keys.contains(k) {
            let j = keys.index_of(k);
            if j < pos {
                assert(keys2[j] == k);
            } else {
                assert(keys2[j + 1] == k);
            }
        }
        if k == key {
            assert(keys2[pos] == k);
        }
    }
    assert forall|k: Seq<char>| m2.contains_key(k) implies m2[k] == m[k] by {
        let j = keys2.index_of(k);
        if j < pos {
            assert(keys[j] == k);
        } else if j > pos {
            assert(keys[j - 1] == k);
        }
    }
    assert(m2 =~= m);
}

/// To take out the key at a place keeps the order, and takes that key out of
/// what the map holds.
pub proof fn lemma_lookup_remove<V>(keys: Seq<Seq<char>>, values: Seq<V>, i: int)
    requires
        ascending(keys),
        values.len() == keys.len(),
        0 <= i < keys.len(),
    ensures
        ascending(keys.remove(i)),
        lookup(keys.remove(i), values.remove(i)) == lookup(keys, values).remove(keys[i]),
{
    let keys2 = keys.remove(i);
    let values2 = values.remove(i);
    assert forall|a: int, b: int| 0 <= a < b < keys2.len() implies key_lt(#[trigger] keys2[a], #[trigger] keys2[b]) by {
        let a0 = if a < i { a } else { a + 1 };
        let b0 = if b < i { b } else { b + 1 };
        assert(key_lt(keys[a0], keys[b0]));
    }
    lemma_ascending_distinct(keys);
    lemma_ascending_distinct(keys2);
    let m2 = lookup(keys2, values2);
    let m = lookup(keys, values).remove(keys[i]);
    assert forall|k: Seq<char>| m2.contains_key(k) == m.contains_key(k) by {
        if keys2.contains(k) {
            let j = keys2.index_of(k);
            if j < i {
                assert(keys[j] == k);
            } else {
                assert(keys[j + 1] == k);
            }
        }
        if keys.contains(k) && k != keys[i] {
            let j = keys.index_of(k);
            if j < i {
                assert(keys2[j] == k);
            } else {
                assert(keys2[j - 1] == k);
            }
        }
    }
    assert forall|k: Seq<char>| m2.contains_key(k) implies m2[k] == m[k] by {
        let j = keys2.index_of(k);
        if j < i {
            assert(keys[j] == k);
        } else {
            assert(keys[j + 1] == k);
        }
    }
    assert(m2 =~= m);
}

/// A key that belongs at some place is not among the keys.
pub proof fn lemma_belongs_absent(keys: Seq<Seq<char>>, key: Seq<char>, pos: int)
    requires
        belongs_at(keys, key, pos),
    ensures
        !keys.contains(key),
{
    if keys.contains(key) {
        let i = keys.index_of(key);
        if i < pos {
            lemma_key_lt_asymmetric(keys[i], key);
        } else {
            lemma_key_lt_asymmetric(key, keys[i]);
        }
    }
}

/// A set of keys has one ascending order only.
pub proof fn lemma_ascending_unique(a: Seq<Seq<char>>, b: Seq<Seq<char>>)
    requires
        ascending(a),
        ascending(b),
        a.to_set() == b.to_set(),
    ensures
        a == b,
    decreases a.len(),
{
    lemma_ascending_distinct(a);
    lemma_ascending_distinct(b);
    if a.len() == 0 {
        if b.len() > 0 {
            assert(b.to_set().contains(b[0]));
            assert(a.contains(b[0]));
        }
        assert(a =~= b);
    } else if b.len() == 0 {
        assert(a.to_set().contains(a[0]));
        assert(b.contains(a[0]));
    } else {
        // The greatest key stands last in both.
        let x = a.last();
        let y = b.last();
        assert(a.to_set().contains(x));
        assert(b.contains(x));
        assert(b.to_set().contains(y));
        assert(a.contains(y));
        let i = a.index_of(y);
        let j = b.index_of(x);
        if x != y {
            assert(i < a.len() - 1);
            assert(j < b.len() - 1);
            assert(key_lt(a[i], a[a.len() - 1]));
            assert(key_lt(b[j], b[b.len() - 1]));
            lemma_key_lt_asymmetric(x, y);
        }
        let a0 = a.drop_last();
        let b0 = b.drop_last();
        assert(a0.to_set() =~= b0.to_set()) by {
            assert forall|k: Seq<char>| a0.to_set().contains(k) == b0.to_set().contains(k) by {
                if a0.contains(k) {
                    let p = a0.index_of(k);
                    assert(a[p] == k);
                    assert(a.to_set().contains(k));
                    assert(b.contains(k));
                    let q = b.index_of(k);
                    assert(q != b.len() - 1);
                    assert(b0[q] == k);
                }
                if b0.contains(k) {
                    let p = b0.index_of(k);
                    assert(b[p] == k);
                    assert(b.to_set().contains(k));
                    assert(a.contains(k));
                    let q = a.index_of(k);
                    assert(q != a.len() - 1);
                    assert(a0[q] == k);
                }
            }
        }
        assert(ascending(a0));
        assert(ascending(b0));
        lemma_ascending_unique(a0, b0);
        assert(a =~= a0.push(x));
        assert(b =~= b0.push(y));
    }
}

/// The keys of a finite set, in ascending order.
pub open spec fn sorted(keys: Set<Seq<char>>) -> Seq<Seq<char>> {
    choose|s: Seq<Seq<char>>| ascending(s) && s.to_set() == keys
}

/// Keys in ascending order are their set, sorted.
pub proof fn lemma_sorted(keys: Seq<Seq<char>>)
    requires
        ascending(keys),
    ensures
        sorted(keys.to_set()) == keys,
{
    let s = sorted(keys.to_set());
    assert(ascending(s) && s.to_set() == keys.to_set());
    lemma_ascending_unique(s, keys);
}

/// A map from strings to values, held in the order of its keys.
#[derive(Debug)]
pub struct StrMap<V> {
    names: Vec<String>,
    held: Vec<V>,
}

impl<V> View for StrMap<V> {
    type V = Map<Seq<char>, V>;

    open spec fn view(&self) -> Map<Seq<char>, V> {
        lookup(self.keys(), self.values())
    }
}

impl<V> StrMap<V> {
    /// The keys, as the map holds them.
    pub closed spec fn keys(&self) -> Seq<Seq<char>> {
        texts(self.names@)
    }

    /// The values, each at the place of its key.
    pub closed spec fn values(&self) -> Seq<V> {
        self.held@
    }

    /// The keys stand in ascending order.
    #[verifier::type_invariant]
    pub closed spec fn wf(&self) -> bool {
        ascending(self.keys()) && self.held.len() == self.names.len()
    }

    /// What `wf` means for the keys and values.
    pub proof fn lemma_wf(&self)
        requires
            self.wf(),
        ensures
            ascending(self.keys()),
            self.values().len() == self.keys().len(),
            self@.dom() == self.keys().to_set(),
            self.keys() == sorted(self@.dom()),
            forall|i: int| 0 <= i < self.keys().len() ==> self@[#[trigger] self.keys()[i]] == self.values()[i],
    {
        lemma_ascending_distinct(self.keys());
        assert(self@.dom() =~= self.keys().to_set());
        lemma_sorted(self.keys());
    }

    /// A map that holds nothing.
    pub fn new() -> (m: Self)
        ensures
            m.keys() == Seq::<Seq<char>>::empty(),
            m.values() == Seq::<V>::empty(),
            m@ == Map::<Seq<char>, V>::empty(),
    {
        let m = StrMap { names: Vec::new(), held: Vec::new() };
        assert(m.keys() =~= Seq::<Seq<char>>::empty());
        assert(m.values() =~= Seq::<V>::empty());
        assert(m@ =~= Map::<Seq<char>, V>::empty());
        m
    }

    /// How many keys the map holds.
    pub fn len(&self) -> (n: usize)
        ensures
            n == self.keys().len(),
            n == self.values().len(),
            n == self@.dom().len(),
            self@.dom().finite(),
    {
        proof {
            use_type_invariant(self);
            self.lemma_wf();
            lemma_ascending_distinct(self.keys());
            self.keys().unique_seq_to_set();
        }
        self.names.len()
    }

    /// Whether the map holds nothing.
    pub fn is_empty(&self) -> (r: bool)
        ensures
            r == (self.keys().len() == 0),
            r == (self@ == Map::<Seq<char>, V>::empty()),
    {
        proof {
            if self.keys().len() == 0 {
                assert(self@ =~= Map::<Seq<char>, V>::empty());
            } else {
                assert(self.keys().contains(self.keys()[0]));
                assert(self@.contains_key(self.keys()[0]));
            }
        }
        self.names.len() == 0
    }

    /// The key at place `i`.
    pub fn key_at(&self, i: usize) -> (key: &str)
        requires
            i < self.keys().len(),
        ensures
            key@ == self.keys()[i as int],
    {
        self.names[i].as_str()
    }

    /// The value at place `i`.
    pub fn value_at(&self, i: usize) -> (value: &V)
        requires
            i < self.keys().len(),
        ensures
            *value == self.values()[i as int],
            *value == self@[self.keys()[i as int]],
    {
        proof {
            use_type_invariant(self);
            self.lemma_wf();
        }
        &self.held[i]
    }

    /// The value at place `i`, to be changed where it stands.
    pub fn value_mut(&mut self, i: usize) -> (value: &mut V)
        requires
            i < old(self).keys().len(),
        ensures
            *value == old(self).values()[i as int],
            final(self).keys() == old(self).keys(),
            final(self).values() == old(self).values().update(i as int, *final(value)),
            final(self)@ == old(self)@.insert(old(self).keys()[i as int], *final(value)),
    {
        let ghost keys = self.keys();
        let ghost values = self.values();
        proof {
            use_type_invariant(&*self);
        }
        let value = &mut self.held[i];
        proof {
            lemma_lookup_update(keys, values, i as int, *final(value));
        }
        value
    }

    /// Finds `key`: `Ok` with its place, or `Err` with the place at which it
    /// would have to be put in.
    pub fn search(&self, key: &str) -> (r: Result<usize, usize>)
        ensures
            match r {
                Ok(i) => i < self.keys().len() && self.keys()[i as int] == key@ && self@.contains_key(key@),
                Err(pos) => belongs_at(self.keys(), key@, pos as int) && !self@.contains_key(key@),
            },
    {
        proof {
            use_type_invariant(self);
        }
        let mut lo: usize = 0;
        let mut hi: usize = self.names.len();
        while lo < hi
            invariant
                lo <= hi <= self.keys().len(),
                self.keys().len() == self.names.len(),
                ascending(self.keys()),
                forall|i: int| 0 <= i < lo ==> key_lt(#[trigger] self.keys()[i], key@),
                forall|i: int| hi <= i < self.keys().len() ==> key_lt(key@, #[trigger] self.keys()[i]),
            decreases hi - lo,
        {
            let mid = lo + (hi - lo) / 2;
            match key_order(self.names[mid].as_str(), key) {
                KeyOrder::Equal => {
                    assert(self.keys()[mid as int] == key@);
                    assert(self.keys().contains(key@));
                    return Ok(mid);
                },
                KeyOrder::Less => {
                    assert forall|i: int| 0 <= i < mid + 1 implies key_lt(#[trigger] self.keys()[i], key@) by {
                        if i < mid {
                            lemma_key_lt_transitive(self.keys()[i], self.keys()[mid as int], key@);
                        }
                    }
                    lo = mid + 1;
                },
                KeyOrder::Greater => {
                    assert forall|i: int| mid <= i < self.keys().len() implies key_lt(key@, #[trigger] self.keys()[i]) by {
                        if mid < i {
                            lemma_key_lt_transitive(key@, self.keys()[mid as int], self.keys()[i]);
                        }
                    }
                    hi = mid;
                },
            }
        }
        proof {
            lemma_belongs_absent(self.keys(), key@, lo as int);
        }
        Err(lo)
    }

    /// Hands out the two vectors and leaves the map empty, so that they can
    /// be changed one after the other.
    fn take(&mut self) -> (parts: (Vec<String>, Vec<V>))
        ensures
            parts.0 == old(self).names,
            parts.1 == old(self).held,
            final(self).names@ == Seq::<String>::empty(),
            final(self).held@ == Seq::<V>::empty(),
    {
        let mut taken = StrMap { names: Vec::new(), held: Vec::new() };
        core::mem::swap(self, &mut taken);
        let StrMap { names, held } = taken;
        (names, held)
    }

    /// The value of `key`, if the map holds one.
    pub fn get(&self, key: &str) -> (r: Option<&V>)
        ensures
            match r {
                Some(value) => self@.contains_key(key@) && *value == self@[key@],
                None => !self@.contains_key(key@),
            },
    {
        match self.search(key) {
            Ok(i) => Some(self.value_at(i)),
            Err(_) => None,
        }
    }

    /// Whether the map holds `key`.
    pub fn contains_key(&self, key: &str) -> (r: bool)
        ensures
            r == self@.contains_key(key@),
    {
        self.search(key).is_ok()
    }

    /// Puts `key` in with `value`, at the place that `search` gave for it.
    pub(crate) fn insert_at(&mut self, pos: usize, key: String, value: V)
        requires
            belongs_at(old(self).keys(), key@, pos as int),
        ensures
            final(self).keys() == old(self).keys().insert(pos as int, key@),
            final(self).values() == old(self).values().insert(pos as int, value),
            final(self)@ == old(self)@.insert(key@, value),
    {
        proof {
            use_type_invariant(&*self);
            lemma_lookup_insert(self.keys(), self.values(), pos as int, key@, value);
        }
        let ghost keys = self.keys();
        let (mut names, mut held) = self.take();
        names.insert(pos, key);
        held.insert(pos, value);
        assert(texts(names@) =~= keys.insert(pos as int, key@));
        *self = StrMap { names, held };
    }

    /// Puts `key` in with `value` unless the map holds the key already, and
    /// says whether it did.
    pub fn insert_new(&mut self, key: &str, value: V) -> (r: bool)
        ensures
            r == !old(self)@.contains_key(key@),
            final(self)@ == if r { old(self)@.insert(key@, value) } else { old(self)@ },
    {
        match self.search(key) {
            Ok(_) => false,
            Err(pos) => {
                self.insert_at(pos, key.to_owned(), value);
                true
            },
        }
    }

    /// Takes `key` out, and gives the value that it had.
    pub fn remove(&mut self, key: &str) -> (r: Option<V>)
        ensures
            final(self)@ == old(self)@.remove(key@),
            r == if old(self)@.contains_key(key@) { Some(old(self)@[key@]) } else { None },
    {
        match self.search(key) {
            Ok(i) => {
                proof {
                    use_type_invariant(&*self);
                    self.lemma_wf();
                    lemma_lookup_remove(self.keys(), self.values(), i as int);
                }
                let ghost keys = self.keys();
                let (mut names, mut held) = self.take();
                names.remove(i);
                let value = held.remove(i);
                assert(texts(names@) =~= keys.remove(i as int));
                *self = StrMap { names, held };
                Some(value)
            },
            Err(_) => {
                assert(self@.remove(key@) =~= self@);
                None
            },
        }
    }
}

} // verus!
