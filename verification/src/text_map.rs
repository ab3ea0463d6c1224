//! A map from text to values that keeps its entries in the order in which
//! their keys first came.
//!
//! vstd states what a `HashMap` holds only for keys whose hashing and
//! equality it knows, and `String` is not among them; so the maps of this
//! library that are keyed by text are of this type.

use vstd::prelude::*;
use vstd::utf8::*;

verus! {

/// Whether two texts are the same, character by character.
pub fn same_text(a: &str, b: &str) -> (r: bool)
    ensures
        r == (a@ == b@),
{
    let x = a.as_bytes();
    let y = b.as_bytes();
    proof {
        encode_utf8_decode_utf8(a@);
        encode_utf8_decode_utf8(b@);
    }
    if x.len() != y.len() {
        return false;
    }
    let mut i: usize = 0;
    while i < x.len()
        invariant
            i <= x.len(),
            x.len() == y.len(),
            x@ == encode_utf8(a@),
            y@ == encode_utf8(b@),
            forall|j: int| 0 <= j < i ==> x@[j] == y@[j],
        decreases x.len() - i,
    {
        if x[i] != y[i] {
            return false;
        }
        i += 1;
    }
    assert(x@ =~= y@);
    true
}

/// The place at which `k` first stands in `ks`, or `ks.len()` where it does not.
pub open spec fn first_place(ks: Seq<Seq<char>>, k: Seq<char>) -> int
    decreases ks.len(),
{
    if ks.len() == 0 {
        0
    } else if ks[0] == k {
        0
    } else {
        1 + first_place(ks.drop_first(), k)
    }
}

/// The first place of `k` lies among the keys exactly where `k` is one of
/// them, and `k` does not stand before it.
pub proof fn lemma_first_place(ks: Seq<Seq<char>>, k: Seq<char>)
    ensures
        0 <= first_place(ks, k) <= ks.len(),
        first_place(ks, k) < ks.len() <==> ks.contains(k),
        first_place(ks, k) < ks.len() ==> ks[first_place(ks, k)] == k,
        forall|j: int| 0 <= j < first_place(ks, k) ==> ks[j] != k,
    decreases ks.len(),
{
    if ks.len() > 0 {
        if ks[0] == k {
            assert(ks.contains(k));
        } else {
            let t = ks.drop_first();
            lemma_first_place(t, k);
            if t.contains(k) {
                let j = choose|j: int| 0 <= j < t.len() && t[j] == k;
                assert(ks[j + 1] == k);
            }
            if ks.contains(k) {
                let j = choose|j: int| 0 <= j < ks.len() && ks[j] == k;
                assert(t[j - 1] == k);
            }
            assert forall|j: int| 0 <= j < first_place(ks, k) implies ks[j] != k by {
                if j > 0 {
                    assert(ks[j] == t[j - 1]);
                }
            }
        }
    }
}

/// The first place of `k` is the place before which it does not stand.
pub proof fn lemma_first_place_is(ks: Seq<Seq<char>>, k: Seq<char>, i: int)
    requires
        0 <= i <= ks.len(),
        forall|j: int| 0 <= j < i ==> ks[j] != k,
        i < ks.len() ==> ks[i] == k,
    ensures
        first_place(ks, k) == i,
{
    lemma_first_place(ks, k);
    let p = first_place(ks, k);
    if p < i {
        assert(ks[p] == k);
    } else if p > i {
        assert(ks[i] == k);
    }
}

/// The keys of a sequence of entries.
pub open spec fn entry_keys<V>(entries: Seq<(String, V)>) -> Seq<Seq<char>> {
    Seq::new(entries.len(), |i: int| entries[i].0@)
}

/// A map keyed by text. Its entries stand in the order in which their keys
/// first came; writing to a key that is there replaces its value and keeps
/// its place.
#[derive(Debug)]
pub struct TextMap<V> {
    entries: Vec<(String, V)>,
}

impl<V: View> View for TextMap<V> {
    type V = Map<Seq<char>, V::V>;

    closed spec fn view(&self) -> Map<Seq<char>, V::V> {
        Map::new(
            |k: Seq<char>| entry_keys(self.entries@).contains(k),
            |k: Seq<char>| self.entries@[first_place(entry_keys(self.entries@), k)].1@,
        )
    }
}

impl<V: View> TextMap<V> {
    /// The keys in the order in which they came.
    pub closed spec fn key_seq(&self) -> Seq<Seq<char>> {
        entry_keys(self.entries@)
    }

    /// The values in the order in which their keys came.
    pub closed spec fn value_seq(&self) -> Seq<V> {
        Seq::new(self.entries@.len(), |i: int| self.entries@[i].1)
    }

    /// No key stands at two places. `new` makes such a map and `insert`
    /// keeps it so.
    pub open spec fn distinct(&self) -> bool {
        self.key_seq().no_duplicates()
    }

    /// The keys of the map are the keys of its entries.
    pub proof fn lemma_keys(&self)
        ensures
            forall|k: Seq<char>| self.key_seq().contains(k) <==> self@.contains_key(k),
            self@.dom().finite(),
            self.distinct() ==> self@.dom().len() == self.key_seq().len(),
    {
        let ks = self.key_seq();
        assert(ks.to_set() =~= self@.dom());
        vstd::seq_lib::seq_to_set_is_finite(ks);
        if self.distinct() {
            ks.unique_seq_to_set();
        }
    }

    /// An empty map.
    pub fn new() -> (m: TextMap<V>)
        ensures
            m@ == Map::<Seq<char>, V::V>::empty(),
            m.key_seq() == Seq::<Seq<char>>::empty(),
            m.value_seq() == Seq::<V>::empty(),
            m.distinct(),
    {
        let m = TextMap { entries: Vec::new() };
        assert(m@ =~= Map::<Seq<char>, V::V>::empty());
        assert(m.key_seq() =~= Seq::<Seq<char>>::empty());
        assert(m.value_seq() =~= Seq::<V>::empty());
        m
    }

    /// The number of entries.
    pub fn len(&self) -> (n: usize)
        ensures
            n == self.key_seq().len(),
            self.distinct() ==> n == self@.dom().len(),
            (n == 0) == (self@ == Map::<Seq<char>, V::V>::empty()),
    {
        proof {
            self.lemma_keys();
            if self.entries@.len() == 0 {
                assert(self@ =~= Map::<Seq<char>, V::V>::empty());
            } else {
                assert(self.key_seq().contains(self.key_seq()[0]));
            }
        }
        self.entries.len()
    }

    /// Whether the map has no entry.
    pub fn is_empty(&self) -> (b: bool)
        ensures
            b == (self.key_seq().len() == 0),
            b == (self@ == Map::<Seq<char>, V::V>::empty()),
    {
        self.len() == 0
    }

    /// The first place of `key` among the keys, if it is one of them.
    fn find(&self, key: &str) -> (r: Option<usize>)
        ensures
            match r {
                Some(i) => i < self.key_seq().len() && i == first_place(self.key_seq(), key@),
                None => !self.key_seq().contains(key@),
            },
    {
        let mut i: usize = 0;
        while i < self.entries.len()
            invariant
                i <= self.entries@.len(),
                forall|j: int| 0 <= j < i ==> entry_keys(self.entries@)[j] != key@,
            decreases self.entries@.len() - i,
        {
            if same_text(self.entries[i].0.as_str(), key) {
                proof {
                    lemma_first_place_is(self.key_seq(), key@, i as int);
                }
                return Some(i);
            }
            i += 1;
        }
        None
    }

    /// Whether `key` has a value.
    pub fn contains_key(&self, key: &str) -> (b: bool)
        ensures
            b == self@.contains_key(key@),
    {
        proof {
            lemma_first_place(self.key_seq(), key@);
        }
        self.find(key).is_some()
    }

    /// The value of `key`, if it has one.
    pub fn get(&self, key: &str) -> (r: Option<&V>)
        ensures
            match r {
                Some(v) => self@.contains_key(key@) && v@ == self@[key@] && self.value_seq().contains(
                    *v,
                ),
                None => !self@.contains_key(key@),
            },
    {
        proof {
            lemma_first_place(self.key_seq(), key@);
        }
        match self.find(key) {
            Some(i) => {
                assert(self.value_seq()[i as int] == self.entries@[i as int].1);
                Some(&self.entries[i].1)
            },
            None => None,
        }
    }

    /// The key at place `i`.
    pub fn key_at(&self, i: usize) -> (k: &String)
        requires
            i < self.key_seq().len(),
        ensures
            k@ == self.key_seq()[i as int],
            self@.contains_key(k@),
    {
        proof {
            assert(self.key_seq().contains(self.key_seq()[i as int]));
        }
        &self.entries[i].0
    }

    /// Gives `key` the value `value`: a new entry at the end, or a new value
    /// for the entry that is there.
    pub fn insert(&mut self, key: String, value: V)
        ensures
            final(self)@ == old(self)@.insert(key@, value@),
            old(self)@.contains_key(key@) ==> final(self).key_seq() == old(self).key_seq(),
            !old(self)@.contains_key(key@) ==> final(self).key_seq() == old(self).key_seq().push(
                key@,
            ),
            old(self).distinct() ==> final(self).distinct(),
            final(self).value_seq().contains(value),
            forall|v: V| #[trigger]
                final(self).value_seq().contains(v) ==> old(self).value_seq().contains(v) || v
                    == value,
    {
        let ghost before = *self;
        let ghost ks0 = before.key_seq();
        let ghost k0 = key@;
        let ghost v0 = value@;
        proof {
            lemma_first_place(ks0, k0);
        }
        match self.find(key.as_str()) {
            Some(i) => {
                self.entries.set(i, (key, value));
                proof {
                    let ks = self.key_seq();
                    assert(ks =~= ks0);
                    assert(self.value_seq()[i as int] == value);
                    assert forall|v: V| #[trigger]
                        self.value_seq().contains(v) implies before.value_seq().contains(v) || v
                        == value by {
                        let j = choose|j: int|
                            0 <= j < self.value_seq().len() && self.value_seq()[j] == v;
                        if j != i {
                            assert(before.value_seq()[j] == v);
                        }
                    }
                    assert forall|k: Seq<char>| #[trigger]
                        self@.contains_key(k) implies self@[k] == before@.insert(k0, v0)[k] by {
                        lemma_first_place(ks, k);
                    }
                    assert(self@ =~= before@.insert(k0, v0));
                }
            },
            None => {
                self.entries.push((key, value));
                proof {
                    let ks = self.key_seq();
                    assert(ks =~= ks0.push(k0));
                    assert(self.value_seq()[ks0.len() as int] == value);
                    assert forall|v: V| #[trigger]
                        self.value_seq().contains(v) implies before.value_seq().contains(v) || v
                        == value by {
                        let j = choose|j: int|
                            0 <= j < self.value_seq().len() && self.value_seq()[j] == v;
                        if j < ks0.len() {
                            assert(before.value_seq()[j] == v);
                        }
                    }
                    assert forall|k: Seq<char>| ks.contains(k) <==> (ks0.contains(k) || k
                        == k0) by {
                        if ks.contains(k) {
                            let j = choose|j: int| 0 <= j < ks.len() && ks[j] == k;
                            if j < ks0.len() {
                                assert(ks0[j] == k);
                            }
                        }
                        if ks0.contains(k) {
                            let j = choose|j: int| 0 <= j < ks0.len() && ks0[j] == k;
                            assert(ks[j] == k);
                        }
                        if k == k0 {
                            assert(ks[ks0.len() as int] == k);
                        }
                    }
                    assert forall|k: Seq<char>| #[trigger]
                        self@.contains_key(k) implies self@[k] == before@.insert(k0, v0)[k] by {
                        lemma_first_place(ks, k);
                        lemma_first_place(ks0, k);
                        if k == k0 {
                            lemma_first_place_is(ks, k, ks0.len() as int);
                        } else {
                            lemma_first_place_is(ks, k, first_place(ks0, k));
                        }
                    }
                    assert(self@ =~= before@.insert(k0, v0));
                    if before.distinct() {
                        assert forall|a: int, b: int|
                            0 <= a < ks.len() && 0 <= b < ks.len() && a != b implies ks[a]
                            != ks[b] by {
                            if a < ks0.len() && b < ks0.len() {
                                assert(ks0[a] != ks0[b]);
                            } else if a < ks0.len() {
                                assert(ks0.contains(ks0[a]));
                            } else if b < ks0.len() {
                                assert(ks0.contains(ks0[b]));
                            }
                        }
                    }
                }
            },
        }
    }
}

} // verus!
