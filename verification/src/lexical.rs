//! The order of texts by their UTF-8 bytes, and the keys of a map in that
//! order.

use vstd::prelude::*;
use vstd::utf8::{encode_utf8, encode_utf8_decode_utf8};
use crate::text_map::TextMap;

verus! {

/// Whether `a` stands before `b` when bytes are compared one by one, a
/// sequence standing before those that it begins.
pub open spec fn bytes_lt(a: Seq<u8>, b: Seq<u8>) -> bool
    decreases a.len(),
{
    if b.len() == 0 {
        false
    } else if a.len() == 0 {
        true
    } else if a[0] != b[0] {
        a[0] < b[0]
    } else {
        bytes_lt(a.drop_first(), b.drop_first())
    }
}

/// Whether the text `a` stands before the text `b`, by their UTF-8 bytes.
pub open spec fn text_lt(a: Seq<char>, b: Seq<char>) -> bool {
    bytes_lt(encode_utf8(a), encode_utf8(b))
}

/// Whether each text of `keys` stands before those that follow it.
pub open spec fn ascending(keys: Seq<Seq<char>>) -> bool {
    forall|i: int, j: int| 0 <= i < j < keys.len() ==> text_lt(keys[i], keys[j])
}

/// Whether `keys` holds the keys of `map`, each once, in ascending order.
pub open spec fn sorted_keys_of<V>(keys: Seq<Seq<char>>, map: Map<Seq<char>, V>) -> bool {
    &&& ascending(keys)
    &&& forall|k: Seq<char>| keys.contains(k) <==> map.contains_key(k)
}

/// The keys of `map` in ascending order.
pub open spec fn sorted_keys<V>(map: Map<Seq<char>, V>) -> Seq<Seq<char>> {
    choose|keys: Seq<Seq<char>>| sorted_keys_of(keys, map)
}

/// Two sequences that begin alike stand in the order of what follows.
pub proof fn lemma_bytes_lt_skip(a: Seq<u8>, b: Seq<u8>, n: int)
    requires
        0 <= n <= a.len(),
        n <= b.len(),
        forall|j: int| 0 <= j < n ==> a[j] == b[j],
    ensures
        bytes_lt(a, b) == bytes_lt(a.skip(n), b.skip(n)),
    decreases n,
{
    if n == 0 {
        assert(a.skip(0) =~= a);
        assert(b.skip(0) =~= b);
    } else {
        let x = a.drop_first();
        let y = b.drop_first();
        assert(a[0] == b[0]);
        assert forall|j: int| 0 <= j < n - 1 implies x[j] == y[j] by {
            assert(x[j] == a[j + 1]);
            assert(y[j] == b[j + 1]);
        }
        lemma_bytes_lt_skip(x, y, n - 1);
        assert(x.skip(n - 1) =~= a.skip(n));
        assert(y.skip(n - 1) =~= b.skip(n));
    }
}

/// No sequence stands before itself, and of two one at most stands before
/// the other.
pub proof fn lemma_bytes_lt_asymmetric(a: Seq<u8>, b: Seq<u8>)
    ensures
        !(bytes_lt(a, b) && bytes_lt(b, a)),
        !bytes_lt(a, a),
    decreases a.len(),
{
    if a.len() > 0 {
        lemma_bytes_lt_asymmetric(a.drop_first(), a.drop_first());
        if b.len() > 0 && a[0] == b[0] {
            lemma_bytes_lt_asymmetric(a.drop_first(), b.drop_first());
        }
    }
}

/// Of two different sequences one stands before the other.
pub proof fn lemma_bytes_lt_total(a: Seq<u8>, b: Seq<u8>)
    ensures
        a == b || bytes_lt(a, b) || bytes_lt(b, a),
    decreases a.len(),
{
    if a.len() == 0 || b.len() == 0 {
        if a.len() == 0 && b.len() == 0 {
            assert(a =~= b);
        }
    } else if a[0] == b[0] {
        lemma_bytes_lt_total(a.drop_first(), b.drop_first());
        if a.drop_first() == b.drop_first() {
            assert(a =~= seq![a[0]] + a.drop_first());
            assert(b =~= seq![b[0]] + b.drop_first());
        }
    }
}

/// What stands before a sequence stands before what that sequence stands
/// before.
pub proof fn lemma_bytes_lt_transitive(a: Seq<u8>, b: Seq<u8>, c: Seq<u8>)
    requires
        bytes_lt(a, b),
        bytes_lt(b, c),
    ensures
        bytes_lt(a, c),
    decreases a.len(),
{
    if a.len() > 0 && b.len() > 0 && c.len() > 0 {
        if a[0] == b[0] && b[0] == c[0] {
            lemma_bytes_lt_transitive(a.drop_first(), b.drop_first(), c.drop_first());
        }
    }
}

/// Texts with the same bytes are the same text.
pub proof fn lemma_encode_injective(a: Seq<char>, b: Seq<char>)
    requires
        encode_utf8(a) == encode_utf8(b),
    ensures
        a == b,
{
    encode_utf8_decode_utf8(a);
    encode_utf8_decode_utf8(b);
}

/// The keys of a map have one ascending order.
pub proof fn lemma_sorted_keys_unique<V>(a: Seq<Seq<char>>, b: Seq<Seq<char>>, map: Map<Seq<char>, V>)
    requires
        sorted_keys_of(a, map),
        sorted_keys_of(b, map),
    ensures
        a == b,
    decreases a.len(),
{
    if a.len() == 0 {
        if b.len() > 0 {
            assert(b.contains(b[0]));
            assert(a.contains(b[0]));
        }
        assert(a =~= b);
    } else if b.len() == 0 {
        assert(a.contains(a[0]));
        assert(b.contains(a[0]));
    } else {
        let x = a.last();
        let y = b.last();
        assert(a.contains(x));
        assert(b.contains(y));
        assert(b.contains(x));
        assert(a.contains(y));
        let i = choose|i: int| 0 <= i < b.len() && b[i] == x;
        let j = choose|j: int| 0 <= j < a.len() && a[j] == y;
        lemma_bytes_lt_asymmetric(encode_utf8(x), encode_utf8(y));
        assert(x == y) by {
            if i < b.len() - 1 && j < a.len() - 1 {
                assert(text_lt(b[i], b[b.len() - 1]));
                assert(text_lt(a[j], a[a.len() - 1]));
            }
        }
        let a0 = a.drop_last();
        let b0 = b.drop_last();
        let rest = map.remove(x);
        lemma_bytes_lt_asymmetric(encode_utf8(x), encode_utf8(x));
        assert forall|k: Seq<char>| a0.contains(k) <==> rest.contains_key(k) by {
            if a0.contains(k) {
                let p = choose|p: int| 0 <= p < a0.len() && a0[p] == k;
                assert(a[p] == k);
                assert(a.contains(k));
                assert(text_lt(a[p], a[a.len() - 1]));
            }
            if rest.contains_key(k) {
                assert(a.contains(k));
                let p = choose|p: int| 0 <= p < a.len() && a[p] == k;
                assert(a0[p] == k);
            }
        }
        assert forall|k: Seq<char>| b0.contains(k) <==> rest.contains_key(k) by {
            if b0.contains(k) {
                let p = choose|p: int| 0 <= p < b0.len() && b0[p] == k;
                assert(b[p] == k);
                assert(b.contains(k));
                assert(text_lt(b[p], b[b.len() - 1]));
            }
            if rest.contains_key(k) {
                assert(b.contains(k));
                let p = choose|p: int| 0 <= p < b.len() && b[p] == k;
                assert(b0[p] == k);
            }
        }
        assert(ascending(a0)) by {
            assert forall|p: int, q: int| 0 <= p < q < a0.len() implies text_lt(a0[p], a0[q]) by {
                assert(text_lt(a[p], a[q]));
            }
        }
        assert(ascending(b0)) by {
            assert forall|p: int, q: int| 0 <= p < q < b0.len() implies text_lt(b0[p], b0[q]) by {
                assert(text_lt(b[p], b[q]));
            }
        }
        lemma_sorted_keys_unique(a0, b0, rest);
        assert(a =~= a0.push(x));
        assert(b =~= b0.push(y));
    }
}

/// Whether `a` stands before `b`, byte by byte.
pub fn bytes_less(a: &[u8], b: &[u8]) -> (r: bool)
    ensures
        r == bytes_lt(a@, b@),
{
    let mut i: usize = 0;
    while i < a.len() && i < b.len()
        invariant
            i <= a.len(),
            i <= b.len(),
            forall|j: int| 0 <= j < i ==> a@[j] == b@[j],
        decreases a.len() - i,
    {
        if a[i] != b[i] {
            proof {
                lemma_bytes_lt_skip(a@, b@, i as int);
            }
            return a[i] < b[i];
        }
        i += 1;
    }
    proof {
        lemma_bytes_lt_skip(a@, b@, i as int);
    }
    i < b.len()
}

/// The texts at the places `order` of `keys`.
pub open spec fn picked(keys: Seq<Seq<char>>, order: Seq<usize>) -> Seq<Seq<char>> {
    Seq::new(order.len(), |i: int| keys[order[i] as int])
}

/// The places of the keys of `map` in ascending order of the keys.
pub fn sorted_order<V: View>(map: &TextMap<V>) -> (order: Vec<usize>)
    ensures
        forall|i: int| 0 <= i < order.len() ==> (#[trigger] order@[i]) < map.key_seq().len(),
        picked(map.key_seq(), order@) == sorted_keys(map@),
        sorted_keys_of(sorted_keys(map@), map@),
{
    let mut order: Vec<usize> = Vec::new();
    let n = map.len();
    let ghost keys = map.key_seq();
    let mut i: usize = 0;
    while i < n
        invariant
            i <= n,
            n == keys.len(),
            keys == map.key_seq(),
            forall|p: int| 0 <= p < order.len() ==> (#[trigger] order@[p]) < i,
            ascending(picked(keys, order@)),
            forall|k: Seq<char>| picked(keys, order@).contains(k) <==> keys.take(i as int).contains(k),
        decreases n - i,
    {
        let key = map.key_at(i);
        let ghost k = key@;
        let ghost before = order@;
        let ghost sorted = picked(keys, before);
        // The place of the first key that does not stand before `key`.
        let mut p: usize = 0;
        while p < order.len() && bytes_less(
            map.key_at(order[p]).as_str().as_bytes(),
            key.as_str().as_bytes(),
        )
            invariant
                p <= order.len(),
                order@ == before,
                keys == map.key_seq(),
                k == keys[i as int],
                key@ == k,
                forall|q: int| 0 <= q < order.len() ==> (#[trigger] order@[q]) < i,
                i < keys.len(),
                forall|q: int| 0 <= q < p ==> text_lt(#[trigger] sorted[q], k),
                sorted == picked(keys, before),
            decreases order.len() - p,
        {
            assert(sorted[p as int] == keys[order@[p as int] as int]);
            p += 1;
        }
        let present = p < order.len() && crate::text_map::same_text(
            map.key_at(order[p]).as_str(),
            key.as_str(),
        );
        proof {
            assert(keys.take(i + 1) =~= keys.take(i as int).push(k));
            let more = keys.take(i + 1);
            let fewer = keys.take(i as int);
            assert forall|x: Seq<char>| more.contains(x) <==> (fewer.contains(x) || x == k) by {
                if more.contains(x) {
                    let q = choose|q: int| 0 <= q < more.len() && more[q] == x;
                    if q < i {
                        assert(fewer[q] == x);
                    }
                }
                if fewer.contains(x) {
                    let q = choose|q: int| 0 <= q < fewer.len() && fewer[q] == x;
                    assert(more[q] == x);
                }
                if x == k {
                    assert(more[i as int] == x);
                }
            }
        }
        if present {
            proof {
                assert(sorted[p as int] == k);
                assert(sorted.contains(k));
            }
        } else {
            order.insert(p, i);
            proof {
                let after = picked(keys, order@);
                assert(after =~= sorted.insert(p as int, k));
                if p < before.len() {
                    let next = sorted[p as int];
                    assert(next == keys[before[p as int] as int]);
                    lemma_bytes_lt_total(encode_utf8(next), encode_utf8(k));
                    if encode_utf8(next) == encode_utf8(k) {
                        lemma_encode_injective(next, k);
                    }
                    assert(text_lt(k, next));
                }
                assert forall|a: int, b: int| 0 <= a < b < after.len() implies text_lt(
                    after[a],
                    after[b],
                ) by {
                    if b < p {
                        assert(text_lt(sorted[a], sorted[b]));
                    } else if b == p {
                        assert(text_lt(sorted[a], k));
                    } else if a < p {
                        assert(text_lt(sorted[a], sorted[b - 1]));
                    } else if a == p {
                        if b - 1 > p {
                            assert(text_lt(sorted[p as int], sorted[b - 1]));
                            lemma_bytes_lt_transitive(
                                encode_utf8(k),
                                encode_utf8(sorted[p as int]),
                                encode_utf8(sorted[b - 1]),
                            );
                        }
                    } else {
                        assert(text_lt(sorted[a - 1], sorted[b - 1]));
                    }
                }
                assert forall|x: Seq<char>| after.contains(x) <==> (sorted.contains(x) || x
                    == k) by {
                    if after.contains(x) {
                        let q = choose|q: int| 0 <= q < after.len() && after[q] == x;
                        if q < p {
                            assert(sorted[q] == x);
                        } else if q > p {
                            assert(sorted[q - 1] == x);
                        }
                    }
                    if sorted.contains(x) {
                        let q = choose|q: int| 0 <= q < sorted.len() && sorted[q] == x;
                        if q < p {
                            assert(after[q] == x);
                        } else {
                            assert(after[q + 1] == x);
                        }
                    }
                    if x == k {
                        assert(after[p as int] == x);
                    }
                }
            }
        }
        i += 1;
    }
    proof {
        assert(keys.take(n as int) =~= keys);
        map.lemma_keys();
        let found = picked(keys, order@);
        assert(sorted_keys_of(found, map@));
        lemma_sorted_keys_unique(found, sorted_keys(map@), map@);
    }
    order
}

} // verus!
