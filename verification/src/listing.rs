//! What a listing in no fixed order gives: the values of a map, each once.

use vstd::multiset::Multiset;
use vstd::prelude::*;

verus! {

/// A value, where there is one.
pub open spec fn one_of<T>(value: Option<T>) -> Multiset<T> {
    match value {
        Some(v) => Multiset::singleton(v),
        None => Multiset::empty(),
    }
}

/// What `decode` makes of the entries of a map, each once. An entry of which it makes
/// nothing is left out.
pub open spec fn values_of<K, V, T>(map: Map<K, V>, decode: spec_fn(V) -> Option<T>) -> Multiset<T>
    decreases map.dom().len(),
    when map.dom().finite()
{
    if map.dom().len() == 0 {
        Multiset::empty()
    } else {
        let key = map.dom().choose();
        values_of(map.remove(key), decode).add(one_of(decode(map[key])))
    }
}

/// A value that is kept at the end adds one to what is kept.
proof fn lemma_kept_last<A, B>(s: Seq<A>, f: spec_fn(A) -> Option<B>)
    requires
        s.len() > 0,
    ensures
        s.filter_map(f).to_multiset() =~= s.drop_last().filter_map(f).to_multiset().add(
            one_of(f(s.last())),
        ),
{
    let rest = s.drop_last().filter_map(f);
    rest.to_multiset_ensures();
    match f(s.last()) {
        Some(value) => {
            assert(s.filter_map(f) =~= rest.push(value));
            assert(rest.to_multiset().insert(value) =~= rest.to_multiset().add(
                Multiset::singleton(value),
            ));
        },
        None => {},
    }
}

/// An element that is taken out takes its value along.
proof fn lemma_kept_without<A, B>(s: Seq<A>, j: int, f: spec_fn(A) -> Option<B>)
    requires
        0 <= j < s.len(),
    ensures
        s.filter_map(f).to_multiset() =~= s.remove(j).filter_map(f).to_multiset().add(
            one_of(f(s[j])),
        ),
    decreases s.len(),
{
    lemma_kept_last(s, f);
    let init = s.drop_last();
    if j == s.len() - 1 {
        assert(s.remove(j) =~= init);
    } else {
        lemma_kept_without(init, j, f);
        lemma_kept_last(s.remove(j), f);
        assert(s.remove(j).drop_last() =~= init.remove(j));
        assert(s.remove(j).last() == s.last());
        assert(init[j] == s[j]);
    }
}

/// Two sequences that give the same values, place by place, keep the same.
pub proof fn lemma_kept_alike<A, B, T>(
    s: Seq<A>,
    t: Seq<B>,
    f: spec_fn(A) -> Option<T>,
    g: spec_fn(B) -> Option<T>,
)
    requires
        s.len() == t.len(),
        forall|i: int| #![trigger s[i]] #![trigger t[i]] 0 <= i < s.len() ==> f(s[i]) == g(t[i]),
    ensures
        s.filter_map(f) == t.filter_map(g),
    decreases s.len(),
{
    if s.len() > 0 {
        let s1 = s.drop_last();
        let t1 = t.drop_last();
        assert forall|i: int| #![trigger s1[i]] #![trigger t1[i]] 0 <= i < s1.len() implies f(s1[i])
            == g(t1[i]) by {
            assert(s1[i] == s[i] && t1[i] == t[i]);
        }
        lemma_kept_alike(s1, t1, f, g);
        assert(f(s[s.len() - 1]) == g(t[t.len() - 1]));
    }
}

/// Whatever the order in which the keys of a map are listed, each once, their values are
/// those of the map.
pub proof fn lemma_listed_values<K, V, T>(
    keys: Seq<K>,
    map: Map<K, V>,
    decode: spec_fn(V) -> Option<T>,
)
    requires
        keys.no_duplicates(),
        keys.to_set() == map.dom(),
    ensures
        map.dom().finite(),
        map.dom().len() == keys.len(),
        keys.filter_map(|k: K| decode(map[k])).to_multiset() == values_of(map, decode),
    decreases keys.len(),
{
    keys.unique_seq_to_set();
    let f = |k: K| decode(map[k]);
    if keys.len() == 0 {
        keys.filter_map(f).to_multiset_ensures();
        assert(keys.filter_map(f).to_multiset() =~= Multiset::empty());
    } else {
        let key = map.dom().choose();
        assert(map.dom().contains(key));
        assert(keys.contains(key));
        let j = choose|j: int| 0 <= j < keys.len() && keys[j] == key;
        let rest = keys.remove(j);
        let less = map.remove(key);
        assert(rest.no_duplicates());
        assert(rest.to_set() =~= less.dom()) by {
            assert forall|k: K| rest.to_set().contains(k) == less.dom().contains(k) by {
                if rest.contains(k) {
                    let i = choose|i: int| 0 <= i < rest.len() && rest[i] == k;
                    let from = if i < j { i } else { i + 1 };
                    assert(keys[from] == k);
                    assert(keys.to_set().contains(k));
                }
                if less.dom().contains(k) {
                    assert(keys.to_set().contains(k));
                    let i = choose|i: int| 0 <= i < keys.len() && keys[i] == k;
                    assert(i != j);
                    assert(rest[if i < j { i } else { i - 1 }] == k);
                }
            }
        }
        lemma_listed_values(rest, less, decode);
        lemma_kept_without(keys, j, f);
        let g = |k: K| decode(less[k]);
        assert forall|i: int| 0 <= i < rest.len() implies f(#[trigger] rest[i]) == g(rest[i]) by {
            assert(rest.to_set().contains(rest[i]));
        }
        lemma_kept_alike(rest, rest, f, g);
    }
}

/// Where something is made of each entry, there are as many values as entries.
pub proof fn lemma_values_len<K, V, T>(map: Map<K, V>, decode: spec_fn(V) -> Option<T>)
    requires
        map.dom().finite(),
        forall|k: K| #[trigger] map.contains_key(k) ==> decode(map[k]) is Some,
    ensures
        values_of(map, decode).len() == map.dom().len(),
    decreases map.dom().len(),
{
    if map.dom().len() > 0 {
        let key = map.dom().choose();
        assert(map.contains_key(key));
        let less = map.remove(key);
        assert forall|k: K| #[trigger] less.contains_key(k) implies decode(less[k]) is Some by {
            assert(map.contains_key(k));
        }
        lemma_values_len(less, decode);
    }
}

/// Two maps of which the same is made, key by key, give the same values.
pub proof fn lemma_values_alike<K, V, W, T>(
    map: Map<K, V>,
    other: Map<K, W>,
    f: spec_fn(V) -> Option<T>,
    g: spec_fn(W) -> Option<T>,
)
    requires
        map.dom().finite(),
        map.dom() == other.dom(),
        forall|k: K| #[trigger] map.contains_key(k) ==> f(map[k]) == g(other[k]),
    ensures
        values_of(map, f) == values_of(other, g),
    decreases map.dom().len(),
{
    if map.dom().len() > 0 {
        let key = map.dom().choose();
        assert(map.contains_key(key));
        let less = map.remove(key);
        let other_less = other.remove(key);
        assert(less.dom() =~= other_less.dom());
        assert forall|k: K| #[trigger] less.contains_key(k) implies f(less[k])
            == g(other_less[k]) by {
            assert(map.contains_key(k));
        }
        lemma_values_alike(less, other_less, f, g);
    }
}

} // verus!
