//! The map that a sequence of entries builds when each entry is inserted in
//! turn, a later entry replacing an earlier one under the same key.

use vstd::prelude::*;

verus! {

/// The map built by inserting `key(e) -> val(e)` for each entry `e` of `s`, in order.
pub open spec fn table_of<A, K, V>(s: Seq<A>, key: spec_fn(A) -> K, val: spec_fn(A) -> V) -> Map<K, V>
    decreases s.len(),
{
    if s.len() == 0 {
        Map::empty()
    } else {
        table_of(s.drop_last(), key, val).insert(key(s.last()), val(s.last()))
    }
}

/// No two entries of `s` share a key.
pub open spec fn keys_distinct<A, K>(s: Seq<A>, key: spec_fn(A) -> K) -> bool {
    forall|i: int, j: int|
        0 <= i < s.len() && 0 <= j < s.len() && i != j ==> key(s[i]) != key(s[j])
}

pub proof fn lemma_table_push<A, K, V>(s: Seq<A>, key: spec_fn(A) -> K, val: spec_fn(A) -> V, a: A)
    ensures
        table_of(s.push(a), key, val) == table_of(s, key, val).insert(key(a), val(a)),
{
    assert(s.push(a).drop_last() =~= s);
}

pub proof fn lemma_table_dom<A, K, V>(s: Seq<A>, key: spec_fn(A) -> K, val: spec_fn(A) -> V, k: K)
    ensures
        table_of(s, key, val).contains_key(k) <==> exists|i: int| 0 <= i < s.len() && key(s[i]) == k,
    decreases s.len(),
{
    if s.len() > 0 {
        lemma_table_dom(s.drop_last(), key, val, k);
        if table_of(s, key, val).contains_key(k) && key(s.last()) != k {
            let i = choose|i: int| 0 <= i < s.len() - 1 && key(s.drop_last()[i]) == k;
            assert(key(s[i]) == k);
        }
        if exists|i: int| 0 <= i < s.len() && key(s[i]) == k {
            let i = choose|i: int| 0 <= i < s.len() && key(s[i]) == k;
            if i < s.len() - 1 {
                assert(key(s.drop_last()[i]) == k);
            }
        }
    }
}

pub proof fn lemma_table_value<A, K, V>(s: Seq<A>, key: spec_fn(A) -> K, val: spec_fn(A) -> V, i: int)
    requires
        keys_distinct(s, key),
        0 <= i < s.len(),
    ensures
        table_of(s, key, val).contains_key(key(s[i])),
        table_of(s, key, val)[key(s[i])] == val(s[i]),
    decreases s.len(),
{
    if i < s.len() - 1 {
        assert(keys_distinct(s.drop_last(), key));
        lemma_table_value(s.drop_last(), key, val, i);
    }
}

pub proof fn lemma_table_update<A, K, V>(
    s: Seq<A>,
    key: spec_fn(A) -> K,
    val: spec_fn(A) -> V,
    j: int,
    a: A,
)
    requires
        keys_distinct(s, key),
        0 <= j < s.len(),
        key(a) == key(s[j]),
    ensures
        table_of(s.update(j, a), key, val) == table_of(s, key, val).insert(key(a), val(a)),
        keys_distinct(s.update(j, a), key),
    decreases s.len(),
{
    let t = s.update(j, a);
    if j == s.len() - 1 {
        assert(t.drop_last() =~= s.drop_last());
        assert(table_of(t, key, val) =~= table_of(s, key, val).insert(key(a), val(a)));
    } else {
        assert(t.drop_last() =~= s.drop_last().update(j, a));
        assert(keys_distinct(s.drop_last(), key));
        lemma_table_update(s.drop_last(), key, val, j, a);
        assert(key(s.last()) != key(a));
        assert(table_of(t, key, val) =~= table_of(s, key, val).insert(key(a), val(a)));
    }
    assert forall|x: int, y: int|
        0 <= x < t.len() && 0 <= y < t.len() && x != y implies key(t[x]) != key(t[y]) by {
        if x != j && y != j {
            assert(key(s[x]) != key(s[y]));
        } else if x == j {
            assert(key(s[j]) != key(s[y]));
        } else {
            assert(key(s[x]) != key(s[j]));
        }
    }
}

} // verus!
