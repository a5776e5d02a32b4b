//! Association tables stored as vectors of pairs, viewed as maps.
use vstd::prelude::*;

verus! {

/// No key occurs at two positions of `s`.
pub open spec fn unique_keys<K, V>(s: Seq<(K, V)>) -> bool {
    forall|i: int, j: int| 0 <= i < s.len() && 0 <= j < s.len() && #[trigger] s[i].0 == #[trigger] s[j].0 ==> i == j
}

/// Some position of `s` holds key `k`.
pub open spec fn has_key<K, V>(s: Seq<(K, V)>, k: K) -> bool {
    exists|i: int| 0 <= i < s.len() && #[trigger] s[i].0 == k
}

/// The map that a table of pairs stands for.
pub open spec fn table_map<K, V>(s: Seq<(K, V)>) -> Map<K, V> {
    Map::new(
        |k: K| has_key(s, k),
        |k: K| s[choose|i: int| 0 <= i < s.len() && #[trigger] s[i].0 == k].1,
    )
}

/// The entry at position `i` of a table with unique keys is what the map holds for its key.
pub proof fn lemma_table_index<K, V>(s: Seq<(K, V)>, i: int)
    requires
        unique_keys(s),
        0 <= i < s.len(),
    ensures
        table_map(s).contains_key(s[i].0),
        table_map(s)[s[i].0] == s[i].1,
{
    let k = s[i].0;
    assert(has_key(s, k));
    let j = choose|j: int| 0 <= j < s.len() && #[trigger] s[j].0 == k;
    assert(s[j].0 == s[i].0);
}

/// Appending a pair with a new key adds that key to the map.
pub proof fn lemma_table_push<K, V>(s: Seq<(K, V)>, k: K, v: V)
    requires
        unique_keys(s),
        !has_key(s, k),
    ensures
        unique_keys(s.push((k, v))),
        table_map(s.push((k, v))) == table_map(s).insert(k, v),
{
    let t = s.push((k, v));
    assert forall|i: int, j: int|
        0 <= i < t.len() && 0 <= j < t.len() && #[trigger] t[i].0 == #[trigger] t[j].0 implies i == j by {
        if i < s.len() && j < s.len() {
            assert(s[i].0 == s[j].0);
        } else if i < s.len() {
            assert(s[i].0 == k);
        } else if j < s.len() {
            assert(s[j].0 == k);
        }
    }
    assert forall|q: K| #[trigger] has_key(t, q) == (has_key(s, q) || q == k) by {
        if has_key(s, q) {
            let i = choose|i: int| 0 <= i < s.len() && #[trigger] s[i].0 == q;
            assert(t[i].0 == q);
        }
        if q == k {
            assert(t[s.len() as int].0 == q);
        }
        if has_key(t, q) && q != k {
            let i = choose|i: int| 0 <= i < t.len() && #[trigger] t[i].0 == q;
            assert(s[i].0 == q);
        }
    }
    assert forall|q: K| #[trigger] table_map(t).contains_key(q) implies table_map(t)[q] == table_map(
        s,
    ).insert(k, v)[q] by {
        let i = choose|i: int| 0 <= i < t.len() && #[trigger] t[i].0 == q;
        lemma_table_index(t, i);
        if q != k {
            lemma_table_index(s, i);
        }
    }
    assert(table_map(t) =~= table_map(s).insert(k, v));
}

/// Replacing the value at position `i` replaces the value of its key in the map.
pub proof fn lemma_table_update<K, V>(s: Seq<(K, V)>, i: int, v: V)
    requires
        unique_keys(s),
        0 <= i < s.len(),
    ensures
        unique_keys(s.update(i, (s[i].0, v))),
        table_map(s.update(i, (s[i].0, v))) == table_map(s).insert(s[i].0, v),
{
    let k = s[i].0;
    let t = s.update(i, (k, v));
    assert forall|a: int, b: int|
        0 <= a < t.len() && 0 <= b < t.len() && #[trigger] t[a].0 == #[trigger] t[b].0 implies a == b by {
        assert(s[a].0 == s[b].0);
    }
    assert forall|q: K| #[trigger] has_key(t, q) == has_key(s, q) by {
        if has_key(s, q) {
            let j = choose|j: int| 0 <= j < s.len() && #[trigger] s[j].0 == q;
            assert(t[j].0 == q);
        }
        if has_key(t, q) {
            let j = choose|j: int| 0 <= j < t.len() && #[trigger] t[j].0 == q;
            assert(s[j].0 == q);
        }
    }
    assert(has_key(s, k)) by {
        assert(s[i].0 == k);
    }
    assert forall|q: K| #[trigger] table_map(t).contains_key(q) implies table_map(t)[q] == table_map(
        s,
    ).insert(k, v)[q] by {
        let j = choose|j: int| 0 <= j < t.len() && #[trigger] t[j].0 == q;
        lemma_table_index(t, j);
        if j != i {
            lemma_table_index(s, j);
        }
    }
    assert(table_map(t) =~= table_map(s).insert(k, v));
}

/// `lemma_table_update` for every replacement value at position `i`.
pub proof fn lemma_table_update_any<K, V>(s: Seq<(K, V)>, i: int)
    requires
        unique_keys(s),
        0 <= i < s.len(),
    ensures
        forall|v: V|
            unique_keys(#[trigger] s.update(i, (s[i].0, v))) && table_map(s.update(i, (s[i].0, v)))
                == table_map(s).insert(s[i].0, v),
{
    assert forall|v: V|
        unique_keys(#[trigger] s.update(i, (s[i].0, v))) && table_map(s.update(i, (s[i].0, v)))
            == table_map(s).insert(s[i].0, v) by {
        lemma_table_update(s, i, v);
    }
}

/// Position of `key` in `table`, if it is there.
pub fn find_key<V>(table: &Vec<(u128, V)>, key: u128) -> (r: Option<usize>)
    ensures
        match r {
            Some(i) => i < table@.len() && table@[i as int].0 == key,
            None => !has_key(table@, key),
        },
{
    let mut i: usize = 0;
    while i < table.len()
        invariant
            i <= table@.len(),
            forall|j: int| 0 <= j < i ==> #[trigger] table@[j].0 != key,
        decreases table@.len() - i,
    {
        if table[i].0 == key {
            return Some(i);
        }
        i = i + 1;
    }
    None
}

/// Mutable access to the value at position `i`; what the caller leaves there replaces it.
pub fn value_mut<K, V>(table: &mut Vec<(K, V)>, i: usize) -> (r: &mut V)
    requires
        i < old(table)@.len(),
    ensures
        *r == old(table)@[i as int].1,
        final(table)@ == old(table)@.update(i as int, (old(table)@[i as int].0, *final(r))),
{
    &mut table[i].1
}

} // verus!
