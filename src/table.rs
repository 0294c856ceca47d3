//! Association lists with unique keys, read as maps: the storage behind the
//! resolution table and the cache index.
use vstd::prelude::*;

verus! {

/// No two entries share a key.
pub open spec fn keys_unique<K: View, V>(v: Seq<(K, V)>) -> bool {
    forall|i: int, j: int| 0 <= i < j < v.len() ==> v[i].0@ != v[j].0@
}

/// The map from each key's view to the value stored with it.
pub open spec fn table_map<K: View, V>(v: Seq<(K, V)>) -> Map<K::V, V>
    decreases v.len(),
{
    if v.len() == 0 {
        Map::empty()
    } else {
        table_map(v.drop_last()).insert(v.last().0@, v.last().1)
    }
}

pub proof fn lemma_table_at<K: View, V>(v: Seq<(K, V)>, i: int)
    requires
        keys_unique(v),
        0 <= i < v.len(),
    ensures
        table_map(v).contains_key(v[i].0@),
        table_map(v)[v[i].0@] == v[i].1,
    decreases v.len(),
{
    if i < v.len() - 1 {
        lemma_table_at(v.drop_last(), i);
    }
}

pub proof fn lemma_table_domain<K: View, V>(v: Seq<(K, V)>, k: K::V)
    ensures
        table_map(v).contains_key(k) <==> exists|i: int| 0 <= i < v.len() && v[i].0@ == k,
    decreases v.len(),
{
    if v.len() > 0 {
        lemma_table_domain(v.drop_last(), k);
        if table_map(v.drop_last()).contains_key(k) {
            let i = choose|i: int| 0 <= i < v.drop_last().len() && v.drop_last()[i].0@ == k;
            assert(v[i].0@ == k);
        }
        if exists|i: int| 0 <= i < v.len() && v[i].0@ == k {
            let i = choose|i: int| 0 <= i < v.len() && v[i].0@ == k;
            if i < v.len() - 1 {
                assert(v.drop_last()[i].0@ == k);
            }
        }
    }
}

pub proof fn lemma_table_update<K: View, V>(v: Seq<(K, V)>, i: int, p: (K, V))
    requires
        keys_unique(v),
        0 <= i < v.len(),
        p.0@ == v[i].0@,
    ensures
        keys_unique(v.update(i, p)),
        table_map(v.update(i, p)) == table_map(v).insert(p.0@, p.1),
    decreases v.len(),
{
    let w = v.update(i, p);
    if i == v.len() - 1 {
        assert(w.drop_last() =~= v.drop_last());
        assert(table_map(w) =~= table_map(v).insert(p.0@, p.1));
    } else {
        assert(w.drop_last() =~= v.drop_last().update(i, p));
        lemma_table_update(v.drop_last(), i, p);
        assert(v.last().0@ != p.0@);
        assert(table_map(w) =~= table_map(v).insert(p.0@, p.1));
    }
}

pub proof fn lemma_table_push<K: View, V>(v: Seq<(K, V)>, p: (K, V))
    requires
        keys_unique(v),
        !table_map(v).contains_key(p.0@),
    ensures
        keys_unique(v.push(p)),
        table_map(v.push(p)) == table_map(v).insert(p.0@, p.1),
{
    lemma_table_domain(v, p.0@);
    assert(v.push(p).drop_last() =~= v);
}

/// Two unique-key lists hold the same key-value pairs when each entry of one
/// has a same-keyed, same-valued entry in the other.
pub proof fn lemma_table_same<K: View, V>(v: Seq<(K, V)>, m: Map<K::V, V>)
    requires
        keys_unique(v),
        forall|i: int| 0 <= i < v.len() ==> m.contains_key(#[trigger] v[i].0@) && m[v[i].0@] == v[i].1,
        forall|k: K::V| #[trigger] m.contains_key(k) ==> exists|i: int| 0 <= i < v.len() && v[i].0@ == k,
    ensures
        table_map(v) == m,
{
    assert forall|k: K::V| #[trigger] table_map(v).contains_key(k) <==> m.contains_key(k) by {
        lemma_table_domain(v, k);
    }
    assert forall|k: K::V| #[trigger] table_map(v).contains_key(k) implies table_map(v)[k] == m[k] by {
        lemma_table_domain(v, k);
        let i = choose|i: int| 0 <= i < v.len() && v[i].0@ == k;
        lemma_table_at(v, i);
    }
    assert(table_map(v) =~= m);
}

} // verus!
