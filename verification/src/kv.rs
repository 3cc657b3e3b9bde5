//! Association lists: a `Vec` of key-value pairs with distinct keys, read as a
//! map. Writing a key already present replaces its value in place; a new key
//! is appended, so keys keep the order they were first written in.

use vstd::prelude::*;

verus! {

/// The map a listing of pairs denotes; a later pair for a key wins.
pub open spec fn kv_map<K, V>(ps: Seq<(K, V)>) -> Map<K, V>
    decreases ps.len(),
{
    if ps.len() == 0 {
        Map::empty()
    } else {
        kv_map(ps.drop_last()).insert(ps.last().0, ps.last().1)
    }
}

/// No key occurs twice.
pub open spec fn distinct_keys<K, V>(ps: Seq<(K, V)>) -> bool {
    forall|i: int, j: int| 0 <= i < j < ps.len() ==> #[trigger] ps[i].0 != #[trigger] ps[j].0
}

pub proof fn lemma_kv_map_dom<K, V>(ps: Seq<(K, V)>, k: K)
    ensures
        kv_map(ps).contains_key(k) <==> exists|i: int| 0 <= i < ps.len() && ps[i].0 == k,
    decreases ps.len(),
{
    if ps.len() > 0 {
        lemma_kv_map_dom(ps.drop_last(), k);
        if kv_map(ps.drop_last()).contains_key(k) {
            let i = choose|i: int| 0 <= i < ps.drop_last().len() && ps.drop_last()[i].0 == k;
            assert(ps[i].0 == k);
        }
        if exists|i: int| 0 <= i < ps.len() && ps[i].0 == k {
            let i = choose|i: int| 0 <= i < ps.len() && ps[i].0 == k;
            if i < ps.len() - 1 {
                assert(ps.drop_last()[i].0 == k);
            }
        }
    }
}

/// Splicing a pair whose key is absent from the tail: the map gains that pair.
pub proof fn lemma_kv_map_splice<K, V>(s: Seq<(K, V)>, x: (K, V), t: Seq<(K, V)>)
    requires
        forall|j: int| 0 <= j < t.len() ==> t[j].0 != x.0,
    ensures
        kv_map(s + seq![x] + t) == kv_map(s + t).insert(x.0, x.1),
    decreases t.len(),
{
    if t.len() == 0 {
        assert((s + seq![x] + t).drop_last() =~= s);
        assert(s + t =~= s);
    } else {
        let t0 = t.drop_last();
        lemma_kv_map_splice(s, x, t0);
        assert((s + seq![x] + t).drop_last() =~= s + seq![x] + t0);
        assert((s + t).drop_last() =~= s + t0);
        assert(t.last().0 != x.0);
        assert(kv_map(s + seq![x] + t) =~= kv_map(s + t).insert(x.0, x.1));
    }
}

/// With distinct keys, the pair at `i` is what the map holds for its key.
pub proof fn lemma_kv_map_at<K, V>(ps: Seq<(K, V)>, i: int)
    requires
        distinct_keys(ps),
        0 <= i < ps.len(),
    ensures
        kv_map(ps).contains_key(ps[i].0),
        kv_map(ps)[ps[i].0] == ps[i].1,
{
    let s = ps.subrange(0, i);
    let t = ps.subrange(i + 1, ps.len() as int);
    assert forall|j: int| 0 <= j < t.len() implies t[j].0 != ps[i].0 by {
        assert(ps[i + 1 + j] == t[j]);
    }
    lemma_kv_map_splice(s, ps[i], t);
    assert(ps =~= s + seq![ps[i]] + t);
}

/// Replacing the value of the pair at `i`: the map maps its key to the new value.
pub proof fn lemma_kv_map_update<K, V>(ps: Seq<(K, V)>, i: int, v: V)
    requires
        distinct_keys(ps),
        0 <= i < ps.len(),
    ensures
        kv_map(ps.update(i, (ps[i].0, v))) == kv_map(ps).insert(ps[i].0, v),
        distinct_keys(ps.update(i, (ps[i].0, v))),
{
    let k = ps[i].0;
    let s = ps.subrange(0, i);
    let t = ps.subrange(i + 1, ps.len() as int);
    assert forall|j: int| 0 <= j < t.len() implies t[j].0 != k by {
        assert(ps[i + 1 + j] == t[j]);
    }
    lemma_kv_map_splice(s, ps[i], t);
    lemma_kv_map_splice(s, (k, v), t);
    assert(ps =~= s + seq![ps[i]] + t);
    assert(ps.update(i, (k, v)) =~= s + seq![(k, v)] + t);
    assert(kv_map(s + t).insert(k, ps[i].1).insert(k, v) =~= kv_map(s + t).insert(k, v));
}

/// Appending a pair with a new key keeps keys distinct.
pub proof fn lemma_distinct_push<K, V>(ps: Seq<(K, V)>, x: (K, V))
    requires
        distinct_keys(ps),
        forall|j: int| 0 <= j < ps.len() ==> ps[j].0 != x.0,
    ensures
        distinct_keys(ps.push(x)),
{
    assert forall|i: int, j: int| 0 <= i < j < ps.push(x).len() implies #[trigger] ps.push(x)[i].0
        != #[trigger] ps.push(x)[j].0 by {
        if j == ps.len() {
            assert(ps.push(x)[i] == ps[i]);
        } else {
            assert(ps.push(x)[i] == ps[i]);
            assert(ps.push(x)[j] == ps[j]);
        }
    }
}

/// Pushing onto a sequence makes it one longer, whatever its element type.
pub proof fn lemma_push_len<A>(s: Seq<A>, a: A)
    ensures
        s.push(a).len() == s.len() + 1,
{
}

} // verus!
