//! Deferred content: holes reserved during a walk and the fills that replace
//! them afterwards.
//!
//! A producer that cannot render during the walk reserves a hole keyed by a
//! [`HoleKey`] of its own choosing and later sets that key in a [`Fills`].
//! Each producer's fills are merged into one [`GlobalFills`] under a namespace
//! that keeps producers apart, so two producers may use the same local keys.

use vstd::prelude::*;
use std::collections::HashMap;
use crate::kv::{distinct_keys, kv_map, lemma_distinct_push, lemma_kv_map_at, lemma_kv_map_dom, lemma_kv_map_update};

verus! {

/// Key of a hole, chosen by the producer that reserved it.
pub type HoleKey = u32;

/// A namespace that keeps producers' hole keys apart.
pub trait Namespace: Copy {
    /// Whether `self` and `other` are the same namespace.
    fn same(&self, other: &Self) -> (r: bool)
        ensures
            r == (*self == *other),
    ;
}

impl Namespace for u32 {
    fn same(&self, other: &Self) -> (r: bool) {
        *self == *other
    }
}

/// Which producer a hole belongs to.
#[derive(Debug, Clone, Copy, PartialEq, Eq, Structural, Hash)]
pub enum Source {
    /// A tab group's bar.
    Tabs,
    /// A diagram.
    Diagram,
    /// The leaf directive handler registered at this index.
    Leaf(usize),
    /// The container directive handler registered at this index.
    Container(usize),
    /// The code block processor registered at this index.
    CodeBlock(usize),
}

impl Namespace for Source {
    fn same(&self, other: &Self) -> (r: bool) {
        *self == *other
    }
}

/// A hole key qualified by its producer's namespace.
#[derive(Debug, Clone, Copy)]
pub struct GlobalKey<N>(pub N, pub HoleKey);

/// A piece of deferred output: markup known now, or a hole filled later.
#[derive(Debug, PartialEq, Eq)]
pub enum Part {
    Html(String),
    Hole(HoleKey),
}

/// The length `str::len` reports for `s`: the number of bytes of its UTF-8
/// encoding.
pub open spec fn byte_len(s: Seq<char>) -> nat {
    (vstd::utf8::encode_utf8(s).len() as usize) as nat
}

/// A producer's fills for its reserved holes: the fill of each key, and
/// the keys in the order they were first set.
pub struct Fills {
    map: HashMap<HoleKey, String>,
    order: Vec<HoleKey>,
}

impl View for Fills {
    type V = Map<HoleKey, Seq<char>>;

    closed spec fn view(&self) -> Map<HoleKey, Seq<char>> {
        self.map@.map_values(|s: String| s@)
    }
}

impl Fills {
    /// The fills as (key, content) pairs, in the order the keys were first
    /// set.
    closed spec fn pairs(&self) -> Seq<(HoleKey, Seq<char>)> {
        self.order@.map_values(|k: HoleKey| (k, self.map@[k]@))
    }

    /// Every key is listed once, and the listing gives the fills held.
    #[verifier::type_invariant]
    spec fn inv(&self) -> bool {
        &&& distinct_keys(self.pairs())
        &&& kv_map(self.pairs()) == self@
    }

    /// An empty set of fills.
    pub fn new() -> (r: Self)
        ensures
            r@ == Map::<HoleKey, Seq<char>>::empty(),
            r.content_len() == 0,
    {
        let map: HashMap<HoleKey, String> = HashMap::new();
        let order: Vec<HoleKey> = Vec::new();
        assert(order@.map_values(|k: HoleKey| (k, map@[k]@)) =~= Seq::<(HoleKey, Seq<char>)>::empty());
        assert(map@.map_values(|s: String| s@) =~= Map::<HoleKey, Seq<char>>::empty());
        Fills { map, order }
    }

    /// Fill the hole `key` with `html`, replacing an earlier fill for it.
    pub fn set(&mut self, key: HoleKey, html: String)
        ensures
            final(self)@ == old(self)@.insert(key, html@),
            final(self).content_len() <= old(self).content_len() + byte_len(html@),
    {
        broadcast use vstd::std_specs::hash::group_hash_axioms;
        proof {
            use_type_invariant(&*self);
        }
        let ghost ps = self.pairs();
        let ghost hv = html@;
        let mut taken = Fills::new();
        std::mem::swap(&mut taken, self);
        let Fills { mut map, mut order } = taken;
        let ghost old_map = map@;
        let pos = key_position(&order, key);
        map.insert(key, html);
        assert(map@.map_values(|s: String| s@) =~= old_map.map_values(|s: String| s@).insert(key, hv));
        match pos {
            Some(i) => {
                let ghost np = order@.map_values(|k: HoleKey| (k, map@[k]@));
                assert(np =~= ps.update(i as int, (ps[i as int].0, hv))) by {
                    assert forall|j: int| 0 <= j < order@.len() && j != i implies order@[j] != key by {
                        assert(ps[j].0 != ps[i as int].0);
                    }
                }
                proof {
                    lemma_kv_map_update(ps, i as int, hv);
                    lemma_sum_bytes_update(ps, i as int, (ps[i as int].0, hv));
                }
            },
            None => {
                proof {
                    lemma_distinct_push(ps, (key, hv));
                }
                order.push(key);
                let ghost np = order@.map_values(|k: HoleKey| (k, map@[k]@));
                assert(np =~= ps.push((key, hv))) by {
                    assert forall|j: int| 0 <= j < ps.len() implies np[j] == ps[j] by {
                        assert(order@[j] != key);
                    }
                }
                assert(ps.push((key, hv)).drop_last() =~= ps);
            },
        }
        *self = Fills { map, order };
    }

    /// The fill for the hole `key`, if set.
    pub fn get(&self, key: HoleKey) -> (r: Option<&str>)
        ensures
            match r {
                Some(s) => self@.contains_key(key) && self@[key] == s@,
                None => !self@.contains_key(key),
            },
    {
        broadcast use vstd::std_specs::hash::group_hash_axioms;
        match self.map.get(&key) {
            Some(s) => Some(s.as_str()),
            None => None,
        }
    }

    /// The fill of the key listed at `i`.
    fn fill_at(&self, i: usize) -> (r: (HoleKey, &String))
        requires
            i < self.pairs().len(),
        ensures
            (r.0, r.1@) == self.pairs()[i as int],
    {
        broadcast use vstd::std_specs::hash::group_hash_axioms;
        proof {
            use_type_invariant(self);
            lemma_kv_map_at(self.pairs(), i as int);
        }
        let key = self.order[i];
        match self.map.get(&key) {
            Some(s) => (key, s),
            None => {
                assert(self@.contains_key(key));
                vstd::pervasive::unreached()
            },
        }
    }

    /// How many fills are held.
    fn count(&self) -> (r: usize)
        ensures
            r == self.pairs().len(),
    {
        self.order.len()
    }

    /// Total bytes of the fills held, or `None` when that overflows a
    /// `usize`.
    pub fn total_bytes(&self) -> (r: Option<usize>)
        ensures
            match r {
                Some(n) => n == self.content_len(),
                None => self.content_len() > usize::MAX,
            },
    {
        let ghost ps = self.pairs();
        let mut total: usize = 0;
        let mut i: usize = 0;
        let n = self.count();
        while i < n
            invariant
                i <= n,
                n == ps.len(),
                ps == self.pairs(),
                total == sum_bytes(ps.take(i as int)),
            decreases n - i,
        {
            assert(ps.take(i + 1).drop_last() =~= ps.take(i as int));
            assert(ps.take(i + 1).last() == ps[i as int]);
            let (_, text) = self.fill_at(i);
            let len = text.as_str().len();
            assert(len == byte_len(ps[i as int].1));
            match total.checked_add(len) {
                Some(t) => {
                    total = t;
                },
                None => {
                    proof {
                        lemma_sum_bytes_take(ps, i + 1);
                    }
                    return None;
                },
            }
            i = i + 1;
        }
        assert(ps.take(n as int) =~= ps);
        Some(total)
    }
}

/// Index of `key` in the listing.
fn key_position(m: &Vec<HoleKey>, key: HoleKey) -> (r: Option<usize>)
    ensures
        match r {
            Some(i) => i < m@.len() && m@[i as int] == key,
            None => forall|j: int| 0 <= j < m@.len() ==> m@[j] != key,
        },
{
    let mut i: usize = 0;
    while i < m.len()
        invariant
            i <= m@.len(),
            forall|j: int| 0 <= j < i ==> m@[j] != key,
        decreases m.len() - i,
    {
        if m[i] == key {
            return Some(i);
        }
        i = i + 1;
    }
    None
}

/// Total bytes of the values of a listing.
pub open spec fn sum_bytes<K>(ps: Seq<(K, Seq<char>)>) -> nat
    decreases ps.len(),
{
    if ps.len() == 0 {
        0
    } else {
        sum_bytes(ps.drop_last()) + byte_len(ps.last().1)
    }
}

pub proof fn lemma_sum_bytes_update<K>(ps: Seq<(K, Seq<char>)>, i: int, x: (K, Seq<char>))
    requires
        0 <= i < ps.len(),
    ensures
        sum_bytes(ps.update(i, x)) + byte_len(ps[i].1) == sum_bytes(ps) + byte_len(x.1),
    decreases ps.len(),
{
    if i < ps.len() - 1 {
        lemma_sum_bytes_update(ps.drop_last(), i, x);
        assert(ps.update(i, x).drop_last() =~= ps.drop_last().update(i, x));
    } else {
        assert(ps.update(i, x).drop_last() =~= ps.drop_last());
    }
}

/// All producers' fills, each under its namespace, with the total size of
/// their content.
pub struct GlobalFills<N> {
    map: Vec<(GlobalKey<N>, String)>,
    total_len: usize,
}

pub open spec fn global_pairs<N>(v: Seq<(GlobalKey<N>, String)>) -> Seq<((N, HoleKey), Seq<char>)> {
    v.map_values(|p: (GlobalKey<N>, String)| ((p.0.0, p.0.1), p.1@))
}

/// `fills` re-keyed under `namespace`.
pub open spec fn under<N>(namespace: N, fills: Map<HoleKey, Seq<char>>) -> Map<(N, HoleKey), Seq<char>> {
    Map::new(|k: (N, HoleKey)| k.0 == namespace && fills.contains_key(k.1), |k: (N, HoleKey)| fills[k.1])
}

impl<N> View for GlobalFills<N> {
    type V = Map<(N, HoleKey), Seq<char>>;

    closed spec fn view(&self) -> Map<(N, HoleKey), Seq<char>> {
        kv_map(global_pairs(self.map@))
    }
}

impl<N> GlobalFills<N> {
    /// No key is held twice, and the total is the size of what is held.
    pub closed spec fn wf(&self) -> bool {
        &&& distinct_keys(global_pairs(self.map@))
        &&& self.total_len == sum_bytes(global_pairs(self.map@))
    }

    /// Total bytes of all fills held, each key counted once.
    pub closed spec fn content_len(&self) -> nat {
        sum_bytes(global_pairs(self.map@))
    }
}

impl<N: Namespace> GlobalFills<N> {
    /// No fills.
    pub fn new() -> (r: Self)
        ensures
            r@ == Map::<(N, HoleKey), Seq<char>>::empty(),
            r.content_len() == 0,
            r.wf(),
    {
        let r = GlobalFills { map: Vec::new(), total_len: 0 };
        assert(global_pairs(r.map@) =~= Seq::<((N, HoleKey), Seq<char>)>::empty());
        r
    }

    fn position(&self, key: GlobalKey<N>) -> (r: Option<usize>)
        ensures
            match r {
                Some(i) => i < self.map@.len() && global_pairs(self.map@)[i as int].0 == (key.0, key.1),
                None => forall|j: int|
                    0 <= j < self.map@.len() ==> global_pairs(self.map@)[j].0 != (key.0, key.1),
            },
    {
        let mut i: usize = 0;
        while i < self.map.len()
            invariant
                i <= self.map@.len(),
                forall|j: int| 0 <= j < i ==> global_pairs(self.map@)[j].0 != (key.0, key.1),
            decreases self.map.len() - i,
        {
            let k = self.map[i].0;
            if k.0.same(&key.0) && k.1 == key.1 {
                return Some(i);
            }
            i = i + 1;
        }
        None
    }

    /// Fill `key` with `html`, replacing an earlier fill for it; the total
    /// drops the replaced fill's size and adds the new one's.
    pub fn insert(&mut self, key: GlobalKey<N>, html: String)
        requires
            old(self).wf(),
            old(self).content_len() + byte_len(html@) <= usize::MAX,
        ensures
            final(self).wf(),
            final(self)@ == old(self)@.insert((key.0, key.1), html@),
            final(self).content_len() + (if old(self)@.contains_key((key.0, key.1)) {
                byte_len(old(self)@[(key.0, key.1)])
            } else {
                0
            }) == old(self).content_len() + byte_len(html@),
    {
        let ghost ps = global_pairs(self.map@);
        let ghost k = (key.0, key.1);
        let n = html.as_str().len();
        assert(n == byte_len(html@));
        match self.position(key) {
            Some(i) => {
                let old_n = self.map[i].1.as_str().len();
                proof {
                    lemma_kv_map_update(ps, i as int, html@);
                    lemma_kv_map_at(ps, i as int);
                    lemma_sum_bytes_update(ps, i as int, (k, html@));
                }
                let total = self.total_len + n - old_n;
                self.map.set(i, (key, html));
                self.total_len = total;
                assert(global_pairs(self.map@) =~= ps.update(i as int, (ps[i as int].0, html@)));
            },
            None => {
                proof {
                    lemma_distinct_push(ps, (k, html@));
                    lemma_kv_map_dom(ps, k);
                }
                let total = self.total_len + n;
                self.map.push((key, html));
                self.total_len = total;
                assert(global_pairs(self.map@) =~= ps.push((k, html@)));
                assert(global_pairs(self.map@).drop_last() =~= ps);
            },
        }
    }

    /// Merge a producer's fills under `namespace`; a fill already held for
    /// the same key is replaced.
    pub fn merge(&mut self, namespace: N, fills: Fills)
        requires
            old(self).wf(),
            old(self).content_len() + fills.content_len() <= usize::MAX,
        ensures
            final(self).wf(),
            final(self)@ == old(self)@.union_prefer_right(under(namespace, fills@)),
    {
        proof {
            use_type_invariant(&fills);
        }
        let ghost fp = fills.pairs();
        let ghost start = self@;
        let ghost start_len = self.content_len();
        let n = fills.count();
        let mut k: usize = 0;
        while k < n
            invariant
                k <= n,
                n == fp.len(),
                fp == fills.pairs(),
                kv_map(fp) == fills@,
                self.wf(),
                self@ == start.union_prefer_right(under(namespace, kv_map(fp.take(k as int)))),
                self.content_len() <= start_len + sum_bytes(fp.take(k as int)),
                start_len + sum_bytes(fp) <= usize::MAX,
            decreases n - k,
        {
            let (key, text) = fills.fill_at(k);
            let html = text.clone();
            proof {
                lemma_sum_bytes_take(fp, k as int);
                lemma_sum_bytes_take(fp, k + 1);
                assert(fp.take(k + 1).drop_last() =~= fp.take(k as int));
                assert(fp[k as int] == (key, html@));
            }
            self.insert(GlobalKey(namespace, key), html);
            proof {
                assert(kv_map(fp.take(k + 1)) == kv_map(fp.take(k as int)).insert(key, html@));
                assert(under(namespace, kv_map(fp.take(k + 1))) =~= under(
                    namespace,
                    kv_map(fp.take(k as int)),
                ).insert((namespace, key), html@));
                assert(self@ =~= start.union_prefer_right(under(namespace, kv_map(fp.take(k + 1)))));
            }
            k = k + 1;
        }
        assert(fp.take(n as int) =~= fp);
    }

    /// The fill for `key`, if any.
    pub fn get(&self, key: GlobalKey<N>) -> (r: Option<&str>)
        requires
            self.wf(),
        ensures
            match r {
                Some(s) => self@.contains_key((key.0, key.1)) && self@[(key.0, key.1)] == s@,
                None => !self@.contains_key((key.0, key.1)),
            },
    {
        let ghost ps = global_pairs(self.map@);
        match self.position(key) {
            Some(i) => {
                proof {
                    lemma_kv_map_at(ps, i as int);
                }
                Some(self.map[i].1.as_str())
            },
            None => {
                proof {
                    lemma_kv_map_dom(ps, (key.0, key.1));
                }
                None
            },
        }
    }

    /// Total bytes of all fills held: a replaced fill no longer counts.
    pub fn total_len(&self) -> (r: usize)
        requires
            self.wf(),
        ensures
            r == self.content_len(),
    {
        self.total_len
    }
}

impl Fills {
    /// Total bytes of the fills held.
    pub closed spec fn content_len(&self) -> nat {
        sum_bytes(self.pairs())
    }
}

proof fn lemma_sum_bytes_take<K>(ps: Seq<(K, Seq<char>)>, k: int)
    requires
        0 <= k <= ps.len(),
    ensures
        sum_bytes(ps.take(k)) <= sum_bytes(ps),
    decreases ps.len() - k,
{
    if k < ps.len() {
        lemma_sum_bytes_take(ps, k + 1);
        assert(ps.take(k + 1).drop_last() =~= ps.take(k));
    } else {
        assert(ps.take(k) =~= ps);
    }
}


/// Producers never collide: after merging one producer's fills under `n1`
/// and another's under `n2 != n1`, every local key of each still reaches that
/// producer's own fill, whatever keys the two share.
pub proof fn lemma_namespaces_keep_producers_apart<N>(
    g: Map<(N, HoleKey), Seq<char>>,
    n1: N,
    a: Map<HoleKey, Seq<char>>,
    n2: N,
    b: Map<HoleKey, Seq<char>>,
)
    requires
        n1 != n2,
    ensures
        forall|k: HoleKey|
            a.contains_key(k) ==> g.union_prefer_right(under(n1, a)).union_prefer_right(under(n2, b)).contains_key(
                (n1, k),
            ) && #[trigger] g.union_prefer_right(under(n1, a)).union_prefer_right(under(n2, b))[(n1, k)] == a[k],
        forall|k: HoleKey|
            b.contains_key(k) ==> g.union_prefer_right(under(n1, a)).union_prefer_right(under(n2, b)).contains_key(
                (n2, k),
            ) && #[trigger] g.union_prefer_right(under(n1, a)).union_prefer_right(under(n2, b))[(n2, k)] == b[k],
{
    let m = g.union_prefer_right(under(n1, a)).union_prefer_right(under(n2, b));
    assert forall|k: HoleKey| a.contains_key(k) implies m.contains_key((n1, k)) && m[(n1, k)] == a[k] by {
        assert(!under(n2, b).contains_key((n1, k)));
        assert(under(n1, a).contains_key((n1, k)));
    }
    assert forall|k: HoleKey| b.contains_key(k) implies m.contains_key((n2, k)) && m[(n2, k)] == b[k] by {
        assert(under(n2, b).contains_key((n2, k)));
    }
}

impl Default for Fills {
    fn default() -> (r: Self)
        ensures
            r@ == Map::<HoleKey, Seq<char>>::empty(),
            r.content_len() == 0,
    {
        Fills::new()
    }
}

impl<N: Namespace> Default for GlobalFills<N> {
    fn default() -> (r: Self)
        ensures
            r@ == Map::<(N, HoleKey), Seq<char>>::empty(),
            r.content_len() == 0,
            r.wf(),
    {
        GlobalFills::new()
    }
}

} // verus!
