//! Single-pass string replacement for post-processing.
//!
//! Directives register `from -> to` pairs while they run; [`Replacements::apply`]
//! then rewrites the document in one left-to-right scan. At each position the
//! longest registered pattern that starts there wins, and the text a
//! replacement writes is never scanned again.

use vstd::prelude::*;
use crate::text::{chars_of, matches_at, push_all, starts_with_at, string_of};

verus! {

/// The registered pair chosen at position `i` of `s` among `pats[0..k]`: the
/// longest non-empty `from` that occurs at `i`, and among equally long ones
/// the one registered last.
pub open spec fn best_among(pats: Seq<(Seq<char>, Seq<char>)>, k: int, s: Seq<char>, i: int) -> Option<
    (Seq<char>, Seq<char>),
>
    decreases k,
{
    if k <= 0 {
        None
    } else {
        let prev = best_among(pats, k - 1, s, i);
        let p = pats[k - 1];
        if p.0.len() > 0 && matches_at(s, i, p.0) && match prev {
            Some(q) => q.0.len() <= p.0.len(),
            None => true,
        } {
            Some(p)
        } else {
            prev
        }
    }
}

/// The pair that replaces text at position `i` of `s`, if any.
pub open spec fn best_match(pats: Seq<(Seq<char>, Seq<char>)>, s: Seq<char>, i: int) -> Option<
    (Seq<char>, Seq<char>),
> {
    best_among(pats, pats.len() as int, s, i)
}

/// Output of the scan of `s` from position `i` on.
pub open spec fn replaced_from(pats: Seq<(Seq<char>, Seq<char>)>, s: Seq<char>, i: int) -> Seq<char>
    decreases s.len() - i,
{
    if i < 0 || i >= s.len() {
        Seq::empty()
    } else {
        match best_match(pats, s, i) {
            Some(p) => if p.0.len() > 0 && i + p.0.len() <= s.len() {
                p.1 + replaced_from(pats, s, i + p.0.len())
            } else {
                seq![s[i]] + replaced_from(pats, s, i + 1)
            },
            None => seq![s[i]] + replaced_from(pats, s, i + 1),
        }
    }
}

/// `s` with every leftmost-longest occurrence of a registered pattern
/// replaced, without rescanning replacement text.
pub open spec fn replace_all(pats: Seq<(Seq<char>, Seq<char>)>, s: Seq<char>) -> Seq<char> {
    replaced_from(pats, s, 0)
}

pub proof fn lemma_best_among(pats: Seq<(Seq<char>, Seq<char>)>, k: int, s: Seq<char>, i: int)
    requires
        0 <= k <= pats.len(),
    ensures
        best_among(pats, k, s, i) matches Some(p) ==> p.0.len() > 0 && matches_at(s, i, p.0)
            && exists|j: int| 0 <= j < k && pats[j] == p,
        best_among(pats, k, s, i) matches Some(p) ==> forall|j: int|
            0 <= j < k && pats[j].0.len() > 0 && matches_at(s, i, pats[j].0) ==> pats[j].0.len()
                <= p.0.len(),
        best_among(pats, k, s, i) is None ==> forall|j: int|
            0 <= j < k ==> !(pats[j].0.len() > 0 && matches_at(s, i, #[trigger] pats[j].0)),
    decreases k,
{
    if k > 0 {
        lemma_best_among(pats, k - 1, s, i);
        if best_among(pats, k, s, i) == Some(pats[k - 1]) {
            assert(pats[k - 1] == pats[k - 1]);
        }
    }
}

/// Every registered `from` is distinct.
pub open spec fn distinct_froms(pats: Seq<(Seq<char>, Seq<char>)>) -> bool {
    forall|x: int, y: int| 0 <= x < y < pats.len() ==> pats[x].0 != pats[y].0
}

/// `p` is registered, non-empty, occurs at `i`, and no registered non-empty
/// pattern occurring at `i` is longer.
pub open spec fn is_longest_at(pats: Seq<(Seq<char>, Seq<char>)>, p: (Seq<char>, Seq<char>), s: Seq<char>, i: int) -> bool {
    &&& pats.contains(p)
    &&& p.0.len() > 0
    &&& matches_at(s, i, p.0)
    &&& forall|j: int|
        0 <= j < pats.len() && pats[j].0.len() > 0 && matches_at(s, i, #[trigger] pats[j].0)
            ==> pats[j].0.len() <= p.0.len()
}

proof fn lemma_best_is_longest(pats: Seq<(Seq<char>, Seq<char>)>, s: Seq<char>, i: int)
    ensures
        best_match(pats, s, i) matches Some(p) ==> is_longest_at(pats, p, s, i),
        best_match(pats, s, i) is None ==> forall|j: int|
            0 <= j < pats.len() ==> !(pats[j].0.len() > 0 && matches_at(s, i, #[trigger] pats[j].0)),
{
    lemma_best_among(pats, pats.len() as int, s, i);
    if let Some(p) = best_match(pats, s, i) {
        let j = choose|j: int| 0 <= j < pats.len() && pats[j] == p;
        assert(pats.contains(p));
    }
}

proof fn lemma_longest_unique(
    pats: Seq<(Seq<char>, Seq<char>)>,
    p: (Seq<char>, Seq<char>),
    q: (Seq<char>, Seq<char>),
    s: Seq<char>,
    i: int,
)
    requires
        distinct_froms(pats),
        is_longest_at(pats, p, s, i),
        is_longest_at(pats, q, s, i),
    ensures
        p == q,
{
    let jp = choose|j: int| 0 <= j < pats.len() && pats[j] == p;
    let jq = choose|j: int| 0 <= j < pats.len() && pats[j] == q;
    assert(matches_at(s, i, pats[jp].0));
    assert(matches_at(s, i, pats[jq].0));
    assert(p.0.len() == q.0.len());
    assert(p.0 =~= q.0);
    if jp != jq {
        if jp < jq {
            assert(pats[jp].0 != pats[jq].0);
        } else {
            assert(pats[jq].0 != pats[jp].0);
        }
    }
}

proof fn lemma_best_same(a: Seq<(Seq<char>, Seq<char>)>, b: Seq<(Seq<char>, Seq<char>)>, s: Seq<char>, i: int)
    requires
        forall|x: (Seq<char>, Seq<char>)| a.contains(x) <==> b.contains(x),
        distinct_froms(a),
        distinct_froms(b),
    ensures
        best_match(a, s, i) == best_match(b, s, i),
{
    lemma_best_is_longest(a, s, i);
    lemma_best_is_longest(b, s, i);
    // Longest in one list is longest in the other, since both hold the same pairs.
    assert forall|p: (Seq<char>, Seq<char>)| is_longest_at(a, p, s, i) implies is_longest_at(b, p, s, i) by {
        assert forall|j: int|
            0 <= j < b.len() && b[j].0.len() > 0 && matches_at(s, i, #[trigger] b[j].0) implies b[j].0.len()
            <= p.0.len() by {
            assert(b.contains(b[j]));
            let k = choose|k: int| 0 <= k < a.len() && a[k] == b[j];
            assert(matches_at(s, i, a[k].0));
        }
    }
    assert forall|p: (Seq<char>, Seq<char>)| is_longest_at(b, p, s, i) implies is_longest_at(a, p, s, i) by {
        assert forall|j: int|
            0 <= j < a.len() && a[j].0.len() > 0 && matches_at(s, i, #[trigger] a[j].0) implies a[j].0.len()
            <= p.0.len() by {
            assert(a.contains(a[j]));
            let k = choose|k: int| 0 <= k < b.len() && b[k] == a[j];
            assert(matches_at(s, i, b[k].0));
        }
    }
    match best_match(a, s, i) {
        Some(p) => {
            let j = choose|j: int| 0 <= j < b.len() && b[j] == p;
            match best_match(b, s, i) {
                Some(q) => lemma_longest_unique(a, p, q, s, i),
                None => assert(matches_at(s, i, b[j].0)),
            }
        },
        None => {
            if let Some(q) = best_match(b, s, i) {
                let j = choose|j: int| 0 <= j < a.len() && a[j] == q;
                assert(matches_at(s, i, a[j].0));
            }
        },
    }
}

proof fn lemma_replaced_from_same(a: Seq<(Seq<char>, Seq<char>)>, b: Seq<(Seq<char>, Seq<char>)>, s: Seq<char>, i: int)
    requires
        forall|x: (Seq<char>, Seq<char>)| a.contains(x) <==> b.contains(x),
        distinct_froms(a),
        distinct_froms(b),
    ensures
        replaced_from(a, s, i) == replaced_from(b, s, i),
    decreases s.len() - i,
{
    if 0 <= i < s.len() {
        lemma_best_same(a, b, s, i);
        lemma_best_is_longest(a, s, i);
        match best_match(a, s, i) {
            Some(p) => {
                if p.0.len() > 0 && i + p.0.len() <= s.len() {
                    lemma_replaced_from_same(a, b, s, i + p.0.len());
                } else {
                    lemma_replaced_from_same(a, b, s, i + 1);
                }
            },
            None => lemma_replaced_from_same(a, b, s, i + 1),
        }
    }
}

/// For distinct patterns, registration order does not matter: two
/// registrations holding the same pairs, each with distinct `from`s, rewrite
/// every text alike.
pub proof fn lemma_order_independent(a: Seq<(Seq<char>, Seq<char>)>, b: Seq<(Seq<char>, Seq<char>)>, s: Seq<char>)
    requires
        forall|x: (Seq<char>, Seq<char>)| a.contains(x) <==> b.contains(x),
        distinct_froms(a),
        distinct_froms(b),
    ensures
        replace_all(a, s) == replace_all(b, s),
{
    lemma_replaced_from_same(a, b, s, 0);
}

proof fn lemma_identity_from(pats: Seq<(Seq<char>, Seq<char>)>, s: Seq<char>, i: int)
    requires
        0 <= i <= s.len(),
        forall|j: int, k: int|
            0 <= j < pats.len() && 0 <= k < s.len() && pats[j].0.len() > 0 ==> !#[trigger] matches_at(
                s,
                k,
                pats[j].0,
            ),
    ensures
        replaced_from(pats, s, i) == s.subrange(i, s.len() as int),
    decreases s.len() - i,
{
    if i < s.len() {
        lemma_best_among(pats, pats.len() as int, s, i);
        if let Some(p) = best_match(pats, s, i) {
            let j = choose|j: int| 0 <= j < pats.len() && pats[j] == p;
            assert(!matches_at(s, i, pats[j].0));
        }
        lemma_identity_from(pats, s, i + 1);
        assert(seq![s[i]] + s.subrange(i + 1, s.len() as int) =~= s.subrange(i, s.len() as int));
    }
}

/// Text in which no registered non-empty pattern occurs comes back unchanged.
pub proof fn lemma_no_match_is_identity(pats: Seq<(Seq<char>, Seq<char>)>, s: Seq<char>)
    requires
        forall|j: int, k: int|
            0 <= j < pats.len() && 0 <= k < s.len() && pats[j].0.len() > 0 ==> !#[trigger] matches_at(
                s,
                k,
                pats[j].0,
            ),
    ensures
        replace_all(pats, s) == s,
{
    lemma_identity_from(pats, s, 0);
    assert(s.subrange(0, s.len() as int) =~= s);
}

proof fn lemma_best_among_push(pats: Seq<(Seq<char>, Seq<char>)>, x: (Seq<char>, Seq<char>), k: int, s: Seq<char>, i: int)
    requires
        0 <= k <= pats.len(),
    ensures
        best_among(pats.push(x), k, s, i) == best_among(pats, k, s, i),
    decreases k,
{
    if k > 0 {
        lemma_best_among_push(pats, x, k - 1, s, i);
        assert(pats.push(x)[k - 1] == pats[k - 1]);
    }
}

proof fn lemma_empty_from_from(pats: Seq<(Seq<char>, Seq<char>)>, t: Seq<char>, s: Seq<char>, i: int)
    ensures
        replaced_from(pats.push((Seq::empty(), t)), s, i) == replaced_from(pats, s, i),
    decreases s.len() - i,
{
    if 0 <= i < s.len() {
        lemma_best_among_push(pats, (Seq::empty(), t), pats.len() as int, s, i);
        match best_match(pats, s, i) {
            Some(p) => {
                if p.0.len() > 0 && i + p.0.len() <= s.len() {
                    lemma_empty_from_from(pats, t, s, i + p.0.len());
                } else {
                    lemma_empty_from_from(pats, t, s, i + 1);
                }
            },
            None => lemma_empty_from_from(pats, t, s, i + 1),
        }
    }
}

/// An empty pattern is ignored.
pub proof fn lemma_empty_pattern_ignored(pats: Seq<(Seq<char>, Seq<char>)>, t: Seq<char>, s: Seq<char>)
    ensures
        replace_all(pats.push((Seq::empty(), t)), s) == replace_all(pats, s),
{
    lemma_empty_from_from(pats, t, s, 0);
}

proof fn lemma_duplicate_from(pats: Seq<(Seq<char>, Seq<char>)>, f: Seq<char>, t1: Seq<char>, t2: Seq<char>, s: Seq<char>, i: int)
    ensures
        replaced_from(pats.push((f, t1)).push((f, t2)), s, i) == replaced_from(pats.push((f, t2)), s, i),
    decreases s.len() - i,
{
    if 0 <= i < s.len() {
        let a = pats.push((f, t1)).push((f, t2));
        let b = pats.push((f, t2));
        lemma_best_among_push(pats, (f, t1), pats.len() as int, s, i);
        lemma_best_among_push(pats.push((f, t1)), (f, t2), pats.len() as int, s, i);
        lemma_best_among_push(pats, (f, t2), pats.len() as int, s, i);
        assert(a[pats.len() as int] == (f, t1));
        assert(a[pats.len() + 1int] == (f, t2));
        assert(b[pats.len() as int] == (f, t2));
        let n = pats.len() as int;
        let base = best_among(pats, n, s, i);
        assert(best_among(a, n, s, i) == base);
        assert(best_among(b, n, s, i) == base);
        let c = f.len() > 0 && matches_at(s, i, f) && match base {
            Some(q) => q.0.len() <= f.len(),
            None => true,
        };
        if c {
            assert(best_among(a, n + 1, s, i) == Some((f, t1)));
            assert(best_among(b, n + 1, s, i) == Some((f, t2)));
        } else {
            assert(best_among(a, n + 1, s, i) == base);
            assert(best_among(b, n + 1, s, i) == base);
        }
        assert(best_among(a, n + 2, s, i) == best_among(b, n + 1, s, i));
        assert(best_match(a, s, i) == best_match(b, s, i));
        match best_match(b, s, i) {
            Some(p) => {
                if p.0.len() > 0 && i + p.0.len() <= s.len() {
                    lemma_duplicate_from(pats, f, t1, t2, s, i + p.0.len());
                } else {
                    lemma_duplicate_from(pats, f, t1, t2, s, i + 1);
                }
            },
            None => lemma_duplicate_from(pats, f, t1, t2, s, i + 1),
        }
    }
}

/// Registering the same `from` twice: the last registration's `to` wins.
pub proof fn lemma_last_registration_wins(pats: Seq<(Seq<char>, Seq<char>)>, f: Seq<char>, t1: Seq<char>, t2: Seq<char>, s: Seq<char>)
    ensures
        replace_all(pats.push((f, t1)).push((f, t2)), s) == replace_all(pats.push((f, t2)), s),
{
    lemma_duplicate_from(pats, f, t1, t2, s, 0);
}

/// Collects string replacements for single-pass application.
pub struct Replacements {
    items: Vec<(String, String)>,
}

impl View for Replacements {
    type V = Seq<(Seq<char>, Seq<char>)>;

    /// The registered pairs, in registration order.
    closed spec fn view(&self) -> Seq<(Seq<char>, Seq<char>)> {
        self.items@.map_values(|p: (String, String)| (p.0@, p.1@))
    }
}

impl Replacements {
    /// Create a new empty replacements collector.
    pub fn new() -> (r: Self)
        ensures
            r.view() == Seq::<(Seq<char>, Seq<char>)>::empty(),
    {
        let r = Replacements { items: Vec::new() };
        assert(r.view() =~= Seq::<(Seq<char>, Seq<char>)>::empty());
        r
    }

    /// Create a new replacements collector with pre-allocated capacity.
    pub fn with_capacity(capacity: usize) -> (r: Self)
        ensures
            r.view() == Seq::<(Seq<char>, Seq<char>)>::empty(),
    {
        let r = Replacements { items: Vec::with_capacity(capacity) };
        assert(r.view() =~= Seq::<(Seq<char>, Seq<char>)>::empty());
        r
    }

    /// Register a replacement: occurrences of `from` will be replaced with `to`.
    pub fn add(&mut self, from: &str, to: &str)
        ensures
            final(self).view() == old(self).view().push((from@, to@)),
    {
        let f = string_of(chars_of(from).as_slice());
        let t = string_of(chars_of(to).as_slice());
        self.items.push((f, t));
        assert(self.view() =~= old(self).view().push((from@, to@)));
    }

    /// Check if there are any replacements registered.
    pub fn is_empty(&self) -> (r: bool)
        ensures
            r == (self.view().len() == 0),
    {
        self.items.len() == 0
    }

    /// Get the number of registered replacements.
    pub fn len(&self) -> (r: usize)
        ensures
            r == self.view().len(),
    {
        self.items.len()
    }

    /// The registered pairs as character vectors.
    fn pattern_chars(&self) -> (r: Vec<(Vec<char>, Vec<char>)>)
        ensures
            r@.map_values(|p: (Vec<char>, Vec<char>)| (p.0@, p.1@)) == self.view(),
    {
        let mut r: Vec<(Vec<char>, Vec<char>)> = Vec::new();
        let mut k: usize = 0;
        while k < self.items.len()
            invariant
                k <= self.items@.len(),
                r@.map_values(|p: (Vec<char>, Vec<char>)| (p.0@, p.1@)) == self.view().take(k as int),
            decreases self.items.len() - k,
        {
            let f = chars_of(self.items[k].0.as_str());
            let t = chars_of(self.items[k].1.as_str());
            r.push((f, t));
            assert(self.view().take(k + 1) =~= self.view().take(k as int).push(self.view()[k as int]));
            assert(r@.map_values(|p: (Vec<char>, Vec<char>)| (p.0@, p.1@)) =~= self.view().take(
                k as int,
            ).push(self.view()[k as int]));
            k = k + 1;
        }
        assert(self.view().take(self.items@.len() as int) =~= self.view());
        r
    }

    /// Apply all registered replacements in a single scan: at each position
    /// the longest registered non-empty pattern that starts there is replaced
    /// (the last registered among equal ones), and the scan resumes after it;
    /// replacement text is copied verbatim and never rescanned.
    pub fn apply(self, html: &mut String)
        ensures
            final(html)@ == replace_all(self.view(), old(html)@),
    {
        let pats = self.pattern_chars();
        let ghost pv = self.view();
        let src = chars_of(html.as_str());
        let ghost s = src@;
        let mut out = String::new();
        let mut i: usize = 0;
        while i < src.len()
            invariant
                i <= s.len(),
                s == src@,
                pats@.map_values(|p: (Vec<char>, Vec<char>)| (p.0@, p.1@)) == pv,
                out@ + replaced_from(pv, s, i as int) == replaced_from(pv, s, 0),
            decreases src.len() - i,
        {
            // Longest match at `i`, the last registered among equal lengths.
            let mut best: Option<usize> = None;
            let mut k: usize = 0;
            while k < pats.len()
                invariant
                    k <= pats@.len(),
                    i < src@.len(),
                    pats@.map_values(|p: (Vec<char>, Vec<char>)| (p.0@, p.1@)) == pv,
                    match best {
                        Some(b) => b < k && best_among(pv, k as int, src@, i as int) == Some(
                            pv[b as int],
                        ),
                        None => best_among(pv, k as int, src@, i as int) is None,
                    },
                decreases pats.len() - k,
            {
                let f = pats[k].0.as_slice();
                assert(pv[k as int].0 == f@);
                if f.len() > 0 && starts_with_at(src.as_slice(), i, f) {
                    let better = match best {
                        None => true,
                        Some(b) => {
                            assert(pv[b as int].0 == pats@[b as int].0@);
                            pats[b].0.len() <= f.len()
                        },
                    };
                    if better {
                        best = Some(k);
                    }
                }
                k = k + 1;
            }
            match best {
                Some(b) => {
                    let f = pats[b].0.as_slice();
                    let t = pats[b].1.as_slice();
                    assert(pv[b as int] == (f@, t@));
                    proof {
                        lemma_best_among(pv, pv.len() as int, s, i as int);
                    }
                    let ghost out0 = out@;
                    push_all(&mut out, t);
                    assert(replaced_from(pv, s, i as int) == t@ + replaced_from(pv, s, i + f@.len()));
                    assert(out@ + replaced_from(pv, s, i + f@.len()) =~= out0 + replaced_from(
                        pv,
                        s,
                        i as int,
                    ));
                    i = i + f.len();
                },
                None => {
                    let ghost out0 = out@;
                    crate::text::push_char(&mut out, src[i]);
                    proof {
                        lemma_best_among(pv, pv.len() as int, s, i as int);
                    }
                    assert(seq![s[i as int]] + replaced_from(pv, s, i + 1) == replaced_from(
                        pv,
                        s,
                        i as int,
                    ));
                    assert(out@ + replaced_from(pv, s, i + 1) =~= out0 + replaced_from(pv, s, i as int));
                    i = i + 1;
                },
            }
        }
        *html = out;
    }
}


impl Default for Replacements {
    fn default() -> (r: Self)
        ensures
            r.view() == Seq::<(Seq<char>, Seq<char>)>::empty(),
    {
        Replacements::new()
    }
}

} // verus!
