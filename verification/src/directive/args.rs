//! Directive argument parsing.
//!
//! Parses the `[content]{#id .class key="value"}` syntax of directives into
//! content, an optional id, classes, and key-value attributes.

use vstd::prelude::*;
use crate::text::{chars_of, is_space, is_space_spec, lemma_skip_ws_bounds, push_all, push_char, skip_spaces, skip_ws, string_of, string_of_range, trim_seq, trim_vec};

verus! {

/// First index `k >= i` of `s` where `p(s[k])` holds, or `s.len()`.
pub open spec fn first_where(s: Seq<char>, i: int, p: spec_fn(char) -> bool) -> int
    decreases s.len() - i,
{
    if 0 <= i < s.len() {
        if p(s[i]) {
            i
        } else {
            first_where(s, i + 1, p)
        }
    } else {
        s.len() as int
    }
}

pub proof fn lemma_first_where(s: Seq<char>, i: int, p: spec_fn(char) -> bool)
    requires
        0 <= i <= s.len(),
    ensures
        i <= first_where(s, i, p) <= s.len(),
        forall|m: int| i <= m < first_where(s, i, p) ==> !p(#[trigger] s[m]),
        first_where(s, i, p) < s.len() ==> p(s[first_where(s, i, p)]),
    decreases s.len() - i,
{
    if i < s.len() && !p(s[i]) {
        lemma_first_where(s, i + 1, p);
    }
}

/// `k` is the first index at or after `i` where `p` holds (or the end).
pub proof fn lemma_first_where_is(s: Seq<char>, i: int, p: spec_fn(char) -> bool, k: int)
    requires
        0 <= i <= k <= s.len(),
        forall|m: int| i <= m < k ==> !p(#[trigger] s[m]),
        k < s.len() ==> p(s[k]),
    ensures
        first_where(s, i, p) == k,
    decreases k - i,
{
    if i < k {
        lemma_first_where_is(s, i + 1, p, k);
    }
}

/// Characters that end an `#id` or `.class` token.
pub open spec fn is_token_stop(c: char) -> bool {
    is_space_spec(c) || c == '.' || c == '#'
}

/// Index of the first token stop in `v` at or after `i`, or `v.len()`.
fn find_token_stop(v: &[char], i: usize) -> (r: usize)
    requires
        i <= v@.len(),
    ensures
        r == first_where(v@, i as int, |c: char| is_token_stop(c)),
{
    let mut k = i;
    while k < v.len()
        invariant
            i <= k <= v@.len(),
            forall|m: int| i <= m < k ==> !is_token_stop(#[trigger] v@[m]),
        ensures
            i <= k <= v@.len(),
            forall|m: int| i <= m < k ==> !is_token_stop(#[trigger] v@[m]),
            k < v@.len() ==> is_token_stop(v@[k as int]),
        decreases v.len() - k,
    {
        let c = v[k];
        if is_space(c) || c == '.' || c == '#' {
            break;
        }
        k = k + 1;
    }
    proof {
        lemma_first_where_is(v@, i as int, |c: char| is_token_stop(c), k as int);
    }
    k
}

/// Index of the first white space in `v` at or after `i`, or `v.len()`.
pub(crate) fn find_space(v: &[char], i: usize) -> (r: usize)
    requires
        i <= v@.len(),
    ensures
        r == first_where(v@, i as int, |c: char| is_space_spec(c)),
{
    let mut k = i;
    while k < v.len()
        invariant
            i <= k <= v@.len(),
            forall|m: int| i <= m < k ==> !is_space_spec(#[trigger] v@[m]),
        ensures
            i <= k <= v@.len(),
            forall|m: int| i <= m < k ==> !is_space_spec(#[trigger] v@[m]),
            k < v@.len() ==> is_space_spec(v@[k as int]),
        decreases v.len() - k,
    {
        if is_space(v[k]) {
            break;
        }
        k = k + 1;
    }
    proof {
        lemma_first_where_is(v@, i as int, |c: char| is_space_spec(c), k as int);
    }
    k
}

/// Index of the first `c` in `v` at or after `i`, or `v.len()`.
pub(crate) fn find_same(v: &[char], i: usize, c: char) -> (r: usize)
    requires
        i <= v@.len(),
    ensures
        r == first_where(v@, i as int, |x: char| x == c),
{
    let mut k = i;
    while k < v.len()
        invariant
            i <= k <= v@.len(),
            forall|m: int| i <= m < k ==> #[trigger] v@[m] != c,
        ensures
            i <= k <= v@.len(),
            forall|m: int| i <= m < k ==> #[trigger] v@[m] != c,
            k < v@.len() ==> v@[k as int] == c,
        decreases v.len() - k,
    {
        if v[k] == c {
            break;
        }
        k = k + 1;
    }
    proof {
        lemma_first_where_is(v@, i as int, |x: char| x == c, k as int);
    }
    k
}

/// A `key=value` pair starting at `i` of `s`: the key (trimmed text before
/// the first `=`), the value (double-quoted, single-quoted, or up to the next
/// white space), and where the rest begins. `None` when there is no `=`, the
/// key is empty or starts with `#` or `.`, or a quote is not closed.
pub open spec fn key_value_at(s: Seq<char>, i: int) -> Option<(Seq<char>, Seq<char>, int)> {
    let eq = first_where(s, i, |c: char| c == '=');
    if eq >= s.len() {
        None
    } else {
        let key = trim_seq(s.subrange(i, eq));
        if key.len() == 0 || key[0] == '#' || key[0] == '.' {
            None
        } else {
            let a = eq + 1;
            if a < s.len() && (s[a] == '"' || s[a] == '\'') {
                let q = s[a];
                let e = first_where(s, a + 1, |c: char| c == q);
                if e >= s.len() {
                    None
                } else {
                    Some((key, s.subrange(a + 1, e), e + 1))
                }
            } else {
                let e = first_where(s, a, |c: char| is_space_spec(c));
                Some((key, s.subrange(a, e), e))
            }
        }
    }
}

pub proof fn lemma_key_value_at(s: Seq<char>, i: int)
    requires
        0 <= i <= s.len(),
    ensures
        key_value_at(s, i) matches Some((k, v, r)) ==> i < r <= s.len(),
{
    lemma_first_where(s, i, |c: char| c == '=');
    let eq = first_where(s, i, |c: char| c == '=');
    if eq < s.len() {
        let a = eq + 1;
        if a < s.len() && (s[a] == '"' || s[a] == '\'') {
            let q = s[a];
            lemma_first_where(s, a + 1, |c: char| c == q);
        } else {
            lemma_first_where(s, a, |c: char| is_space_spec(c));
        }
    }
}

/// The meaning of parsed arguments: content aside, an optional id, the
/// classes in order, and the attributes as a map.
pub struct ArgsModel {
    pub id: Option<Seq<char>>,
    pub classes: Seq<Seq<char>>,
    pub attrs: Map<Seq<char>, Seq<char>>,
}

pub open spec fn empty_model() -> ArgsModel {
    ArgsModel { id: None, classes: Seq::empty(), attrs: Map::empty() }
}

/// Reads the attribute tokens of `s` from `i` on into `m`: `#id` (the last
/// one wins), `.class` (appended), `key=value` (the last value for a key
/// wins); any other character is skipped.
pub open spec fn parse_attrs_from(s: Seq<char>, i: int, m: ArgsModel) -> ArgsModel
    decreases s.len() - i,
{
    if i < 0 || i >= s.len() {
        m
    } else {
        let j = skip_ws(s, i, s.len() as int);
        proof {
            lemma_skip_ws_bounds(s, i, s.len() as int);
        }
        if j >= s.len() {
            m
        } else if s[j] == '#' {
            let e = first_where(s, j + 1, |c: char| is_token_stop(c));
            proof {
                lemma_first_where(s, j + 1, |c: char| is_token_stop(c));
            }
            parse_attrs_from(s, e, ArgsModel { id: Some(s.subrange(j + 1, e)), ..m })
        } else if s[j] == '.' {
            let e = first_where(s, j + 1, |c: char| is_token_stop(c));
            proof {
                lemma_first_where(s, j + 1, |c: char| is_token_stop(c));
            }
            parse_attrs_from(s, e, ArgsModel { classes: m.classes.push(s.subrange(j + 1, e)), ..m })
        } else {
            proof {
                lemma_key_value_at(s, j);
            }
            match key_value_at(s, j) {
                Some((k, v, r)) => parse_attrs_from(s, r, ArgsModel { attrs: m.attrs.insert(k, v), ..m }),
                None => parse_attrs_from(s, j + 1, m),
            }
        }
    }
}

/// What `DirectiveArgs::parse` reads from an attribute string (without the
/// braces).
pub open spec fn parse_attrs_spec(attrs: Seq<char>) -> ArgsModel {
    if attrs.len() == 0 {
        empty_model()
    } else {
        parse_attrs_from(trim_seq(attrs), 0, empty_model())
    }
}

/// Lexicographic order of keys by character value (the order of `String`).
pub open spec fn key_lt(a: Seq<char>, b: Seq<char>) -> bool
    decreases a.len(),
{
    if a.len() == 0 {
        b.len() > 0
    } else if b.len() == 0 {
        false
    } else if a[0] != b[0] {
        a[0] < b[0]
    } else {
        key_lt(a.drop_first(), b.drop_first())
    }
}

pub proof fn lemma_key_lt_irreflexive(a: Seq<char>)
    ensures
        !key_lt(a, a),
    decreases a.len(),
{
    if a.len() > 0 {
        lemma_key_lt_irreflexive(a.drop_first());
    }
}

pub proof fn lemma_key_lt_transitive(a: Seq<char>, b: Seq<char>, c: Seq<char>)
    requires
        key_lt(a, b),
        key_lt(b, c),
    ensures
        key_lt(a, c),
    decreases a.len(),
{
    if a.len() > 0 && b.len() > 0 && c.len() > 0 && a[0] == b[0] && b[0] == c[0] {
        lemma_key_lt_transitive(a.drop_first(), b.drop_first(), c.drop_first());
    }
}

pub proof fn lemma_key_lt_total(a: Seq<char>, b: Seq<char>)
    requires
        a != b,
    ensures
        key_lt(a, b) || key_lt(b, a),
    decreases a.len(),
{
    if a.len() > 0 && b.len() > 0 && a[0] == b[0] {
        if a.drop_first() == b.drop_first() {
            assert(a =~= seq![a[0]] + a.drop_first());
            assert(b =~= seq![b[0]] + b.drop_first());
        }
        lemma_key_lt_total(a.drop_first(), b.drop_first());
    } else if a.len() == 0 && b.len() == 0 {
        assert(a =~= b);
    }
}

/// Whether `a` sorts before `b`.
pub(crate) fn key_less(a: &[char], b: &[char]) -> (r: bool)
    ensures
        r == key_lt(a@, b@),
{
    let mut i: usize = 0;
    assert(a@.skip(0) =~= a@);
    assert(b@.skip(0) =~= b@);
    while i < a.len() && i < b.len() && a[i] == b[i]
        invariant
            i <= a@.len(),
            i <= b@.len(),
            key_lt(a@, b@) == key_lt(a@.skip(i as int), b@.skip(i as int)),
        decreases a.len() - i,
    {
        assert(a@.skip(i as int).drop_first() =~= a@.skip(i + 1));
        assert(b@.skip(i as int).drop_first() =~= b@.skip(i + 1));
        i = i + 1;
    }
    if i == a.len() {
        i < b.len()
    } else if i == b.len() {
        false
    } else {
        a[i] < b[i]
    }
}

/// Map of a listing of pairs; a later pair for the same key wins.
pub open spec fn pairs_map(ps: Seq<(Seq<char>, Seq<char>)>) -> Map<Seq<char>, Seq<char>>
    decreases ps.len(),
{
    if ps.len() == 0 {
        Map::empty()
    } else {
        pairs_map(ps.drop_last()).insert(ps.last().0, ps.last().1)
    }
}

/// Keys strictly increasing.
pub open spec fn sorted_keys(ps: Seq<(Seq<char>, Seq<char>)>) -> bool {
    forall|i: int, j: int| 0 <= i < j < ps.len() ==> key_lt(#[trigger] ps[i].0, #[trigger] ps[j].0)
}

pub proof fn lemma_pairs_map_dom(ps: Seq<(Seq<char>, Seq<char>)>, k: Seq<char>)
    ensures
        pairs_map(ps).contains_key(k) <==> exists|i: int| 0 <= i < ps.len() && ps[i].0 == k,
    decreases ps.len(),
{
    if ps.len() > 0 {
        lemma_pairs_map_dom(ps.drop_last(), k);
        if pairs_map(ps.drop_last()).contains_key(k) {
            let i = choose|i: int| 0 <= i < ps.drop_last().len() && ps.drop_last()[i].0 == k;
            assert(ps[i].0 == k);
        }
        if exists|i: int| 0 <= i < ps.len() && ps[i].0 == k {
            let i = choose|i: int| 0 <= i < ps.len() && ps[i].0 == k;
            if i < ps.len() - 1 {
                assert(ps.drop_last()[i].0 == k);
            }
        }
    }
}

/// Splicing a pair whose key is absent from the tail: the map gains that pair.
pub proof fn lemma_pairs_map_splice(
    s: Seq<(Seq<char>, Seq<char>)>,
    x: (Seq<char>, Seq<char>),
    t: Seq<(Seq<char>, Seq<char>)>,
)
    requires
        forall|j: int| 0 <= j < t.len() ==> t[j].0 != x.0,
    ensures
        pairs_map(s + seq![x] + t) == pairs_map(s + t).insert(x.0, x.1),
    decreases t.len(),
{
    if t.len() == 0 {
        assert((s + seq![x] + t).drop_last() =~= s);
        assert(s + t =~= s);
    } else {
        let t0 = t.drop_last();
        lemma_pairs_map_splice(s, x, t0);
        assert((s + seq![x] + t).drop_last() =~= s + seq![x] + t0);
        assert((s + t).drop_last() =~= s + t0);
        assert(t.last().0 != x.0);
        assert(pairs_map(s + seq![x] + t) =~= pairs_map(s + t).insert(x.0, x.1));
    }
}

/// Parsed arguments from directive syntax: `:name[content]{#id .class key="value"}`.
#[derive(Debug, Clone, PartialEq, Eq)]
pub struct DirectiveArgs {
    /// Content from brackets (empty if not provided).
    pub content: String,
    /// Id from attributes: `{#id}`.
    pub id: Option<String>,
    /// Classes from attributes: `{.class1 .class2}`.
    pub classes: Vec<String>,
    /// Key-value attributes: `{key="value"}`, one entry per key, in key order.
    pub attrs: Vec<(String, String)>,
}

impl Default for DirectiveArgs {
    fn default() -> (r: Self)
        ensures
            r.content@ == Seq::<char>::empty(),
            r.model() == empty_model(),
            r.attrs_view() == Seq::<(Seq<char>, Seq<char>)>::empty(),
    {
        let r = DirectiveArgs { content: String::new(), id: None, classes: Vec::new(), attrs: Vec::new() };
        assert(r.classes_view() =~= Seq::<Seq<char>>::empty());
        assert(r.attrs_view() =~= Seq::<(Seq<char>, Seq<char>)>::empty());
        assert(r.model().attrs =~= Map::<Seq<char>, Seq<char>>::empty());
        r
    }
}

impl DirectiveArgs {
    pub open spec fn id_view(&self) -> Option<Seq<char>> {
        match self.id {
            Some(s) => Some(s@),
            None => None,
        }
    }

    pub open spec fn classes_view(&self) -> Seq<Seq<char>> {
        self.classes@.map_values(|c: String| c@)
    }

    /// The attribute pairs in stored order.
    pub open spec fn attrs_view(&self) -> Seq<(Seq<char>, Seq<char>)> {
        self.attrs@.map_values(|p: (String, String)| (p.0@, p.1@))
    }

    /// Attribute keys strictly increasing, hence distinct.
    pub open spec fn wf(&self) -> bool {
        sorted_keys(self.attrs_view())
    }

    pub open spec fn model(&self) -> ArgsModel {
        ArgsModel { id: self.id_view(), classes: self.classes_view(), attrs: pairs_map(self.attrs_view()) }
    }

    /// Insert or replace the value for `key`, keeping keys sorted.
    fn insert_attr(&mut self, key: Vec<char>, value: Vec<char>)
        requires
            old(self).wf(),
        ensures
            final(self).wf(),
            final(self).content == old(self).content,
            final(self).id == old(self).id,
            final(self).classes == old(self).classes,
            pairs_map(final(self).attrs_view()) == pairs_map(old(self).attrs_view()).insert(key@, value@),
    {
        let ghost ps = self.attrs_view();
        let mut p: usize = 0;
        while p < self.attrs.len()
            invariant
                p <= self.attrs@.len(),
                ps == self.attrs_view(),
                forall|m: int| 0 <= m < p ==> key_lt(#[trigger] ps[m].0, key@),
            ensures
                p <= self.attrs@.len(),
                ps == self.attrs_view(),
                forall|m: int| 0 <= m < p ==> key_lt(#[trigger] ps[m].0, key@),
                p < self.attrs@.len() ==> !key_lt(ps[p as int].0, key@),
            decreases self.attrs.len() - p,
        {
            let k = chars_of(self.attrs[p].0.as_str());
            assert(k@ == ps[p as int].0);
            if !key_less(k.as_slice(), key.as_slice()) {
                break;
            }
            p = p + 1;
        }
        let k_str = string_of(key.as_slice());
        let v_str = string_of(value.as_slice());
        let ghost x = (key@, value@);
        if p < self.attrs.len() && crate::text::seq_eq(chars_of(self.attrs[p].0.as_str()).as_slice(), key.as_slice()) {
            self.attrs.set(p, (k_str, v_str));
            proof {
                let s = ps.subrange(0, p as int);
                let t = ps.subrange(p + 1, ps.len() as int);
                assert forall|j: int| 0 <= j < t.len() implies t[j].0 != x.0 by {
                    assert(key_lt(ps[p as int].0, ps[p + 1 + j].0));
                    lemma_key_lt_irreflexive(x.0);
                }
                lemma_pairs_map_splice(s, x, t);
                lemma_pairs_map_splice(s, ps[p as int], t);
                assert(ps =~= s + seq![ps[p as int]] + t);
                assert(self.attrs_view() =~= s + seq![x] + t);
                assert(pairs_map(s + t).insert(ps[p as int].0, ps[p as int].1).insert(x.0, x.1) =~= pairs_map(
                    s + t,
                ).insert(x.0, x.1));
                assert forall|i: int, j: int| 0 <= i < j < self.attrs_view().len() implies key_lt(
                    #[trigger] self.attrs_view()[i].0,
                    #[trigger] self.attrs_view()[j].0,
                ) by {
                    assert(key_lt(ps[i].0, ps[j].0));
                }
            }
        } else {
            self.attrs.insert(p, (k_str, v_str));
            proof {
                let s = ps.subrange(0, p as int);
                let t = ps.subrange(p as int, ps.len() as int);
                if p < ps.len() {
                    lemma_key_lt_total(ps[p as int].0, key@);
                }
                assert forall|j: int| 0 <= j < t.len() implies key_lt(x.0, #[trigger] t[j].0) by {
                    if j > 0 {
                        assert(key_lt(ps[p as int].0, ps[p + j].0));
                        lemma_key_lt_transitive(x.0, ps[p as int].0, ps[p + j].0);
                    }
                }
                assert forall|j: int| 0 <= j < t.len() implies t[j].0 != x.0 by {
                    assert(key_lt(x.0, t[j].0));
                    lemma_key_lt_irreflexive(x.0);
                }
                lemma_pairs_map_splice(s, x, t);
                assert(ps =~= s + t);
                assert(self.attrs_view() =~= s + seq![x] + t);
                assert forall|i: int, j: int| 0 <= i < j < self.attrs_view().len() implies key_lt(
                    #[trigger] self.attrs_view()[i].0,
                    #[trigger] self.attrs_view()[j].0,
                ) by {
                    let v = self.attrs_view();
                    if j < p {
                        assert(key_lt(ps[i].0, ps[j].0));
                    } else if j == p {
                        assert(v[i] == ps[i]);
                    } else if i < p {
                        assert(v[j] == t[j - p - 1]);
                        assert(key_lt(x.0, t[j - p - 1].0));
                        lemma_key_lt_transitive(ps[i].0, x.0, t[j - p - 1].0);
                    } else if i == p {
                        assert(v[j] == t[j - p - 1]);
                    } else {
                        assert(key_lt(ps[i - 1].0, ps[j - 1].0));
                    }
                }
            }
        }
    }

    /// Parse content and an attribute string (without the braces) into
    /// structured arguments.
    pub fn parse(content: &str, attrs_str: &str) -> (r: Self)
        ensures
            r.content@ == content@,
            r.model() == parse_attrs_spec(attrs_str@),
            r.wf(),
    {
        let mut args = DirectiveArgs::default();
        args.content = string_of(chars_of(content).as_slice());
        let raw = chars_of(attrs_str);
        if raw.len() == 0 {
            return args;
        }
        let s = trim_vec(raw.as_slice());
        let ghost sv = s@;
        let mut i: usize = 0;
        while i < s.len()
            invariant
                i <= sv.len(),
                sv == s@,
                sv == trim_seq(attrs_str@),
                attrs_str@.len() > 0,
                args.content@ == content@,
                args.wf(),
                parse_attrs_from(sv, i as int, args.model()) == parse_attrs_spec(attrs_str@),
            decreases s.len() - i,
        {
            let j = skip_spaces(s.as_slice(), i, s.len());
            if j >= s.len() {
                i = s.len();
            } else if s[j] == '#' {
                let e = find_token_stop(s.as_slice(), j + 1);
                proof {
                    lemma_first_where(sv, j + 1, |c: char| is_token_stop(c));
                }
                args.id = Some(string_of_range(s.as_slice(), j + 1, e));
                i = e;
            } else if s[j] == '.' {
                let e = find_token_stop(s.as_slice(), j + 1);
                proof {
                    lemma_first_where(sv, j + 1, |c: char| is_token_stop(c));
                }
                let ghost before = args.classes_view();
                args.classes.push(string_of_range(s.as_slice(), j + 1, e));
                assert(args.classes_view() =~= before.push(sv.subrange(j + 1, e as int)));
                i = e;
            } else {
                match key_value(s.as_slice(), j) {
                    Some((k, v, r)) => {
                        proof {
                            lemma_key_value_at(sv, j as int);
                        }
                        args.insert_attr(k, v);
                        i = r;
                    },
                    None => {
                        i = j + 1;
                    },
                }
            }
        }
        args
    }

    /// The content from brackets.
    pub fn content(&self) -> (r: &str)
        ensures
            r@ == self.content@,
    {
        self.content.as_str()
    }

    /// Whether the attribute keys are strictly increasing (see `wf`).
    pub fn is_well_formed(&self) -> (b: bool)
        ensures
            b == self.wf(),
    {
        let ghost ps = self.attrs_view();
        let n = self.attrs.len();
        if n == 0 {
            return true;
        }
        let mut i: usize = 1;
        while i < n
            invariant
                1 <= i <= n,
                n == ps.len(),
                ps == self.attrs_view(),
                forall|a: int, b: int| 0 <= a < b < i ==> key_lt(#[trigger] ps[a].0, #[trigger] ps[b].0),
            decreases n - i,
        {
            let a = chars_of(self.attrs[i - 1].0.as_str());
            let b = chars_of(self.attrs[i].0.as_str());
            assert(ps[i - 1].0 == a@ && ps[i as int].0 == b@);
            if !key_less(a.as_slice(), b.as_slice()) {
                assert(!key_lt(ps[i - 1].0, ps[i as int].0));
                return false;
            }
            proof {
                assert forall|x: int, y: int| 0 <= x < y < i + 1 implies key_lt(#[trigger] ps[x].0, #[trigger] ps[y].0) by {
                    if y == i && x < i - 1 {
                        lemma_key_lt_transitive(ps[x].0, ps[i - 1].0, ps[i as int].0);
                    }
                }
            }
            i = i + 1;
        }
        true
    }

    /// Get an attribute value by key.
    pub fn get(&self, key: &str) -> (r: Option<&str>)
        requires
            self.wf(),
        ensures
            match r {
                Some(v) => pairs_map(self.attrs_view()).contains_key(key@) && pairs_map(
                    self.attrs_view(),
                )[key@] == v@,
                None => !pairs_map(self.attrs_view()).contains_key(key@),
            },
    {
        let kv = chars_of(key);
        let ghost ps = self.attrs_view();
        let mut i: usize = 0;
        while i < self.attrs.len()
            invariant
                i <= ps.len(),
                ps == self.attrs_view(),
                sorted_keys(ps),
                forall|m: int| 0 <= m < i ==> #[trigger] ps[m].0 != key@,
            decreases self.attrs.len() - i,
        {
            if crate::text::str_eq(self.attrs[i].0.as_str(), key) {
                proof {
                    let s = ps.subrange(0, i as int);
                    let t = ps.subrange(i + 1, ps.len() as int);
                    assert forall|j: int| 0 <= j < t.len() implies t[j].0 != key@ by {
                        assert(key_lt(ps[i as int].0, ps[i + 1 + j].0));
                        lemma_key_lt_irreflexive(key@);
                    }
                    lemma_pairs_map_splice(s, ps[i as int], t);
                    assert(ps =~= s + seq![ps[i as int]] + t);
                }
                return Some(self.attrs[i].1.as_str());
            }
            i = i + 1;
        }
        proof {
            lemma_pairs_map_dom(ps, key@);
        }
        None
    }

    /// Reconstruct the syntax string `[content]{attrs}`: the content in
    /// brackets when non-empty, then `#id`, `.class` for each class and
    /// `key="value"` for each attribute (with `"` in values escaped as `\"`),
    /// space-separated in braces when there is at least one.
    pub fn to_syntax(&self) -> (r: String)
        ensures
            r@ == syntax_spec(self.content@, self.id_view(), self.classes_view(), self.attrs_view()),
    {
        let mut result = String::new();
        let content = chars_of(self.content.as_str());
        if content.len() > 0 {
            push_char(&mut result, '[');
            push_all(&mut result, content.as_slice());
            push_char(&mut result, ']');
        }
        let ghost cpart = result@;
        let mut parts: Vec<Vec<char>> = Vec::new();
        if let Some(id) = &self.id {
            let mut p: Vec<char> = Vec::new();
            p.push('#');
            append_chars(&mut p, chars_of(id.as_str()).as_slice());
            assert(p@ =~= seq!['#'] + id@);
            parts.push(p);
        }
        let ghost idparts = parts@.map_values(|p: Vec<char>| p@);
        assert(idparts =~= id_parts(self.id_view()));
        let mut k: usize = 0;
        while k < self.classes.len()
            invariant
                k <= self.classes@.len(),
                parts@.map_values(|p: Vec<char>| p@) == idparts + class_parts(self.classes_view().take(k as int)),
            decreases self.classes.len() - k,
        {
            let mut p: Vec<char> = Vec::new();
            p.push('.');
            append_chars(&mut p, chars_of(self.classes[k].as_str()).as_slice());
            assert(p@ =~= seq!['.'] + self.classes_view()[k as int]);
            let ghost before = parts@.map_values(|p: Vec<char>| p@);
            parts.push(p);
            assert(self.classes_view().take(k + 1).drop_last() =~= self.classes_view().take(k as int));
            assert(parts@.map_values(|p: Vec<char>| p@) =~= before.push(p@));
            k = k + 1;
        }
        assert(self.classes_view().take(self.classes@.len() as int) =~= self.classes_view());
        let ghost icparts = parts@.map_values(|p: Vec<char>| p@);
        let mut k: usize = 0;
        while k < self.attrs.len()
            invariant
                k <= self.attrs@.len(),
                parts@.map_values(|p: Vec<char>| p@) == icparts + attr_parts(self.attrs_view().take(k as int)),
            decreases self.attrs.len() - k,
        {
            let mut p: Vec<char> = Vec::new();
            append_chars(&mut p, chars_of(self.attrs[k].0.as_str()).as_slice());
            p.push('=');
            p.push('"');
            let value = chars_of(self.attrs[k].1.as_str());
            let mut m: usize = 0;
            let ghost base = p@;
            while m < value.len()
                invariant
                    m <= value@.len(),
                    p@ == base + escape_quotes(value@.take(m as int)),
                decreases value.len() - m,
            {
                if value[m] == '"' {
                    p.push('\\');
                    p.push('"');
                } else {
                    p.push(value[m]);
                }
                assert(value@.take(m + 1).drop_last() =~= value@.take(m as int));
                m = m + 1;
            }
            assert(value@.take(value@.len() as int) =~= value@);
            p.push('"');
            assert(p@ =~= attr_part(self.attrs_view()[k as int]));
            let ghost before = parts@.map_values(|p: Vec<char>| p@);
            parts.push(p);
            assert(self.attrs_view().take(k + 1).drop_last() =~= self.attrs_view().take(k as int));
            assert(parts@.map_values(|p: Vec<char>| p@) =~= before.push(p@));
            k = k + 1;
        }
        assert(self.attrs_view().take(self.attrs@.len() as int) =~= self.attrs_view());
        let ghost all = parts@.map_values(|p: Vec<char>| p@);
        if parts.len() > 0 {
            push_char(&mut result, '{');
            let mut k: usize = 0;
            while k < parts.len()
                invariant
                    k <= parts@.len(),
                    parts@.len() > 0,
                    all == parts@.map_values(|p: Vec<char>| p@),
                    result@ == cpart + seq!['{'] + join_spaced(all.take(k as int)),
                decreases parts.len() - k,
            {
                if k > 0 {
                    push_char(&mut result, ' ');
                }
                push_all(&mut result, parts[k].as_slice());
                assert(all.take(k + 1).drop_last() =~= all.take(k as int));
                k = k + 1;
            }
            assert(all.take(parts@.len() as int) =~= all);
            push_char(&mut result, '}');
        }
        result
    }
}

/// Appends `src` to `dst`.
pub(crate) fn append_chars(dst: &mut Vec<char>, src: &[char])
    ensures
        final(dst)@ == old(dst)@ + src@,
{
    let mut i: usize = 0;
    while i < src.len()
        invariant
            i <= src@.len(),
            dst@ == old(dst)@ + src@.take(i as int),
        decreases src.len() - i,
    {
        dst.push(src[i]);
        assert(src@.take(i + 1) =~= src@.take(i as int).push(src@[i as int]));
        i = i + 1;
    }
    assert(src@.take(src@.len() as int) =~= src@);
}

/// `v` with each `"` written as `\"`.
pub open spec fn escape_quotes(v: Seq<char>) -> Seq<char>
    decreases v.len(),
{
    if v.len() == 0 {
        Seq::empty()
    } else {
        escape_quotes(v.drop_last()) + if v.last() == '"' {
            seq!['\\', '"']
        } else {
            seq![v.last()]
        }
    }
}

pub open spec fn id_parts(id: Option<Seq<char>>) -> Seq<Seq<char>> {
    match id {
        Some(i) => seq![seq!['#'] + i],
        None => Seq::empty(),
    }
}

pub open spec fn class_parts(classes: Seq<Seq<char>>) -> Seq<Seq<char>>
    decreases classes.len(),
{
    if classes.len() == 0 {
        Seq::empty()
    } else {
        class_parts(classes.drop_last()).push(seq!['.'] + classes.last())
    }
}

pub open spec fn attr_part(p: (Seq<char>, Seq<char>)) -> Seq<char> {
    p.0 + seq!['=', '"'] + escape_quotes(p.1) + seq!['"']
}

pub open spec fn attr_parts(attrs: Seq<(Seq<char>, Seq<char>)>) -> Seq<Seq<char>>
    decreases attrs.len(),
{
    if attrs.len() == 0 {
        Seq::empty()
    } else {
        attr_parts(attrs.drop_last()).push(attr_part(attrs.last()))
    }
}

/// The parts joined with single spaces.
pub open spec fn join_spaced(parts: Seq<Seq<char>>) -> Seq<char>
    decreases parts.len(),
{
    if parts.len() == 0 {
        Seq::empty()
    } else if parts.len() == 1 {
        parts[0]
    } else {
        join_spaced(parts.drop_last()) + seq![' '] + parts.last()
    }
}

/// `[content]{attrs}` as written by `to_syntax`.
pub open spec fn syntax_spec(
    content: Seq<char>,
    id: Option<Seq<char>>,
    classes: Seq<Seq<char>>,
    attrs: Seq<(Seq<char>, Seq<char>)>,
) -> Seq<char> {
    let c = if content.len() > 0 {
        seq!['['] + content + seq![']']
    } else {
        Seq::empty()
    };
    let parts = id_parts(id) + class_parts(classes) + attr_parts(attrs);
    if parts.len() > 0 {
        c + seq!['{'] + join_spaced(parts) + seq!['}']
    } else {
        c
    }
}

/// The key-value pair at `i` of `s` (see [`key_value_at`]), with where the
/// rest begins.
fn key_value(s: &[char], i: usize) -> (r: Option<(Vec<char>, Vec<char>, usize)>)
    requires
        i <= s@.len(),
    ensures
        match r {
            Some((k, v, rest)) => key_value_at(s@, i as int) == Some((k@, v@, rest as int)),
            None => key_value_at(s@, i as int) is None,
        },
{
    let eq = find_same(s, i, '=');
    if eq >= s.len() {
        return None;
    }
    proof {
        lemma_first_where(s@, i as int, |c: char| c == '=');
    }
    let key = trim_vec(crate::text::sub_vec(s, i, eq).as_slice());
    if key.len() == 0 || key[0] == '#' || key[0] == '.' {
        return None;
    }
    let a = eq + 1;
    if a < s.len() && (s[a] == '"' || s[a] == '\'') {
        let q = s[a];
        let e = find_same(s, a + 1, q);
        if e >= s.len() {
            return None;
        }
        proof {
            lemma_first_where(s@, a + 1, |c: char| c == q);
        }
        let value = crate::text::sub_vec(s, a + 1, e);
        Some((key, value, e + 1))
    } else {
        let e = find_space(s, a);
        proof {
            lemma_first_where(s@, a as int, |c: char| is_space_spec(c));
        }
        let value = crate::text::sub_vec(s, a, e);
        Some((key, value, e))
    }
}

} // verus!
