//! Code block processors: an extension point for special fenced code blocks
//! (diagrams, tables, embeds), and the parsing of a fence's info string into
//! its language and `{ ... }` attribute block.

use vstd::prelude::*;
use crate::directive::args::{first_where, lemma_first_where};
use crate::directive::fills::Fills;
use crate::kv::{distinct_keys, kv_map, lemma_distinct_push, lemma_kv_map_at, lemma_kv_map_dom, lemma_kv_map_update};
use crate::text::{chars_of, is_space_spec, lemma_skip_ws_bounds, skip_spaces, skip_ws, string_of, sub_vec};

verus! {

/// Result of processing a code block.
#[derive(Debug, PartialEq, Eq)]
pub enum ProcessResult {
    /// Replace the code block with this markup now.
    Inline(String),
    /// Render as a regular code block.
    PassThrough,
    /// Content not knowable during the walk: a hole is reserved, keyed by
    /// the block's index, and the processor fills it afterwards.
    Deferred,
}

/// Metadata of a code block kept for deferred processing.
#[derive(Debug, PartialEq, Eq)]
pub struct ExtractedCodeBlock {
    /// Zero-based index of this code block in the document.
    pub index: usize,
    /// Language identifier from the fence.
    pub language: String,
    /// Raw source content of the code block.
    pub source: String,
    /// Writer-set id from `{#id}`.
    id: Option<String>,
    /// Attributes parsed from the fence.
    attrs: Vec<(String, String)>,
}

pub open spec fn str_pairs(v: Seq<(String, String)>) -> Seq<(Seq<char>, Seq<char>)> {
    v.map_values(|p: (String, String)| (p.0@, p.1@))
}

/// The value of the first pair whose key is `key`.
pub open spec fn first_value(ps: Seq<(Seq<char>, Seq<char>)>, key: Seq<char>) -> Option<Seq<char>>
    decreases ps.len(),
{
    if ps.len() == 0 {
        None
    } else if ps[0].0 == key {
        Some(ps[0].1)
    } else {
        first_value(ps.drop_first(), key)
    }
}

/// Index of the first pair of `v` whose key is `key`.
fn find_key(v: &Vec<(String, String)>, key: &str) -> (r: Option<usize>)
    ensures
        match r {
            Some(i) => i < v@.len() && v@[i as int].0@ == key@ && forall|j: int|
                0 <= j < i ==> v@[j].0@ != key@,
            None => forall|j: int| 0 <= j < v@.len() ==> v@[j].0@ != key@,
        },
{
    let mut i: usize = 0;
    while i < v.len()
        invariant
            i <= v@.len(),
            forall|j: int| 0 <= j < i ==> v@[j].0@ != key@,
        decreases v.len() - i,
    {
        if crate::text::str_eq(v[i].0.as_str(), key) {
            return Some(i);
        }
        i = i + 1;
    }
    None
}

proof fn lemma_first_value(ps: Seq<(Seq<char>, Seq<char>)>, key: Seq<char>, i: int)
    requires
        0 <= i <= ps.len(),
        forall|j: int| 0 <= j < i ==> ps[j].0 != key,
        i < ps.len() ==> ps[i].0 == key,
    ensures
        first_value(ps, key) == if i < ps.len() {
            Some(ps[i].1)
        } else {
            None::<Seq<char>>
        },
    decreases i,
{
    if i > 0 {
        assert forall|j: int| 0 <= j < i - 1 implies ps.drop_first()[j].0 != key by {
            assert(ps.drop_first()[j] == ps[j + 1]);
        }
        lemma_first_value(ps.drop_first(), key, i - 1);
    }
}

impl ExtractedCodeBlock {
    pub closed spec fn index_view(&self) -> usize {
        self.index
    }

    pub closed spec fn language_view(&self) -> Seq<char> {
        self.language@
    }

    pub closed spec fn source_view(&self) -> Seq<char> {
        self.source@
    }

    pub closed spec fn id_view(&self) -> Option<Seq<char>> {
        match self.id {
            Some(s) => Some(s@),
            None => None,
        }
    }

    pub closed spec fn attrs_view(&self) -> Seq<(Seq<char>, Seq<char>)> {
        str_pairs(self.attrs@)
    }

    /// Create a new extracted code block.
    pub fn new(
        index: usize,
        language: String,
        source: String,
        id: Option<String>,
        attrs: Vec<(String, String)>,
    ) -> (r: Self)
        ensures
            r.index_view() == index,
            r.language_view() == language@,
            r.source_view() == source@,
            r.id_view() == match id {
                Some(s) => Some(s@),
                None => None::<Seq<char>>,
            },
            r.attrs_view() == str_pairs(attrs@),
    {
        ExtractedCodeBlock { index, language, source, id, attrs }
    }

    /// Writer-set id from the fence `{#id}` block, if any.
    pub fn id(&self) -> (r: Option<&str>)
        ensures
            match r {
                Some(s) => self.id_view() == Some(s@),
                None => self.id_view() is None,
            },
    {
        match &self.id {
            Some(s) => Some(s.as_str()),
            None => None,
        }
    }

    /// The value of the first attribute named `key`.
    pub fn attr(&self, key: &str) -> (r: Option<&str>)
        ensures
            match r {
                Some(s) => first_value(self.attrs_view(), key@) == Some(s@),
                None => first_value(self.attrs_view(), key@) is None,
            },
    {
        let r = find_key(&self.attrs, key);
        match r {
            Some(i) => {
                proof {
                    lemma_first_value(self.attrs_view(), key@, i as int);
                }
                Some(self.attrs[i].1.as_str())
            },
            None => {
                proof {
                    lemma_first_value(self.attrs_view(), key@, self.attrs@.len() as int);
                }
                None
            },
        }
    }
}

/// Intercepts fenced code blocks during rendering. Processors are checked in
/// registration order; the first returning something other than
/// `PassThrough` wins.
pub trait CodeBlockProcessor {
    /// Inspect a code block and decide how to handle it.
    fn process(&mut self, language: &str, attrs: &FenceAttrs, source: &str, index: usize) -> ProcessResult;

    /// Supply content for holes reserved by returning `Deferred`; a
    /// processor that answers `warnings` or `section_refs` by its
    /// specification keeps its answer.
    fn fills(&mut self, fills: &mut Fills)
        ensures
            old(self).warns_by_spec() ==> final(self).warns_by_spec() && final(self).warnings_spec() == old(
                self,
            ).warnings_spec(),
            old(self).refs_by_spec() ==> final(self).refs_by_spec() && final(self).section_refs_spec() == old(
                self,
            ).section_refs_spec(),
        default_ensures
            final(fills)@ == old(fills)@,
    {
    }

    /// Code blocks kept for deferred processing.
    fn extracted(&self) -> (r: &[ExtractedCodeBlock])
        default_ensures
            r@.len() == 0,
    {
        &[]
    }

    /// Whether `warnings` answers as `warnings_spec` says. A processor
    /// implemented outside the verified library makes no such promise, which
    /// is the default.
    open spec fn warns_by_spec(&self) -> bool {
        false
    }

    /// The warnings, for a processor that `warns_by_spec`; by default none.
    open spec fn warnings_spec(&self) -> Seq<Seq<char>> {
        Seq::empty()
    }

    /// Warnings generated during processing (most processors: none).
    fn warnings(&self) -> (r: &[String])
        ensures
            self.warns_by_spec() ==> r@.map_values(|w: String| w@) == self.warnings_spec(),
    ;

    /// Whether processing hit a transient failure, so the output should not
    /// be cached.
    fn has_transient_error(&self) -> (r: bool)
        default_ensures
            !r,
    {
        false
    }

    /// Whether `section_refs` answers as `section_refs_spec` says. A
    /// processor implemented outside the verified library makes no such
    /// promise, which is the default.
    open spec fn refs_by_spec(&self) -> bool {
        false
    }

    /// The section refs, for a processor that `refs_by_spec`; by default
    /// none.
    open spec fn section_refs_spec(&self) -> Seq<Seq<char>> {
        Seq::empty()
    }

    /// Canonical section refs the processor's output referenced (most
    /// processors: none).
    fn section_refs(&self) -> (r: Vec<String>)
        ensures
            self.refs_by_spec() ==> r@.map_values(|s: String| s@) == self.section_refs_spec(),
    ;

    /// Whether this processor's `bundle` answers as `bundle_answer` says
    /// and keeps answering so. A processor implemented outside the verified
    /// library makes no such promise, which is the default.
    open spec fn bundles_by_spec(&self) -> bool {
        false
    }

    /// What `bundle` answers for a block with `language` and `source`, for a
    /// processor that `bundles_by_spec`; by default nothing.
    open spec fn bundle_answer(&self, language: Seq<char>, source: Seq<char>) -> Option<Seq<char>> {
        None
    }

    /// Resolve external references in a code block's source before
    /// rendering; `None` when the processor does not handle the language.
    fn bundle(&mut self, language: &str, source: &str) -> (r: Option<String>)
        ensures
            old(self).bundles_by_spec() ==> {
                &&& final(self).bundles_by_spec()
                &&& match r {
                    Some(t) => old(self).bundle_answer(language@, source@) == Some(t@),
                    None => old(self).bundle_answer(language@, source@) is None,
                }
                &&& forall|l: Seq<char>, s: Seq<char>|
                    #[trigger] final(self).bundle_answer(l, s) == old(self).bundle_answer(l, s)
            },
    ;

    /// Rewrite the rendered document after the walk.
    fn post_process(&mut self, html: &mut String)
        default_ensures
            final(html)@ == old(html)@,
    {
    }
}

/// Parsed fence info string attributes: the `{ ... }` block.
#[derive(Debug, Clone, PartialEq, Eq)]
pub struct FenceAttrs {
    /// Explicit id from `{#id}` (last one wins).
    pub id: Option<String>,
    /// Classes from `{.class}`, in source order.
    pub classes: Vec<String>,
    /// `key=value` attributes (valueless flags with value `""`), one entry
    /// per key, in the order keys first appear.
    pub map: Vec<(String, String)>,
}

/// What a fence attribute block denotes.
pub struct FenceModel {
    pub id: Option<Seq<char>>,
    pub classes: Seq<Seq<char>>,
    pub map: Seq<(Seq<char>, Seq<char>)>,
}

pub open spec fn empty_fence_model() -> FenceModel {
    FenceModel { id: None, classes: Seq::empty(), map: Seq::empty() }
}

/// Index of the first pair of `m` at or after `i` whose key is `key`, or
/// `m.len()`.
pub open spec fn key_index_from(m: Seq<(Seq<char>, Seq<char>)>, key: Seq<char>, i: int) -> int
    decreases m.len() - i,
{
    if i < 0 || i >= m.len() {
        m.len() as int
    } else if m[i].0 == key {
        i
    } else {
        key_index_from(m, key, i + 1)
    }
}

proof fn lemma_key_index(m: Seq<(Seq<char>, Seq<char>)>, key: Seq<char>, i: int, k: int)
    requires
        0 <= i <= k <= m.len(),
        forall|j: int| i <= j < k ==> m[j].0 != key,
        k < m.len() ==> m[k].0 == key,
    ensures
        key_index_from(m, key, i) == k,
    decreases k - i,
{
    if i < k {
        lemma_key_index(m, key, i + 1, k);
    }
}

/// `m` with `key` set to `value`: the first pair with that key gets the new
/// value in place, or the pair is appended.
pub open spec fn kv_insert(m: Seq<(Seq<char>, Seq<char>)>, key: Seq<char>, value: Seq<char>) -> Seq<
    (Seq<char>, Seq<char>),
> {
    let i = key_index_from(m, key, 0);
    if i < m.len() {
        m.update(i, (key, value))
    } else {
        m.push((key, value))
    }
}

impl Default for FenceAttrs {
    fn default() -> (r: Self)
        ensures
            r.model() == empty_fence_model(),
    {
        let r = FenceAttrs { id: None, classes: Vec::new(), map: Vec::new() };
        assert(r.model().classes =~= Seq::<Seq<char>>::empty());
        assert(r.model().map =~= Seq::<(Seq<char>, Seq<char>)>::empty());
        r
    }
}

impl FenceAttrs {
    pub open spec fn model(&self) -> FenceModel {
        FenceModel {
            id: match self.id {
                Some(s) => Some(s@),
                None => None,
            },
            classes: self.classes@.map_values(|c: String| c@),
            map: str_pairs(self.map@),
        }
    }

    /// Each key occurs once.
    pub open spec fn wf(&self) -> bool {
        distinct_keys(str_pairs(self.map@))
    }

    /// Look up an attribute value by key.
    pub fn get(&self, key: &str) -> (r: Option<&str>)
        ensures
            match r {
                Some(s) => first_value(self.model().map, key@) == Some(s@),
                None => first_value(self.model().map, key@) is None,
            },
            self.wf() ==> match r {
                Some(s) => kv_map(self.model().map).contains_key(key@) && kv_map(self.model().map)[key@]
                    == s@,
                None => !kv_map(self.model().map).contains_key(key@),
            },
    {
        let r = find_key(&self.map, key);
        match r {
            Some(i) => {
                proof {
                    lemma_first_value(self.model().map, key@, i as int);
                    if self.wf() {
                        lemma_kv_map_at(self.model().map, i as int);
                    }
                }
                Some(self.map[i].1.as_str())
            },
            None => {
                proof {
                    lemma_first_value(self.model().map, key@, self.map@.len() as int);
                    lemma_kv_map_dom(self.model().map, key@);
                }
                None
            },
        }
    }

    /// Set an attribute, replacing any existing value for `key` in place.
    pub fn insert(&mut self, key: String, value: String)
        ensures
            final(self).model() == (FenceModel {
                map: kv_insert(old(self).model().map, key@, value@),
                ..old(self).model()
            }),
            old(self).wf() ==> final(self).wf(),
            old(self).wf() ==> kv_map(final(self).model().map) == kv_map(old(self).model().map).insert(
                key@,
                value@,
            ),
    {
        let ghost m = self.model().map;
        match find_key(&self.map, key.as_str()) {
            Some(i) => {
                proof {
                    lemma_key_index(m, key@, 0, i as int);
                    if self.wf() {
                        lemma_kv_map_update(m, i as int, value@);
                    }
                }
                self.map.set(i, (key, value));
                assert(str_pairs(self.map@) =~= m.update(i as int, (key@, value@)));
            },
            None => {
                proof {
                    lemma_key_index(m, key@, 0, m.len() as int);
                    if old(self).wf() {
                        lemma_distinct_push(m, (key@, value@));
                    }
                }
                self.map.push((key, value));
                assert(str_pairs(self.map@) =~= m.push((key@, value@)));
                assert(m.push((key@, value@)).drop_last() =~= m);
            },
        }
    }

    /// Attribute keys, in the order they were first written.
    pub fn keys(&self) -> (r: Vec<&str>)
        ensures
            r@.map_values(|k: &str| k@) == self.model().map.map_values(|p: (Seq<char>, Seq<char>)| p.0),
    {
        let mut r: Vec<&str> = Vec::new();
        let mut i: usize = 0;
        while i < self.map.len()
            invariant
                i <= self.map@.len(),
                r@.map_values(|k: &str| k@) == self.model().map.take(i as int).map_values(
                    |p: (Seq<char>, Seq<char>)| p.0,
                ),
            decreases self.map.len() - i,
        {
            let k = self.map[i].0.as_str();
            assert(k@ == self.model().map[i as int].0);
            let ghost before = r@.map_values(|k: &str| k@);
            r.push(k);
            assert(r@.map_values(|k: &str| k@) =~= before.push(k@));
            assert(self.model().map.take(i + 1) =~= self.model().map.take(i as int).push(
                self.model().map[i as int],
            ));
            assert(r@.map_values(|k: &str| k@) =~= self.model().map.take(i + 1).map_values(
                |p: (Seq<char>, Seq<char>)| p.0,
            ));
            i = i + 1;
        }
        assert(self.model().map.take(self.map@.len() as int) =~= self.model().map);
        r
    }
}


/// The white-space-separated tokens of `s` from `i` on.
pub open spec fn tokens_from(s: Seq<char>, i: int) -> Seq<Seq<char>>
    decreases s.len() - i,
{
    if i < 0 || i >= s.len() {
        Seq::empty()
    } else {
        let j = skip_ws(s, i, s.len() as int);
        proof {
            lemma_skip_ws_bounds(s, i, s.len() as int);
        }
        if j >= s.len() {
            Seq::empty()
        } else {
            let e = first_where(s, j, |c: char| is_space_spec(c));
            proof {
                lemma_first_where(s, j, |c: char| is_space_spec(c));
            }
            seq![s.subrange(j, e)] + tokens_from(s, e)
        }
    }
}

/// `str::split_whitespace`.
pub open spec fn ws_tokens(s: Seq<char>) -> Seq<Seq<char>> {
    tokens_from(s, 0)
}

/// The white-space-separated tokens of `v`.
fn split_ws(v: &[char]) -> (r: Vec<Vec<char>>)
    ensures
        r@.map_values(|t: Vec<char>| t@) == ws_tokens(v@),
{
    let mut r: Vec<Vec<char>> = Vec::new();
    let mut i: usize = 0;
    while i < v.len()
        invariant
            i <= v@.len(),
            r@.map_values(|t: Vec<char>| t@) + tokens_from(v@, i as int) == ws_tokens(v@),
        decreases v.len() - i,
    {
        let j = skip_spaces(v, i, v.len());
        if j >= v.len() {
            assert(tokens_from(v@, i as int) =~= Seq::<Seq<char>>::empty());
            assert(tokens_from(v@, v@.len() as int) =~= Seq::<Seq<char>>::empty());
            i = v.len();
        } else {
            let e = crate::directive::args::find_space(v, j);
            proof {
                lemma_first_where(v@, j as int, |c: char| is_space_spec(c));
            }
            let tok = sub_vec(v, j, e);
            let ghost before = r@.map_values(|t: Vec<char>| t@);
            r.push(tok);
            assert(r@.map_values(|t: Vec<char>| t@) =~= before.push(tok@));
            assert(before + tokens_from(v@, i as int) =~= before.push(tok@) + tokens_from(v@, e as int));
            i = e;
        }
    }
    assert(tokens_from(v@, i as int) =~= Seq::<Seq<char>>::empty());
    assert(r@.map_values(|t: Vec<char>| t@) + Seq::<Seq<char>>::empty() =~= r@.map_values(
        |t: Vec<char>| t@,
    ));
    r
}

/// The text before the first `{`, and the text between it and the first `}`
/// after it, when there is one.
pub open spec fn split_brace_spec(info: Seq<char>) -> (Seq<char>, Option<Seq<char>>) {
    let open = first_where(info, 0, |c: char| c == '{');
    if open >= info.len() {
        (info, None)
    } else {
        let close = first_where(info, open + 1, |c: char| c == '}');
        if close >= info.len() {
            (info, None)
        } else {
            (info.subrange(0, open), Some(info.subrange(open + 1, close)))
        }
    }
}

/// Split off a single `{ ... }` block: the text before the first `{`, and the
/// content between it and the first `}` after it. Closing on the first `}`
/// keeps two adjacent groups from merging; only the first is honored.
pub fn split_brace_block(info: &str) -> (r: (String, Option<String>))
    ensures
        r.0@ == split_brace_spec(info@).0,
        match (r.1, split_brace_spec(info@).1) {
            (Some(a), Some(b)) => a@ == b,
            (None, None) => true,
            _ => false,
        },
{
    let v = chars_of(info);
    let (a, b) = split_brace_chars(v.as_slice());
    (string_of(a.as_slice()), match b {
        Some(x) => Some(string_of(x.as_slice())),
        None => None,
    })
}

fn split_brace_chars(v: &[char]) -> (r: (Vec<char>, Option<Vec<char>>))
    ensures
        r.0@ == split_brace_spec(v@).0,
        match (r.1, split_brace_spec(v@).1) {
            (Some(a), Some(b)) => a@ == b,
            (None, None) => true,
            _ => false,
        },
{
    let open = crate::directive::args::find_same(v, 0, '{');
    if open >= v.len() {
        return (sub_vec(v, 0, v.len()), None);
    }
    proof {
        lemma_first_where(v@, 0, |c: char| c == '{');
    }
    let close = crate::directive::args::find_same(v, open + 1, '}');
    if close >= v.len() {
        assert(v@.subrange(0, v@.len() as int) =~= v@);
        return (sub_vec(v, 0, v.len()), None);
    }
    proof {
        lemma_first_where(v@, open + 1, |c: char| c == '}');
    }
    (sub_vec(v, 0, open), Some(sub_vec(v, open + 1, close)))
}

/// `s` without leading copies of `c`.
pub open spec fn strip_lead(s: Seq<char>, c: char) -> Seq<char>
    decreases s.len(),
{
    if s.len() > 0 && s[0] == c {
        strip_lead(s.drop_first(), c)
    } else {
        s
    }
}

/// `s` without trailing copies of `c`.
pub open spec fn strip_trail(s: Seq<char>, c: char) -> Seq<char>
    decreases s.len(),
{
    if s.len() > 0 && s.last() == c {
        strip_trail(s.drop_last(), c)
    } else {
        s
    }
}

/// `str::trim_matches(c)`.
pub open spec fn trim_matches_spec(s: Seq<char>, c: char) -> Seq<char> {
    strip_trail(strip_lead(s, c), c)
}

fn trim_matches(v: &[char], c: char) -> (r: Vec<char>)
    ensures
        r@ == trim_matches_spec(v@, c),
{
    let mut a: usize = 0;
    assert(v@.subrange(0, v@.len() as int) =~= v@);
    while a < v.len() && v[a] == c
        invariant
            a <= v@.len(),
            strip_lead(v@.subrange(a as int, v@.len() as int), c) == strip_lead(v@, c),
        decreases v.len() - a,
    {
        assert(v@.subrange(a as int, v@.len() as int).drop_first() =~= v@.subrange(a + 1, v@.len() as int));
        a = a + 1;
    }
    assert(strip_lead(v@.subrange(a as int, v@.len() as int), c) == v@.subrange(a as int, v@.len() as int));
    let mut b: usize = v.len();
    while b > a && v[b - 1] == c
        invariant
            a <= b <= v@.len(),
            strip_lead(v@, c) == v@.subrange(a as int, v@.len() as int),
            strip_trail(v@.subrange(a as int, b as int), c) == trim_matches_spec(v@, c),
        decreases b - a,
    {
        assert(v@.subrange(a as int, b as int).drop_last() =~= v@.subrange(a as int, b - 1));
        b = b - 1;
    }
    sub_vec(v, a, b)
}

/// One token of an attribute block: `#id`, `.class`, `key=value` (quotes
/// trimmed from the value; an empty key is ignored) or a bare flag (value
/// `""`). A single ASCII character names nothing and is ignored.
pub open spec fn apply_token(m: FenceModel, tok: Seq<char>) -> FenceModel {
    if tok.len() == 0 || (tok.len() == 1 && (tok[0] as u32) < 128) {
        m
    } else if tok[0] == '#' {
        FenceModel { id: Some(tok.subrange(1, tok.len() as int)), ..m }
    } else if tok[0] == '.' {
        FenceModel { classes: m.classes.push(tok.subrange(1, tok.len() as int)), ..m }
    } else {
        let e = first_where(tok, 0, |c: char| c == '=');
        if e < tok.len() {
            let key = tok.subrange(0, e);
            if key.len() > 0 {
                let value = trim_matches_spec(trim_matches_spec(tok.subrange(e + 1, tok.len() as int), '"'), '\'');
                FenceModel { map: kv_insert(m.map, key, value), ..m }
            } else {
                m
            }
        } else {
            FenceModel { map: kv_insert(m.map, tok, Seq::empty()), ..m }
        }
    }
}

proof fn lemma_key_index_found(m: Seq<(Seq<char>, Seq<char>)>, key: Seq<char>, i: int)
    requires
        0 <= i <= m.len(),
    ensures
        i <= key_index_from(m, key, i) <= m.len(),
        forall|j: int| i <= j < key_index_from(m, key, i) ==> m[j].0 != key,
        key_index_from(m, key, i) < m.len() ==> m[key_index_from(m, key, i)].0 == key,
    decreases m.len() - i,
{
    if i < m.len() && m[i].0 != key {
        lemma_key_index_found(m, key, i + 1);
    }
}

/// After `key` is set to `value`, looking `key` up gives `value`.
proof fn lemma_insert_then_lookup(m: Seq<(Seq<char>, Seq<char>)>, key: Seq<char>, value: Seq<char>)
    ensures
        first_value(kv_insert(m, key, value), key) == Some(value),
{
    lemma_key_index_found(m, key, 0);
    let i = key_index_from(m, key, 0);
    let r = kv_insert(m, key, value);
    if i < m.len() {
        assert forall|j: int| 0 <= j < i implies r[j].0 != key by {
            assert(r[j] == m[j]);
        }
        lemma_first_value(r, key, i);
    } else {
        assert forall|j: int| 0 <= j < m.len() implies r[j].0 != key by {
            assert(r[j] == m[j]);
        }
        lemma_first_value(r, key, m.len() as int);
    }
}

/// Trimming both kinds of quote from a value quoted with `q` leaves the
/// value inside, when that holds no quote.
proof fn lemma_unquote(v: Seq<char>, q: char)
    requires
        q == '\'' || q == '"',
        forall|i: int| 0 <= i < v.len() ==> v[i] != '\'' && v[i] != '"',
    ensures
        trim_matches_spec(trim_matches_spec(seq![q] + v + seq![q], '"'), '\'') == v,
{
    let s = seq![q] + v + seq![q];
    let o = if q == '"' { '\'' } else { '"' };
    let vq = v + seq![q];
    assert(s.drop_first() =~= vq);
    assert(vq.drop_last() =~= v);
    // Stripping `q` from the front leaves `v` and the closing quote.
    assert(v.len() > 0 ==> strip_lead(vq, q) == vq) by {
        if v.len() > 0 {
            assert(vq[0] == v[0]);
        }
    }
    assert(s[0] == q);
    assert(strip_lead(s, q) == strip_lead(vq, q));
    assert(strip_lead(s, q) == if v.len() > 0 { vq } else { Seq::<char>::empty() }) by {
        if v.len() == 0 {
            assert(vq =~= seq![q]);
            assert(vq[0] == q);
            assert(vq.drop_first() =~= Seq::<char>::empty());
            assert(strip_lead(Seq::<char>::empty(), q) == Seq::<char>::empty());
            assert(strip_lead(vq, q) == strip_lead(vq.drop_first(), q));
        }
    }
    assert(strip_trail(v, q) == v) by {
        if v.len() > 0 {
            assert(v.last() == v[v.len() - 1]);
        }
    }
    assert(strip_trail(Seq::<char>::empty(), q) == Seq::<char>::empty());
    assert(trim_matches_spec(s, q) == v) by {
        if v.len() > 0 {
            assert(vq.last() == q);
        }
    }
    // `v` itself has neither quote at its ends.
    assert(strip_lead(v, o) == v) by {
        if v.len() > 0 {
            assert(v[0] != o);
        }
    }
    assert(strip_trail(v, o) == v) by {
        if v.len() > 0 {
            assert(v.last() == v[v.len() - 1]);
        }
    }
    assert(strip_lead(s, o) == s);
    assert(strip_trail(s, o) == s) by {
        assert(s.last() == q);
    }
    assert(strip_lead(Seq::<char>::empty(), o) == Seq::<char>::empty());
    assert(strip_trail(Seq::<char>::empty(), o) == Seq::<char>::empty());
}

/// A brace-block token `key=v` whose value is wrapped in single (or double)
/// quotes sets `key` to the value without its quotes, whatever the model
/// held before, as long as the value holds no other quote and the key is a
/// plain name (not empty, not an `#id` or `.class`, no `=`).
pub proof fn lemma_quoted_value_unwrapped(m: FenceModel, key: Seq<char>, v: Seq<char>, q: char)
    requires
        q == '\'' || q == '"',
        key.len() > 0,
        key[0] != '#',
        key[0] != '.',
        forall|i: int| 0 <= i < key.len() ==> key[i] != '=',
        forall|i: int| 0 <= i < v.len() ==> v[i] != '\'' && v[i] != '"',
    ensures
        first_value(apply_token(m, key + seq!['='] + seq![q] + v + seq![q]).map, key) == Some(v),
{
    let tok = key + seq!['='] + seq![q] + v + seq![q];
    let n = key.len() as int;
    assert(tok[0] == key[0]);
    assert forall|i: int| 0 <= i < n implies !((|c: char| c == '=')(#[trigger] tok[i])) by {
        assert(tok[i] == key[i]);
    }
    assert(tok[n] == '=');
    crate::directive::args::lemma_first_where_is(tok, 0, |c: char| c == '=', n);
    assert(tok.subrange(0, n) =~= key);
    assert(tok.subrange(n + 1, tok.len() as int) =~= seq![q] + v + seq![q]);
    lemma_unquote(v, q);
    let value = trim_matches_spec(trim_matches_spec(tok.subrange(n + 1, tok.len() as int), '"'), '\'');
    assert(value == v);
    lemma_insert_then_lookup(m.map, key, v);
}

/// The tokens applied in order.
pub open spec fn apply_tokens(m: FenceModel, toks: Seq<Seq<char>>) -> FenceModel
    decreases toks.len(),
{
    if toks.len() == 0 {
        m
    } else {
        apply_token(apply_tokens(m, toks.drop_last()), toks.last())
    }
}

/// Parse the tokens inside a brace block into `attrs`: a later `#id`
/// overwrites an earlier one, classes accumulate, and a repeated key keeps
/// its first position and its last value.
#[verifier::spinoff_prover]
#[verifier::rlimit(30)]
pub fn parse_attr_block(inner: &str, attrs: &mut FenceAttrs)
    requires
        old(attrs).wf(),
    ensures
        final(attrs).model() == apply_tokens(old(attrs).model(), ws_tokens(inner@)),
        final(attrs).wf(),
{
    let toks = split_ws(chars_of(inner).as_slice());
    let ghost ts = ws_tokens(inner@);
    let ghost m0 = attrs.model();
    let mut k: usize = 0;
    while k < toks.len()
        invariant
            k <= toks@.len(),
            toks@.map_values(|t: Vec<char>| t@) == ts,
            attrs.model() == apply_tokens(m0, ts.take(k as int)),
            attrs.wf(),
        decreases toks.len() - k,
    {
        let tok = &toks[k];
        assert(tok@ == ts[k as int]);
        assert(ts.take(k + 1).drop_last() =~= ts.take(k as int));
        let n = tok.len();
        if n == 0 || (n == 1 && (tok[0] as u32) < 128) {
        } else if tok[0] == '#' {
            attrs.id = Some(string_of(sub_vec(tok.as_slice(), 1, n).as_slice()));
        } else if tok[0] == '.' {
            let ghost before = attrs.model().classes;
            attrs.classes.push(string_of(sub_vec(tok.as_slice(), 1, n).as_slice()));
            assert(attrs.model().classes =~= before.push(tok@.subrange(1, n as int)));
        } else {
            let e = crate::directive::args::find_same(tok.as_slice(), 0, '=');
            proof {
                lemma_first_where(tok@, 0, |c: char| c == '=');
            }
            if e < n {
                if e > 0 {
                    let key = string_of(sub_vec(tok.as_slice(), 0, e).as_slice());
                    let v1 = trim_matches(sub_vec(tok.as_slice(), e + 1, n).as_slice(), '"');
                    let v2 = trim_matches(v1.as_slice(), '\'');
                    attrs.insert(key, string_of(v2.as_slice()));
                }
            } else {
                attrs.insert(string_of(tok.as_slice()), String::new());
            }
        }
        k = k + 1;
    }
    assert(ts.take(toks@.len() as int) =~= ts);
}

/// What `parse_fence_info` reads from an info string: the first token before
/// the brace block as the language, and the block's attributes.
pub open spec fn fence_info_spec(info: Seq<char>) -> (Seq<char>, FenceModel) {
    let (before, inner) = split_brace_spec(info);
    let toks = ws_tokens(before);
    let lang = if toks.len() > 0 {
        toks[0]
    } else {
        Seq::empty()
    };
    let m = match inner {
        Some(i) => apply_tokens(empty_fence_model(), ws_tokens(i)),
        None => empty_fence_model(),
    };
    (lang, m)
}

/// Parse a fence info string into its language and attribute block. Only
/// the brace block populates attributes; outside it, the first token is the
/// language and every other bare token is ignored.
pub fn parse_fence_info(info: &str) -> (r: (String, FenceAttrs))
    ensures
        r.0@ == fence_info_spec(info@).0,
        r.1.model() == fence_info_spec(info@).1,
        r.1.wf(),
{
    let (before, inner) = split_brace_block(info);
    let toks = split_ws(chars_of(before.as_str()).as_slice());
    let language = if toks.len() > 0 {
        assert(toks@[0]@ == ws_tokens(before@)[0]);
        string_of(toks[0].as_slice())
    } else {
        String::new()
    };
    let mut attrs = FenceAttrs::default();
    assert(attrs.wf());
    if let Some(inner) = inner {
        parse_attr_block(inner.as_str(), &mut attrs);
    }
    (language, attrs)
}

} // verus!
