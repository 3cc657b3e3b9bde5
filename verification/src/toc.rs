//! Table of contents output type and heading accumulator.
//!
//! [`TocEntry`] is one collected heading. [`HeadingAccumulator`] tracks the
//! cross-heading state of one document render: the title, the TOC entries,
//! the ids already handed out and the "have we seen the first H1?" flag.

use vstd::prelude::*;

use crate::text::{chars_of, decimal, lemma_decimal_injective, push_decimal, seq_eq, string_of, trim_string};
use crate::util::{slugify_into, slugify_spec};
use crate::text::trim_seq;

verus! {

/// A single heading in the table of contents.
///
/// `id` matches the `id` attribute of the rendered heading and is unique
/// within the document.
#[derive(Debug, PartialEq, Eq)]
pub struct TocEntry {
    /// Heading level (1–6), shifted up by one after the title in
    /// title-as-metadata mode.
    pub level: u8,
    /// Plain-text heading content, trimmed.
    pub title: String,
    /// Slug-based anchor id.
    pub id: String,
}

/// Result of completing a heading: what the caller needs to emit it.
#[derive(Debug)]
pub struct CompletedHeading {
    /// Heading level after the title-shift adjustment.
    pub adjusted_level: u8,
    /// Slug-based anchor id, unique within the document.
    pub id: String,
    /// The heading's rendered body, handed back unchanged.
    pub rendered_html: String,
}

/// `base-n`, the id tried for the `n`-th repeat of `base`.
pub open spec fn id_candidate(base: Seq<char>, n: nat) -> Seq<char> {
    base + seq!['-'] + decimal(n)
}

/// `id` is `base` with the first suffix `-n` (from 1 up) that `claimed`
/// does not hold.
pub open spec fn first_free_suffix(claimed: Seq<Seq<char>>, base: Seq<char>, id: Seq<char>) -> bool {
    exists|n: nat|
        1 <= n && id == id_candidate(base, n) && !claimed.contains(id) && forall|m: nat|
            1 <= m < n ==> claimed.contains(#[trigger] id_candidate(base, m))
}

/// The base id for a heading: its slug, or `section` when the slug is empty.
pub open spec fn base_id(text: Seq<char>) -> Seq<char> {
    let s = slugify_spec(text);
    if s.len() == 0 {
        seq!['s', 'e', 'c', 't', 'i', 'o', 'n']
    } else {
        s
    }
}

/// Different suffixes give different candidates.
pub proof fn lemma_candidate_injective(base: Seq<char>, a: nat, b: nat)
    requires
        id_candidate(base, a) == id_candidate(base, b),
    ensures
        a == b,
{
    let p = base + seq!['-'];
    assert(id_candidate(base, a).subrange(p.len() as int, id_candidate(base, a).len() as int)
        =~= decimal(a));
    assert(id_candidate(base, b).subrange(p.len() as int, id_candidate(base, b).len() as int)
        =~= decimal(b));
    lemma_decimal_injective(a, b);
}

/// The candidates `base-lo`, …, `base-(hi-1)`.
pub open spec fn candidates(base: Seq<char>, lo: nat, hi: nat) -> Seq<Seq<char>> {
    Seq::new((hi - lo) as nat, |j: int| id_candidate(base, (lo + j) as nat))
}

/// If every candidate in `[lo, hi)` is already claimed, there can be no more
/// of them than claimed ids.
pub proof fn lemma_claimed_candidates_bound(keys: Seq<Seq<char>>, base: Seq<char>, lo: nat, hi: nat)
    requires
        lo <= hi,
        keys.no_duplicates(),
        forall|m: nat| lo <= m < hi ==> keys.contains(#[trigger] id_candidate(base, m)),
    ensures
        hi - lo <= keys.len(),
{
    broadcast use vstd::seq_lib::seq_to_set_is_finite;

    let c = candidates(base, lo, hi);
    assert forall|i: int, j: int| 0 <= i < c.len() && 0 <= j < c.len() && i != j implies c[i]
        != c[j] by {
        if c[i] == c[j] {
            lemma_candidate_injective(base, (lo + i) as nat, (lo + j) as nat);
        }
    }
    c.unique_seq_to_set();
    keys.unique_seq_to_set();
    assert forall|x: Seq<char>| c.to_set().contains(x) implies keys.to_set().contains(x) by {
        let i = choose|i: int| 0 <= i < c.len() && c[i] == x;
        assert(keys.contains(id_candidate(base, (lo + i) as nat)));
    }
    vstd::set_lib::lemma_len_subset(c.to_set(), keys.to_set());
}

/// Heading ids are unique over a render: an id a heading claimed stays
/// claimed through later calls, and `complete_heading` only hands out an id
/// not claimed before, so a later heading's id differs from an earlier one.
pub proof fn lemma_later_heading_id_differs(
    after_first: HeadingAccumulator,
    before_later: HeadingAccumulator,
    first_id: Seq<char>,
    later_id: Seq<char>,
)
    requires
        after_first.claimed().contains(first_id),
        forall|x: Seq<char>| after_first.claimed().contains(x) ==> before_later.claimed().contains(x),
        !before_later.claimed().contains(later_id),
    ensures
        first_id != later_id,
{
}

/// Persistent accumulator for heading-related output across one document
/// render.
pub struct HeadingAccumulator {
    /// Whether to extract the title from the first H1.
    extract_title: bool,
    /// Whether the first H1 is metadata, skipped from output.
    title_as_metadata: bool,
    /// Extracted title.
    title: Option<String>,
    /// Whether the first H1 has been seen.
    seen_first_h1: bool,
    /// Table of contents entries.
    toc: Vec<TocEntry>,
    /// Every id already claimed in this render, with the next suffix to try
    /// when it comes up again as a base slug. Keys are distinct.
    claimed_ids: Vec<(Vec<char>, usize)>,
}

impl HeadingAccumulator {
    /// The ids claimed so far, in the order they were claimed.
    pub closed spec fn claimed(&self) -> Seq<Seq<char>> {
        self.claimed_ids@.map_values(|e: (Vec<char>, usize)| e.0@)
    }

    /// Next suffix to try for the claimed id at `i`.
    pub closed spec fn hint(&self, i: int) -> nat {
        self.claimed_ids@[i].1 as nat
    }

    /// The extracted title so far.
    pub closed spec fn title_view(&self) -> Option<Seq<char>> {
        match self.title {
            Some(t) => Some(t@),
            None => None,
        }
    }

    /// The TOC entries so far, as (level, title, id).
    pub closed spec fn toc_view(&self) -> Seq<(u8, Seq<char>, Seq<char>)> {
        self.toc@.map_values(|e: TocEntry| (e.level, e.title@, e.id@))
    }

    pub closed spec fn extracts_title(&self) -> bool {
        self.extract_title
    }

    pub closed spec fn title_is_metadata(&self) -> bool {
        self.title_as_metadata
    }

    pub closed spec fn seen_first(&self) -> bool {
        self.seen_first_h1
    }

    /// Claimed ids are distinct, and every suffix below a key's hint has
    /// already been handed out.
    pub closed spec fn wf(&self) -> bool {
        &&& self.claimed().no_duplicates()
        &&& forall|i: int|
            0 <= i < self.claimed_ids@.len() ==> #[trigger] self.claimed_ids@[i].1 >= 1
        &&& forall|i: int, m: nat|
            0 <= i < self.claimed_ids@.len() && 1 <= m < self.claimed_ids@[i].1 ==> self.claimed().contains(
                #[trigger] id_candidate(self.claimed_ids@[i].0@, m),
            )
    }

    /// Room for two more claimed ids without overflowing a `usize` count.
    pub open spec fn has_room(&self) -> bool {
        self.claimed().len() + 3 < usize::MAX
    }

    /// Whether there is room to claim the ids of one more heading.
    pub fn room_for_heading(&self) -> (b: bool)
        ensures
            b == self.has_room(),
    {
        self.claimed_ids.len() < usize::MAX - 3
    }

    /// Create a new accumulator.
    ///
    /// * `extract_title` — whether to extract the title from the first H1
    /// * `title_as_metadata` — whether to skip the first H1 in output
    pub fn new(extract_title: bool, title_as_metadata: bool) -> (r: Self)
        ensures
            r.wf(),
            r.has_room(),
            r.claimed() == Seq::<Seq<char>>::empty(),
            r.title_view() is None,
            r.toc_view() == Seq::<(u8, Seq<char>, Seq<char>)>::empty(),
            r.extracts_title() == extract_title,
            r.title_is_metadata() == title_as_metadata,
            !r.seen_first(),
    {
        let r = Self {
            extract_title,
            title_as_metadata,
            title: None,
            seen_first_h1: false,
            toc: Vec::new(),
            claimed_ids: Vec::new(),
        };
        assert(r.claimed() =~= Seq::<Seq<char>>::empty());
        assert(r.toc_view() =~= Seq::<(u8, Seq<char>, Seq<char>)>::empty());
        r
    }

    /// Whether `level` is the title-as-metadata first H1 that is extracted and
    /// skipped from output.
    pub fn is_skipped_title(&self, level: u8) -> (r: bool)
        ensures
            r == (self.extracts_title() && self.title_is_metadata() && level == 1
                && !self.seen_first()),
    {
        self.extract_title && self.title_as_metadata && level == 1 && !self.seen_first_h1
    }

    /// Skipped first H1: capture `toc_text` (trimmed) as the page title and
    /// mark the first H1 seen. Emits nothing.
    pub fn complete_first_h1(&mut self, toc_text: &str)
        ensures
            final(self).title_view() == Some(trim_seq(toc_text@)),
            final(self).seen_first(),
            final(self).claimed() == old(self).claimed(),
            final(self).toc_view() == old(self).toc_view(),
            final(self).extracts_title() == old(self).extracts_title(),
            final(self).title_is_metadata() == old(self).title_is_metadata(),
            old(self).wf() ==> final(self).wf(),
            old(self).has_room() ==> final(self).has_room(),
    {
        self.title = Some(trim_string(toc_text));
        self.seen_first_h1 = true;
    }

    /// Index of `key` among the claimed ids.
    fn find_claimed(&self, key: &Vec<char>) -> (r: Option<usize>)
        ensures
            r matches Some(i) ==> i < self.claimed_ids@.len() && self.claimed()[i as int] == key@,
            r is None ==> !self.claimed().contains(key@),
    {
        let mut i: usize = 0;
        while i < self.claimed_ids.len()
            invariant
                i <= self.claimed_ids@.len(),
                forall|j: int| 0 <= j < i ==> self.claimed()[j] != key@,
            decreases self.claimed_ids.len() - i,
        {
            if seq_eq(self.claimed_ids[i].0.as_slice(), key.as_slice()) {
                return Some(i);
            }
            i = i + 1;
        }
        None
    }

    /// A unique slug-based id for the heading text `text`.
    ///
    /// The base is the slug, or `section` when the slug is empty. An unclaimed
    /// base is the id itself; otherwise suffixes `-n` are tried from the
    /// base's hint upward until one is unclaimed.
    fn generate_id(&mut self, text: &str) -> (r: String)
        requires
            old(self).wf(),
            old(self).has_room(),
        ensures
            final(self).wf(),
            final(self).claimed().len() <= old(self).claimed().len() + 2,
            !old(self).claimed().contains(r@),
            final(self).claimed().contains(r@),
            forall|x: Seq<char>| old(self).claimed().contains(x) ==> final(self).claimed().contains(x),
            forall|x: Seq<char>| #[trigger] final(self).claimed().contains(x) ==> old(self).claimed().contains(x)
                || x == r@ || x == base_id(text@),
            !old(self).claimed().contains(base_id(text@)) ==> r@ == base_id(text@),
            old(self).claimed().contains(base_id(text@)) ==> exists|i: int, n: nat|
                0 <= i < old(self).claimed().len() && old(self).claimed()[i] == base_id(text@)
                    && old(self).hint(i) <= n && r@ == id_candidate(base_id(text@), n)
                    && forall|m: nat|
                    old(self).hint(i) <= m < n ==> old(self).claimed().contains(
                        #[trigger] id_candidate(base_id(text@), m),
                    ),
            old(self).claimed().contains(base_id(text@)) ==> first_free_suffix(
                old(self).claimed(),
                base_id(text@),
                r@,
            ),
            final(self).title_view() == old(self).title_view(),
            final(self).toc_view() == old(self).toc_view(),
            final(self).extracts_title() == old(self).extracts_title(),
            final(self).title_is_metadata() == old(self).title_is_metadata(),
            final(self).seen_first() == old(self).seen_first(),
    {
        let mut slug = String::new();
        slugify_into(text, &mut slug);
        let mut base = chars_of(slug.as_str());
        if base.len() == 0 {
            base.push('s');
            base.push('e');
            base.push('c');
            base.push('t');
            base.push('i');
            base.push('o');
            base.push('n');
            assert(base@ =~= seq!['s', 'e', 'c', 't', 'i', 'o', 'n']);
        }
        assert(base@ == base_id(text@));
        let ghost old_keys = self.claimed();
        match self.find_claimed(&base) {
            None => {
                self.claimed_ids.push((base.clone(), 1));
                proof {
                    assert(self.claimed() =~= old_keys.push(base@));
                    self.lemma_push_keeps_wf(old(self), base@);
                    assert(self.claimed()[old_keys.len() as int] == base@);
                    assert forall|x: Seq<char>| old_keys.contains(x) implies self.claimed().contains(x) by {
                        let k = choose|k: int| 0 <= k < old_keys.len() && old_keys[k] == x;
                        assert(self.claimed()[k] == x);
                    }
                }
                string_of(base.as_slice())
            },
            Some(idx) => {
                let start = self.claimed_ids[idx].1;
                let mut n = start;
                let mut candidate = Self::candidate(&base, n);
                proof {
                    assert(self.claimed_ids@[idx as int].0@ == base@);
                }
                loop
                    invariant
                        self.wf(),
                        self.has_room(),
                        self.claimed() == old_keys,
                        self.claimed_ids@ == old(self).claimed_ids@,
                        idx < self.claimed_ids@.len(),
                        self.claimed_ids@[idx as int].0@ == base@,
                        start == self.claimed_ids@[idx as int].1,
                        start <= n,
                        candidate@ == id_candidate(base@, n as nat),
                        forall|m: nat|
                            1 <= m < n ==> old_keys.contains(#[trigger] id_candidate(base@, m)),
                    ensures
                        !old_keys.contains(candidate@),
                        candidate@ == id_candidate(base@, n as nat),
                        start <= n,
                        n as nat <= old_keys.len() + 1,
                        forall|m: nat|
                            1 <= m < n ==> old_keys.contains(#[trigger] id_candidate(base@, m)),
                    decreases old_keys.len() + 1 - n,
                {
                    proof {
                        lemma_claimed_candidates_bound(old_keys, base@, 1, n as nat);
                    }
                    let cand_chars = chars_of(candidate.as_str());
                    if self.find_claimed(&cand_chars).is_none() {
                        break;
                    }
                    proof {
                        lemma_claimed_candidates_bound(old_keys, base@, 1, (n + 1) as nat);
                    }
                    n = n + 1;
                    candidate = Self::candidate(&base, n);
                }
                let ghost old_hint = self.claimed_ids@[idx as int].1;
                self.claimed_ids.set(idx, (base.clone(), n + 1));
                proof {
                    assert(self.claimed() =~= old_keys);
                }
                let cand_chars = chars_of(candidate.as_str());
                self.claimed_ids.push((cand_chars, 1));
                proof {
                    assert(self.claimed() =~= old_keys.push(candidate@));
                    assert forall|i: int, m: nat|
                        0 <= i < self.claimed_ids@.len() && 1 <= m
                            < self.claimed_ids@[i].1 implies self.claimed().contains(
                        #[trigger] id_candidate(self.claimed_ids@[i].0@, m),
                    ) by {
                        if i == idx as int {
                            if m == n as nat {
                                assert(self.claimed()[self.claimed().len() - 1] == candidate@);
                            } else {
                                assert(old_keys.contains(id_candidate(base@, m)));
                                let k = choose|k: int|
                                    0 <= k < old_keys.len() && old_keys[k] == id_candidate(base@, m);
                                assert(self.claimed()[k] == old_keys[k]);
                            }
                        } else if i < old_keys.len() {
                            assert(self.claimed_ids@[i] == old(self).claimed_ids@[i]);
                            assert(old(self).claimed().contains(id_candidate(old(self).claimed_ids@[i].0@, m)));
                            let k = choose|k: int|
                                0 <= k < old_keys.len() && old_keys[k] == id_candidate(old(self).claimed_ids@[i].0@, m);
                            assert(self.claimed()[k] == old_keys[k]);
                        }
                    }
                    assert forall|x: Seq<char>| old_keys.contains(x) implies self.claimed().contains(x) by {
                        let k = choose|k: int| 0 <= k < old_keys.len() && old_keys[k] == x;
                        assert(self.claimed()[k] == x);
                    }
                    assert(self.claimed()[old_keys.len() as int] == candidate@);
                    assert(old_keys[idx as int] == base_id(text@));
                    assert(old(self).claimed()[idx as int] == base_id(text@));
                }
                candidate
            },
        }
    }

    proof fn lemma_push_keeps_wf(&self, prev: &Self, key: Seq<char>)
        requires
            prev.wf(),
            !prev.claimed().contains(key),
            self.claimed_ids@ == prev.claimed_ids@.push((self.claimed_ids@.last().0, 1)),
            self.claimed_ids@.last().0@ == key,
        ensures
            self.wf(),
            self.claimed() == prev.claimed().push(key),
    {
        assert(self.claimed() =~= prev.claimed().push(key));
        assert forall|i: int, m: nat|
            0 <= i < self.claimed_ids@.len() && 1 <= m < self.claimed_ids@[i].1 implies self.claimed().contains(
            #[trigger] id_candidate(self.claimed_ids@[i].0@, m),
        ) by {
            assert(i < prev.claimed_ids@.len());
            assert(self.claimed_ids@[i] == prev.claimed_ids@[i]);
            assert(prev.claimed().contains(id_candidate(prev.claimed_ids@[i].0@, m)));
            let k = choose|k: int|
                0 <= k < prev.claimed().len() && prev.claimed()[k] == id_candidate(prev.claimed_ids@[i].0@, m);
            assert(self.claimed()[k] == prev.claimed()[k]);
        }
    }

    /// `base-n` as a string.
    fn candidate(base: &Vec<char>, n: usize) -> (r: String)
        ensures
            r@ == id_candidate(base@, n as nat),
    {
        let mut r = string_of(base.as_slice());
        crate::text::push_char(&mut r, '-');
        push_decimal(&mut r, n);
        assert(base@.push('-') =~= base@ + seq!['-']);
        r
    }

    /// Complete a non-skipped heading: claim a unique id, capture the title
    /// (first H1 when the title is extracted and rendered), push a TOC entry
    /// unless this heading is the title, and return what the caller needs to
    /// emit the heading.
    pub fn complete_heading(&mut self, level: u8, toc_text: &str, rendered_html: String) -> (r:
        CompletedHeading)
        requires
            old(self).wf(),
            old(self).has_room(),
        ensures
            final(self).wf(),
            final(self).claimed().len() <= old(self).claimed().len() + 2,
            !old(self).claimed().contains(r.id@),
            final(self).claimed().contains(r.id@),
            forall|x: Seq<char>| old(self).claimed().contains(x) ==> final(self).claimed().contains(x),
            forall|x: Seq<char>| #[trigger] final(self).claimed().contains(x) ==> old(self).claimed().contains(x)
                || x == r.id@ || x == base_id(toc_text@),
            !old(self).claimed().contains(base_id(toc_text@)) ==> r.id@ == base_id(toc_text@),
            old(self).claimed().contains(base_id(toc_text@)) ==> first_free_suffix(
                old(self).claimed(),
                base_id(toc_text@),
                r.id@,
            ),
            r.rendered_html == rendered_html,
            ({
                let is_title = old(self).extracts_title() && !old(self).title_is_metadata() && level
                    == 1 && old(self).title_view() is None;
                let adjusted = if old(self).title_is_metadata() && (old(self).seen_first()
                    || is_title) && level > 1 {
                    (level - 1) as u8
                } else {
                    level
                };
                &&& r.adjusted_level == adjusted
                &&& is_title ==> final(self).title_view() == Some(trim_seq(toc_text@))
                    && final(self).seen_first() && final(self).toc_view() == old(self).toc_view()
                &&& !is_title ==> final(self).title_view() == old(self).title_view()
                    && final(self).seen_first() == old(self).seen_first()
                    && final(self).toc_view() == old(self).toc_view().push(
                    (adjusted, trim_seq(toc_text@), r.id@),
                )
            }),
            final(self).extracts_title() == old(self).extracts_title(),
            final(self).title_is_metadata() == old(self).title_is_metadata(),
    {
        let id = self.generate_id(toc_text);
        let is_title = self.extract_title && !self.title_as_metadata && level == 1
            && self.title.is_none();
        if is_title {
            self.title = Some(trim_string(toc_text));
            self.seen_first_h1 = true;
        }
        let adjusted_level = self.adjusted_level(level);
        if !is_title {
            let entry_id = string_of(chars_of(id.as_str()).as_slice());
            let ghost before = self.toc@;
            self.toc.push(TocEntry { level: adjusted_level, title: trim_string(toc_text), id: entry_id });
            proof {
                assert(self.toc@ == before.push(self.toc@.last()));
                assert(self.toc_view() =~= old(self).toc_view().push(
                    (adjusted_level, trim_seq(toc_text@), id@),
                ));
            }
        }
        CompletedHeading { adjusted_level, id, rendered_html }
    }

    /// Output level: in title-as-metadata mode after the first H1, every
    /// level shifts up by one.
    fn adjusted_level(&self, level: u8) -> (r: u8)
        ensures
            r == if self.title_as_metadata && self.seen_first_h1 && level > 1 {
                (level - 1) as u8
            } else {
                level
            },
    {
        if self.title_as_metadata && self.seen_first_h1 && level > 1 {
            level - 1
        } else {
            level
        }
    }

    /// Take the extracted title.
    pub fn take_title(&mut self) -> (r: Option<String>)
        ensures
            match r {
                Some(t) => old(self).title_view() == Some(t@),
                None => old(self).title_view() is None,
            },
            final(self).title_view() is None,
            final(self).toc_view() == old(self).toc_view(),
            final(self).claimed() == old(self).claimed(),
            old(self).wf() ==> final(self).wf(),
    {
        self.title.take()
    }

    /// Take the table of contents entries.
    pub fn take_toc(&mut self) -> (r: Vec<TocEntry>)
        ensures
            r@.map_values(|e: TocEntry| (e.level, e.title@, e.id@)) == old(self).toc_view(),
            final(self).toc_view() == Seq::<(u8, Seq<char>, Seq<char>)>::empty(),
            final(self).title_view() == old(self).title_view(),
            final(self).claimed() == old(self).claimed(),
            old(self).wf() ==> final(self).wf(),
    {
        let mut r: Vec<TocEntry> = Vec::new();
        std::mem::swap(&mut r, &mut self.toc);
        assert(self.toc_view() =~= Seq::<(u8, Seq<char>, Seq<char>)>::empty());
        r
    }
}

} // verus!
