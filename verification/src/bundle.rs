//! Markdown bundling: resolving external references inside fenced code
//! blocks while keeping every other byte of the document as written.

use vstd::prelude::*;
use pulldown_cmark::{CodeBlockKind, Event, Options, Parser, Tag, TagEnd};
use crate::code_block::{fence_info_spec, parse_fence_info, CodeBlockProcessor};
use crate::text::{chars_of, push_range, push_str, string_of, sub_vec};

verus! {

/// What bundling reads of a markdown event.
pub enum MdEventKind {
    /// The start of a fenced code block, with its info string.
    FenceStart(String),
    /// Text, with the text as the parser delivered it.
    Text(String),
    /// The end of a code block, fenced or indented.
    CodeBlockEnd,
    /// Anything else.
    Other,
}

/// A markdown event with the byte range of the source it came from.
pub struct MdEvent {
    pub kind: MdEventKind,
    pub start: usize,
    pub end: usize,
}

/// What an event kind carries, as sequences.
pub enum MdKind {
    FenceStart(Seq<char>),
    Text(Seq<char>),
    CodeBlockEnd,
    Other,
}

impl MdEvent {
    pub open spec fn model(self) -> (MdKind, int, int) {
        (
            match self.kind {
                MdEventKind::FenceStart(i) => MdKind::FenceStart(i@),
                MdEventKind::Text(t) => MdKind::Text(t@),
                MdEventKind::CodeBlockEnd => MdKind::CodeBlockEnd,
                MdEventKind::Other => MdKind::Other,
            },
            self.start as int,
            self.end as int,
        )
    }
}

/// The events CommonMark parsing (no extensions) finds in `markdown`, with
/// their byte ranges.
pub uninterp spec fn markdown_event_stream(markdown: Seq<char>) -> Seq<(MdKind, int, int)>;

/// Parses `markdown` with `pulldown_cmark::Parser::new_ext` and no options,
/// through `into_offset_iter`. Claimed: the result is the named event stream
/// of `markdown`, event for event; a fenced code block start keeps its info
/// string, text keeps its text, a code block end is marked, and every other
/// event is `Other`.
#[verifier::external_body]
fn markdown_events(markdown: &str) -> (r: Vec<MdEvent>)
    ensures
        r@.map_values(|e: MdEvent| e.model()) == markdown_event_stream(markdown@),
{
    let mut out = Vec::new();
    for (event, range) in Parser::new_ext(markdown, Options::empty()).into_offset_iter() {
        let kind = match event {
            Event::Start(Tag::CodeBlock(CodeBlockKind::Fenced(info))) => MdEventKind::FenceStart(info.to_string()),
            Event::Text(text) => MdEventKind::Text(text.to_string()),
            Event::End(TagEnd::CodeBlock) => MdEventKind::CodeBlockEnd,
            _ => MdEventKind::Other,
        };
        out.push(MdEvent { kind, start: range.start, end: range.end });
    }
    out
}

/// A fenced code block with a language: its language, its content without
/// the newline before the closing fence, and the byte range that content
/// occupies.
pub struct CodeSpan {
    pub language: String,
    pub source: String,
    pub start: usize,
    pub end: usize,
}

impl CodeSpan {
    pub open spec fn model(self) -> (Seq<char>, Seq<char>, int, int) {
        (self.language@, self.source@, self.start as int, self.end as int)
    }
}

/// The scan state: the open block's language, the range its text covers so
/// far, the text so far, and the blocks found.
pub struct ScanState {
    pub language: Option<Seq<char>>,
    pub range: Option<(int, int)>,
    pub content: Seq<char>,
    pub spans: Seq<(Seq<char>, Seq<char>, int, int)>,
}

pub open spec fn initial_scan() -> ScanState {
    ScanState { language: None, range: None, content: Seq::empty(), spans: Seq::empty() }
}

/// The block a closing event completes, if it completes one.
pub open spec fn finished_span(st: ScanState) -> Option<(Seq<char>, Seq<char>, int, int)> {
    match (st.language, st.range) {
        (Some(l), Some(r)) => {
            let c = st.content;
            if c.len() > 0 && c.last() == '\n' {
                Some((l, c.drop_last(), r.0, if r.1 > 0 {
                    r.1 - 1
                } else {
                    0
                }))
            } else {
                Some((l, c, r.0, r.1))
            }
        },
        _ => None,
    }
}

/// One event's effect on the scan.
pub open spec fn scan_step(st: ScanState, e: (MdKind, int, int)) -> ScanState {
    match e.0 {
        MdKind::FenceStart(info) => {
            let lang = fence_info_spec(info).0;
            ScanState {
                language: if lang.len() == 0 {
                    None
                } else {
                    Some(lang)
                },
                range: None,
                content: Seq::empty(),
                ..st
            }
        },
        MdKind::Text(t) => if st.language is Some {
            ScanState {
                range: match st.range {
                    None => Some((e.1, e.2)),
                    Some(r) => Some((r.0, e.2)),
                },
                content: st.content + t,
                ..st
            }
        } else {
            st
        },
        MdKind::CodeBlockEnd => ScanState {
            language: None,
            range: None,
            content: Seq::empty(),
            spans: match finished_span(st) {
                Some(s) => st.spans.push(s),
                None => st.spans,
            },
        },
        MdKind::Other => st,
    }
}

/// The scan after the first `k` events.
pub open spec fn scan(events: Seq<(MdKind, int, int)>, k: int) -> ScanState
    decreases k,
{
    if k <= 0 {
        initial_scan()
    } else {
        scan_step(scan(events, k - 1), events[k - 1])
    }
}

/// The fenced code blocks with a language, in document order.
pub open spec fn spans_spec(events: Seq<(MdKind, int, int)>) -> Seq<(Seq<char>, Seq<char>, int, int)> {
    scan(events, events.len() as int).spans
}

/// Find the fenced code blocks with a language in an event stream.
pub fn code_spans(events: &[MdEvent]) -> (r: Vec<CodeSpan>)
    ensures
        r@.map_values(|s: CodeSpan| s.model()) == spans_spec(events@.map_values(|e: MdEvent| e.model())),
{
    let ghost evs = events@.map_values(|e: MdEvent| e.model());
    let mut spans: Vec<CodeSpan> = Vec::new();
    let mut language: Option<String> = None;
    let mut range: Option<(usize, usize)> = None;
    let mut content = String::new();
    let mut k: usize = 0;
    while k < events.len()
        invariant
            k <= events@.len(),
            evs == events@.map_values(|e: MdEvent| e.model()),
            ({
                let st = scan(evs, k as int);
                &&& st.language == match language {
                    Some(l) => Some(l@),
                    None => None::<Seq<char>>,
                }
                &&& st.range == match range {
                    Some(r) => Some((r.0 as int, r.1 as int)),
                    None => None::<(int, int)>,
                }
                &&& st.content == content@
                &&& st.spans == spans@.map_values(|s: CodeSpan| s.model())
            }),
        decreases events.len() - k,
    {
        let ev = &events[k];
        let ghost before = spans@.map_values(|s: CodeSpan| s.model());
        assert(evs[k as int] == ev.model());
        match &ev.kind {
            MdEventKind::FenceStart(info) => {
                let (lang, _attrs) = parse_fence_info(info.as_str());
                language = if lang.as_str().is_empty() {
                    None
                } else {
                    Some(lang)
                };
                range = None;
                content = String::new();
            },
            MdEventKind::Text(t) => {
                if language.is_some() {
                    range = match range {
                        None => Some((ev.start, ev.end)),
                        Some(r) => Some((r.0, ev.end)),
                    };
                    push_str(&mut content, t.as_str());
                }
            },
            MdEventKind::CodeBlockEnd => {
                match (&language, range) {
                    (Some(l), Some(r)) => {
                        let c = chars_of(content.as_str());
                        let span = if c.len() > 0 && c[c.len() - 1] == '\n' {
                            let e = if r.1 > 0 {
                                r.1 - 1
                            } else {
                                0
                            };
                            CodeSpan {
                                language: string_of(chars_of(l.as_str()).as_slice()),
                                source: string_of(sub_vec(c.as_slice(), 0, c.len() - 1).as_slice()),
                                start: r.0,
                                end: e,
                            }
                        } else {
                            CodeSpan {
                                language: string_of(chars_of(l.as_str()).as_slice()),
                                source: string_of(c.as_slice()),
                                start: r.0,
                                end: r.1,
                            }
                        };
                        assert(c@.subrange(0, c@.len() - 1) =~= c@.drop_last());
                        spans.push(span);
                        assert(spans@.map_values(|s: CodeSpan| s.model()) =~= before.push(span.model()));
                    },
                    _ => {},
                }
                language = None;
                range = None;
                content = String::new();
            },
            MdEventKind::Other => {},
        }
        k = k + 1;
    }
    assert(evs.len() == events@.len());
    spans
}


/// The number of bytes UTF-8 takes for `c`.
pub open spec fn utf8_width(c: char) -> int {
    let u = c as u32;
    if u < 0x80 {
        1
    } else if u < 0x800 {
        2
    } else if u < 0x10000 {
        3
    } else {
        4
    }
}

/// The index `k >= i` of the character of `v` that starts at byte `b`, given
/// that character `i` starts at byte `at`; `None` when `b` is not the start
/// of a character (or the end of `v`).
pub open spec fn char_index_from(v: Seq<char>, i: int, at: int, b: int) -> Option<int>
    decreases v.len() - i,
{
    if i < 0 || i > v.len() {
        None
    } else if at == b {
        Some(i)
    } else if at > b || i == v.len() {
        None
    } else {
        char_index_from(v, i + 1, at + utf8_width(v[i]), b)
    }
}

/// The index of the character of `v` that starts at byte `b`.
pub open spec fn char_index_of_byte(v: Seq<char>, b: int) -> Option<int> {
    char_index_from(v, 0, 0, b)
}

fn utf8_len(c: char) -> (r: usize)
    ensures
        r == utf8_width(c),
{
    let u = c as u32;
    if u < 0x80 {
        1
    } else if u < 0x800 {
        2
    } else if u < 0x10000 {
        3
    } else {
        4
    }
}

/// The index of the character of `v` that starts at byte `b`.
fn char_index(v: &[char], b: usize) -> (r: Option<usize>)
    ensures
        match r {
            Some(k) => char_index_of_byte(v@, b as int) == Some(k as int),
            None => char_index_of_byte(v@, b as int) is None,
        },
{
    let mut i: usize = 0;
    let mut at: usize = 0;
    loop
        invariant
            i <= v@.len(),
            at <= b,
            char_index_of_byte(v@, b as int) == char_index_from(v@, i as int, at as int, b as int),
        decreases v@.len() - i,
    {
        if at == b {
            return Some(i);
        }
        if i == v.len() {
            return None;
        }
        let w = utf8_len(v[i]);
        if w > b - at {
            assert(char_index_from(v@, i + 1, at + utf8_width(v@[i as int]), b as int) is None);
            return None;
        }
        at = at + w;
        i = i + 1;
    }
}

/// `v` with each replacement `(start, end, text)` applied in order, by
/// character index; one that does not fit after the previous one (or in
/// `v`) is skipped. What has been written and where copying stands after
/// the first `k` replacements.
pub open spec fn splice_steps(v: Seq<char>, reps: Seq<(int, int, Seq<char>)>, k: int) -> (Seq<char>, int)
    decreases k,
{
    if k <= 0 {
        (Seq::empty(), 0)
    } else {
        let prev = splice_steps(v, reps, k - 1);
        let r = reps[k - 1];
        if prev.1 <= r.0 && r.0 <= r.1 && r.1 <= v.len() {
            (prev.0 + v.subrange(prev.1, r.0) + r.2, r.1)
        } else {
            prev
        }
    }
}

/// `v` with the replacements applied.
pub open spec fn splice_spec(v: Seq<char>, reps: Seq<(int, int, Seq<char>)>) -> Seq<char> {
    let r = splice_steps(v, reps, reps.len() as int);
    r.0 + v.subrange(r.1, v.len() as int)
}

/// The replacements bundling makes: for each block a processor resolved, its
/// byte range turned into character indices and its new content; a block
/// whose range does not fall on character boundaries is left alone.
pub open spec fn bundle_replacements(
    v: Seq<char>,
    spans: Seq<(Seq<char>, Seq<char>, int, int)>,
    resolved: Seq<Option<Seq<char>>>,
    k: int,
) -> Seq<(int, int, Seq<char>)>
    decreases k,
{
    if k <= 0 {
        Seq::empty()
    } else {
        let prev = bundle_replacements(v, spans, resolved, k - 1);
        match (resolved[k - 1], char_index_of_byte(v, spans[k - 1].2), char_index_of_byte(v, spans[k - 1].3)) {
            (Some(t), Some(a), Some(b)) => prev.push((a, b, t)),
            _ => prev,
        }
    }
}

/// The document after bundling: each resolved block's content replaced,
/// every other character kept.
pub open spec fn bundled_spec(
    v: Seq<char>,
    spans: Seq<(Seq<char>, Seq<char>, int, int)>,
    resolved: Seq<Option<Seq<char>>>,
) -> Seq<char> {
    splice_spec(v, bundle_replacements(v, spans, resolved, spans.len() as int))
}

/// Replace the content of each code block that `resolved` has an answer
/// for, keeping the rest of `markdown` as written.
pub fn apply_bundles(markdown: &str, spans: &[CodeSpan], resolved: &[Option<String>]) -> (r: String)
    requires
        spans@.len() == resolved@.len(),
    ensures
        r@ == bundled_spec(
            markdown@,
            spans@.map_values(|s: CodeSpan| s.model()),
            resolved@.map_values(|o: Option<String>| match o {
                Some(t) => Some(t@),
                None => None::<Seq<char>>,
            }),
        ),
{
    let v = chars_of(markdown);
    let ghost sp = spans@.map_values(|s: CodeSpan| s.model());
    let ghost rs = resolved@.map_values(|o: Option<String>| match o {
        Some(t) => Some(t@),
        None => None::<Seq<char>>,
    });
    let mut out = String::new();
    let mut pos: usize = 0;
    let mut k: usize = 0;
    while k < spans.len()
        invariant
            k <= spans@.len(),
            spans@.len() == resolved@.len(),
            v@ == markdown@,
            sp == spans@.map_values(|s: CodeSpan| s.model()),
            rs == resolved@.map_values(|o: Option<String>| match o {
                Some(t) => Some(t@),
                None => None::<Seq<char>>,
            }),
            ({
                let st = splice_steps(v@, bundle_replacements(v@, sp, rs, k as int), bundle_replacements(v@, sp, rs, k as int).len() as int);
                &&& st.0 == out@
                &&& st.1 == pos as int
            }),
            pos <= v@.len(),
        decreases spans.len() - k,
    {
        let ghost reps0 = bundle_replacements(v@, sp, rs, k as int);
        let ghost reps1 = bundle_replacements(v@, sp, rs, k + 1);
        assert(sp[k as int] == spans@[k as int].model());
        match &resolved[k] {
            Some(t) => {
                let a = char_index(v.as_slice(), spans[k].start);
                let b = char_index(v.as_slice(), spans[k].end);
                match (a, b) {
                    (Some(a), Some(b)) => {
                        assert(reps1 == reps0.push((a as int, b as int, t@)));
                        assert(reps1.drop_last() =~= reps0);
                        proof {
                            lemma_splice_steps_prefix(v@, reps1, reps0, reps0.len() as int);
                        }
                        if pos <= a && a <= b && b <= v.len() {
                            push_range(&mut out, v.as_slice(), pos, a);
                            push_str(&mut out, t.as_str());
                            pos = b;
                        }
                    },
                    _ => {
                        assert(reps1 == reps0);
                    },
                }
            },
            None => {
                assert(reps1 == reps0);
            },
        }
        k = k + 1;
    }
    push_range(&mut out, v.as_slice(), pos, v.len());
    out
}

/// Splicing over the first `k` replacements reads only those.
proof fn lemma_splice_steps_prefix(
    v: Seq<char>,
    a: Seq<(int, int, Seq<char>)>,
    b: Seq<(int, int, Seq<char>)>,
    k: int,
)
    requires
        0 <= k <= a.len(),
        k <= b.len(),
        forall|i: int| 0 <= i < k ==> a[i] == b[i],
    ensures
        splice_steps(v, a, k) == splice_steps(v, b, k),
    decreases k,
{
    if k > 0 {
        lemma_splice_steps_prefix(v, a, b, k - 1);
    }
}


/// Whether every processor in `ps` answers `bundle` by its specification.
pub open spec fn all_bundle_by_spec(ps: Seq<&mut dyn CodeBlockProcessor>) -> bool {
    forall|i: int| 0 <= i < ps.len() ==> #[trigger] ps[i].bundles_by_spec()
}

/// The first answer, from the processor at `i` on, for a block with
/// `language` and `source`: processors are asked in order and the first
/// `Some` wins.
pub open spec fn first_answer(ps: Seq<&mut dyn CodeBlockProcessor>, language: Seq<char>, source: Seq<char>, i: int) -> Option<
    Seq<char>,
>
    decreases ps.len() - i,
{
    if i < 0 || i >= ps.len() {
        None
    } else {
        match ps[i].bundle_answer(language, source) {
            Some(a) => Some(a),
            None => first_answer(ps, language, source, i + 1),
        }
    }
}

/// The answer each block of `spans` gets from `ps`.
pub open spec fn first_answers(ps: Seq<&mut dyn CodeBlockProcessor>, spans: Seq<(Seq<char>, Seq<char>, int, int)>) -> Seq<
    Option<Seq<char>>,
> {
    Seq::new(spans.len(), |k: int| first_answer(ps, spans[k].0, spans[k].1, 0))
}

/// Bundle markdown: for each fenced code block with a language, in document
/// order, the processors are asked in turn, with the block's language and
/// source, and the first answer replaces the block's content; everything
/// else is kept exactly. With no processors, or when none answers, the
/// markdown comes back unchanged. Where a processor does not answer by a
/// specification (one written outside the verified library), what it
/// answers is its own affair, and the result is stated for whatever the
/// answers were.
pub fn bundle_markdown(markdown: &str, processors: &mut [&mut dyn CodeBlockProcessor]) -> (r: String)
    ensures
        old(processors)@.len() == 0 ==> r@ == markdown@,
        exists|resolved: Seq<Option<Seq<char>>>|
            resolved.len() == spans_spec(markdown_event_stream(markdown@)).len() && r@ == bundled_spec(
                markdown@,
                spans_spec(markdown_event_stream(markdown@)),
                resolved,
            ),
        all_bundle_by_spec(old(processors)@) ==> r@ == bundled_spec(
            markdown@,
            spans_spec(markdown_event_stream(markdown@)),
            first_answers(old(processors)@, spans_spec(markdown_event_stream(markdown@))),
        ),
        all_bundle_by_spec(old(processors)@) && (forall|k: int|
            0 <= k < spans_spec(markdown_event_stream(markdown@)).len() ==> #[trigger] first_answers(
                old(processors)@,
                spans_spec(markdown_event_stream(markdown@)),
            )[k] is None) ==> r@ == markdown@,
{
    let ghost sp = spans_spec(markdown_event_stream(markdown@));
    let ghost ps0 = processors@;
    if processors.len() == 0 {
        let r = string_of(chars_of(markdown).as_slice());
        let ghost none = Seq::new(sp.len(), |i: int| None::<Seq<char>>);
        proof {
            lemma_no_answers_keep_everything(markdown@, sp, none, sp.len() as int);
            assert(first_answers(ps0, sp) =~= none);
        }
        assert(markdown@.subrange(0, markdown@.len() as int) =~= markdown@);
        assert(r@ == bundled_spec(markdown@, sp, none));
        return r;
    }
    let events = markdown_events(markdown);
    let spans = code_spans(events.as_slice());
    let mut resolved: Vec<Option<String>> = Vec::new();
    let mut k: usize = 0;
    while k < spans.len()
        invariant
            k <= spans@.len(),
            resolved@.len() == k,
            spans@.map_values(|s: CodeSpan| s.model()) == sp,
            processors@.len() == ps0.len(),
            all_bundle_by_spec(ps0) ==> all_bundle_by_spec(processors@) && forall|j: int, l: Seq<char>, s: Seq<char>|
                0 <= j < ps0.len() ==> #[trigger] processors@[j].bundle_answer(l, s) == ps0[j].bundle_answer(l, s),
            all_bundle_by_spec(ps0) ==> forall|j: int|
                0 <= j < k ==> #[trigger] opt_string_view(resolved@[j]) == first_answers(ps0, sp)[j],
        decreases spans.len() - k,
    {
        let ghost lang = spans@[k as int].language@;
        let ghost src = spans@[k as int].source@;
        assert(sp[k as int].0 == lang && sp[k as int].1 == src);
        let mut found: Option<String> = None;
        let mut i: usize = 0;
        while i < processors.len()
            invariant_except_break
                found is None,
                all_bundle_by_spec(ps0) ==> first_answer(ps0, lang, src, 0) == first_answer(ps0, lang, src, i as int),
            invariant
                k < spans@.len(),
                i <= processors@.len(),
                processors@.len() == ps0.len(),
                lang == spans@[k as int].language@,
                src == spans@[k as int].source@,
                all_bundle_by_spec(ps0) ==> all_bundle_by_spec(processors@) && forall|j: int, l: Seq<char>, s: Seq<char>|
                    0 <= j < ps0.len() ==> #[trigger] processors@[j].bundle_answer(l, s) == ps0[j].bundle_answer(l, s),
            ensures
                processors@.len() == ps0.len(),
                all_bundle_by_spec(ps0) ==> all_bundle_by_spec(processors@) && forall|j: int, l: Seq<char>, s: Seq<char>|
                    0 <= j < ps0.len() ==> #[trigger] processors@[j].bundle_answer(l, s) == ps0[j].bundle_answer(l, s),
                all_bundle_by_spec(ps0) ==> opt_string_view(found) == first_answer(ps0, lang, src, 0),
            decreases processors.len() - i,
        {
            let ghost before = processors@;
            let answer = processors[i].bundle(spans[k].language.as_str(), spans[k].source.as_str());
            proof {
                if all_bundle_by_spec(ps0) {
                    assert(before[i as int].bundles_by_spec());
                    assert forall|j: int| 0 <= j < processors@.len() implies #[trigger] processors@[j].bundles_by_spec() by {
                        if j != i {
                            assert(processors@[j] == before[j]);
                        }
                    }
                    assert forall|j: int, l: Seq<char>, s: Seq<char>|
                        0 <= j < ps0.len() implies #[trigger] processors@[j].bundle_answer(l, s) == ps0[j].bundle_answer(l, s) by {
                        if j != i {
                            assert(processors@[j] == before[j]);
                        } else {
                            assert(before[j].bundle_answer(l, s) == ps0[j].bundle_answer(l, s));
                        }
                    }
                    assert(before[i as int].bundle_answer(lang, src) == ps0[i as int].bundle_answer(lang, src));
                }
            }
            if answer.is_some() {
                found = answer;
                break;
            }
            i = i + 1;
        }
        let ghost before = resolved@;
        resolved.push(found);
        proof {
            if all_bundle_by_spec(ps0) {
                assert forall|j: int| 0 <= j < k + 1 implies #[trigger] opt_string_view(resolved@[j]) == first_answers(ps0, sp)[j] by {
                    if j < k {
                        assert(resolved@[j] == before[j]);
                    }
                }
            }
        }
        k = k + 1;
    }
    let r = apply_bundles(markdown, spans.as_slice(), resolved.as_slice());
    let ghost rs = resolved@.map_values(|o: Option<String>| match o {
        Some(t) => Some(t@),
        None => None::<Seq<char>>,
    });
    assert(rs.len() == sp.len());
    proof {
        if all_bundle_by_spec(ps0) {
            assert forall|j: int| 0 <= j < rs.len() implies rs[j] == first_answers(ps0, sp)[j] by {
                assert(opt_string_view(resolved@[j]) == first_answers(ps0, sp)[j]);
            }
            assert(rs =~= first_answers(ps0, sp));
            if forall|j: int| 0 <= j < sp.len() ==> #[trigger] first_answers(ps0, sp)[j] is None {
                lemma_no_answers_keep_everything(markdown@, sp, rs, sp.len() as int);
            }
        }
    }
    r
}

/// An optional string as an optional sequence.
pub open spec fn opt_string_view(o: Option<String>) -> Option<Seq<char>> {
    match o {
        Some(t) => Some(t@),
        None => None,
    }
}

/// With no answers, bundling replaces nothing.
proof fn lemma_no_answers_keep_everything(
    v: Seq<char>,
    spans: Seq<(Seq<char>, Seq<char>, int, int)>,
    resolved: Seq<Option<Seq<char>>>,
    k: int,
)
    requires
        k <= resolved.len(),
        forall|i: int| 0 <= i < resolved.len() ==> resolved[i] is None,
    ensures
        bundle_replacements(v, spans, resolved, k).len() == 0,
    decreases k,
{
    if k > 0 {
        lemma_no_answers_keep_everything(v, spans, resolved, k - 1);
    }
}

/// Bundling in which no processor answered gives back the markdown exactly.
pub proof fn lemma_unanswered_bundle_is_identity(
    v: Seq<char>,
    spans: Seq<(Seq<char>, Seq<char>, int, int)>,
    resolved: Seq<Option<Seq<char>>>,
)
    requires
        resolved.len() == spans.len(),
        forall|i: int| 0 <= i < resolved.len() ==> resolved[i] is None,
    ensures
        bundled_spec(v, spans, resolved) == v,
{
    lemma_no_answers_keep_everything(v, spans, resolved, spans.len() as int);
    assert(v.subrange(0, v.len() as int) =~= v);
}

} // verus!
