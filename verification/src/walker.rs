//! The interpreting half of rendering: turns events into backend output.
//!
//! The tokenizer has already coalesced text runs, recognized directive
//! syntax and assembled code blocks, so nothing arriving here is re-scanned
//! (one exception: the literal of a block directive nobody claimed). The
//! walker owns the state that spans events: open scopes, list and alert
//! stacks, the heading accumulator, the code-block counter, tab groups and
//! the hole table.
//!
//! The walk buffer only ever grows: every write appends. Holes are reserved
//! at its current end, so each recorded offset keeps naming the same place
//! until the buffer is assembled with its fills, the one step that rewrites
//! it.

use vstd::prelude::*;
use std::marker::PhantomData;
use crate::backend::{opt_str_view, AlertKind, Alignment, RenderBackend};
use crate::code_block::{CodeBlockProcessor, FenceAttrs, ProcessResult};
use crate::config::{RenderConfig, SectionIndex, TitleResolver};
use crate::directive::args::{pairs_map, key_less, key_lt, lemma_first_where_is, lemma_key_lt_total, lemma_key_lt_transitive, DirectiveArgs};
use crate::directive::fills::{byte_len, under, Fills, GlobalFills, GlobalKey, HoleKey, Part, Source};
use crate::directive::output::DirectiveOutput;
use crate::directive::parser::{parse_line_chars, ParsedDirective};
use crate::directive::processor::{merge_checked, BlockDispatch, ContainerOutcome, DirectiveProcessor, TabScope};
use crate::event::{Event, LinkKind, Tag, TagEnd};
use crate::holes::{assembled, fill_text, offsets_fit, Holes};
use crate::link;
use crate::renderer::RenderResult;
use crate::status::directive::{color_spec, StatusColor};
use crate::table::TableState;
use crate::tabs::preprocessor::strip_quotes;
use crate::tabs::TabInfo;
use crate::tabs::directive::tab_label_spec;
use crate::text::{appends, chars_of, trim_seq, push_char, push_str, seq_eq, string_of_range, trim_string};
use crate::toc::{base_id, first_free_suffix, HeadingAccumulator, TocEntry};
use crate::wikilink::{self, fragment_text_spec, WikilinkResolution};

verus! {

broadcast use crate::text::group_appends;

/// An inline-capture region the walk is inside. Inline writes go to its
/// buffers instead of the walk buffer.
pub enum Scope {
    /// An open heading: its plain-text shadow (for the TOC, the id and the
    /// title) and its rendered body.
    Heading { level: u8, in_first_h1: bool, toc_text: String, rendered_html: String },
    /// An open image collecting its alt text, which is plain text: markup
    /// inside it is dropped.
    Image { alt_text: String, dest_url: String, title: String },
}

/// A tab group the walk renders: its id, the tabs seen so far, and the hole
/// its tab bar fills once every label is known.
struct TabGroup {
    id: usize,
    tabs: Vec<TabInfo>,
    bar_hole: HoleKey,
}

/// A markup write, routed to the innermost scope's buffer.
enum Markup {
    EmphasisStart,
    EmphasisEnd,
    StrongStart,
    StrongEnd,
    StrikethroughStart,
    StrikethroughEnd,
    SuperscriptStart,
    SuperscriptEnd,
    SubscriptStart,
    SubscriptEnd,
    LinkStart { href: String, section: Option<(String, String)> },
    LinkEnd,
    BrokenLinkStart,
    Image { src: String, alt: String, title: String },
    RawHtml(String),
    StatusOpen(StatusColor),
    StatusClose,
}

/// The text backend `B` writes for `m`.
spec fn markup_text<B: RenderBackend>(m: Markup) -> Seq<char> {
    match m {
        Markup::EmphasisStart => B::emphasis_start_text(),
        Markup::EmphasisEnd => B::emphasis_end_text(),
        Markup::StrongStart => B::strong_start_text(),
        Markup::StrongEnd => B::strong_end_text(),
        Markup::StrikethroughStart => B::strikethrough_start_text(),
        Markup::StrikethroughEnd => B::strikethrough_end_text(),
        Markup::SuperscriptStart => B::superscript_start_text(),
        Markup::SuperscriptEnd => B::superscript_end_text(),
        Markup::SubscriptStart => B::subscript_start_text(),
        Markup::SubscriptEnd => B::subscript_end_text(),
        Markup::LinkStart { href, section } => B::link_start_text(
            href@,
            match section {
                Some(sp) => Some((sp.0@, sp.1@)),
                None => None,
            },
        ),
        Markup::LinkEnd => B::link_end_text(),
        Markup::BrokenLinkStart => B::broken_link_start_text(),
        Markup::Image { src, alt, title } => B::image_text(src@, alt@, title@),
        Markup::RawHtml(h) => B::raw_html_text(h@),
        Markup::StatusOpen(c) => B::status_open_text(c),
        Markup::StatusClose => B::status_close_text(),
    }
}

/// The rendered body of a heading scope; an image scope has none.
spec fn scope_html(s: Scope) -> Seq<char> {
    match s {
        Scope::Heading { rendered_html, .. } => rendered_html@,
        Scope::Image { .. } => Seq::empty(),
    }
}

/// The text backend `B` writes for a line break.
spec fn break_text<B: RenderBackend>(hard: bool) -> Seq<char> {
    if hard {
        B::hard_break_text()
    } else {
        B::soft_break_text()
    }
}

/// The color a status badge asks for: its `color` attribute, grey when
/// absent or unknown.
pub open spec fn badge_color(args: DirectiveArgs) -> StatusColor {
    if pairs_map(args.attrs_view()).contains_key("color"@) {
        color_spec(pairs_map(args.attrs_view())["color"@])
    } else {
        color_spec(""@)
    }
}

/// What backend `B` writes for a status badge: its opening markup, the
/// trimmed label as text, its closing markup.
pub open spec fn badge_text<B: RenderBackend>(args: DirectiveArgs) -> Seq<char> {
    B::status_open_text(badge_color(args)) + B::text_text(trim_seq(args.content@)) + B::status_close_text()
}

/// The alignment of the table cell `t` is at, when its column has one.
spec fn cell_alignment(t: TableState) -> Option<Alignment> {
    if t.cell_view() < t.alignments_view().len() {
        Some(t.alignments_view()[t.cell_view() as int])
    } else {
        None
    }
}

/// What backend `B` writes straight into the walk buffer when the block
/// `tag` opens (`t` is the table state before); `None` for the tags that
/// open a scope or write inline markup.
spec fn block_start_text<B: RenderBackend>(tag: Tag, t: TableState) -> Option<Seq<char>> {
    match tag {
        Tag::Paragraph => Some(B::paragraph_start_text()),
        Tag::BlockQuote(Some(k)) => Some(B::alert_start_text(k)),
        Tag::BlockQuote(None) => Some(B::blockquote_start_text()),
        Tag::List(start) => Some(B::list_start_text(start is Some, start)),
        Tag::Item => Some(B::list_item_start_text()),
        Tag::DefinitionList => Some(B::definition_list_start_text()),
        Tag::DefinitionListTitle => Some(B::definition_title_start_text()),
        Tag::DefinitionListDefinition => Some(B::definition_detail_start_text()),
        Tag::Table(_) => Some(B::table_start_text()),
        Tag::TableHead => Some(B::table_head_start_text()),
        Tag::TableRow => Some(B::table_row_start_text()),
        Tag::TableCell => Some(B::table_cell_start_text(t.in_head_view(), cell_alignment(t))),
        _ => None,
    }
}

/// The inline markup an opening `tag` writes, if it is an inline wrapper.
spec fn inline_start_markup(tag: Tag) -> Option<Markup> {
    match tag {
        Tag::Emphasis => Some(Markup::EmphasisStart),
        Tag::Strong => Some(Markup::StrongStart),
        Tag::Strikethrough => Some(Markup::StrikethroughStart),
        Tag::Superscript => Some(Markup::SuperscriptStart),
        Tag::Subscript => Some(Markup::SubscriptStart),
        _ => None,
    }
}

/// What backend `B` writes straight into the walk buffer when the block
/// `tag` closes (`t` is the table state, `alerts` the open blockquotes,
/// innermost last); `None` for headings, images and inline wrappers.
spec fn block_end_text<B: RenderBackend>(tag: TagEnd, t: TableState, alerts: Seq<Option<AlertKind>>) -> Option<
    Seq<char>,
> {
    match tag {
        TagEnd::Paragraph => Some(B::paragraph_end_text()),
        TagEnd::BlockQuote => Some(
            if alerts.len() > 0 && alerts.last() is Some {
                B::alert_end_text(alerts.last()->0)
            } else {
                B::blockquote_end_text()
            },
        ),
        TagEnd::List(ordered) => Some(B::list_end_text(ordered)),
        TagEnd::Item => Some(B::list_item_end_text()),
        TagEnd::DefinitionList => Some(B::definition_list_end_text()),
        TagEnd::DefinitionListTitle => Some(B::definition_title_end_text()),
        TagEnd::DefinitionListDefinition => Some(B::definition_detail_end_text()),
        TagEnd::Table => Some(B::table_end_text()),
        TagEnd::TableHead => Some(B::table_head_end_text()),
        TagEnd::TableRow => Some(B::table_row_end_text()),
        TagEnd::TableCell => Some(B::table_cell_end_text(t.in_head_view())),
        _ => None,
    }
}

/// The inline markup a closing `tag` writes, if it ends an inline wrapper
/// or a link.
spec fn inline_end_markup(tag: TagEnd) -> Option<Markup> {
    match tag {
        TagEnd::Emphasis => Some(Markup::EmphasisEnd),
        TagEnd::Strong => Some(Markup::StrongEnd),
        TagEnd::Strikethrough => Some(Markup::StrikethroughEnd),
        TagEnd::Superscript => Some(Markup::SuperscriptEnd),
        TagEnd::Subscript => Some(Markup::SubscriptEnd),
        TagEnd::Link => Some(Markup::LinkEnd),
        _ => None,
    }
}

/// `b` is `a` after its innermost heading closed: a heading that becomes
/// the title writes nothing; any other is written with a level and an id
/// it newly claimed, its body trimmed.
spec fn heading_written<B: RenderBackend>(a: &Walker<B>, b: &Walker<B>, in_first_h1: bool, body: Seq<char>) -> bool {
    if in_first_h1 {
        b.output == a.output
    } else {
        exists|l: u8, id: Seq<char>|
            !a.heading.claimed().contains(id) && b.heading.claimed().contains(id) && b.output@ == a.output@
                + B::heading_start_text(l, id) + trim_seq(body) + B::heading_end_text(l)
    }
}

/// The hole key of code block `index` deferred by the processor at `i`.
pub open spec fn code_block_key(i: usize, index: usize) -> (Source, u32) {
    (Source::CodeBlock(i), index as u32)
}

/// Write `m` through the backend.
fn write_markup<B: RenderBackend>(m: &Markup, out: &mut String)
    ensures
        final(out)@ == old(out)@ + markup_text::<B>(*m),
{
    match m {
        Markup::EmphasisStart => {
            B::emphasis_start(out);
        },
        Markup::EmphasisEnd => {
            B::emphasis_end(out);
        },
        Markup::StrongStart => {
            B::strong_start(out);
        },
        Markup::StrongEnd => {
            B::strong_end(out);
        },
        Markup::StrikethroughStart => {
            B::strikethrough_start(out);
        },
        Markup::StrikethroughEnd => {
            B::strikethrough_end(out);
        },
        Markup::SuperscriptStart => {
            B::superscript_start(out);
        },
        Markup::SuperscriptEnd => {
            B::superscript_end(out);
        },
        Markup::SubscriptStart => {
            B::subscript_start(out);
        },
        Markup::SubscriptEnd => {
            B::subscript_end(out);
        },
        Markup::LinkStart { href, section } => {
            let attrs: Option<(&str, &str)> = match section {
                Some(sp) => Some((sp.0.as_str(), sp.1.as_str())),
                None => None,
            };
            B::link_start(href.as_str(), attrs, out);
        },
        Markup::LinkEnd => {
            B::link_end(out);
        },
        Markup::BrokenLinkStart => {
            B::broken_link_start(out);
        },
        Markup::Image { src, alt, title } => {
            B::image(src.as_str(), alt.as_str(), title.as_str(), out);
        },
        Markup::RawHtml(h) => {
            B::raw_html(h.as_str(), out);
        },
        Markup::StatusOpen(c) => {
            B::status_open(*c, out);
        },
        Markup::StatusClose => B::status_close(out),
    }
}

/// Strictly ascending: each ref once, in order.
pub open spec fn refs_sorted(s: Seq<Seq<char>>) -> bool {
    forall|i: int, j: int| 0 <= i < j < s.len() ==> key_lt(#[trigger] s[i], #[trigger] s[j])
}

/// The refs of `v` as character sequences.
pub open spec fn refs_view(v: Seq<String>) -> Seq<Seq<char>> {
    v.map_values(|s: String| s@)
}

/// Whether the ref at `k` sorts before `r`.
fn ref_before(refs: &Vec<String>, k: usize, r: &Vec<char>) -> (b: bool)
    requires
        k < refs@.len(),
    ensures
        b == key_lt(refs@[k as int]@, r@),
{
    let cv = chars_of(refs[k].as_str());
    key_less(cv.as_slice(), r.as_slice())
}

/// Add `r` to the ascending `refs` unless it is there already.
fn insert_ref(refs: &mut Vec<String>, r: String)
    requires
        refs_sorted(refs_view(old(refs)@)),
    ensures
        refs_sorted(refs_view(final(refs)@)),
        forall|x: Seq<char>| refs_view(final(refs)@).contains(x) <==> (refs_view(old(refs)@).contains(x) || x == r@),
{
    let ghost s = refs_view(refs@);
    let rv = chars_of(r.as_str());
    let mut k: usize = 0;
    while k < refs.len() && ref_before(refs, k, &rv)
        invariant
            k <= refs@.len(),
            s == refs_view(refs@),
            rv@ == r@,
            forall|i: int| 0 <= i < k ==> key_lt(#[trigger] s[i], r@),
        decreases refs.len() - k,
    {
        k = k + 1;
    }
    if k < refs.len() {
        let cv = chars_of(refs[k].as_str());
        if seq_eq(cv.as_slice(), rv.as_slice()) {
            assert(s[k as int] == r@);
            return;
        }
    }
    refs.insert(k, r);
    proof {
        let t = refs_view(refs@);
        assert(t =~= s.insert(k as int, r@));
        if k < s.len() {
            lemma_key_lt_total(s[k as int], r@);
        }
        assert forall|i: int, j: int| 0 <= i < j < t.len() implies key_lt(#[trigger] t[i], #[trigger] t[j]) by {
            if j < k {
                assert(t[i] == s[i] && t[j] == s[j]);
            } else if j == k {
                assert(t[j] == r@);
            } else if i < k {
                assert(t[j] == s[j - 1]);
                if j - 1 > k {
                    assert(key_lt(s[k as int], s[j - 1]));
                    lemma_key_lt_transitive(r@, s[k as int], s[j - 1]);
                }
                lemma_key_lt_transitive(s[i], r@, s[j - 1]);
            } else if i == k {
                assert(t[j] == s[j - 1]);
                if j - 1 > k {
                    assert(key_lt(s[k as int], s[j - 1]));
                    lemma_key_lt_transitive(r@, s[k as int], s[j - 1]);
                }
            } else {
                assert(t[i] == s[i - 1] && t[j] == s[j - 1]);
            }
        }
        assert forall|x: Seq<char>| t.contains(x) <==> (s.contains(x) || x == r@) by {
            if t.contains(x) {
                let j = choose|j: int| 0 <= j < t.len() && t[j] == x;
                if j < k {
                    assert(s[j] == x);
                } else if j > k {
                    assert(s[j - 1] == x);
                }
            }
            if s.contains(x) {
                let j = choose|j: int| 0 <= j < s.len() && s[j] == x;
                if j < k {
                    assert(t[j] == x);
                } else {
                    assert(t[j + 1] == x);
                }
            }
            if x == r@ {
                assert(t[k as int] == x);
            }
        }
    }
}

/// `b` is the scope `a` after taking `s`: a heading keeps its level and
/// title flag, adds `s` to its plain-text shadow and only appends to its
/// body; an image adds `s` to its alt text and keeps its source and title.
pub open spec fn scope_took_text(a: Scope, b: Scope, s: Seq<char>) -> bool {
    match (a, b) {
        (
            Scope::Heading { level: l0, in_first_h1: f0, toc_text: t0, rendered_html: h0 },
            Scope::Heading { level: l1, in_first_h1: f1, toc_text: t1, rendered_html: h1 },
        ) => l1 == l0 && f1 == f0 && t1@ == t0@ + s && appends(h0@, h1@),
        (
            Scope::Image { alt_text: a0, dest_url: d0, title: ti0 },
            Scope::Image { alt_text: a1, dest_url: d1, title: ti1 },
        ) => a1@ == a0@ + s && d1 == d0 && ti1 == ti0,
        _ => false,
    }
}

/// Taking nothing leaves a scope as it was.
proof fn lemma_took_nothing(a: Scope)
    ensures
        scope_took_text(a, a, Seq::empty()),
{
    match a {
        Scope::Heading { toc_text, .. } => {
            assert(toc_text@ + Seq::<char>::empty() =~= toc_text@);
        },
        Scope::Image { alt_text, .. } => {
            assert(alt_text@ + Seq::<char>::empty() =~= alt_text@);
        },
    }
}

/// Taking `s1` and then `s2` is taking `s1 + s2`.
proof fn lemma_took_text_chain(a: Scope, b: Scope, c: Scope, s1: Seq<char>, s2: Seq<char>)
    requires
        scope_took_text(a, b, s1),
        scope_took_text(b, c, s2),
    ensures
        scope_took_text(a, c, s1 + s2),
{
    match (a, b, c) {
        (Scope::Heading { toc_text: t0, .. }, Scope::Heading { toc_text: t1, .. }, Scope::Heading { toc_text: t2, .. }) => {
            assert(t2@ =~= t0@ + (s1 + s2));
        },
        (Scope::Image { alt_text: a0, .. }, Scope::Image { alt_text: a1, .. }, Scope::Image { alt_text: a2, .. }) => {
            assert(a2@ =~= a0@ + (s1 + s2));
        },
        _ => {},
    }
}

/// The warning for a container left open; `name` is the directive's name
/// when known.
pub open spec fn unclosed_message(name: Option<String>) -> Seq<char> {
    "unclosed container directive :::"@ + match name {
        Some(n) => n@,
        None => Seq::empty(),
    } + " (missing closing :::)"@
}

/// The holes among `parts`, keyed under `source`, in order.
pub open spec fn hole_parts(parts: Seq<Part>, source: Source) -> Seq<(Source, HoleKey)>
    decreases parts.len(),
{
    if parts.len() == 0 {
        Seq::empty()
    } else {
        hole_parts(parts.drop_last(), source) + match parts.last() {
            Part::Hole(k) => seq![(source, k)],
            Part::Html(_) => Seq::empty(),
        }
    }
}

/// A tab as (id, label, whether it is its group's first).
spec fn tab_view(t: TabInfo) -> (nat, Seq<char>, bool) {
    (t.id as nat, t.label@, t.is_first)
}

/// A tab group as (id, tabs, bar hole).
spec fn group_view(g: TabGroup) -> (nat, Seq<(nat, Seq<char>, bool)>, HoleKey) {
    (g.id as nat, g.tabs@.map_values(|t: TabInfo| tab_view(t)), g.bar_hole)
}

/// The warning for a tab outside any group.
pub open spec fn lone_tab_message() -> Seq<char> {
    "`:::tab` outside a `::::tabs` group; its content is rendered without tab chrome"@
}

/// The warning for a tab group without tabs.
pub open spec fn empty_group_message() -> Seq<char> {
    "`::::tabs` group has no `:::tab` items"@
}

/// The warning for a close that matches no opener.
pub open spec fn stray_close_message() -> Seq<char> {
    "stray ::: with no opening directive"@
}

/// The warning for an inline directive nobody claimed.
pub open spec fn unknown_directive_message(name: Seq<char>) -> Seq<char> {
    "unknown inline directive ':"@ + name + "' \u{2014} no handler registered (or handler returned Skip)"@
}

/// The warning for an inline directive whose handler deferred.
pub open spec fn deferred_inline_message(name: Seq<char>) -> Seq<char> {
    "inline directive ':"@ + name
        + "' returned Deferred; its holes were dropped (inline directives cannot defer content \u{2014} return Html instead)"@
}

/// `n` colons.
fn colon_run(n: usize) -> (r: String)
    ensures
        r@ == Seq::new(n as nat, |i: int| ':'),
{
    let mut r = String::new();
    let mut i: usize = 0;
    while i < n
        invariant
            i <= n,
            r@ == Seq::new(i as nat, |j: int| ':'),
        decreases n - i,
    {
        push_char(&mut r, ':');
        assert(r@ =~= Seq::new((i + 1) as nat, |j: int| ':'));
        i = i + 1;
    }
    r
}

/// The TOC's ids are distinct, and each is an id the accumulator claimed.
pub open spec fn toc_ids_claimed_once(h: HeadingAccumulator) -> bool {
    &&& forall|i: int| 0 <= i < h.toc_view().len() ==> h.claimed().contains(#[trigger] h.toc_view()[i].2)
    &&& forall|i: int, j: int|
        0 <= i < j < h.toc_view().len() ==> #[trigger] h.toc_view()[i].2 != #[trigger] h.toc_view()[j].2
}

/// Keys that are distinct and all below `bound`.
pub open spec fn keys_distinct_below(keys: Seq<HoleKey>, bound: HoleKey) -> bool {
    &&& forall|i: int, j: int| 0 <= i < j < keys.len() ==> #[trigger] keys[i] != #[trigger] keys[j]
    &&& forall|i: int| 0 <= i < keys.len() ==> #[trigger] keys[i] < bound
}

/// Moving the last open key to the end of the closed ones keeps keys
/// distinct and below the bound.
proof fn lemma_move_last_key(c: Seq<HoleKey>, o: Seq<HoleKey>, bound: HoleKey)
    requires
        o.len() > 0,
        keys_distinct_below(c + o, bound),
    ensures
        keys_distinct_below(c.push(o.last()) + o.drop_last(), bound),
{
    let a = c + o;
    let b = c.push(o.last()) + o.drop_last();
    let n = a.len() as int;
    let k = c.len() as int;
    assert(b.len() == n);
    assert forall|i: int| 0 <= i < n implies #[trigger] b[i] == a[if i < k {
        i
    } else if i == k {
        n - 1
    } else {
        i - 1
    }] by {
        if i < k {
        } else if i == k {
        } else {
            assert(b[i] == o[i - k - 1]);
            assert(a[i - 1] == o[i - 1 - k]);
        }
    }
    assert forall|i: int, j: int| 0 <= i < j < n implies #[trigger] b[i] != #[trigger] b[j] by {
        let fi = if i < k {
            i
        } else if i == k {
            n - 1
        } else {
            i - 1
        };
        let fj = if j < k {
            j
        } else if j == k {
            n - 1
        } else {
            j - 1
        };
        assert(b[i] == a[fi]);
        assert(b[j] == a[fj]);
        if fi < fj {
            assert(a[fi] != a[fj]);
        } else {
            assert(a[fj] != a[fi]);
        }
    }
    assert forall|i: int| 0 <= i < n implies #[trigger] b[i] < bound by {
        let fi = if i < k {
            i
        } else if i == k {
            n - 1
        } else {
            i - 1
        };
        assert(b[i] == a[fi]);
    }
}

/// A sequence is a prefix of itself.
proof fn lemma_prefix_refl<T>(a: Seq<T>)
    ensures
        a.is_prefix_of(a),
{
    assert(a.subrange(0, a.len() as int) =~= a);
}

/// A sequence is a prefix of itself with one more element.
proof fn lemma_prefix_push<T>(a: Seq<T>, x: T)
    ensures
        a.is_prefix_of(a.push(x)),
{
    assert(a.push(x).subrange(0, a.len() as int) =~= a);
}

/// A prefix of a prefix is a prefix.
proof fn lemma_prefix_trans<T>(a: Seq<T>, b: Seq<T>, c: Seq<T>)
    requires
        a.is_prefix_of(b),
        b.is_prefix_of(c),
    ensures
        a.is_prefix_of(c),
{
    assert(c.subrange(0, a.len() as int) =~= b.subrange(0, a.len() as int));
}

/// Interprets events into backend output for backend `B`.
pub struct Walker<B: RenderBackend> {
    cfg: RenderConfig,
    processors: Vec<Box<dyn CodeBlockProcessor>>,
    directives: Option<DirectiveProcessor>,
    output: String,
    holes: Holes<Source>,
    tab_groups: Vec<TabGroup>,
    tab_open: Vec<TabGroup>,
    next_group_id: usize,
    next_tab_id: usize,
    next_tab_hole: HoleKey,
    list_stack: Vec<bool>,
    table: TableState,
    heading: HeadingAccumulator,
    alert_stack: Vec<Option<AlertKind>>,
    container_outcomes: Vec<ContainerOutcome>,
    code_block_index: usize,
    scopes: Vec<Scope>,
    section_refs: Vec<String>,
    backend: PhantomData<B>,
}

impl<B: RenderBackend> Walker<B> {
    /// The walk buffer so far.
    pub closed spec fn output_view(&self) -> Seq<char> {
        self.output@
    }

    /// Offsets of the holes reserved so far, in reservation order.
    pub closed spec fn hole_offsets(&self) -> Seq<nat> {
        self.holes.offsets()
    }

    /// Keys of the holes reserved so far, in reservation order.
    pub closed spec fn hole_keys(&self) -> Seq<(Source, u32)> {
        self.holes.keys()
    }

    /// How many scopes are open.
    pub closed spec fn scope_depth(&self) -> nat {
        self.scopes@.len()
    }

    /// How many code blocks the walk has met.
    pub closed spec fn code_blocks_seen(&self) -> nat {
        self.code_block_index as nat
    }

    /// How many container handlers the directive processor has; `-1`
    /// without a processor.
    pub closed spec fn directive_count(&self) -> int {
        match self.directives {
            Some(d) => d.container_count() as int,
            None => -1,
        }
    }

    /// The directive processor's warnings; none without a processor.
    pub closed spec fn warnings_view(&self) -> Seq<Seq<char>> {
        match self.directives {
            Some(d) => d.warnings_view(),
            None => Seq::empty(),
        }
    }

    /// `old` with `msg` added when a directive processor is registered.
    pub open spec fn warned(&self, msg: Seq<char>) -> Seq<Seq<char>> {
        if self.has_directives() {
            self.warnings_view().push(msg)
        } else {
            self.warnings_view()
        }
    }

    /// Whether a directive processor is registered.
    pub closed spec fn has_directives(&self) -> bool {
        self.directives is Some
    }

    /// Hole offsets stay in order and inside the walk buffer; the heading
    /// accumulator is consistent; every container a handler opened names a
    /// registered handler.
    pub closed spec fn wf(&self) -> bool {
        &&& offsets_fit(self.holes.offsets(), self.output@.len())
        &&& self.heading.wf()
        &&& forall|i: int|
            0 <= i < self.container_outcomes@.len() ==> (#[trigger] self.container_outcomes@[i] matches ContainerOutcome::Handled(j)
                ==> 0 <= j < self.directive_count())
        &&& refs_sorted(refs_view(self.section_refs@))
        &&& keys_distinct_below(self.bar_holes(), self.next_tab_hole)
        &&& toc_ids_claimed_once(self.heading)
    }

    /// The bar hole of every tab group, closed ones first, then the open
    /// ones, innermost last.
    pub closed spec fn bar_holes(&self) -> Seq<HoleKey> {
        (self.tab_groups@ + self.tab_open@).map_values(|g: TabGroup| g.bar_hole)
    }

    /// In every state a walk reaches, its holes are in document order and
    /// none lies past the end of the walk buffer.
    pub proof fn lemma_holes_fit(w: &Self)
        requires
            w.wf(),
        ensures
            offsets_fit(w.hole_offsets(), w.output_view().len()),
    {
    }

    /// Tab groups never share a bar hole: in every state a walk reaches,
    /// the bar holes of its groups, closed and open, are distinct.
    pub proof fn lemma_bar_holes_distinct(w: &Self)
        requires
            w.wf(),
        ensures
            forall|i: int, j: int|
                0 <= i < j < w.bar_holes().len() ==> #[trigger] w.bar_holes()[i] != #[trigger] w.bar_holes()[j],
    {
    }

    /// Every heading gets its own anchor: in every state a walk reaches, the
    /// ids of its TOC entries are distinct.
    pub proof fn lemma_toc_ids_distinct(w: &Self)
        requires
            w.wf(),
        ensures
            forall|i: int, j: int|
                0 <= i < j < w.toc_view().len() ==> #[trigger] w.toc_view()[i].2 != #[trigger] w.toc_view()[j].2,
    {
    }

    /// Everything but the walk buffer and the open scopes is as it was.
    spec fn keeps(a: &Self, b: &Self) -> bool {
        &&& b.cfg == a.cfg
        &&& b.processors == a.processors
        &&& b.directives == a.directives
        &&& b.holes == a.holes
        &&& b.tab_groups == a.tab_groups
        &&& b.tab_open == a.tab_open
        &&& b.next_group_id == a.next_group_id
        &&& b.next_tab_id == a.next_tab_id
        &&& b.next_tab_hole == a.next_tab_hole
        &&& b.list_stack == a.list_stack
        &&& b.table == a.table
        &&& b.heading == a.heading
        &&& b.alert_stack == a.alert_stack
        &&& b.container_outcomes == a.container_outcomes
        &&& b.code_block_index == a.code_block_index
        &&& b.section_refs == a.section_refs
    }

    /// The walk buffer only grew, and the holes reserved before are still
    /// the first ones.
    pub closed spec fn grows(a: &Self, b: &Self) -> bool {
        &&& appends(a.output@, b.output@)
        &&& a.holes.offsets().is_prefix_of(b.holes.offsets())
        &&& a.holes.keys().is_prefix_of(b.holes.keys())
    }

    /// The innermost open scope is a heading.
    pub closed spec fn in_heading(&self) -> bool {
        self.scopes@.len() > 0 && self.scopes@.last() is Heading
    }

    /// The innermost open scope is an image.
    pub closed spec fn in_image(&self) -> bool {
        self.scopes@.len() > 0 && self.scopes@.last() is Image
    }

    /// Room to claim the ids of one more heading.
    pub closed spec fn heading_room(&self) -> bool {
        self.heading.has_room()
    }

    /// Room to count one more table cell.
    pub closed spec fn cell_room(&self) -> bool {
        self.table.cell_view() < usize::MAX
    }

    /// A fresh walk: empty buffer, no holes, nothing open.
    pub fn new(
        cfg: RenderConfig,
        processors: Vec<Box<dyn CodeBlockProcessor>>,
        directives: Option<DirectiveProcessor>,
    ) -> (r: Self)
        ensures
            r.wf(),
            r.output_view() == Seq::<char>::empty(),
            r.hole_offsets() == Seq::<nat>::empty(),
            r.scope_depth() == 0,
            r.code_blocks_seen() == 0,
            r.has_directives() == directives is Some,
            r.title_view() is None,
            r.toc_view() == Seq::<(u8, Seq<char>, Seq<char>)>::empty(),
            r.claimed_ids() == Seq::<Seq<char>>::empty(),
            r.title_modes() == (cfg.extract_title, B::title_as_metadata_spec(), false),
            r.refs_view() == Seq::<Seq<char>>::empty(),
            r.warnings_view() == match directives {
                Some(d) => d.warnings_view(),
                None => Seq::<Seq<char>>::empty(),
            },
            r.link_settings() == (
                match cfg.origin_prefix {
                    Some(o) => Some(o@),
                    None => None::<Seq<char>>,
                },
                match cfg.base_path {
                    Some(b) => Some(b@),
                    None => None::<Seq<char>>,
                },
                cfg.is_dir,
                cfg.sections is Some,
            ),
            r.processor_count() == processors@.len(),
            r.all_closed(),
    {
        let extract_title = cfg.extract_title;
        Walker {
            cfg,
            processors,
            directives,
            output: String::new(),
            holes: Holes::new(),
            tab_groups: Vec::new(),
            tab_open: Vec::new(),
            next_group_id: 0,
            next_tab_id: 0,
            next_tab_hole: 0,
            list_stack: Vec::new(),
            table: TableState::default(),
            heading: HeadingAccumulator::new(extract_title, B::title_as_metadata()),
            alert_stack: Vec::new(),
            container_outcomes: Vec::new(),
            code_block_index: 0,
            scopes: Vec::new(),
            section_refs: Vec::new(),
            backend: PhantomData,
        }
    }

    /// Write markup into the innermost scope's buffer, or the walk buffer
    /// when none is open; inside an image it is dropped.
    fn markup(&mut self, m: Markup)
        requires
            old(self).wf(),
        ensures
            final(self).wf(),
            Self::keeps(old(self), final(self)),
            appends(old(self).output@, final(self).output@),
            final(self).scopes@.len() == old(self).scopes@.len(),
            old(self).scopes@.len() == 0 ==> final(self).scopes@ == old(self).scopes@,
            old(self).scopes@.len() > 0 ==> {
                &&& final(self).output == old(self).output
                &&& final(self).scopes@.drop_last() == old(self).scopes@.drop_last()
                &&& scope_took_text(old(self).scopes@.last(), final(self).scopes@.last(), Seq::empty())
            },
            old(self).scopes@.len() > 0 && old(self).scopes@.last() is Image ==> final(self).scopes@ == old(self).scopes@ && final(self).output == old(self).output,
            old(self).scopes@.len() == 0 ==> final(self).output@ == old(self).output@ + markup_text::<B>(m),
            old(self).in_heading() ==> scope_html(final(self).scopes@.last()) == scope_html(old(self).scopes@.last())
                + markup_text::<B>(m),
    {
        if self.scopes.len() == 0 {
            write_markup::<B>(&m, &mut self.output);
        } else {
            let s = self.scopes.pop().unwrap();
            match s {
                Scope::Heading { level, in_first_h1, toc_text, rendered_html } => {
                    let mut body = rendered_html;
                    write_markup::<B>(&m, &mut body);
                    assert(toc_text@ + Seq::<char>::empty() =~= toc_text@);
                    self.scopes.push(Scope::Heading { level, in_first_h1, toc_text, rendered_html: body });
                },
                Scope::Image { alt_text, dest_url, title } => {
                    assert(alt_text@ + Seq::<char>::empty() =~= alt_text@);
                    self.scopes.push(Scope::Image { alt_text, dest_url, title });
                    assert(self.scopes@ =~= old(self).scopes@);
                },
            }
        }
    }

    /// Write text: escaped into a heading's body (and plainly into its
    /// shadow), plainly into an image's alt text, or through the backend.
    fn text(&mut self, text: &str)
        requires
            old(self).wf(),
        ensures
            final(self).wf(),
            Self::keeps(old(self), final(self)),
            appends(old(self).output@, final(self).output@),
            final(self).scopes@.len() == old(self).scopes@.len(),
            old(self).scopes@.len() == 0 ==> final(self).scopes@ == old(self).scopes@,
            old(self).scopes@.len() > 0 ==> {
                &&& final(self).output == old(self).output
                &&& final(self).scopes@.drop_last() == old(self).scopes@.drop_last()
                &&& scope_took_text(old(self).scopes@.last(), final(self).scopes@.last(), text@)
            },
            old(self).scopes@.len() == 0 ==> final(self).output@ == old(self).output@ + B::text_text(text@),
            old(self).in_heading() ==> scope_html(final(self).scopes@.last()) == scope_html(old(self).scopes@.last())
                + B::text_text(text@),
    {
        if self.scopes.len() == 0 {
            B::text(text, &mut self.output);
        } else {
            let s = self.scopes.pop().unwrap();
            match s {
                Scope::Heading { level, in_first_h1, toc_text, rendered_html } => {
                    let mut shadow = toc_text;
                    push_str(&mut shadow, text);
                    let mut body = rendered_html;
                    B::text(text, &mut body);
                    self.scopes.push(Scope::Heading { level, in_first_h1, toc_text: shadow, rendered_html: body });
                },
                Scope::Image { alt_text, dest_url, title } => {
                    let mut alt = alt_text;
                    push_str(&mut alt, text);
                    self.scopes.push(Scope::Image { alt_text: alt, dest_url, title });
                },
            }
        }
    }

    /// Write inline code: in alt text only its body, as plain text.
    fn inline_code(&mut self, code: &str)
        requires
            old(self).wf(),
        ensures
            final(self).wf(),
            Self::keeps(old(self), final(self)),
            appends(old(self).output@, final(self).output@),
            final(self).scopes@.len() == old(self).scopes@.len(),
            old(self).scopes@.len() == 0 ==> final(self).scopes@ == old(self).scopes@,
            old(self).scopes@.len() > 0 ==> {
                &&& final(self).output == old(self).output
                &&& final(self).scopes@.drop_last() == old(self).scopes@.drop_last()
                &&& scope_took_text(old(self).scopes@.last(), final(self).scopes@.last(), code@)
            },
            old(self).scopes@.len() == 0 ==> final(self).output@ == old(self).output@ + B::inline_code_text(code@),
            old(self).in_heading() ==> scope_html(final(self).scopes@.last()) == scope_html(old(self).scopes@.last())
                + B::inline_code_text(code@),
    {
        if self.scopes.len() == 0 {
            B::inline_code(code, &mut self.output);
        } else {
            let s = self.scopes.pop().unwrap();
            match s {
                Scope::Heading { level, in_first_h1, toc_text, rendered_html } => {
                    let mut shadow = toc_text;
                    push_str(&mut shadow, code);
                    let mut body = rendered_html;
                    B::inline_code(code, &mut body);
                    self.scopes.push(Scope::Heading { level, in_first_h1, toc_text: shadow, rendered_html: body });
                },
                Scope::Image { alt_text, dest_url, title } => {
                    let mut alt = alt_text;
                    push_str(&mut alt, code);
                    self.scopes.push(Scope::Image { alt_text: alt, dest_url, title });
                },
            }
        }
    }

    /// A line break: through the backend, or a single space in alt text.
    fn line_break(&mut self, hard: bool)
        requires
            old(self).wf(),
        ensures
            final(self).wf(),
            Self::keeps(old(self), final(self)),
            appends(old(self).output@, final(self).output@),
            final(self).scopes@.len() == old(self).scopes@.len(),
            old(self).scopes@.len() == 0 ==> final(self).scopes@ == old(self).scopes@,
            old(self).scopes@.len() > 0 ==> {
                &&& final(self).output == old(self).output
                &&& final(self).scopes@.drop_last() == old(self).scopes@.drop_last()
                &&& scope_took_text(old(self).scopes@.last(), final(self).scopes@.last(), if old(self).scopes@.last() is Image {
                    seq![' ']
                } else {
                    Seq::<char>::empty()
                })
            },
            old(self).scopes@.len() == 0 ==> final(self).output@ == old(self).output@ + break_text::<B>(hard),
            old(self).in_heading() ==> scope_html(final(self).scopes@.last()) == scope_html(old(self).scopes@.last())
                + break_text::<B>(hard),
    {
        if self.scopes.len() == 0 {
            if hard {
                B::hard_break(&mut self.output);
            } else {
                B::soft_break(&mut self.output);
            }
        } else {
            let s = self.scopes.pop().unwrap();
            match s {
                Scope::Heading { level, in_first_h1, toc_text, rendered_html } => {
                    let mut body = rendered_html;
                    if hard {
                        B::hard_break(&mut body);
                    } else {
                        B::soft_break(&mut body);
                    }
                    assert(toc_text@ + Seq::<char>::empty() =~= toc_text@);
                    self.scopes.push(Scope::Heading { level, in_first_h1, toc_text, rendered_html: body });
                },
                Scope::Image { alt_text, dest_url, title } => {
                    let mut alt = alt_text;
                    push_char(&mut alt, ' ');
                    assert(alt@ =~= alt_text@ + seq![' ']);
                    self.scopes.push(Scope::Image { alt_text: alt, dest_url, title });
                },
            }
        }
    }

    /// Reserve a hole for `key` at the current end of the walk buffer.
    fn reserve_hole(&mut self, key: GlobalKey<Source>)
        requires
            old(self).wf(),
        ensures
            final(self).wf(),
            Self::grows(old(self), final(self)),
            final(self).holes.offsets() == old(self).holes.offsets().push(old(self).output@.len()),
            final(self).holes.keys() == old(self).holes.keys().push((key.0, key.1)),
            final(self).output == old(self).output,
            final(self).scopes == old(self).scopes,
            final(self).directives == old(self).directives,
            final(self).heading == old(self).heading,
            final(self).container_outcomes == old(self).container_outcomes,
            final(self).section_refs == old(self).section_refs,
            final(self).code_block_index == old(self).code_block_index,
            final(self).tab_open == old(self).tab_open,
            final(self).tab_groups == old(self).tab_groups,
            final(self).next_group_id == old(self).next_group_id,
            final(self).next_tab_id == old(self).next_tab_id,
            final(self).next_tab_hole == old(self).next_tab_hole,
            final(self).processors == old(self).processors,
            final(self).cfg == old(self).cfg,
    {
        let ghost offs = self.holes.offsets();
        proof {
            if offs.len() > 0 {
                assert(offs[offs.len() - 1] <= self.output@.len());
            }
        }
        let at = self.output.as_str().unicode_len();
        self.holes.reserve(at, key);
        proof {
            assert(offs.is_prefix_of(self.holes.offsets())) by {
                assert(self.holes.offsets().subrange(0, offs.len() as int) =~= offs);
            }
            assert(old(self).holes.keys().is_prefix_of(self.holes.keys())) by {
                assert(self.holes.keys().subrange(0, old(self).holes.keys().len() as int) =~= old(self).holes.keys());
            }
        }
    }

    /// Record a section ref the page links to.
    fn add_section_ref(&mut self, r: String)
        requires
            old(self).wf(),
        ensures
            final(self).wf(),
            Self::keeps_but_refs(old(self), final(self)),
            forall|x: Seq<char>|
                #[trigger] final(self).refs_view().contains(x) <==> (old(self).refs_view().contains(x) || x == r@),
    {
        insert_ref(&mut self.section_refs, r);
    }

    /// Everything but the section refs is as it was.
    spec fn keeps_but_refs(a: &Self, b: &Self) -> bool {
        &&& b.cfg == a.cfg
        &&& b.processors == a.processors
        &&& b.directives == a.directives
        &&& b.output == a.output
        &&& b.holes == a.holes
        &&& b.tab_groups == a.tab_groups
        &&& b.tab_open == a.tab_open
        &&& b.next_group_id == a.next_group_id
        &&& b.next_tab_id == a.next_tab_id
        &&& b.next_tab_hole == a.next_tab_hole
        &&& b.list_stack == a.list_stack
        &&& b.table == a.table
        &&& b.heading == a.heading
        &&& b.alert_stack == a.alert_stack
        &&& b.container_outcomes == a.container_outcomes
        &&& b.code_block_index == a.code_block_index
        &&& b.scopes == a.scopes
    }

    /// The opening of a link: a wikilink resolves through the section
    /// registry (and, without a display text of its own, writes one); any
    /// other link has the origin stripped and goes through the backend's
    /// link transform. Section refs it lands in are recorded.
    fn start_link(&mut self, kind: LinkKind, dest_url: String)
        requires
            old(self).wf(),
        ensures
            final(self).wf(),
            Self::grows(old(self), final(self)),
            final(self).scopes@.len() == old(self).scopes@.len(),
            final(self).directives == old(self).directives,
            final(self).code_block_index == old(self).code_block_index,
            final(self).container_outcomes == old(self).container_outcomes,
            final(self).heading == old(self).heading,
            final(self).table == old(self).table,
            final(self).tab_open == old(self).tab_open,
            final(self).tab_groups == old(self).tab_groups,
            final(self).next_group_id == old(self).next_group_id,
            final(self).next_tab_id == old(self).next_tab_id,
            final(self).next_tab_hole == old(self).next_tab_hole,
            final(self).processors == old(self).processors,
            final(self).cfg == old(self).cfg,
            final(self).holes == old(self).holes,
            forall|x: Seq<char>| #[trigger] old(self).refs_view().contains(x) ==> final(self).refs_view().contains(x),
            old(self).cfg.sections is None ==> final(self).section_refs == old(self).section_refs,
            old(self).scopes@.len() == 0 ==> final(self).scopes@ == old(self).scopes@,
            old(self).scopes@.len() > 0 ==> {
                &&& final(self).output == old(self).output
                &&& final(self).scopes@.drop_last() == old(self).scopes@.drop_last()
            },
            old(self).scopes@.len() > 0 ==> exists|s: Seq<char>|
                scope_took_text(old(self).scopes@.last(), final(self).scopes@.last(), s),
            old(self).scopes@.len() > 0 && !(kind matches LinkKind::Wiki { has_pothole: false }) ==> scope_took_text(
                old(self).scopes@.last(),
                final(self).scopes@.last(),
                Seq::empty(),
            ),
            old(self).scopes@.len() > 0 && (kind matches LinkKind::Wiki { has_pothole: false }) && dest_url@.len() > 0
                && dest_url@[0] == '#' ==> scope_took_text(
                old(self).scopes@.last(),
                final(self).scopes@.last(),
                fragment_text_spec(dest_url@),
            ),
            old(self).scopes@.len() > 0 && (kind matches LinkKind::Wiki { has_pothole: false }) && !(dest_url@.len()
                > 0 && dest_url@[0] == '#') && old(self).cfg.sections is None ==> scope_took_text(
                old(self).scopes@.last(),
                final(self).scopes@.last(),
                dest_url@,
            ),
            kind is Other && old(self).scopes@.len() == 0 ==> exists|section: Option<(Seq<char>, Seq<char>)>|
                final(self).output@ == old(self).output@ + B::link_start_text(old(self).link_href(dest_url@), section)
                    && (old(self).cfg.sections is None ==> section is None),
    {
        let ghost s0 = *self;
        let ghost mut pre = *self;
        match kind {
            LinkKind::Wiki { has_pothole } => {
                let resolution = {
                    let sections: Option<&dyn SectionIndex> = match &self.cfg.sections {
                        Some(b) => Some(&**b),
                        None => None,
                    };
                    let base: Option<&str> = match &self.cfg.base_path {
                        Some(b) => Some(b.as_str()),
                        None => None,
                    };
                    wikilink::resolve(sections, base, dest_url.as_str())
                };
                match &resolution {
                    WikilinkResolution::Resolved { href, section_ref, subpath, .. } => {
                        let has_ref = !section_ref.as_str().is_empty();
                        if has_ref {
                            self.add_section_ref(section_ref.clone());
                        }
                        proof {
                            pre = *self;
                        }
                        let section = if has_ref {
                            Some((section_ref.clone(), subpath.clone()))
                        } else {
                            None
                        };
                        self.markup(Markup::LinkStart { href: href.clone(), section });
                    },
                    WikilinkResolution::Fragment => {
                        self.markup(Markup::LinkStart { href: dest_url.clone(), section: None });
                    },
                    WikilinkResolution::Broken => {
                        self.markup(Markup::BrokenLinkStart);
                    },
                }
                let ghost s1 = *self;
                proof {
                    assert(s1.section_refs == pre.section_refs);
                    assert forall|x: Seq<char>| #[trigger] s0.refs_view().contains(x) implies s1.refs_view().contains(x) by {
                        assert(pre.refs_view().contains(x));
                    }
                    if s0.scopes@.len() > 0 {
                        assert(scope_took_text(s0.scopes@.last(), s1.scopes@.last(), Seq::empty()));
                    }
                }
                if !has_pothole {
                    let display = {
                        let titles: Option<&dyn TitleResolver> = match &self.cfg.title_resolver {
                            Some(b) => Some(&**b),
                            None => None,
                        };
                        wikilink::display_text(titles, &resolution, dest_url.as_str())
                    };
                    self.text(display.as_str());
                    proof {
                        if s0.scopes@.len() > 0 {
                            lemma_took_text_chain(
                                s0.scopes@.last(),
                                s1.scopes@.last(),
                                self.scopes@.last(),
                                Seq::empty(),
                                display@,
                            );
                            assert(Seq::<char>::empty() + display@ =~= display@);
                            if dest_url@.len() > 0 && dest_url@[0] == '#' {
                                assert(display@ == fragment_text_spec(dest_url@));
                            } else if s0.cfg.sections is None {
                                assert(display@ == dest_url@);
                            }
                        }
                    }
                }
            },
            LinkKind::Other => {
                let (href, section) = {
                    let origin: Option<&str> = match &self.cfg.origin_prefix {
                        Some(o) => Some(o.as_str()),
                        None => None,
                    };
                    let stripped = link::strip_origin(origin, dest_url.as_str());
                    let base_path: Option<&str> = match &self.cfg.base_path {
                        Some(b) => Some(b.as_str()),
                        None => None,
                    };
                    let base = link::link_base(base_path, self.cfg.is_dir);
                    let base_ref: Option<&str> = match &base {
                        Some(b) => Some(b.as_str()),
                        None => None,
                    };
                    let href = B::transform_link(stripped.as_str(), base_ref);
                    let sections: Option<&dyn SectionIndex> = match &self.cfg.sections {
                        Some(b) => Some(&**b),
                        None => None,
                    };
                    let section = link::section_ref_attrs(sections, href.as_str());
                    (href, section)
                };
                match &section {
                    Some((r, _)) => {
                        self.add_section_ref(r.clone());
                    },
                    None => {},
                }
                proof {
                    pre = *self;
                    assert(href@ == s0.link_href(dest_url@));
                }
                let ghost sec = match &section {
                    Some(sp) => Some((sp.0@, sp.1@)),
                    None => None::<(Seq<char>, Seq<char>)>,
                };
                self.markup(Markup::LinkStart { href, section });
                assert(s0.scopes@.len() == 0 ==> self.output@ == s0.output@ + B::link_start_text(s0.link_href(dest_url@), sec));
                proof {
                    assert(self.section_refs == pre.section_refs);
                    assert forall|x: Seq<char>| #[trigger] s0.refs_view().contains(x) implies self.refs_view().contains(x) by {
                        assert(pre.refs_view().contains(x));
                    }
                }
            },
        }
    }


    /// What every tag handler leaves alone.
    spec fn tag_frame(a: &Self, b: &Self) -> bool {
        &&& b.directives == a.directives
        &&& b.code_block_index == a.code_block_index
        &&& b.container_outcomes == a.container_outcomes
        &&& b.tab_open == a.tab_open
        &&& b.tab_groups == a.tab_groups
        &&& b.next_group_id == a.next_group_id
        &&& b.next_tab_id == a.next_tab_id
        &&& b.next_tab_hole == a.next_tab_hole
        &&& b.processors == a.processors
        &&& b.cfg == a.cfg
        &&& b.holes == a.holes
    }

    /// The start of a nesting construct. A heading or an image opens a
    /// scope; block constructs write straight to the walk buffer.
    fn start_tag(&mut self, tag: Tag)
        requires
            old(self).wf(),
        ensures
            final(self).wf(),
            Self::grows(old(self), final(self)),
            Self::tag_frame(old(self), final(self)),
            final(self).scopes@.len() == old(self).scopes@.len() + (if tag is Heading || tag is Image {
                1int
            } else {
                0int
            }),
            block_start_text::<B>(tag, old(self).table) matches Some(x) ==> final(self).output@ == old(
                self,
            ).output@ + x,
            inline_start_markup(tag) matches Some(m) ==> {
                &&& old(self).scopes@.len() == 0 ==> final(self).output@ == old(self).output@ + markup_text::<B>(m)
                &&& old(self).in_heading() ==> scope_html(final(self).scopes@.last()) == scope_html(
                    old(self).scopes@.last(),
                ) + markup_text::<B>(m)
            },
            (tag is Heading || tag is Image) ==> final(self).output == old(self).output,
            match tag {
                Tag::Link { kind: LinkKind::Other, dest_url } => old(self).scopes@.len() == 0 ==> exists|
                    section: Option<(Seq<char>, Seq<char>)>,
                |
                    final(self).output@ == old(self).output@ + B::link_start_text(old(self).link_href(dest_url@), section)
                        && (!old(self).link_settings().3 ==> section is None),
                _ => true,
            },
    {
        match tag {
            Tag::Paragraph => B::paragraph_start(&mut self.output),
            Tag::Heading { level } => {
                let in_first_h1 = self.heading.is_skipped_title(level);
                self.scopes.push(
                    Scope::Heading { level, in_first_h1, toc_text: String::new(), rendered_html: String::new() },
                );
            },
            Tag::BlockQuote(kind) => {
                self.alert_stack.push(kind);
                match kind {
                    Some(k) => B::alert_start(k, &mut self.output),
                    None => B::blockquote_start(&mut self.output),
                }
            },
            Tag::List(start) => {
                self.list_stack.push(start.is_some());
                B::list_start(start.is_some(), start, &mut self.output);
            },
            Tag::Item => B::list_item_start(&mut self.output),
            Tag::DefinitionList => B::definition_list_start(&mut self.output),
            Tag::DefinitionListTitle => B::definition_title_start(&mut self.output),
            Tag::DefinitionListDefinition => B::definition_detail_start(&mut self.output),
            Tag::Table(alignments) => {
                self.table.start(alignments);
                B::table_start(&mut self.output);
            },
            Tag::TableHead => {
                self.table.start_head();
                B::table_head_start(&mut self.output);
            },
            Tag::TableRow => {
                self.table.start_row();
                B::table_row_start(&mut self.output);
            },
            Tag::TableCell => {
                let alignment = self.table.current_alignment();
                let is_head = self.table.is_in_head();
                B::table_cell_start(is_head, alignment, &mut self.output);
            },
            Tag::Emphasis => self.markup(Markup::EmphasisStart),
            Tag::Strong => self.markup(Markup::StrongStart),
            Tag::Strikethrough => self.markup(Markup::StrikethroughStart),
            Tag::Superscript => self.markup(Markup::SuperscriptStart),
            Tag::Subscript => self.markup(Markup::SubscriptStart),
            Tag::Link { kind, dest_url } => self.start_link(kind, dest_url),
            Tag::Image { dest_url, title } => {
                let dest = {
                    let origin: Option<&str> = match &self.cfg.origin_prefix {
                        Some(o) => Some(o.as_str()),
                        None => None,
                    };
                    link::strip_origin(origin, dest_url.as_str())
                };
                self.scopes.push(Scope::Image { alt_text: String::new(), dest_url: dest, title });
            },
        }
        proof {
            assert(old(self).holes.offsets().subrange(0, old(self).holes.offsets().len() as int) =~= old(self).holes.offsets());
            assert(old(self).holes.keys().subrange(0, old(self).holes.keys().len() as int) =~= old(self).holes.keys());
        }
    }

    /// Close the innermost heading: a title-as-metadata first H1 becomes
    /// the title and writes nothing; any other heading claims a unique id
    /// and is written with its trimmed body.
    fn end_heading(&mut self)
        requires
            old(self).wf(),
            old(self).in_heading(),
            old(self).heading_room(),
        ensures
            final(self).wf(),
            Self::grows(old(self), final(self)),
            Self::tag_frame(old(self), final(self)),
            final(self).scopes@.len() + 1 == old(self).scopes@.len(),
            old(self).scopes@.last() matches Scope::Heading { in_first_h1, rendered_html, .. } ==> heading_written::<B>(
                old(self),
                final(self),
                in_first_h1,
                rendered_html@,
            ),
            old(self).scopes@.len() == 1 ==> Self::heading_closed(old(self), final(self)),
    {
        let s = self.scopes.pop().unwrap();
        match s {
            Scope::Heading { level, in_first_h1, toc_text, rendered_html } => {
                if in_first_h1 {
                    self.heading.complete_first_h1(toc_text.as_str());
                    assert(old(self).open_heading() == (level, in_first_h1, toc_text@, rendered_html@));
                    assert(Self::heading_closed(old(self), self));
                } else {
                    let ghost h0 = self.heading;
                    let done = self.heading.complete_heading(level, toc_text.as_str(), rendered_html);
                    proof {
                        let h1 = self.heading;
                        assert forall|i: int| 0 <= i < h1.toc_view().len() implies h1.claimed().contains(
                            #[trigger] h1.toc_view()[i].2,
                        ) by {
                            if i < h0.toc_view().len() {
                                assert(h1.toc_view()[i] == h0.toc_view()[i]);
                            }
                        }
                        assert forall|i: int, j: int| 0 <= i < j < h1.toc_view().len() implies #[trigger] h1.toc_view()[i].2
                            != #[trigger] h1.toc_view()[j].2 by {
                            assert(h1.toc_view()[i] == h0.toc_view()[i]);
                            if j < h0.toc_view().len() {
                                assert(h1.toc_view()[j] == h0.toc_view()[j]);
                            } else {
                                assert(h0.claimed().contains(h0.toc_view()[i].2));
                            }
                        }
                    }
                    let ghost o0 = self.output@;
                    B::heading_start(done.adjusted_level, done.id.as_str(), &mut self.output);
                    let body = trim_string(done.rendered_html.as_str());
                    let ghost o1 = self.output@;
                    push_str(&mut self.output, body.as_str());
                    let ghost o2 = self.output@;
                    assert(appends(o1, o2));
                    B::heading_end(done.adjusted_level, &mut self.output);
                    assert(appends(o0, o2));
                    assert(appends(o0, self.output@));
                    proof {
                        let l = done.adjusted_level;
                        assert(o0 == old(self).output@);
                        assert(self.output@ == old(self).output@ + B::heading_start_text(l, done.id@) + trim_seq(
                            done.rendered_html@,
                        ) + B::heading_end_text(l));
                        assert(old(self).open_heading() == (level, in_first_h1, toc_text@, done.rendered_html@));
                        assert(l == old(self).written_level(level));
                        assert(self.claimed_ids() == self.heading.claimed());
                        assert(old(self).claimed_ids() == h0.claimed());
                        assert(old(self).title_modes() == (h0.extracts_title(), h0.title_is_metadata(), h0.seen_first()));
                        assert(old(self).title_view() == h0.title_view());
                        assert(self.title_view() == self.heading.title_view());
                        assert(self.toc_view() == self.heading.toc_view());
                        assert(self.output_view() == self.output@);
                        let text = toc_text@;
                        let id = done.id@;
                        assert(old(self).heading_is_title(level) == (h0.extracts_title() && !h0.title_is_metadata()
                            && level == 1 && h0.title_view() is None));
                        assert(!old(self).claimed_ids().contains(base_id(text)) ==> id == base_id(text));
                        assert(old(self).claimed_ids().contains(base_id(text)) ==> first_free_suffix(
                            old(self).claimed_ids(),
                            base_id(text),
                            id,
                        ));
                        assert(old(self).heading_is_title(level) ==> self.title_view() == Some(trim_seq(text))
                            && self.toc_view() == old(self).toc_view());
                        assert(!old(self).heading_is_title(level) ==> self.title_view() == old(self).title_view()
                            && self.toc_view() == old(self).toc_view().push((l, trim_seq(text), id)));
                        assert(Self::heading_closed_with(old(self), self, id));
                    }
                }
            },
            Scope::Image { .. } => {},
        }
        proof {
            assert(old(self).holes.offsets().subrange(0, old(self).holes.offsets().len() as int) =~= old(self).holes.offsets());
            assert(old(self).holes.keys().subrange(0, old(self).holes.keys().len() as int) =~= old(self).holes.keys());
        }
    }

    /// Close the innermost image: written with its alt text into the scope
    /// around it (the image's own scope is gone first).
    fn end_image(&mut self)
        requires
            old(self).wf(),
            old(self).in_image(),
        ensures
            final(self).wf(),
            Self::grows(old(self), final(self)),
            Self::tag_frame(old(self), final(self)),
            final(self).scopes@.len() + 1 == old(self).scopes@.len(),
            old(self).scopes@.len() == 1 ==> (old(self).scopes@.last() matches Scope::Image { alt_text, dest_url, title }
                ==> final(self).output@ == old(self).output@ + B::image_text(dest_url@, alt_text@, title@)),
    {
        let s = self.scopes.pop().unwrap();
        match s {
            Scope::Image { alt_text, dest_url, title } => {
                self.markup(Markup::Image { src: dest_url, alt: alt_text, title });
            },
            Scope::Heading { .. } => {},
        }
        proof {
            assert(old(self).holes.offsets().subrange(0, old(self).holes.offsets().len() as int) =~= old(self).holes.offsets());
            assert(old(self).holes.keys().subrange(0, old(self).holes.keys().len() as int) =~= old(self).holes.keys());
        }
    }

    /// The end of a nesting construct.
    fn end_tag(&mut self, tag: TagEnd)
        requires
            old(self).wf(),
            tag == TagEnd::Heading ==> old(self).in_heading() && old(self).heading_room(),
            tag == TagEnd::Image ==> old(self).in_image(),
            tag == TagEnd::TableCell ==> old(self).cell_room(),
        ensures
            final(self).wf(),
            Self::grows(old(self), final(self)),
            Self::tag_frame(old(self), final(self)),
            final(self).scopes@.len() + (if tag == TagEnd::Heading || tag == TagEnd::Image {
                1int
            } else {
                0int
            }) == old(self).scopes@.len(),
            block_end_text::<B>(tag, old(self).table, old(self).alert_stack@) matches Some(x) ==> final(self).output@
                == old(self).output@ + x,
            inline_end_markup(tag) matches Some(m) ==> {
                &&& old(self).scopes@.len() == 0 ==> final(self).output@ == old(self).output@ + markup_text::<B>(m)
                &&& old(self).in_heading() ==> scope_html(final(self).scopes@.last()) == scope_html(
                    old(self).scopes@.last(),
                ) + markup_text::<B>(m)
            },
            tag == TagEnd::Heading ==> (old(self).scopes@.last() matches Scope::Heading { in_first_h1, rendered_html, .. } ==> heading_written::<B>(
                old(self),
                final(self),
                in_first_h1,
                rendered_html@,
            )),
            tag == TagEnd::Image && old(self).scopes@.len() == 1 ==> (old(self).scopes@.last() matches Scope::Image { alt_text, dest_url, title }
                ==> final(self).output@ == old(self).output@ + B::image_text(dest_url@, alt_text@, title@)),
            tag == TagEnd::Heading && old(self).scopes@.len() == 1 ==> Self::heading_closed(old(self), final(self)),
    {
        match tag {
            TagEnd::Paragraph => B::paragraph_end(&mut self.output),
            TagEnd::Heading => self.end_heading(),
            TagEnd::BlockQuote => {
                let top = self.alert_stack.pop();
                match top {
                    Some(Some(k)) => B::alert_end(k, &mut self.output),
                    _ => B::blockquote_end(&mut self.output),
                }
            },
            TagEnd::List(ordered) => {
                self.list_stack.pop();
                B::list_end(ordered, &mut self.output);
            },
            TagEnd::Item => B::list_item_end(&mut self.output),
            TagEnd::Image => self.end_image(),
            TagEnd::DefinitionList => B::definition_list_end(&mut self.output),
            TagEnd::DefinitionListTitle => B::definition_title_end(&mut self.output),
            TagEnd::DefinitionListDefinition => B::definition_detail_end(&mut self.output),
            TagEnd::Table => B::table_end(&mut self.output),
            TagEnd::TableHead => {
                B::table_head_end(&mut self.output);
                self.table.end_head();
            },
            TagEnd::TableRow => B::table_row_end(&mut self.output),
            TagEnd::TableCell => {
                let is_head = self.table.is_in_head();
                B::table_cell_end(is_head, &mut self.output);
                self.table.next_cell();
            },
            TagEnd::Emphasis => self.markup(Markup::EmphasisEnd),
            TagEnd::Strong => self.markup(Markup::StrongEnd),
            TagEnd::Strikethrough => self.markup(Markup::StrikethroughEnd),
            TagEnd::Superscript => self.markup(Markup::SuperscriptEnd),
            TagEnd::Subscript => self.markup(Markup::SubscriptEnd),
            TagEnd::Link => self.markup(Markup::LinkEnd),
        }
        proof {
            assert(old(self).holes.offsets().subrange(0, old(self).holes.offsets().len() as int) =~= old(self).holes.offsets());
            assert(old(self).holes.keys().subrange(0, old(self).holes.keys().len() as int) =~= old(self).holes.keys());
        }
    }


    /// What writing directive output leaves alone.
    spec fn dir_frame(a: &Self, b: &Self) -> bool {
        &&& b.directive_count() == a.directive_count()
        &&& b.code_block_index == a.code_block_index
        &&& b.container_outcomes == a.container_outcomes
        &&& b.tab_open == a.tab_open
        &&& b.tab_groups == a.tab_groups
        &&& b.next_group_id == a.next_group_id
        &&& b.next_tab_id == a.next_tab_id
        &&& b.next_tab_hole == a.next_tab_hole
        &&& b.processors == a.processors
        &&& b.cfg == a.cfg
        &&& b.scopes@.len() == a.scopes@.len()
    }

    /// Growing twice grows.
    proof fn lemma_grows_trans(a: &Self, b: &Self, c: &Self)
        requires
            Self::grows(a, b),
            Self::grows(b, c),
        ensures
            Self::grows(a, c),
    {
        lemma_prefix_trans(a.holes.offsets(), b.holes.offsets(), c.holes.offsets());
        lemma_prefix_trans(a.holes.keys(), b.holes.keys(), c.holes.keys());
    }

    /// Growing by nothing.
    proof fn lemma_grows_refl(a: &Self)
        ensures
            Self::grows(a, a),
    {
        assert(a.holes.offsets().subrange(0, a.holes.offsets().len() as int) =~= a.holes.offsets());
        assert(a.holes.keys().subrange(0, a.holes.keys().len() as int) =~= a.holes.keys());
    }

    /// Record a warning with the directive processor, when there is one.
    fn warn(&mut self, msg: String)
        requires
            old(self).wf(),
        ensures
            final(self).wf(),
            Self::dir_frame(old(self), final(self)),
            final(self).output == old(self).output,
            final(self).holes == old(self).holes,
            final(self).scopes == old(self).scopes,
            final(self).heading == old(self).heading,
            final(self).section_refs == old(self).section_refs,
            final(self).warnings_view() == old(self).warned(msg@),
    {
        match self.directives.take() {
            Some(p) => {
                let mut p = p;
                p.push_warning(msg);
                self.directives = Some(p);
            },
            None => {},
        }
    }

    /// Write a deferred directive's parts: markup now, and a hole for each
    /// hole, keyed under `source`.
    fn emit_parts(&mut self, parts: Vec<Part>, source: Source)
        requires
            old(self).wf(),
            old(self).scopes@.len() == 0,
        ensures
            final(self).wf(),
            Self::grows(old(self), final(self)),
            Self::dir_frame(old(self), final(self)),
            final(self).holes.keys() == old(self).holes.keys() + hole_parts(parts@, source),
            final(self).directives == old(self).directives,
    {
        proof {
            Self::lemma_grows_refl(self);
            assert(old(self).holes.keys() + hole_parts(parts@.take(0), source) =~= old(self).holes.keys());
        }
        let mut i: usize = 0;
        while i < parts.len()
            invariant
                i <= parts@.len(),
                self.wf(),
                self.scopes@.len() == 0,
                Self::grows(old(self), self),
                Self::dir_frame(old(self), self),
                self.holes.keys() == old(self).holes.keys() + hole_parts(parts@.take(i as int), source),
                self.directives == old(self).directives,
            decreases parts.len() - i,
        {
            let ghost keys0 = self.holes.keys();
            assert(parts@.take(i + 1).drop_last() =~= parts@.take(i as int));
            let ghost before = *self;
            match &parts[i] {
                Part::Html(h) => {
                    self.markup(Markup::RawHtml(h.clone()));
                },
                Part::Hole(key) => {
                    self.reserve_hole(GlobalKey(source, *key));
                },
            }
            proof {
                Self::lemma_grows_trans(old(self), &before, self);
                assert(self.holes.keys() =~= old(self).holes.keys() + hole_parts(parts@.take(i + 1), source));
            }
            i = i + 1;
        }
        assert(parts@.take(parts@.len() as int) =~= parts@);
    }


    /// One inline directive: the `status` badge is built in and needs no
    /// handler; any other name goes to the directive processor. Markup a
    /// handler returns is written as raw HTML; holes it asks for are dropped
    /// with a warning (inline directives cannot defer); a directive nobody
    /// claims is written back as `raw` text, with a warning.
    fn emit_inline_directive(&mut self, name: String, args: DirectiveArgs, raw: &str)
        requires
            old(self).wf(),
            old(self).directives is Some || name@ == "status"@,
            name@ == "status"@ ==> args.wf(),
        ensures
            final(self).wf(),
            Self::grows(old(self), final(self)),
            Self::dir_frame(old(self), final(self)),
            final(self).holes == old(self).holes,
            old(self).warnings_view().is_prefix_of(final(self).warnings_view()),
            name@ == "status"@ ==> final(self).warnings_view() == old(self).warnings_view(),
            name@ != "status"@ ==> final(self).warnings_view() == old(self).warnings_view() || final(self).warnings_view()
                == old(self).warned(unknown_directive_message(name@)) || final(self).warnings_view() == old(
                self,
            ).warned(deferred_inline_message(name@)),
            name@ != "status"@ && (old(self).directives matches Some(d) && !d.inline_names().contains(name@))
                ==> final(self).warnings_view() == old(self).warned(unknown_directive_message(name@)),
            name@ == "status"@ && old(self).scopes@.len() == 0 ==> final(self).output@ == old(self).output@
                + badge_text::<B>(args),
            name@ == "status"@ && old(self).in_heading() ==> scope_html(final(self).scopes@.last()) == scope_html(
                old(self).scopes@.last(),
            ) + badge_text::<B>(args),
            name@ != "status"@ && (old(self).directives matches Some(d) && !d.inline_names().contains(name@))
                && old(self).scopes@.len() == 0 ==> final(self).output@ == old(self).output@ + B::text_text(raw@),
            name@ != "status"@ && old(self).inline_answer(name@, args) is Some ==> final(self).warnings_view()
                == old(self).warnings_view() && (old(self).scopes@.len() == 0 ==> final(self).output@ == old(
                self,
            ).output@ + B::raw_html_text(old(self).inline_answer(name@, args)->0)),
    {
        let ghost start = *self;
        proof {
            lemma_prefix_refl(self.warnings_view());
            lemma_prefix_push(self.warnings_view(), unknown_directive_message(name@));
            lemma_prefix_push(self.warnings_view(), deferred_inline_message(name@));
        }
        if crate::text::str_eq(name.as_str(), "status") {
            let color = match args.get("color") {
                Some(c) => StatusColor::from_name(c),
                None => StatusColor::from_name(""),
            };
            self.markup(Markup::StatusOpen(color));
            let label = trim_string(args.content());
            self.text(label.as_str());
            self.markup(Markup::StatusClose);
            return;
        }
        let out = match self.directives.take() {
            Some(p) => {
                let mut p = p;
                let o = p.dispatch_inline_named(name.as_str(), args);
                self.directives = Some(p);
                o
            },
            None => DirectiveOutput::Skip,
        };
        let ghost mid = *self;
        proof {
            Self::lemma_grows_refl(self);
        }
        match out {
            DirectiveOutput::Html(h) => {
                self.markup(Markup::RawHtml(h));
            },
            DirectiveOutput::Deferred(parts) => {
                let mut msg = String::new();
                push_str(&mut msg, "inline directive ':");
                push_str(&mut msg, name.as_str());
                push_str(
                    &mut msg,
                    "' returned Deferred; its holes were dropped (inline directives cannot defer content \u{2014} return Html instead)",
                );
                assert(msg@ == deferred_inline_message(name@));
                self.warn(msg);
                let ghost mid2 = *self;
                let mut i: usize = 0;
                while i < parts.len()
                    invariant
                        i <= parts@.len(),
                        self.wf(),
                        Self::grows(&mid, self),
                        Self::dir_frame(&mid, self),
                        self.holes == mid.holes,
                        self.directives == mid2.directives,
                    decreases parts.len() - i,
                {
                    match &parts[i] {
                        Part::Html(h) => {
                            self.markup(Markup::RawHtml(h.clone()));
                        },
                        Part::Hole(_) => {},
                    }
                    i = i + 1;
                }
            },
            DirectiveOutput::Skip => {
                let mut msg = String::new();
                push_str(&mut msg, "unknown inline directive ':");
                push_str(&mut msg, name.as_str());
                push_str(&mut msg, "' \u{2014} no handler registered (or handler returned Skip)");
                assert(msg@ == unknown_directive_message(name@));
                self.warn(msg);
                self.text(raw);
            },
        }
    }

    /// `b` is `a` after `s` went in as plain text: no warning, and inside a
    /// scope only that scope took it.
    spec fn passed_as_text(a: &Self, b: &Self, s: Seq<char>) -> bool {
        &&& b.warnings_view() == a.warnings_view()
        &&& b.scopes@.len() == a.scopes@.len()
        &&& a.scopes@.len() == 0 ==> b.scopes@ == a.scopes@
        &&& a.scopes@.len() > 0 ==> {
            &&& b.output == a.output
            &&& b.scopes@.drop_last() == a.scopes@.drop_last()
            &&& scope_took_text(a.scopes@.last(), b.scopes@.last(), s)
        }
    }

    /// Write text, expanding the inline directives in it. A run of two or
    /// more colons is no inline directive: it is written as text and the
    /// scan goes on after it. Text without a colon is written as it is.
    fn flush_text(&mut self, text: &str)
        requires
            old(self).wf(),
            old(self).directives is Some,
        ensures
            final(self).wf(),
            Self::grows(old(self), final(self)),
            Self::dir_frame(old(self), final(self)),
            final(self).holes == old(self).holes,
            old(self).warnings_view().is_prefix_of(final(self).warnings_view()),
            !text@.contains(':') ==> Self::passed_as_text(old(self), final(self), text@),
    {
        proof {
            Self::lemma_grows_refl(self);
            lemma_prefix_refl(self.warnings_view());
        }
        let v = chars_of(text);
        let mut pos: usize = 0;
        while pos < v.len()
            invariant
                pos <= v@.len(),
                v@ == text@,
                self.wf(),
                self.directives is Some,
                Self::grows(old(self), self),
                Self::dir_frame(old(self), self),
                self.holes == old(self).holes,
                old(self).warnings_view().is_prefix_of(self.warnings_view()),
                pos == 0 ==> *self == *old(self),
                !v@.contains(':') && pos > 0 ==> pos == v@.len() && Self::passed_as_text(old(self), self, v@),
            decreases v.len() - pos,
        {
            let ghost before = *self;
            let rest = string_of_range(v.as_slice(), pos, v.len());
            let n = v.len() - pos;
            proof {
                if !v@.contains(':') {
                    assert(rest@ =~= v@);
                    assert forall|m: int| 0 <= m < rest@.len() implies !(#[trigger] rest@[m] == ':') by {
                        if rest@[m] == ':' {
                            assert(v@.contains(v@[m]));
                        }
                    }
                    lemma_first_where_is(rest@, 0, |c: char| c == ':', rest@.len() as int);
                }
            }
            match parse_line_chars(rest.as_str()) {
                Some((ParsedDirective::Inline { name, args }, st, en)) => {
                    if st < en && en <= n {
                        proof {
                            assert(args.wf());
                        }
                        if st > 0 {
                            let head = string_of_range(v.as_slice(), pos, pos + st);
                            self.text(head.as_str());
                        }
                        let raw = string_of_range(v.as_slice(), pos + st, pos + en);
                        let ghost b2 = *self;
                        self.emit_inline_directive(name, args, raw.as_str());
                        proof {
                            Self::lemma_grows_trans(&before, &b2, self);
                            lemma_prefix_trans(before.warnings_view(), b2.warnings_view(), self.warnings_view());
                        }
                        pos = pos + en;
                    } else {
                        self.text(rest.as_str());
                        pos = v.len();
                    }
                },
                Some((_, st, _)) => {
                    if st < n {
                        let mut q: usize = pos + st;
                        while q < v.len() && v[q] == ':'
                            invariant
                                pos + st <= q <= v@.len(),
                            decreases v.len() - q,
                        {
                            q = q + 1;
                        }
                        if q > pos {
                            let head = string_of_range(v.as_slice(), pos, q);
                            self.text(head.as_str());
                            pos = q;
                        } else {
                            self.text(rest.as_str());
                            pos = v.len();
                        }
                    } else {
                        self.text(rest.as_str());
                        pos = v.len();
                    }
                },
                None => {
                    self.text(rest.as_str());
                    pos = v.len();
                },
            }
            proof {
                Self::lemma_grows_trans(old(self), &before, self);
                lemma_prefix_trans(old(self).warnings_view(), before.warnings_view(), self.warnings_view());
            }
        }
        proof {
            if !text@.contains(':') && v@.len() == 0 {
                if old(self).scopes@.len() > 0 {
                    lemma_took_nothing(old(self).scopes@.last());
                }
            }
        }
    }

    /// A paragraph of `text`, its inline directives expanded when a
    /// directive processor is registered (without one, plain text).
    fn emit_text_paragraph(&mut self, text: &str)
        requires
            old(self).wf(),
        ensures
            final(self).wf(),
            Self::grows(old(self), final(self)),
            Self::dir_frame(old(self), final(self)),
            final(self).holes == old(self).holes,
            old(self).warnings_view().is_prefix_of(final(self).warnings_view()),
            !text@.contains(':') ==> {
                &&& final(self).warnings_view() == old(self).warnings_view()
                &&& final(self).scopes@.len() == old(self).scopes@.len()
                &&& old(self).scopes@.len() == 0 ==> final(self).scopes@ == old(self).scopes@
                &&& old(self).scopes@.len() > 0 ==> final(self).scopes@.drop_last() == old(self).scopes@.drop_last()
                    && scope_took_text(old(self).scopes@.last(), final(self).scopes@.last(), text@)
            },
    {
        B::paragraph_start(&mut self.output);
        let ghost mid = *self;
        proof {
            Self::lemma_grows_refl(old(self));
            assert(Self::grows(old(self), &mid));
        }
        if self.directives.is_some() {
            self.flush_text(text);
        } else {
            self.text(text);
        }
        let ghost mid2 = *self;
        B::paragraph_end(&mut self.output);
        proof {
            Self::lemma_grows_trans(old(self), &mid, &mid2);
            assert(Self::grows(&mid2, self));
            Self::lemma_grows_trans(old(self), &mid2, self);
        }
    }

    /// Write what the processor made of a block directive: markup as raw
    /// HTML, deferred parts with their holes, or its literal as a paragraph.
    fn render_block_dispatch(&mut self, dispatch: BlockDispatch)
        requires
            old(self).wf(),
            old(self).scopes@.len() == 0,
        ensures
            final(self).wf(),
            Self::grows(old(self), final(self)),
            Self::dir_frame(old(self), final(self)),
            match dispatch {
                BlockDispatch::Deferred { parts, source } => final(self).holes.keys() == old(self).holes.keys()
                    + hole_parts(parts@, source) && final(self).warnings_view() == old(self).warnings_view(),
                BlockDispatch::Html(_) => final(self).holes == old(self).holes && final(self).warnings_view()
                    == old(self).warnings_view(),
                BlockDispatch::PassThrough(_) => final(self).holes == old(self).holes,
            },
    {
        match dispatch {
            BlockDispatch::Html(h) => {
                self.markup(Markup::RawHtml(h));
                proof {
                    Self::lemma_grows_refl(old(self));
                    assert(old(self).holes.offsets() =~= self.holes.offsets());
                }
            },
            BlockDispatch::Deferred { parts, source } => self.emit_parts(parts, source),
            BlockDispatch::PassThrough(text) => self.emit_text_paragraph(text.as_str()),
        }
    }


    /// Room to number one more tab group and key its bar.
    pub closed spec fn group_room(&self) -> bool {
        self.next_group_id < usize::MAX && self.next_tab_hole < u32::MAX
    }

    /// Room to number one more tab.
    pub closed spec fn tab_room(&self) -> bool {
        self.next_tab_id < usize::MAX
    }

    /// The open tab groups, innermost last, as (id, tabs, bar hole) with
    /// each tab as (id, label, whether it is its group's first).
    pub closed spec fn open_groups(&self) -> Seq<(nat, Seq<(nat, Seq<char>, bool)>, HoleKey)> {
        self.tab_open@.map_values(|g: TabGroup| group_view(g))
    }

    /// The closed tab groups, in the order they closed.
    pub closed spec fn closed_groups(&self) -> Seq<(nat, Seq<(nat, Seq<char>, bool)>, HoleKey)> {
        self.tab_groups@.map_values(|g: TabGroup| group_view(g))
    }

    /// The tab bar backend `B` writes for the closed tab group at `g`.
    pub closed spec fn tab_bar_text(&self, g: int) -> Seq<char> {
        B::tabs_open_text(self.tab_groups@[g].id, self.tab_groups@[g].tabs@)
    }

    /// The UTF-8 size of the bars of the first `k` closed tab groups.
    pub closed spec fn tab_bar_bytes(&self, k: int) -> nat
        decreases k,
    {
        if k <= 0 {
            0
        } else {
            self.tab_bar_bytes(k - 1) + byte_len(self.tab_bar_text(k - 1))
        }
    }

    /// Whether `fills` holds every closed tab group's bar at its hole.
    pub open spec fn bars_in(&self, fills: Map<(Source, HoleKey), Seq<char>>) -> bool {
        forall|g: int|
            0 <= g < self.closed_groups().len() ==> fills.contains_key((Source::Tabs, #[trigger] self.closed_groups()[g].2))
                && fills[(Source::Tabs, self.closed_groups()[g].2)] == self.tab_bar_text(g)
    }

    /// Whether `fills` holds, under the tab namespace, only tab bars: the
    /// fill for a bar hole is the bar of a closed group reserving it.
    pub open spec fn bars_only(&self, fills: Map<(Source, HoleKey), Seq<char>>) -> bool {
        forall|h: HoleKey|
            #[trigger] fills.contains_key((Source::Tabs, h)) ==> exists|g: int|
                0 <= g < self.closed_groups().len() && self.closed_groups()[g].2 == h && fills[(Source::Tabs, h)]
                    == self.tab_bar_text(g)
    }

    /// The next group id, tab id and bar hole key.
    pub closed spec fn next_ids(&self) -> (nat, nat, HoleKey) {
        (self.next_group_id as nat, self.next_tab_id as nat, self.next_tab_hole)
    }

    /// What each open container resolved to, innermost last.
    pub closed spec fn outcomes(&self) -> Seq<ContainerOutcome> {
        self.container_outcomes@
    }

    /// What opening or closing a tab scope leaves alone.
    spec fn tab_frame(a: &Self, b: &Self) -> bool {
        &&& b.directive_count() == a.directive_count()
        &&& b.code_block_index == a.code_block_index
        &&& b.processors == a.processors
        &&& b.cfg == a.cfg
        &&& b.scopes@.len() == a.scopes@.len()
    }

    /// Open a `::::tabs` group: reserve the hole its tab bar fills once
    /// every label is known, and start collecting its tabs.
    fn open_tab_group(&mut self)
        requires
            old(self).wf(),
            old(self).scopes@.len() == 0,
            old(self).group_room(),
        ensures
            final(self).wf(),
            Self::grows(old(self), final(self)),
            Self::tab_frame(old(self), final(self)),
            final(self).open_groups() == old(self).open_groups().push(
                (old(self).next_ids().0, Seq::empty(), old(self).next_ids().2),
            ),
            final(self).closed_groups() == old(self).closed_groups(),
            final(self).next_ids() == (
                old(self).next_ids().0 + 1,
                old(self).next_ids().1,
                (old(self).next_ids().2 + 1) as HoleKey,
            ),
            final(self).outcomes() == old(self).outcomes().push(ContainerOutcome::Native(TabScope::Group)),
            final(self).hole_keys() == old(self).hole_keys().push((Source::Tabs, old(self).next_ids().2)),
            final(self).hole_offsets() == old(self).hole_offsets().push(old(self).output_view().len()),
            final(self).output == old(self).output,
            final(self).warnings_view() == old(self).warnings_view(),
    {
        let id = self.next_group_id;
        self.next_group_id = id + 1;
        let bar_hole = self.next_tab_hole;
        self.next_tab_hole = bar_hole + 1;
        self.reserve_hole(GlobalKey(Source::Tabs, bar_hole));
        let ghost before = self.bar_holes();
        let ghost og = self.open_groups();
        self.tab_open.push(TabGroup { id, tabs: Vec::new(), bar_hole });
        assert(self.bar_holes() =~= before.push(bar_hole));
        assert(group_view(self.tab_open@.last()).1 =~= Seq::<(nat, Seq<char>, bool)>::empty());
        assert(self.open_groups() =~= og.push((id as nat, Seq::empty(), bar_hole)));
        self.container_outcomes.push(ContainerOutcome::Native(TabScope::Group));
    }

    /// Open a `:::tab[Label]`: its panel opens now and its label joins the
    /// innermost group's bar. Outside any group it renders without chrome,
    /// with a warning.
    fn open_tab_item(&mut self, args: &DirectiveArgs)
        requires
            old(self).wf(),
            old(self).tab_room(),
        ensures
            final(self).wf(),
            Self::grows(old(self), final(self)),
            Self::tab_frame(old(self), final(self)),
            final(self).closed_groups() == old(self).closed_groups(),
            final(self).holes == old(self).holes,
            old(self).open_groups().len() == 0 ==> {
                &&& final(self).outcomes() == old(self).outcomes().push(ContainerOutcome::Native(TabScope::LoneItem))
                &&& final(self).warnings_view() == old(self).warned(lone_tab_message())
                &&& final(self).open_groups() == old(self).open_groups()
                &&& final(self).next_ids() == old(self).next_ids()
                &&& final(self).output == old(self).output
            },
            old(self).open_groups().len() > 0 ==> {
                let g = old(self).open_groups().last();
                &&& final(self).outcomes() == old(self).outcomes().push(ContainerOutcome::Native(TabScope::Item))
                &&& final(self).warnings_view() == old(self).warnings_view()
                &&& final(self).open_groups() == old(self).open_groups().drop_last().push(
                    (g.0, g.1.push((old(self).next_ids().1, tab_label_spec(args.content@), g.1.len() == 0)), g.2),
                )
                &&& final(self).next_ids() == (old(self).next_ids().0, old(self).next_ids().1 + 1, old(self).next_ids().2)
            },
    {
        let label = if args.content().is_empty() {
            proof {
                reveal_strlit("Tab");
            }
            "Tab".to_owned()
        } else {
            strip_quotes(args.content())
        };
        assert(label@ == tab_label_spec(args.content@));
        if self.tab_open.len() == 0 {
            self.warn(
                "`:::tab` outside a `::::tabs` group; its content is rendered without tab chrome".to_owned(),
            );
            self.container_outcomes.push(ContainerOutcome::Native(TabScope::LoneItem));
            proof {
                Self::lemma_grows_refl(old(self));
                assert(old(self).holes == self.holes);
            }
            return;
        }
        let ghost og = self.open_groups();
        let mut group = self.tab_open.pop().unwrap();
        let ghost g0 = group_view(group);
        assert(g0 == og.last());
        let tab_id = self.next_tab_id;
        self.next_tab_id = tab_id + 1;
        let is_first = group.tabs.len() == 0;
        let info = TabInfo { id: tab_id, label, is_first };
        B::tab_panel_open(group.id, &info, &mut self.output);
        group.tabs.push(info);
        proof {
            assert(group_view(group).1 =~= g0.1.push((tab_id as nat, label@, is_first)));
        }
        self.tab_open.push(group);
        assert(self.bar_holes() =~= old(self).bar_holes());
        assert(self.open_groups() =~= og.drop_last().push(group_view(group)));
        self.container_outcomes.push(ContainerOutcome::Native(TabScope::Item));
        proof {
            assert(old(self).holes == self.holes);
            assert(old(self).holes.offsets().subrange(0, old(self).holes.offsets().len() as int) =~= old(self).holes.offsets());
            assert(old(self).holes.keys().subrange(0, old(self).holes.keys().len() as int) =~= old(self).holes.keys());
        }
    }

    /// Warn that the container `name` was left open.
    fn warn_unclosed_container(&mut self, name: &Option<String>)
        requires
            old(self).wf(),
        ensures
            final(self).wf(),
            Self::dir_frame(old(self), final(self)),
            final(self).output == old(self).output,
            final(self).holes == old(self).holes,
            final(self).scopes == old(self).scopes,
            final(self).warnings_view() == old(self).warned(unclosed_message(*name)),
    {
        let mut msg = String::new();
        push_str(&mut msg, "unclosed container directive :::");
        match name {
            Some(n) => push_str(&mut msg, n.as_str()),
            None => {},
        }
        push_str(&mut msg, " (missing closing :::)");
        assert(msg@ == unclosed_message(*name));
        self.warn(msg);
    }

    /// Close a built-in tab scope. An implicit close warns that it was left
    /// open. An item closes its panel; a group closes its container and
    /// waits for its bar (with a warning when it has no tabs); a tab outside
    /// any group opened nothing and closes nothing.
    fn close_tab_scope(&mut self, scope: TabScope, name: &Option<String>, implicit: bool)
        requires
            old(self).wf(),
        ensures
            final(self).wf(),
            Self::grows(old(self), final(self)),
            Self::tab_frame(old(self), final(self)),
            final(self).outcomes() == old(self).outcomes(),
            final(self).next_ids() == old(self).next_ids(),
            final(self).holes == old(self).holes,
            ({
                let w1 = if implicit {
                    old(self).warned(unclosed_message(*name))
                } else {
                    old(self).warnings_view()
                };
                let closing = scope is Group && old(self).open_groups().len() > 0;
                let empty = closing && old(self).open_groups().last().1.len() == 0;
                &&& final(self).warnings_view() == if empty && old(self).has_directives() {
                    w1.push(empty_group_message())
                } else {
                    w1
                }
                &&& closing ==> final(self).closed_groups() == old(self).closed_groups().push(
                    old(self).open_groups().last(),
                ) && final(self).open_groups() == old(self).open_groups().drop_last()
                &&& !closing ==> final(self).closed_groups() == old(self).closed_groups() && final(self).open_groups()
                    == old(self).open_groups()
                &&& (scope is LoneItem || (scope is Group && old(self).open_groups().len() == 0)) ==> final(self).output
                    == old(self).output
            }),
    {
        if implicit {
            self.warn_unclosed_container(name);
        }
        match scope {
            TabScope::Item => B::tab_panel_close(&mut self.output),
            TabScope::Group => {
                let n = self.tab_open.len();
                if n > 0 && self.tab_open[n - 1].tabs.len() == 0 {
                    self.warn("`::::tabs` group has no `:::tab` items".to_owned());
                }
                let ghost c = self.tab_groups@.map_values(|g: TabGroup| g.bar_hole);
                let ghost o = self.tab_open@.map_values(|g: TabGroup| g.bar_hole);
                proof {
                    assert(self.bar_holes() =~= c + o);
                }
                let ghost og = self.open_groups();
                let ghost cg = self.closed_groups();
                match self.tab_open.pop() {
                    Some(group) => {
                        B::tabs_close(&mut self.output);
                        self.tab_groups.push(group);
                        proof {
                            assert(self.open_groups() =~= og.drop_last());
                            assert(self.closed_groups() =~= cg.push(og.last()));
                            assert(self.bar_holes() =~= c.push(o.last()) + o.drop_last());
                            lemma_move_last_key(c, o, self.next_tab_hole);
                        }
                    },
                    None => {},
                }
            },
            TabScope::LoneItem => {},
        }
        proof {
            assert(old(self).holes == self.holes);
            assert(old(self).holes.offsets().subrange(0, old(self).holes.offsets().len() as int) =~= old(self).holes.offsets());
            assert(old(self).holes.keys().subrange(0, old(self).holes.keys().len() as int) =~= old(self).holes.keys());
        }
    }

    /// Close the innermost container. A handler's container writes the
    /// handler's close (warning first when the close was implicit); a
    /// literal opener's written close is written literally too, an implicit
    /// one writes nothing; a tab scope closes as a tab scope; a close that
    /// matches no opener warns and is written literally.
    fn close_container(&mut self, name: Option<String>, colon_count: usize, implicit: bool)
        requires
            old(self).wf(),
            old(self).scopes@.len() == 0,
        ensures
            final(self).wf(),
            Self::grows(old(self), final(self)),
            Self::tab_frame(old(self), final(self)),
            final(self).outcomes() == if old(self).outcomes().len() > 0 {
                old(self).outcomes().drop_last()
            } else {
                old(self).outcomes()
            },
            old(self).outcomes().len() == 0 ==> old(self).warned(stray_close_message()).is_prefix_of(
                final(self).warnings_view(),
            ),
            old(self).outcomes().len() > 0 ==> match old(self).outcomes().last() {
                ContainerOutcome::Handled(_) => final(self).warnings_view() == (if implicit {
                    old(self).warned(unclosed_message(name))
                } else {
                    old(self).warnings_view()
                }) && final(self).holes == old(self).holes,
                ContainerOutcome::Literal => implicit ==> final(self).output == old(self).output
                    && final(self).warnings_view() == old(self).warnings_view() && final(self).holes == old(self).holes,
                ContainerOutcome::Native(TabScope::Group) => old(self).open_groups().len() > 0 ==> {
                    &&& final(self).closed_groups() == old(self).closed_groups().push(old(self).open_groups().last())
                    &&& final(self).open_groups() == old(self).open_groups().drop_last()
                },
                ContainerOutcome::Native(_) => final(self).open_groups() == old(self).open_groups()
                    && final(self).closed_groups() == old(self).closed_groups(),
            },
    {
        let ghost n0 = self.container_outcomes@.len();
        let top = self.container_outcomes.pop();
        proof {
            if n0 > 0 {
                assert(old(self).container_outcomes@[n0 - 1] == top.unwrap());
            }
            Self::lemma_grows_refl(self);
        }
        match top {
            Some(ContainerOutcome::Handled(idx)) => {
                if implicit {
                    self.warn_unclosed_container(&name);
                }
                let dispatch = match self.directives.take() {
                    Some(p) => {
                        let mut p = p;
                        let d = p.container_end(idx);
                        self.directives = Some(p);
                        d
                    },
                    None => BlockDispatch::Html(String::new()),
                };
                self.render_block_dispatch(dispatch);
            },
            Some(ContainerOutcome::Literal) => {
                if !implicit {
                    let colons = colon_run(colon_count);
                    self.emit_text_paragraph(colons.as_str());
                }
            },
            Some(ContainerOutcome::Native(scope)) => {
                self.close_tab_scope(scope, &name, implicit);
            },
            None => {
                self.warn("stray ::: with no opening directive".to_owned());
                let ghost w1 = self.warnings_view();
                let colons = colon_run(colon_count);
                self.emit_text_paragraph(colons.as_str());
                proof {
                    assert(w1 == old(self).warned(stray_close_message()));
                }
            },
        }
    }


    /// A code block: the first processor (in registration order) that
    /// does not pass it through decides it, either with markup written now
    /// or with a hole it fills after the walk, keyed by the block's index;
    /// with none, the backend writes it as a code block. Only a block with
    /// a language is offered to processors.
    fn code_block(&mut self, language: Option<String>, attrs: &FenceAttrs, source: &str)
        requires
            old(self).wf(),
            old(self).scopes@.len() == 0,
            old(self).code_block_index < u32::MAX,
        ensures
            final(self).wf(),
            Self::grows(old(self), final(self)),
            final(self).code_block_index == old(self).code_block_index + 1,
            final(self).directive_count() == old(self).directive_count(),
            final(self).scopes@.len() == 0,
            final(self).cfg == old(self).cfg,
            Self::code_block_written(
                old(self),
                final(self),
                match language {
                    Some(l) => Some(l@),
                    None => None,
                },
                source@,
            ),
    {
        let index = self.code_block_index;
        self.code_block_index = index + 1;
        let mut handled = false;
        proof {
            Self::lemma_grows_refl(self);
        }
        match &language {
            Some(lang) => {
                let mut i: usize = 0;
                while i < self.processors.len() && !handled
                    invariant
                        i <= self.processors@.len(),
                        self.wf(),
                        self.scopes@.len() == 0,
                        Self::grows(old(self), self),
                        self.code_block_index == index + 1,
                        index < u32::MAX,
                        self.directive_count() == old(self).directive_count(),
                        self.cfg == old(self).cfg,
                        self.processors@.len() == old(self).processors@.len(),
                        index == old(self).code_block_index,
                        !handled ==> self.output == old(self).output && self.holes == old(self).holes,
                        handled ==> Self::processor_took(old(self), self),
                    decreases self.processors.len() - i,
                {
                    let ghost before = *self;
                    let r = self.processors[i].process(lang.as_str(), attrs, source, index);
                    match r {
                        ProcessResult::Deferred => {
                            self.reserve_hole(GlobalKey(Source::CodeBlock(i), index as u32));
                            handled = true;
                            assert(code_block_key(i, old(self).code_block_index) == (Source::CodeBlock(i), index as u32));
                            assert(self.processors@.len() == old(self).processors@.len());
                        },
                        ProcessResult::Inline(html) => {
                            push_str(&mut self.output, html.as_str());
                            handled = true;
                            proof {
                                Self::lemma_grows_refl(&before);
                                assert(self.holes == before.holes);
                            }
                        },
                        ProcessResult::PassThrough => {
                            proof {
                                Self::lemma_grows_refl(&before);
                            }
                        },
                    }
                    proof {
                        Self::lemma_grows_trans(old(self), &before, self);
                    }
                    i = i + 1;
                }
            },
            None => {},
        }
        if !handled {
            let ghost before = *self;
            let lang: Option<&str> = match &language {
                Some(l) => Some(l.as_str()),
                None => None,
            };
            assert(opt_str_view(lang) == match language {
                Some(l) => Some(l@),
                None => None::<Seq<char>>,
            });
            B::code_block(lang, source, &mut self.output);
            proof {
                Self::lemma_grows_refl(&before);
                assert(self.holes == before.holes);
                Self::lemma_grows_trans(old(self), &before, self);
            }
        }
    }

    /// `b` is `a` after a processor claimed the code block `a` was about to
    /// take: it reserved a hole keyed by its index and the block's, at the
    /// end of the buffer, or wrote its own markup.
    spec fn processor_took(a: &Self, b: &Self) -> bool {
        ||| exists|i: usize|
            i < a.processors@.len() && b.output == a.output && b.holes.offsets() == a.holes.offsets().push(
                a.output@.len(),
            ) && b.holes.keys() == a.holes.keys().push(#[trigger] code_block_key(i, a.code_block_index))
        ||| a.processors@.len() > 0 && b.holes == a.holes && appends(a.output@, b.output@)
    }

    /// `b` is `a` after the code block with `language` and `source`: a block
    /// a processor claimed (only one with a language, and only when there are
    /// processors), or else the backend's code block.
    spec fn code_block_written(a: &Self, b: &Self, language: Option<Seq<char>>, source: Seq<char>) -> bool {
        ||| b.output@ == a.output@ + B::code_block_text(language, source) && b.holes == a.holes
        ||| language is Some && Self::processor_took(a, b)
    }

    /// Whether the walk can take `e` next: its machine limits hold, block
    /// events arrive outside headings and images, a close arrives inside
    /// what it closes, and directive events arrive only with a directive
    /// processor.
    pub open spec fn accepts(&self, e: &Event) -> bool {
        match e {
            Event::End(TagEnd::Heading) => self.in_heading() && self.heading_room(),
            Event::End(TagEnd::Image) => self.in_image(),
            Event::End(TagEnd::TableCell) => self.cell_room(),
            Event::CodeBlock(_) => self.scope_depth() == 0 && self.code_blocks_seen() < u32::MAX,
            Event::InlineDirective(p) => (self.has_directives() || p.name@ == "status"@) && p.args.wf(),
            Event::LeafDirective(_) => self.has_directives() && self.scope_depth() == 0,
            Event::ContainerDirectiveStart(p) => {
                &&& self.has_directives() || p.name@ == "tabs"@ || p.name@ == "tab"@
                &&& self.scope_depth() == 0
                &&& p.name@ == "tabs"@ ==> self.group_room()
                &&& p.name@ == "tab"@ ==> self.tab_room()
            },
            Event::ContainerDirectiveEnd { .. } => self.scope_depth() == 0,
            _ => true,
        }
    }

    /// How many scopes `e` opens (1), closes (-1) or neither (0).
    pub open spec fn scope_delta(e: &Event) -> int {
        match e {
            Event::Start(Tag::Heading { .. }) => 1,
            Event::Start(Tag::Image { .. }) => 1,
            Event::End(TagEnd::Heading) => -1,
            Event::End(TagEnd::Image) => -1,
            _ => 0,
        }
    }

    /// What backend `B` appends to the walk buffer for `event`, where that
    /// is settled by the event and the state alone: block markup, a
    /// horizontal rule, a task marker, an image closing at the top level, a
    /// code block no processor can claim (no language, or no processors),
    /// and, with no heading or image open, text, inline code, raw HTML,
    /// breaks, inline wrappers and status badges. `None` for the rest
    /// (claimable code blocks, links, block directives and what closes a
    /// heading).
    pub closed spec fn event_text(&self, event: &Event) -> Option<Seq<char>> {
        let bare = self.scopes@.len() == 0;
        match *event {
            Event::Start(tag) => if block_start_text::<B>(tag, self.table) is Some {
                block_start_text::<B>(tag, self.table)
            } else if tag is Heading || tag is Image {
                Some(Seq::empty())
            } else if bare && inline_start_markup(tag) is Some {
                Some(markup_text::<B>(inline_start_markup(tag)->0))
            } else {
                None
            },
            Event::End(tag) => if block_end_text::<B>(tag, self.table, self.alert_stack@) is Some {
                block_end_text::<B>(tag, self.table, self.alert_stack@)
            } else if bare && inline_end_markup(tag) is Some {
                Some(markup_text::<B>(inline_end_markup(tag)->0))
            } else if tag == TagEnd::Image && self.scopes@.len() == 1 {
                match self.scopes@.last() {
                    Scope::Image { alt_text, dest_url, title } => Some(B::image_text(dest_url@, alt_text@, title@)),
                    Scope::Heading { .. } => None,
                }
            } else {
                None
            },
            Event::Text(t) => if bare {
                Some(B::text_text(t@))
            } else {
                None
            },
            Event::Code(c) => if bare {
                Some(B::inline_code_text(c@))
            } else {
                None
            },
            Event::RawHtml(h) => if bare {
                Some(B::raw_html_text(h@))
            } else {
                None
            },
            Event::SoftBreak => if bare {
                Some(break_text::<B>(false))
            } else {
                None
            },
            Event::HardBreak => if bare {
                Some(break_text::<B>(true))
            } else {
                None
            },
            Event::Rule => Some(B::horizontal_rule_text()),
            Event::TaskListMarker(checked) => Some(B::task_list_marker_text(checked)),
            Event::CodeBlock(p) => if p.language is None || self.processors@.len() == 0 {
                Some(
                    B::code_block_text(
                        match p.language {
                            Some(l) => Some(l@),
                            None => None,
                        },
                        p.source@,
                    ),
                )
            } else {
                None
            },
            Event::InlineDirective(p) => if bare && p.name@ == "status"@ {
                Some(badge_text::<B>(p.args))
            } else {
                None
            },
            _ => None,
        }
    }

    /// Interpret one event. The walk buffer only grows and the holes
    /// reserved so far stay first; a code block counts one more. Where
    /// `event_text` settles what the event writes, the buffer grows by
    /// exactly that.
    pub fn handle(&mut self, event: Event)
        requires
            old(self).wf(),
            old(self).accepts(&event),
        ensures
            final(self).wf(),
            Self::grows(old(self), final(self)),
            final(self).has_directives() == old(self).has_directives(),
            final(self).code_blocks_seen() == old(self).code_blocks_seen() + (if event is CodeBlock {
                1int
            } else {
                0int
            }),
            final(self).scope_depth() == old(self).scope_depth() + Self::scope_delta(&event),
            old(self).event_text(&event) matches Some(x) ==> final(self).output_view() == old(self).output_view() + x,
            event is CodeBlock ==> final(self).hole_keys() == old(self).hole_keys() || exists|i: usize|
                final(self).hole_keys() == old(self).hole_keys().push(
                    #[trigger] code_block_key(i, old(self).code_blocks_seen() as usize),
                ) && final(self).hole_offsets() == old(self).hole_offsets().push(old(self).output_view().len()),
            match event {
                Event::ContainerDirectiveStart(p) => {
                    &&& p.name@ == "tabs"@ ==> {
                        &&& final(self).open_groups() == old(self).open_groups().push(
                            (old(self).next_ids().0, Seq::empty(), old(self).next_ids().2),
                        )
                        &&& final(self).outcomes() == old(self).outcomes().push(ContainerOutcome::Native(TabScope::Group))
                        &&& final(self).hole_keys() == old(self).hole_keys().push((Source::Tabs, old(self).next_ids().2))
                        &&& final(self).hole_offsets() == old(self).hole_offsets().push(old(self).output_view().len())
                        &&& final(self).output_view() == old(self).output_view()
                    }
                    &&& p.name@ == "tab"@ ==> {
                        &&& final(self).hole_keys() == old(self).hole_keys()
                        &&& old(self).open_groups().len() == 0 ==> final(self).outcomes() == old(self).outcomes().push(
                            ContainerOutcome::Native(TabScope::LoneItem),
                        ) && final(self).warnings_view() == old(self).warned(lone_tab_message())
                        &&& old(self).open_groups().len() > 0 ==> final(self).outcomes() == old(self).outcomes().push(
                            ContainerOutcome::Native(TabScope::Item),
                        ) && final(self).open_groups() == old(self).open_groups().drop_last().push(
                            (
                                old(self).open_groups().last().0,
                                old(self).open_groups().last().1.push(
                                    (
                                        old(self).next_ids().1,
                                        tab_label_spec(p.args.content@),
                                        old(self).open_groups().last().1.len() == 0,
                                    ),
                                ),
                                old(self).open_groups().last().2,
                            ),
                        )
                    }
                },
                _ => true,
            },
            match event {
                Event::Start(Tag::Link { kind: LinkKind::Other, dest_url }) => old(self).scope_depth() == 0 ==> exists|
                    section: Option<(Seq<char>, Seq<char>)>,
                |
                    final(self).output_view() == old(self).output_view() + B::link_start_text(
                        old(self).link_href(dest_url@),
                        section,
                    ) && (!old(self).link_settings().3 ==> section is None),
                Event::InlineDirective(p) => p.name@ != "status"@ && old(self).inline_answer(p.name@, p.args) is Some
                    ==> final(self).warnings_view() == old(self).warnings_view() && (old(self).scope_depth() == 0
                    ==> final(self).output_view() == old(self).output_view() + B::raw_html_text(
                    old(self).inline_answer(p.name@, p.args)->0,
                )),
                _ => true,
            },
            event == Event::End(TagEnd::Heading) && old(self).scope_depth() == 1 ==> Self::heading_closed(
                old(self),
                final(self),
            ),
            event is ContainerDirectiveStart ==> final(self).outcomes().len() == old(self).outcomes().len() + 1,
            event is ContainerDirectiveEnd ==> final(self).outcomes() == if old(self).outcomes().len() > 0 {
                old(self).outcomes().drop_last()
            } else {
                old(self).outcomes()
            },
    {
        let ghost delta = Self::scope_delta(&event);
        let ghost is_code = event is CodeBlock;
        proof {
            Self::lemma_grows_refl(self);
        }
        match event {
            Event::Start(tag) => self.start_tag(tag),
            Event::End(tag) => self.end_tag(tag),
            Event::Text(t) => self.text(t.as_str()),
            Event::Code(c) => self.inline_code(c.as_str()),
            Event::RawHtml(h) => self.markup(Markup::RawHtml(h)),
            Event::SoftBreak => self.line_break(false),
            Event::HardBreak => self.line_break(true),
            Event::Rule => B::horizontal_rule(&mut self.output),
            Event::TaskListMarker(checked) => B::task_list_marker(checked, &mut self.output),
            Event::CodeBlock(payload) => {
                let ghost w1 = *self;
                self.code_block(payload.language, &payload.attrs, payload.source.as_str());
                proof {
                    if !(self.hole_keys() == w1.hole_keys()) {
                        let i = choose|i: usize|
                            i < w1.processors@.len() && self.output == w1.output && self.holes.offsets()
                                == w1.holes.offsets().push(w1.output@.len()) && self.holes.keys() == w1.holes.keys().push(
                                #[trigger] code_block_key(i, w1.code_block_index),
                            );
                        assert(w1.code_blocks_seen() as usize == w1.code_block_index);
                        assert(code_block_key(i, w1.code_blocks_seen() as usize) == code_block_key(i, w1.code_block_index));
                    }
                }
            },
            Event::ContainerDirectiveStart(payload) => {
                proof {
                    reveal_strlit("tabs");
                    reveal_strlit("tab");
                    assert("tabs"@.len() == 4);
                    assert("tab"@.len() == 3);
                }
                if crate::text::str_eq(payload.name.as_str(), "tabs") {
                    self.open_tab_group();
                } else if crate::text::str_eq(payload.name.as_str(), "tab") {
                    self.open_tab_item(&payload.args);
                } else {
                    let (outcome, dispatch) = match self.directives.take() {
                        Some(p) => {
                            let mut p = p;
                            let r = p.dispatch_container_start(payload.name.as_str(), payload.args);
                            self.directives = Some(p);
                            r
                        },
                        None => (ContainerOutcome::Literal, BlockDispatch::Html(String::new())),
                    };
                    self.container_outcomes.push(outcome);
                    self.render_block_dispatch(dispatch);
                }
            },
            Event::ContainerDirectiveEnd { name, colon_count, implicit } => {
                self.close_container(name, colon_count, implicit);
            },
            Event::LeafDirective(payload) => {
                let dispatch = match self.directives.take() {
                    Some(p) => {
                        let mut p = p;
                        let d = p.dispatch_leaf(payload.name.as_str(), payload.args);
                        self.directives = Some(p);
                        d
                    },
                    None => BlockDispatch::Html(String::new()),
                };
                self.render_block_dispatch(dispatch);
            },
            Event::InlineDirective(payload) => {
                self.emit_inline_directive(payload.name, payload.args, payload.raw.as_str());
            },
        }
    }


    /// Every list, blockquote, container and tab group the walk opened has
    /// closed.
    pub closed spec fn all_closed(&self) -> bool {
        &&& self.list_stack@.len() == 0
        &&& self.alert_stack@.len() == 0
        &&& self.container_outcomes@.len() == 0
        &&& self.tab_open@.len() == 0
    }

    /// The title the walk extracted, if any.
    pub closed spec fn title_view(&self) -> Option<Seq<char>> {
        self.heading.title_view()
    }

    /// The TOC entries so far, as (level, title, id).
    pub closed spec fn toc_view(&self) -> Seq<(u8, Seq<char>, Seq<char>)> {
        self.heading.toc_view()
    }

    /// The link settings: (origin prefix, base path, whether the page is a
    /// directory, whether a section registry is configured).
    pub closed spec fn link_settings(&self) -> (Option<Seq<char>>, Option<Seq<char>>, bool, bool) {
        (
            match self.cfg.origin_prefix {
                Some(o) => Some(o@),
                None => None,
            },
            match self.cfg.base_path {
                Some(b) => Some(b@),
                None => None,
            },
            self.cfg.is_dir,
            self.cfg.sections is Some,
        )
    }

    /// The href an ordinary link to `dest` is written with: the origin
    /// prefix stripped, then the backend's transform against the page's
    /// link base.
    pub open spec fn link_href(&self, dest: Seq<char>) -> Seq<char> {
        let (origin, base, is_dir, _) = self.link_settings();
        B::transform_link_text(
            link::strip_origin_spec(origin, dest),
            match base {
                Some(b) => Some(link::link_base_spec(b, is_dir)),
                None => None,
            },
        )
    }

    /// The markup the directive processor's inline handler for `name`
    /// gives for `args`, when that handler answers by its specification
    /// and answers markup (see `DirectiveProcessor::inline_answer`).
    pub closed spec fn inline_answer(&self, name: Seq<char>, args: DirectiveArgs) -> Option<Seq<char>> {
        match self.directives {
            Some(d) => d.inline_answer(name, args),
            None => None,
        }
    }

    /// The heading ids claimed so far.
    pub closed spec fn claimed_ids(&self) -> Seq<Seq<char>> {
        self.heading.claimed()
    }

    /// Whether the first H1 becomes the title, whether that title is
    /// metadata left out of the output, and whether the first H1 was seen.
    pub closed spec fn title_modes(&self) -> (bool, bool, bool) {
        (self.heading.extracts_title(), self.heading.title_is_metadata(), self.heading.seen_first())
    }

    /// The innermost open heading as (level, whether it is the first H1
    /// kept as metadata, its plain text, its rendered body).
    pub closed spec fn open_heading(&self) -> (u8, bool, Seq<char>, Seq<char>) {
        match self.scopes@.last() {
            Scope::Heading { level, in_first_h1, toc_text, rendered_html } => (
                level,
                in_first_h1,
                toc_text@,
                rendered_html@,
            ),
            Scope::Image { .. } => (0, false, Seq::empty(), Seq::empty()),
        }
    }

    /// Whether a heading at `level` closing now becomes the title.
    pub open spec fn heading_is_title(&self, level: u8) -> bool {
        self.title_modes().0 && !self.title_modes().1 && level == 1 && self.title_view() is None
    }

    /// The level a heading at `level` closing now is written at: with the
    /// title kept as metadata, levels after the first H1 shift up by one.
    pub open spec fn written_level(&self, level: u8) -> u8 {
        if self.title_modes().1 && (self.title_modes().2 || self.heading_is_title(level)) && level > 1 {
            (level - 1) as u8
        } else {
            level
        }
    }

    /// `b` is `a` after its innermost heading closed. The first H1 kept as
    /// metadata becomes the title and writes nothing. Any other heading
    /// claims its base slug, or the first free numbered form of it, and is
    /// written at its level with that id and its trimmed body; it becomes
    /// the title (the first H1, when titles are extracted) or else the next
    /// TOC entry.
    pub open spec fn heading_closed(a: &Self, b: &Self) -> bool {
        let (level, first, text, body) = a.open_heading();
        if first {
            &&& b.output_view() == a.output_view()
            &&& b.title_view() == Some(trim_seq(text))
            &&& b.toc_view() == a.toc_view()
        } else {
            exists|id: Seq<char>| #[trigger] Self::heading_closed_with(a, b, id)
        }
    }

    /// `b` is `a` after its innermost heading, not the first H1 kept as
    /// metadata, closed with the id `id` (see `heading_closed`).
    pub open spec fn heading_closed_with(a: &Self, b: &Self, id: Seq<char>) -> bool {
        let (level, first, text, body) = a.open_heading();
        let l = a.written_level(level);
        &&& !a.claimed_ids().contains(base_id(text)) ==> id == base_id(text)
        &&& a.claimed_ids().contains(base_id(text)) ==> first_free_suffix(a.claimed_ids(), base_id(text), id)
        &&& b.output_view() == a.output_view() + B::heading_start_text(l, id) + trim_seq(body) + B::heading_end_text(l)
        &&& a.heading_is_title(level) ==> b.title_view() == Some(trim_seq(text)) && b.toc_view() == a.toc_view()
        &&& !a.heading_is_title(level) ==> b.title_view() == a.title_view() && b.toc_view() == a.toc_view().push(
            (l, trim_seq(text), id),
        )
    }

    /// Whether every code block processor answers `warnings` by its
    /// specification.
    pub closed spec fn processors_warn_by_spec(&self) -> bool {
        forall|j: int| 0 <= j < self.processors@.len() ==> #[trigger] self.processors@[j].warns_by_spec()
    }

    /// The warnings of the first `n` code block processors, in order.
    pub closed spec fn processor_warnings(&self, n: int) -> Seq<Seq<char>>
        decreases n,
    {
        if n <= 0 {
            Seq::empty()
        } else {
            self.processor_warnings(n - 1) + self.processors@[n - 1].warnings_spec()
        }
    }

    /// Whether the directive handlers answer `warnings` by their
    /// specification (so too with no directive processor).
    pub closed spec fn handlers_warn_by_spec(&self) -> bool {
        match self.directives {
            Some(d) => d.handlers_warn_by_spec(),
            None => true,
        }
    }

    /// The directive handlers' warnings: each leaf handler's, then each
    /// container handler's.
    pub closed spec fn handler_warnings(&self) -> Seq<Seq<char>> {
        match self.directives {
            Some(d) => d.leaf_warnings(d.leaf_count() as int) + d.container_warnings(d.container_count() as int),
            None => Seq::empty(),
        }
    }

    /// Whether every code block processor answers `section_refs` by its
    /// specification.
    pub closed spec fn processors_report_refs(&self) -> bool {
        forall|j: int| 0 <= j < self.processors@.len() ==> #[trigger] self.processors@[j].refs_by_spec()
    }

    /// Whether one of the first `n` code block processors reports the
    /// section ref `x`.
    pub closed spec fn processor_ref(&self, n: int, x: Seq<char>) -> bool {
        exists|j: int| 0 <= j < n && #[trigger] self.processors@[j].section_refs_spec().contains(x)
    }

    /// How many code block processors are registered.
    pub closed spec fn processor_count(&self) -> nat {
        self.processors@.len()
    }

    /// The section refs prose links landed in, ascending.
    pub closed spec fn refs_view(&self) -> Seq<Seq<char>> {
        refs_view(self.section_refs@)
    }

    /// End the walk. Every fill is collected (the directive handlers', each
    /// code block processor's under its own namespace, and each tab group's
    /// bar as the backend writes it) and written at its hole through the
    /// backend's `raw_html`; a hole nobody filled gets nothing. With it come
    /// the title, the TOC, the warnings (the code block processors', then the
    /// directive processor's), and the section refs of the prose links and
    /// of the processors, ascending, each once.
    pub fn finish(self) -> (r: RenderResult)
        requires
            self.wf(),
            self.scope_depth() == 0,
            self.all_closed(),
        ensures
            exists|texts: Seq<Seq<char>>, fills: Map<(Source, HoleKey), Seq<char>>|
                {
                    &&& texts.len() == self.hole_offsets().len()
                    &&& r.html@ == assembled(self.output_view(), self.hole_offsets(), texts)
                    &&& forall|i: int|
                        0 <= i < texts.len() ==> #[trigger] texts[i] == fill_text::<Source, B>(fills, self.hole_keys()[i])
                    &&& self.bars_only(fills)
                    &&& self.tab_bar_bytes(self.closed_groups().len() as int) <= usize::MAX ==> self.bars_in(fills)
                },
            exists|before: Seq<Seq<char>>, after: Seq<Seq<char>>|
                r.warnings@.map_values(|w: String| w@) == before + self.warnings_view() + after,
            self.processors_warn_by_spec() ==> exists|after: Seq<Seq<char>>|
                r.warnings@.map_values(|w: String| w@) == self.processor_warnings(self.processor_count() as int)
                    + self.warnings_view() + after,
            self.processors_warn_by_spec() && self.handlers_warn_by_spec() ==> r.warnings@.map_values(
                |w: String| w@,
            ) == self.processor_warnings(self.processor_count() as int) + self.warnings_view()
                + self.handler_warnings(),
            match r.title {
                Some(t) => self.title_view() == Some(t@),
                None => self.title_view() is None,
            },
            r.toc@.map_values(|e: TocEntry| (e.level, e.title@, e.id@)) == self.toc_view(),
            forall|i: int, j: int| 0 <= i < j < r.toc@.len() ==> #[trigger] r.toc@[i].id@ != #[trigger] r.toc@[j].id@,
            refs_sorted(refs_view(r.section_refs@)),
            forall|x: Seq<char>| self.refs_view().contains(x) ==> refs_view(r.section_refs@).contains(x),
            self.processors_report_refs() ==> forall|x: Seq<char>|
                #[trigger] refs_view(r.section_refs@).contains(x) <==> self.refs_view().contains(x) || self.processor_ref(
                    self.processor_count() as int,
                    x,
                ),
    {
        let ghost w0 = self;
        let ghost offs = self.holes.offsets();
        let ghost out0 = self.output@;
        let ghost refs0 = refs_view(self.section_refs@);
        let Walker {
            cfg,
            mut processors,
            directives,
            output,
            holes,
            tab_groups,
            mut heading,
            section_refs,
            ..
        } = self;
        let ghost dv = w0.warnings_view();
        let mut bars = Fills::new();
        let mut g: usize = 0;
        proof {
            Self::lemma_bar_holes_distinct(&w0);
            assert(w0.tab_groups@ + w0.tab_open@ =~= w0.tab_groups@);
            assert forall|i: int, j: int| 0 <= i < j < w0.closed_groups().len() implies #[trigger] w0.closed_groups()[i].2
                != #[trigger] w0.closed_groups()[j].2 by {
                assert(w0.closed_groups()[i].2 == w0.bar_holes()[i]);
                assert(w0.closed_groups()[j].2 == w0.bar_holes()[j]);
            }
        }
        while g < tab_groups.len()
            invariant
                g <= tab_groups@.len(),
                tab_groups == w0.tab_groups,
                forall|i: int, j: int|
                    0 <= i < j < w0.closed_groups().len() ==> #[trigger] w0.closed_groups()[i].2 != #[trigger] w0.closed_groups()[j].2,
                forall|h: HoleKey|
                    #[trigger] bars@.contains_key(h) ==> exists|j: int|
                        0 <= j < g && w0.closed_groups()[j].2 == h && bars@[h] == w0.tab_bar_text(j),
                forall|j: int|
                    0 <= j < g ==> bars@.contains_key(#[trigger] w0.closed_groups()[j].2) && bars@[w0.closed_groups()[j].2]
                        == w0.tab_bar_text(j),
                bars.content_len() <= w0.tab_bar_bytes(g as int),
            decreases tab_groups.len() - g,
        {
            let mut bar = String::new();
            B::tabs_open(tab_groups[g].id, tab_groups[g].tabs.as_slice(), &mut bar);
            assert(bar@ == w0.tab_bar_text(g as int));
            assert(w0.closed_groups()[g as int].2 == tab_groups@[g as int].bar_hole);
            let ghost before = bars@;
            bars.set(tab_groups[g].bar_hole, bar);
            proof {
                assert forall|h: HoleKey| #[trigger] bars@.contains_key(h) implies exists|j: int|
                    0 <= j < g + 1 && w0.closed_groups()[j].2 == h && bars@[h] == w0.tab_bar_text(j) by {
                    if h == tab_groups@[g as int].bar_hole {
                        assert(w0.closed_groups()[g as int].2 == h);
                    } else {
                        assert(before.contains_key(h));
                    }
                }
                assert forall|j: int| 0 <= j < g + 1 implies bars@.contains_key(#[trigger] w0.closed_groups()[j].2)
                    && bars@[w0.closed_groups()[j].2] == w0.tab_bar_text(j) by {
                    if j < g {
                        assert(w0.closed_groups()[j].2 != w0.closed_groups()[g as int].2);
                    }
                }
            }
            g = g + 1;
        }
        let mut fills: GlobalFills<Source> = GlobalFills::new();
        merge_checked(&mut fills, Source::Tabs, bars);
        let ghost tabs0 = fills@;
        proof {
            assert(Map::<(Source, HoleKey), Seq<char>>::empty().union_prefer_right(under(Source::Tabs, bars@)) =~= under(
                Source::Tabs,
                bars@,
            ));
        }
        let mut directives = directives;
        let ghost hw = w0.handler_warnings();
        match directives.take() {
            Some(d) => {
                let mut d = d;
                d.collect_fills_into(&mut fills);
                directives = Some(d);
            },
            None => {},
        }
        assert(w0.handlers_warn_by_spec() ==> match directives {
            Some(d) => d.handlers_warn_by_spec() && d.leaf_warnings(d.leaf_count() as int) + d.container_warnings(
                d.container_count() as int,
            ) == hw,
            None => hw == Seq::<Seq<char>>::empty(),
        });
        let mut i: usize = 0;
        while i < processors.len()
            invariant
                i <= processors@.len(),
                fills.wf(),
                forall|h: HoleKey|
                    (#[trigger] fills@.contains_key((Source::Tabs, h)) <==> tabs0.contains_key((Source::Tabs, h))) && (
                    tabs0.contains_key((Source::Tabs, h)) ==> fills@[(Source::Tabs, h)] == tabs0[(Source::Tabs, h)]),
                processors@.len() == w0.processors@.len(),
                forall|j: int|
                    0 <= j < processors@.len() && w0.processors@[j].warns_by_spec() ==> #[trigger] processors@[j].warns_by_spec()
                        && processors@[j].warnings_spec() == w0.processors@[j].warnings_spec(),
                forall|j: int|
                    #![trigger processors@[j]]
                    0 <= j < processors@.len() && w0.processors@[j].refs_by_spec() ==> processors@[j].refs_by_spec()
                        && processors@[j].section_refs_spec() == w0.processors@[j].section_refs_spec(),
            decreases processors.len() - i,
        {
            let mut local = Fills::new();
            let ghost before = processors@;
            processors[i].fills(&mut local);
            assert(forall|j: int| 0 <= j < processors@.len() && j != i ==> processors@[j] == before[j]);
            assert(before[i as int].warns_by_spec() ==> processors@[i as int].warns_by_spec());
            assert(before[i as int].refs_by_spec() ==> processors@[i as int].refs_by_spec());
            merge_checked(&mut fills, Source::CodeBlock(i), local);
            i = i + 1;
        }
        let ghost fills_view = fills@;
        let ghost keys = holes.keys();
        let html = holes.assemble_through::<B>(output, &fills);
        proof {
            let texts = choose|texts: Seq<Seq<char>>|
                texts.len() == offs.len() && html@ == assembled(out0, offs, texts) && (forall|i: int|
                    0 <= i < texts.len() ==> #[trigger] texts[i] == fill_text::<Source, B>(fills_view, keys[i]));
            assert(texts.len() == w0.hole_offsets().len() && html@ == assembled(
                w0.output_view(),
                w0.hole_offsets(),
                texts,
            ));
            assert forall|h: HoleKey| #[trigger] fills_view.contains_key((Source::Tabs, h)) implies exists|g: int|
                0 <= g < w0.closed_groups().len() && w0.closed_groups()[g].2 == h && fills_view[(Source::Tabs, h)]
                    == w0.tab_bar_text(g) by {
                assert(tabs0.contains_key((Source::Tabs, h)));
            }
            assert(w0.bars_only(fills_view));
            if w0.tab_bar_bytes(w0.closed_groups().len() as int) <= usize::MAX {
                assert(w0.bars_in(fills_view));
            }
        }
        let mut warnings: Vec<String> = Vec::new();
        let mut refs = section_refs;
        let mut p: usize = 0;
        assert(warnings@.map_values(|w: String| w@) =~= w0.processor_warnings(0));
        while p < processors.len()
            invariant
                p <= processors@.len(),
                refs_sorted(refs_view(refs@)),
                forall|x: Seq<char>| refs0.contains(x) ==> refs_view(refs@).contains(x),
                processors@.len() == w0.processors@.len(),
                forall|j: int|
                    0 <= j < processors@.len() && w0.processors@[j].warns_by_spec() ==> #[trigger] processors@[j].warns_by_spec()
                        && processors@[j].warnings_spec() == w0.processors@[j].warnings_spec(),
                w0.processors_warn_by_spec() ==> warnings@.map_values(|w: String| w@) == w0.processor_warnings(p as int),
                forall|j: int|
                    #![trigger processors@[j]]
                    0 <= j < processors@.len() && w0.processors@[j].refs_by_spec() ==> processors@[j].refs_by_spec()
                        && processors@[j].section_refs_spec() == w0.processors@[j].section_refs_spec(),
                w0.processors_report_refs() ==> forall|x: Seq<char>|
                    #[trigger] refs_view(refs@).contains(x) <==> refs0.contains(x) || w0.processor_ref(p as int, x),
            decreases processors.len() - p,
        {
            let ws = processors[p].warnings();
            let ghost start = warnings@.map_values(|w: String| w@);
            let ghost wsv = ws@.map_values(|w: String| w@);
            assert(processors@[p as int].warns_by_spec() ==> wsv == processors@[p as int].warnings_spec());
            let mut j: usize = 0;
            while j < ws.len()
                invariant
                    j <= ws@.len(),
                    wsv == ws@.map_values(|w: String| w@),
                    warnings@.map_values(|w: String| w@) == start + ws@.map_values(|w: String| w@).take(j as int),
                decreases ws.len() - j,
            {
                let ghost b = warnings@;
                let c = ws[j].clone();
                assert(c@ == ws@[j as int]@);
                warnings.push(c);
                proof {
                    assert(warnings@ == b.push(c));
                    assert(warnings@.map_values(|w: String| w@) =~= b.map_values(|w: String| w@).push(c@));
                    assert(ws@.map_values(|w: String| w@).take(j + 1) =~= ws@.map_values(|w: String| w@).take(
                        j as int,
                    ).push(c@));
                }
                j = j + 1;
            }
            proof {
                assert(ws@.map_values(|w: String| w@).take(ws@.len() as int) =~= ws@.map_values(|w: String| w@));
                if w0.processors_warn_by_spec() {
                    assert(w0.processors@[p as int].warns_by_spec());
                    assert(processors@[p as int].warns_by_spec());
                    assert(wsv == w0.processors@[p as int].warnings_spec());
                    assert(w0.processor_warnings(p + 1) == w0.processor_warnings(p as int)
                        + w0.processors@[p as int].warnings_spec());
                }
            }
            let more = processors[p].section_refs();
            let ghost mv = more@.map_values(|s: String| s@);
            let ghost rb = refs_view(refs@);
            let mut j: usize = 0;
            while j < more.len()
                invariant
                    j <= more@.len(),
                    mv == more@.map_values(|s: String| s@),
                    refs_sorted(refs_view(refs@)),
                    forall|x: Seq<char>| refs0.contains(x) ==> refs_view(refs@).contains(x),
                    forall|x: Seq<char>|
                        #[trigger] refs_view(refs@).contains(x) <==> rb.contains(x) || mv.take(j as int).contains(x),
                decreases more.len() - j,
            {
                let c = more[j].clone();
                assert(c@ == mv[j as int]);
                let ghost pre = refs_view(refs@);
                insert_ref(&mut refs, c);
                proof {
                    assert(mv.take(j + 1) =~= mv.take(j as int).push(mv[j as int]));
                    assert forall|x: Seq<char>| mv.take(j + 1).contains(x) <==> mv.take(j as int).contains(x) || x
                        == mv[j as int] by {
                        if mv.take(j + 1).contains(x) {
                            let t = choose|t: int| 0 <= t < mv.take(j + 1).len() && #[trigger] mv.take(j + 1)[t] == x;
                            if t < j {
                                assert(mv.take(j as int)[t] == x);
                            }
                        }
                        if mv.take(j as int).contains(x) {
                            let t = choose|t: int| 0 <= t < mv.take(j as int).len() && #[trigger] mv.take(j as int)[t] == x;
                            assert(mv.take(j + 1)[t] == x);
                        }
                        if x == mv[j as int] {
                            assert(mv.take(j + 1)[j as int] == x);
                        }
                    }
                    assert forall|x: Seq<char>| #[trigger] refs_view(refs@).contains(x) <==> rb.contains(x) || mv.take(
                        j + 1,
                    ).contains(x) by {
                        assert(pre.contains(x) <==> rb.contains(x) || mv.take(j as int).contains(x));
                        assert(mv.take(j + 1).contains(x) <==> mv.take(j as int).contains(x) || x == mv[j as int]);
                    }
                }
                j = j + 1;
            }
            proof {
                assert(mv.take(mv.len() as int) =~= mv);
                if w0.processors_report_refs() {
                    assert(w0.processors@[p as int].refs_by_spec());
                    assert(processors@[p as int].refs_by_spec());
                    assert(mv == w0.processors@[p as int].section_refs_spec());
                    assert forall|x: Seq<char>| w0.processor_ref(p + 1, x) <==> w0.processor_ref(p as int, x)
                        || mv.contains(x) by {
                        if w0.processor_ref(p + 1, x) {
                            let t = choose|t: int| 0 <= t < p + 1 && #[trigger] w0.processors@[t].section_refs_spec().contains(x);
                            if t == p {
                                assert(mv.contains(x));
                            } else {
                                assert(w0.processor_ref(p as int, x));
                            }
                        }
                        if w0.processor_ref(p as int, x) {
                            let t = choose|t: int| 0 <= t < p && #[trigger] w0.processors@[t].section_refs_spec().contains(x);
                            assert(w0.processor_ref(p + 1, x));
                        }
                        if mv.contains(x) {
                            assert(w0.processors@[p as int].section_refs_spec().contains(x));
                            assert(w0.processor_ref(p + 1, x));
                        }
                    }
                }
            }
            p = p + 1;
        }
        let ghost pw = warnings@.map_values(|w: String| w@);
        let ghost mut dw: Seq<Seq<char>> = Seq::empty();
        match &directives {
            Some(d) => {
                let ws = d.warnings();
                let mut j: usize = 0;
                while j < ws.len()
                    invariant
                        j <= ws@.len(),
                        warnings@.map_values(|w: String| w@) == pw + ws@.map_values(|w: String| w@).take(j as int),
                    decreases ws.len() - j,
                {
                    let ghost before = warnings@;
                    let c = ws[j].clone();
                    assert(c@ == ws@[j as int]@);
                    warnings.push(c);
                    proof {
                        assert(warnings@ == before.push(c));
                        assert(warnings@.map_values(|w: String| w@) =~= before.map_values(|w: String| w@).push(c@));
                        assert(ws@.map_values(|w: String| w@).take(j + 1) =~= ws@.map_values(|w: String| w@).take(
                            j as int,
                        ).push(c@));
                        assert(warnings@.map_values(|w: String| w@) =~= pw + ws@.map_values(|w: String| w@).take(
                            j + 1,
                        ));
                    }
                    j = j + 1;
                }
                proof {
                    dw = ws@.map_values(|w: String| w@);
                    assert(dw.take(dw.len() as int) =~= dw);
                    assert(dw.take(dv.len() as int) == dv);
                }
            },
            None => {
                assert(pw + dw =~= pw);
            },
        }
        let title = heading.take_title();
        let toc = heading.take_toc();
        proof {
            let all = warnings@.map_values(|w: String| w@);
            assert(all == pw + dw);
            assert(dw =~= dv + dw.skip(dv.len() as int));
            assert(all =~= pw + dv + dw.skip(dv.len() as int));
            if w0.processors_warn_by_spec() && w0.handlers_warn_by_spec() {
                assert(dw.skip(dv.len() as int) =~= hw);
            }
            if w0.processors_warn_by_spec() {
                assert(pw == w0.processor_warnings(w0.processor_count() as int));
                assert(all == w0.processor_warnings(w0.processor_count() as int) + w0.warnings_view() + dw.skip(
                    dv.len() as int,
                ));
            }
        }
        proof {
            let tv = w0.heading.toc_view();
            let m = toc@.map_values(|e: TocEntry| (e.level, e.title@, e.id@));
            assert(m == tv);
            assert forall|i: int, j: int| 0 <= i < j < toc@.len() implies #[trigger] toc@[i].id@
                != #[trigger] toc@[j].id@ by {
                assert(m[i] == (toc@[i].level, toc@[i].title@, toc@[i].id@));
                assert(m[j] == (toc@[j].level, toc@[j].title@, toc@[j].id@));
                assert(tv[i].2 != tv[j].2);
            }
        }
        RenderResult { html, title, toc, warnings, section_refs: refs }
    }


    /// Whether the walk can take `e` next (see `accepts`).
    pub fn accepts_event(&self, e: &Event) -> (b: bool)
        ensures
            b == self.accepts(e),
    {
        let n = self.scopes.len();
        match e {
            Event::End(TagEnd::Heading) => n > 0 && matches!(self.scopes[n - 1], Scope::Heading { .. })
                && self.heading.room_for_heading(),
            Event::End(TagEnd::Image) => n > 0 && matches!(self.scopes[n - 1], Scope::Image { .. }),
            Event::End(TagEnd::TableCell) => self.table.cell_index() < usize::MAX,
            Event::CodeBlock(_) => n == 0 && self.code_block_index < u32::MAX as usize,
            Event::InlineDirective(p) => (self.directives.is_some() || crate::text::str_eq(p.name.as_str(), "status"))
                && p.args.is_well_formed(),
            Event::LeafDirective(_) => self.directives.is_some() && n == 0,
            Event::ContainerDirectiveStart(p) => {
                let group_ok = !crate::text::str_eq(p.name.as_str(), "tabs") || (self.next_group_id
                    < usize::MAX && self.next_tab_hole < u32::MAX);
                let tab_ok = !crate::text::str_eq(p.name.as_str(), "tab") || self.next_tab_id < usize::MAX;
                let known = self.directives.is_some() || crate::text::str_eq(p.name.as_str(), "tabs")
                    || crate::text::str_eq(p.name.as_str(), "tab");
                known && n == 0 && group_ok && tab_ok
            },
            Event::ContainerDirectiveEnd { .. } => n == 0,
            _ => true,
        }
    }

    /// Whether every scope, list, blockquote, container and tab group the
    /// walk opened has closed, so the walk can finish.
    pub fn is_closed(&self) -> (b: bool)
        ensures
            b == (self.scope_depth() == 0 && self.all_closed()),
    {
        self.scopes.len() == 0 && self.list_stack.len() == 0 && self.alert_stack.len() == 0
            && self.container_outcomes.len() == 0 && self.tab_open.len() == 0
    }

}

} // verus!
