//! Diagram markup helpers: the optional id attribute and the section
//! attributes spliced onto the `<a>` tags of an inline SVG.

use vstd::prelude::*;
use crate::directive::args::{find_same, first_where, lemma_first_where};
use crate::text::{chars_of, decimal, lemma_decimal_injective, find_at, find_seq, lemma_find_from, push_char, push_range, push_str, seq_eq, string_of, sub_vec};
use crate::config::SectionIndex;
use crate::link::{index_attrs, registry_attrs, section_attrs_spec, write_section_attrs};
use crate::util::{escape_into, escape_spec};

verus! {

/// One `<a href>` inside a diagram that resolved to a site section.
#[derive(Clone, Debug, PartialEq, Eq)]
pub struct DiagramLink {
    /// The href as it appears in the SVG, identifying which `<a>` to annotate.
    pub href: String,
    /// Canonical `kind:namespace/name` of the section.
    pub section_ref: String,
    /// Path within that section; empty for the section root.
    pub section_path: String,
}

/// The rendered bytes of a diagram kept inline in the page.
pub enum DiagramContent {
    /// SVG markup, embedded as is.
    Svg(String),
    /// PNG bytes, embedded as a data URI.
    Png(Vec<u8>),
}

/// Where a rendered diagram lives.
pub enum Asset {
    /// In the page itself.
    Inline(DiagramContent),
    /// In a file written under this name.
    Reference(String),
}

/// Display size in CSS pixels.
#[derive(Debug, Clone, Copy, PartialEq, Eq, Structural)]
pub struct Size {
    pub width: u32,
    pub height: u32,
}

/// One resolved diagram, ready for a backend to turn into markup.
pub struct DiagramView<'a> {
    /// The id for the figure, when the backend emits ids at all.
    pub id: Option<&'a str>,
    /// The rendered bytes, or the name they were written under.
    pub asset: &'a Asset,
    /// Display size; `None` when the content sizes itself or no size is known.
    pub size: Option<Size>,
    /// Links inside an inline SVG that resolved to a site section, in
    /// document order.
    pub links: &'a [DiagramLink],
}

/// The `data-diagram-id` attribute with its leading space, or nothing.
pub open spec fn diagram_id_attr_spec(id: Option<Seq<char>>) -> Seq<char> {
    match id {
        Some(i) => " data-diagram-id=\""@ + escape_spec(i) + "\""@,
        None => Seq::empty(),
    }
}

/// Append the optional `data-diagram-id` attribute (leading space included),
/// or nothing when there is no id. The value is escaped.
pub fn write_diagram_id_attr(id: Option<&str>, out: &mut String)
    ensures
        final(out)@ == old(out)@ + diagram_id_attr_spec(
            match id {
                Some(i) => Some(i@),
                None => None,
            },
        ),
{
    let ghost o = old(out)@;
    match id {
        Some(i) => {
            push_str(out, " data-diagram-id=\"");
            escape_into(i, out);
            push_char(out, '"');
            proof {
                reveal_strlit("\"");
            }
            assert(out@ =~= o + diagram_id_attr_spec(Some(i@)));
        },
        None => {
            assert(out@ =~= o + diagram_id_attr_spec(None));
        },
    }
}

/// The value of the ` href="` attribute in a tag, when it is there and closed.
/// The leading space keeps `xlink:href=` from matching.
pub open spec fn href_spec(tag: Seq<char>) -> Option<Seq<char>> {
    match find_seq(tag, 0, " href=\""@) {
        None => None,
        Some(i) => {
            let start = i + " href=\""@.len();
            let end = first_where(tag, start, |c: char| c == '"');
            if start <= tag.len() && end < tag.len() {
                Some(tag.subrange(start, end))
            } else {
                None
            }
        },
    }
}

/// The `<a ` tags of `svg` from `pos` on, in order: the index of each tag's
/// closing `>` and its href. A tag with no closing `>` ends the walk.
pub open spec fn a_tags_from(svg: Seq<char>, pos: int) -> Seq<(int, Option<Seq<char>>)>
    decreases svg.len() - pos,
{
    if pos < 0 || pos > svg.len() {
        Seq::empty()
    } else {
        match find_seq(svg, pos, "<a "@) {
            None => Seq::empty(),
            Some(ts) => {
                if pos <= ts <= svg.len() {
                    let close = first_where(svg, ts, |c: char| c == '>');
                    proof {
                        lemma_first_where(svg, ts, |c: char| c == '>');
                    }
                    if close < svg.len() {
                        seq![(close, href_spec(svg.subrange(ts, close + 1)))] + a_tags_from(svg, close + 1)
                    } else {
                        Seq::empty()
                    }
                } else {
                    Seq::empty()
                }
            },
        }
    }
}

/// The index of the first link from `i` on whose href is `href`.
pub open spec fn link_index(links: Seq<DiagramLink>, href: Seq<char>, i: int) -> Option<int>
    decreases links.len() - i,
{
    if i < 0 || i >= links.len() {
        None
    } else if links[i].href@ == href {
        Some(i)
    } else {
        link_index(links, href, i + 1)
    }
}

/// Splicing over the given tags: what has been written, up to where `svg`
/// has been copied, and whether any tag matched a link.
pub open spec fn splice_steps(svg: Seq<char>, tags: Seq<(int, Option<Seq<char>>)>, links: Seq<DiagramLink>) -> (
    Seq<char>,
    int,
    bool,
)
    decreases tags.len(),
{
    if tags.len() == 0 {
        (Seq::empty(), 0, false)
    } else {
        let prev = splice_steps(svg, tags.drop_last(), links);
        let close = tags.last().0;
        match tags.last().1 {
            None => prev,
            Some(h) => match link_index(links, h, 0) {
                None => prev,
                Some(i) => (
                    prev.0 + svg.subrange(prev.1, close) + section_attrs_spec(
                        links[i].section_ref@,
                        links[i].section_path@,
                    ),
                    close,
                    true,
                ),
            },
        }
    }
}

proof fn lemma_link_index_none(links: Seq<DiagramLink>, href: Seq<char>, i: int)
    requires
        0 <= i,
        forall|j: int| i <= j < links.len() ==> #[trigger] links[j].href@ != href,
    ensures
        link_index(links, href, i) is None,
    decreases links.len() - i,
{
    if i < links.len() {
        lemma_link_index_none(links, href, i + 1);
    }
}

proof fn lemma_steps_unmatched(svg: Seq<char>, tags: Seq<(int, Option<Seq<char>>)>, links: Seq<DiagramLink>)
    requires
        forall|t: int, j: int|
            0 <= t < tags.len() && 0 <= j < links.len() ==> #[trigger] tags[t].1 != Some(#[trigger] links[j].href@),
    ensures
        !splice_steps(svg, tags, links).2,
    decreases tags.len(),
{
    if tags.len() > 0 {
        lemma_steps_unmatched(svg, tags.drop_last(), links);
        match tags.last().1 {
            Some(h) => {
                assert forall|j: int| 0 <= j < links.len() implies #[trigger] links[j].href@ != h by {
                    assert(tags[tags.len() - 1].1 != Some(links[j].href@));
                }
                lemma_link_index_none(links, h, 0);
            },
            None => {},
        }
    }
}

/// An SVG none of whose `<a>` tags has the href of one of `links` comes
/// back unchanged from the splice.
pub proof fn lemma_splice_unmatched(svg: Seq<char>, links: Seq<DiagramLink>)
    requires
        forall|t: int, j: int|
            0 <= t < a_tags_from(svg, 0).len() && 0 <= j < links.len() ==> #[trigger] a_tags_from(svg, 0)[t].1 != Some(
                #[trigger] links[j].href@,
            ),
    ensures
        splice_spec(svg, links) == svg,
{
    if links.len() > 0 {
        lemma_steps_unmatched(svg, a_tags_from(svg, 0), links);
    }
}

/// `svg` with the section attributes of the first matching link written just
/// before the `>` of each `<a>` tag whose href some link names; `svg`
/// unchanged when there are no links or no tag matches.
pub open spec fn splice_spec(svg: Seq<char>, links: Seq<DiagramLink>) -> Seq<char> {
    if links.len() == 0 {
        svg
    } else {
        let r = splice_steps(svg, a_tags_from(svg, 0), links);
        if r.2 {
            r.0 + svg.subrange(r.1, svg.len() as int)
        } else {
            svg
        }
    }
}

/// The href value of a tag, as `href_spec` says.
fn extract_href(tag: &[char]) -> (r: Option<Vec<char>>)
    ensures
        match r {
            Some(h) => href_spec(tag@) == Some(h@),
            None => href_spec(tag@) is None,
        },
{
    let needle = chars_of(" href=\"");
    let found = find_at(tag, 0, needle.as_slice());
    match found {
        None => None,
        Some(i) => {
            assert(i + needle@.len() <= tag@.len());
            let n = tag.len();
            assert(i + needle.len() <= n);
            let start = i + needle.len();
            let end = find_same(tag, start, '"');
            proof {
                lemma_first_where(tag@, start as int, |c: char| c == '"');
            }
            if end < tag.len() {
                Some(sub_vec(tag, start, end))
            } else {
                None
            }
        },
    }
}

/// The first link whose href is `href`.
fn find_link(links: &[DiagramLink], href: &[char]) -> (r: Option<usize>)
    ensures
        match r {
            Some(i) => link_index(links@, href@, 0) == Some(i as int) && i < links@.len(),
            None => link_index(links@, href@, 0) is None,
        },
{
    let mut i: usize = 0;
    while i < links.len()
        invariant
            i <= links@.len(),
            link_index(links@, href@, 0) == link_index(links@, href@, i as int),
        decreases links.len() - i,
    {
        let h = chars_of(links[i].href.as_str());
        if seq_eq(h.as_slice(), href) {
            return Some(i);
        }
        i = i + 1;
    }
    None
}

/// Whether `href` is the href of one of `tags`.
pub open spec fn tag_href(tags: Seq<(int, Option<Seq<char>>)>, href: Seq<char>) -> bool {
    exists|t: int| 0 <= t < tags.len() && #[trigger] tags[t].1 == Some(href)
}

/// A link as (href, section reference, section path).
pub open spec fn link_view(l: DiagramLink) -> (Seq<char>, Seq<char>, Seq<char>) {
    (l.href@, l.section_ref@, l.section_path@)
}

/// The links `tags` give, in order, where `section_for` is the registry's
/// answer for an href: each tag with an href that gets section attributes
/// (see `registry_attrs`) gives one.
pub open spec fn svg_links_spec(
    tags: Seq<(int, Option<Seq<char>>)>,
    section_for: spec_fn(Seq<char>) -> Option<(Seq<char>, Seq<char>, Seq<char>)>,
) -> Seq<(Seq<char>, Seq<char>, Seq<char>)>
    decreases tags.len(),
{
    if tags.len() == 0 {
        Seq::empty()
    } else {
        let rest = svg_links_spec(tags.drop_last(), section_for);
        match tags.last().1 {
            Some(h) => match registry_attrs(section_for(h), h) {
                Some(a) => rest.push((h, a.0, a.1)),
                None => rest,
            },
            None => rest,
        }
    }
}

/// The `<a>` links of an SVG that land in a section of the registry, in
/// document order: for each `<a ` tag with an href, its section reference
/// and path as the registry answers for that href (see
/// `link::section_ref_attrs`: only site-absolute hrefs are asked about).
/// What the registry answers is its own affair; every link found is an
/// href of the SVG's tags that starts with `/`.
pub fn scan_svg_links<S: SectionIndex + ?Sized>(svg: &str, sections: &S) -> (r: Vec<DiagramLink>)
    ensures
        r@.len() <= a_tags_from(svg@, 0).len(),
        forall|k: int|
            0 <= k < r@.len() ==> tag_href(a_tags_from(svg@, 0), #[trigger] r@[k].href@) && r@[k].href@.len()
                > 0 && r@[k].href@[0] == '/',
        sections.finds_by_spec() ==> r@.map_values(|l: DiagramLink| link_view(l)) == svg_links_spec(
            a_tags_from(svg@, 0),
            |h: Seq<char>| sections.section_for(h),
        ),
{
    let ghost sf = |h: Seq<char>| sections.section_for(h);
    let v = chars_of(svg);
    let opener = chars_of("<a ");
    let ghost tags = a_tags_from(v@, 0);
    let ghost mut done: Seq<(int, Option<Seq<char>>)> = Seq::empty();
    let mut links: Vec<DiagramLink> = Vec::new();
    let mut pos: usize = 0;
    loop
        invariant_except_break
            done + a_tags_from(v@, pos as int) == tags,
        invariant
            v@ == svg@,
            opener@ == "<a "@,
            tags == a_tags_from(v@, 0),
            pos <= v@.len(),
            links@.len() <= done.len(),
            forall|k: int|
                0 <= k < links@.len() ==> tag_href(done, #[trigger] links@[k].href@) && links@[k].href@.len()
                    > 0 && links@[k].href@[0] == '/',
            sections.finds_by_spec() ==> links@.map_values(|l: DiagramLink| link_view(l)) == svg_links_spec(done, sf),
            sf == (|h: Seq<char>| sections.section_for(h)),
        ensures
            done == tags,
        decreases v@.len() - pos,
    {
        let found = find_at(v.as_slice(), pos, opener.as_slice());
        proof {
            lemma_find_from(v@, pos as int, v@.len() + 1 as int, opener@);
        }
        let ts = match found {
            None => {
                assert(a_tags_from(v@, pos as int) =~= Seq::<(int, Option<Seq<char>>)>::empty());
                assert(done =~= tags);
                break;
            },
            Some(ts) => ts,
        };
        let close = find_same(v.as_slice(), ts, '>');
        proof {
            lemma_first_where(v@, ts as int, |c: char| c == '>');
        }
        if close >= v.len() {
            assert(a_tags_from(v@, pos as int) =~= Seq::<(int, Option<Seq<char>>)>::empty());
            assert(done =~= tags);
            break;
        }
        let tag = sub_vec(v.as_slice(), ts, close + 1);
        let href = extract_href(tag.as_slice());
        let ghost entry = (close as int, href_spec(v@.subrange(ts as int, close + 1)));
        let ghost d2 = done.push(entry);
        assert(a_tags_from(v@, pos as int) =~= seq![entry] + a_tags_from(v@, close + 1));
        proof {
            assert forall|k: int| 0 <= k < links@.len() implies tag_href(d2, #[trigger] links@[k].href@) by {
                let t = choose|t: int| 0 <= t < done.len() && #[trigger] done[t].1 == Some(links@[k].href@);
                assert(d2[t] == done[t]);
            }
        }
        assert(d2.drop_last() =~= done);
        assert(d2.last() == entry);
        match href {
            None => {
                assert(svg_links_spec(d2, sf) == svg_links_spec(done, sf));
            },
            Some(h) => {
                let hs = string_of(h.as_slice());
                assert(sf(hs@) == sections.section_for(hs@));
                assert(d2.last().1 == Some(hs@));
                match index_attrs(sections, hs.as_str()) {
                    None => {
                        assert(sections.finds_by_spec() ==> registry_attrs(sections.section_for(hs@), hs@) is None);
                        assert(sections.finds_by_spec() ==> registry_attrs(sf(hs@), hs@) is None);
                        assert(sections.finds_by_spec() ==> svg_links_spec(d2, sf) == svg_links_spec(done, sf));
                    },
                    Some((section_ref, section_path)) => {
                        let ghost before = links@;
                        links.push(DiagramLink { href: hs, section_ref, section_path });
                        assert(links@.map_values(|l: DiagramLink| link_view(l)) =~= before.map_values(
                            |l: DiagramLink| link_view(l),
                        ).push(link_view(links@[before.len() as int])));
                        assert(sections.finds_by_spec() ==> svg_links_spec(d2, sf) == svg_links_spec(done, sf).push(
                            link_view(links@[before.len() as int]),
                        ));
                        proof {
                            assert(d2[done.len() as int].1 == Some(h@));
                            assert forall|k: int| 0 <= k < links@.len() implies tag_href(d2, #[trigger] links@[k].href@)
                                && links@[k].href@.len() > 0 && links@[k].href@[0] == '/' by {
                                if k < before.len() {
                                    assert(links@[k] == before[k]);
                                }
                            }
                        }
                    },
                }
            },
        }
        proof {
            done = d2;
        }
        assert(done + a_tags_from(v@, close + 1) =~= tags);
        pos = close + 1;
    }
    links
}

/// Append `svg` to `out` with the section attributes of a matching link
/// written onto every `<a>` tag whose href one of `links` names. Appends the
/// input unchanged when nothing matched.
pub fn splice_link_attrs(svg: &str, links: &[DiagramLink], out: &mut String)
    ensures
        final(out)@ == old(out)@ + splice_spec(svg@, links@),
        links@.len() == 0 ==> final(out)@ == old(out)@ + svg@,
{
    let ghost o = old(out)@;
    if links.len() == 0 {
        push_str(out, svg);
        return;
    }
    let v = chars_of(svg);
    let opener = chars_of("<a ");
    let ghost tags = a_tags_from(v@, 0);
    let ghost mut done: Seq<(int, Option<Seq<char>>)> = Seq::empty();
    let mut pos: usize = 0;
    let mut copied: usize = 0;
    let mut changed = false;
    loop
        invariant_except_break
            done + a_tags_from(v@, pos as int) == tags,
        invariant
            v@ == svg@,
            opener@ == "<a "@,
            links@.len() > 0,
            tags == a_tags_from(v@, 0),
            pos <= v@.len(),
            copied <= pos,
            splice_steps(v@, done, links@) == (out@.subrange(o.len() as int, out@.len() as int), copied as int, changed),
            out@.len() >= o.len(),
            out@.subrange(0, o.len() as int) == o,
            !changed ==> out@ == o,
        ensures
            done == tags,
        decreases v@.len() - pos,
    {
        let found = find_at(v.as_slice(), pos, opener.as_slice());
        proof {
            lemma_find_from(v@, pos as int, v@.len() + 1 as int, opener@);
        }
        let ts = match found {
            None => {
                assert(a_tags_from(v@, pos as int) =~= Seq::<(int, Option<Seq<char>>)>::empty());
                assert(done =~= tags);
                break;
            },
            Some(ts) => ts,
        };
        let close = find_same(v.as_slice(), ts, '>');
        proof {
            lemma_first_where(v@, ts as int, |c: char| c == '>');
        }
        if close >= v.len() {
            assert(a_tags_from(v@, pos as int) =~= Seq::<(int, Option<Seq<char>>)>::empty());
            assert(done =~= tags);
            break;
        }
        let tag = sub_vec(v.as_slice(), ts, close + 1);
        let href = extract_href(tag.as_slice());
        let ghost entry = (close as int, href_spec(v@.subrange(ts as int, close + 1)));
        let ghost d2 = done.push(entry);
        assert(a_tags_from(v@, pos as int) =~= seq![entry] + a_tags_from(v@, close + 1));
        assert(d2.drop_last() =~= done);
        let ghost before = out@;
        match href {
            None => {},
            Some(h) => {
                match find_link(links, h.as_slice()) {
                    None => {},
                    Some(i) => {
                        push_range(out, v.as_slice(), copied, close);
                        write_section_attrs(links[i].section_ref.as_str(), links[i].section_path.as_str(), out);
                        assert(out@.subrange(o.len() as int, out@.len() as int) =~= before.subrange(
                            o.len() as int,
                            before.len() as int,
                        ) + v@.subrange(copied as int, close as int) + section_attrs_spec(
                            links@[i as int].section_ref@,
                            links@[i as int].section_path@,
                        ));
                        assert(out@.subrange(0, o.len() as int) =~= before.subrange(0, o.len() as int));
                        copied = close;
                        changed = true;
                    },
                }
            },
        }
        proof {
            done = d2;
        }
        assert(done + a_tags_from(v@, close + 1) =~= tags);
        pos = close + 1;
    }
    if changed {
        let ghost mid = out@;
        push_range(out, v.as_slice(), copied, v.len());
        assert(out@ =~= o + (mid.subrange(o.len() as int, mid.len() as int) + v@.subrange(
            copied as int,
            v@.len() as int,
        )));
    } else {
        push_str(out, svg);
    }
}


/// The id each diagram gets: its explicit `{#id}`, else `diagram-<n>` for its
/// zero-based position among the page's diagrams.
pub open spec fn diagram_ids_spec(explicit: Seq<Option<Seq<char>>>) -> Seq<Seq<char>> {
    Seq::new(
        explicit.len(),
        |pos: int|
            match explicit[pos] {
                Some(id) => id,
                None => "diagram-"@ + decimal(pos as nat),
            },
    )
}

/// The first index before `i` holding `id`.
pub open spec fn first_use(ids: Seq<Seq<char>>, id: Seq<char>, i: int) -> Option<int>
    decreases i,
{
    if i <= 0 {
        None
    } else {
        match first_use(ids, id, i - 1) {
            Some(j) => Some(j),
            None => if ids[i - 1] == id {
                Some(i - 1)
            } else {
                None
            },
        }
    }
}

/// The warning for a diagram whose id an earlier one already took; both
/// numbers are code block indices.
pub open spec fn duplicate_id_warning(block: u32, id: Seq<char>, first: u32) -> Seq<char> {
    "diagram "@ + decimal(block as nat) + ": duplicate id '"@ + id + "' (already used by diagram "@ + decimal(
        first as nat,
    ) + ")"@
}

/// The warnings for the first `k` diagrams, in page order: one for each
/// whose id an earlier diagram already took.
pub open spec fn duplicate_id_warnings(ids: Seq<Seq<char>>, blocks: Seq<u32>, k: int) -> Seq<Seq<char>>
    decreases k,
{
    if k <= 0 {
        Seq::empty()
    } else {
        let prev = duplicate_id_warnings(ids, blocks, k - 1);
        match first_use(ids, ids[k - 1], k - 1) {
            Some(j) => prev.push(duplicate_id_warning(blocks[k - 1], ids[k - 1], blocks[j])),
            None => prev,
        }
    }
}

/// Once an earlier index holds `id`, looking further keeps finding it.
proof fn lemma_first_use_stays(ids: Seq<Seq<char>>, id: Seq<char>, j: int, k: int, m: int)
    requires
        k <= m,
        first_use(ids, id, k) == Some(j),
    ensures
        first_use(ids, id, m) == Some(j),
    decreases m - k,
{
    if k < m {
        lemma_first_use_stays(ids, id, j, k, m - 1);
    }
}

/// The first index before `i` of `ids` holding `id`.
fn find_first_use(ids: &Vec<String>, id: &str, i: usize) -> (r: Option<usize>)
    requires
        i <= ids@.len(),
    ensures
        match r {
            Some(j) => first_use(ids@.map_values(|s: String| s@), id@, i as int) == Some(j as int) && j < i,
            None => first_use(ids@.map_values(|s: String| s@), id@, i as int) is None,
        },
{
    let ghost v = ids@.map_values(|s: String| s@);
    let mut j: usize = 0;
    while j < i
        invariant
            j <= i <= ids@.len(),
            v == ids@.map_values(|s: String| s@),
            first_use(v, id@, j as int) is None,
        decreases i - j,
    {
        if crate::text::str_eq(ids[j].as_str(), id) {
            assert(v[j as int] == ids@[j as int]@);
            assert(first_use(v, id@, j + 1) == Some(j as int));
            proof {
                lemma_first_use_stays(v, id@, j as int, j + 1, i as int);
            }
            return Some(j);
        }
        assert(v[j as int] == ids@[j as int]@);
        j = j + 1;
    }
    None
}

/// Resolve each diagram's id (see `diagram_ids_spec`) and warn, in page
/// order, about every id an earlier diagram already took. `blocks` holds
/// each diagram's code block index; only as many diagrams as both lists
/// cover are checked.
pub fn resolve_ids(explicit: &[Option<String>], blocks: &[u32], warnings: &mut Vec<String>) -> (r: Vec<String>)
    ensures
        r@.map_values(|s: String| s@) == diagram_ids_spec(
            explicit@.map_values(|o: Option<String>| match o {
                Some(s) => Some(s@),
                None => None::<Seq<char>>,
            }),
        ),
        final(warnings)@.map_values(|s: String| s@) == old(warnings)@.map_values(|s: String| s@)
            + duplicate_id_warnings(
            r@.map_values(|s: String| s@),
            blocks@,
            if explicit@.len() < blocks@.len() {
                explicit@.len() as int
            } else {
                blocks@.len() as int
            },
        ),
{
    let ghost ex = explicit@.map_values(|o: Option<String>| match o {
        Some(s) => Some(s@),
        None => None::<Seq<char>>,
    });
    let mut ids: Vec<String> = Vec::new();
    let mut pos: usize = 0;
    while pos < explicit.len()
        invariant
            pos <= explicit@.len(),
            ex == explicit@.map_values(|o: Option<String>| match o {
                Some(s) => Some(s@),
                None => None::<Seq<char>>,
            }),
            ids@.map_values(|s: String| s@) == diagram_ids_spec(ex).take(pos as int),
        decreases explicit.len() - pos,
    {
        let ghost before = ids@.map_values(|s: String| s@);
        let id = match &explicit[pos] {
            Some(s) => crate::text::string_of(chars_of(s.as_str()).as_slice()),
            None => {
                let mut s = String::new();
                push_str(&mut s, "diagram-");
                crate::text::push_decimal(&mut s, pos);
                s
            },
        };
        proof {
            reveal_strlit("diagram-");
        }
        assert(id@ == diagram_ids_spec(ex)[pos as int]);
        let ghost idv = id@;
        ids.push(id);
        assert(ids@.map_values(|s: String| s@) =~= before.push(idv));
        assert(ids@.map_values(|s: String| s@) =~= diagram_ids_spec(ex).take(pos + 1));
        pos = pos + 1;
    }
    assert(diagram_ids_spec(ex).take(explicit@.len() as int) =~= diagram_ids_spec(ex));
    let ghost idv = ids@.map_values(|s: String| s@);
    let n: usize = if explicit.len() < blocks.len() {
        explicit.len()
    } else {
        blocks.len()
    };
    let ghost o = old(warnings)@.map_values(|s: String| s@);
    let mut k: usize = 0;
    while k < n
        invariant
            k <= n,
            n <= ids@.len(),
            n <= blocks@.len(),
            idv == ids@.map_values(|s: String| s@),
            warnings@.map_values(|s: String| s@) == o + duplicate_id_warnings(idv, blocks@, k as int),
        decreases n - k,
    {
        let ghost before = warnings@.map_values(|s: String| s@);
        match find_first_use(&ids, ids[k].as_str(), k) {
            Some(j) => {
                let mut w = String::new();
                push_str(&mut w, "diagram ");
                crate::text::push_decimal(&mut w, blocks[k] as usize);
                push_str(&mut w, ": duplicate id '");
                push_str(&mut w, ids[k].as_str());
                push_str(&mut w, "' (already used by diagram ");
                crate::text::push_decimal(&mut w, blocks[j] as usize);
                push_str(&mut w, ")");
                assert(idv[k as int] == ids@[k as int]@);
                assert(w@ == duplicate_id_warning(blocks@[k as int], idv[k as int], blocks@[j as int]));
                warnings.push(w);
                assert(warnings@.map_values(|s: String| s@) =~= before.push(
                    duplicate_id_warning(blocks@[k as int], idv[k as int], blocks@[j as int]),
                ));
            },
            None => {
                assert(idv[k as int] == ids@[k as int]@);
            },
        }
        k = k + 1;
    }
    ids
}


/// Two diagrams without an explicit id never share their automatic ids.
pub proof fn lemma_auto_ids_distinct(explicit: Seq<Option<Seq<char>>>, i: int, j: int)
    requires
        0 <= i < explicit.len(),
        0 <= j < explicit.len(),
        i != j,
        explicit[i] is None,
        explicit[j] is None,
    ensures
        diagram_ids_spec(explicit)[i] != diagram_ids_spec(explicit)[j],
{
    let p = "diagram-"@;
    let a = diagram_ids_spec(explicit)[i];
    let b = diagram_ids_spec(explicit)[j];
    if a == b {
        assert(a == p + decimal(i as nat));
        assert(b == p + decimal(j as nat));
        assert(a.subrange(p.len() as int, a.len() as int) =~= decimal(i as nat));
        assert(b.subrange(p.len() as int, b.len() as int) =~= decimal(j as nat));
        lemma_decimal_injective(i as nat, j as nat);
    }
}

} // verus!
