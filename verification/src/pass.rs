//! The second phase of a render: turning the diagram fences a walk found
//! into markup, once something outside the renderer has resolved them.

use vstd::prelude::*;
use crate::backend::RenderBackend;
use crate::config::SectionIndex;
use crate::diagram::{a_tags_from, diagram_ids_spec, duplicate_id_warnings, link_view, resolve_ids, scan_svg_links,
    svg_links_spec, Asset, DiagramContent, DiagramLink, DiagramView, Size};
use crate::directive::fills::{byte_len, under, Fills, GlobalFills, HoleKey, Source};
use crate::holes::{assembled, fill_text, offsets_fit, Holes};
use crate::text::{decimal, push_decimal, push_str};
use crate::directive::processor::merge_checked;

verus! {

/// A diagram fence the walk found.
pub struct DiagramRequest {
    /// The fence language, which picks the provider.
    pub language: String,
    /// The fence body.
    pub source: String,
    /// The explicit `{#id}`, if any.
    pub id: Option<String>,
    /// The fence's code block index, which numbers it in messages.
    pub block: u32,
}

/// A diagram a provider rendered.
pub struct Resolved {
    pub asset: Asset,
    pub size: Option<Size>,
    /// What the provider had to say about it.
    pub warnings: Vec<String>,
}

/// A provider's message about the fence numbered `block`.
pub open spec fn attributed(block: u32, msg: Seq<char>) -> Seq<char> {
    "diagram "@ + decimal(block as nat) + ": "@ + msg
}

/// The explicit ids of `requests`.
pub open spec fn explicit_ids(requests: Seq<DiagramRequest>) -> Seq<Option<Seq<char>>> {
    requests.map_values(
        |q: DiagramRequest|
            match q.id {
                Some(s) => Some(s@),
                None => None::<Seq<char>>,
            },
    )
}

/// The id each diagram is written with: none at all when backend `B`
/// writes no diagram ids.
pub open spec fn page_ids<B: RenderBackend>(requests: Seq<DiagramRequest>) -> Seq<Option<Seq<char>>> {
    Seq::new(
        requests.len(),
        |k: int|
            if B::diagram_ids_spec() {
                Some(diagram_ids_spec(explicit_ids(requests))[k])
            } else {
                None
            },
    )
}

/// The markup of one diagram: its figure when it resolved (with `links`,
/// the section links found in it), an error figure naming the fence when it
/// failed, and its source when nobody answered.
pub open spec fn diagram_markup<B: RenderBackend>(
    request: DiagramRequest,
    id: Option<Seq<char>>,
    answer: Option<Result<Resolved, String>>,
    links: Seq<DiagramLink>,
) -> Seq<char> {
    match answer {
        None => B::diagram_source_text(request.language@, request.source@),
        Some(Err(m)) => B::diagram_error_text(id, attributed(request.block, m@)),
        Some(Ok(res)) => B::diagram_text(id, res.asset, res.size, links),
    }
}

/// The provider warnings of the first `k` diagrams, each attributed to its
/// fence, in page order.
pub open spec fn provider_warnings(
    requests: Seq<DiagramRequest>,
    answers: Seq<Option<Result<Resolved, String>>>,
    k: int,
) -> Seq<Seq<char>>
    decreases k,
{
    if k <= 0 {
        Seq::empty()
    } else {
        provider_warnings(requests, answers, k - 1) + match answers[k - 1] {
            Some(Ok(res)) => res.warnings@.map_values(|w: String| attributed(requests[k - 1].block, w@)),
            _ => Seq::empty(),
        }
    }
}

/// The section refs of the links of the first `k` diagrams, in order.
pub open spec fn link_refs(links: Seq<Seq<DiagramLink>>, k: int) -> Seq<Seq<char>>
    decreases k,
{
    if k <= 0 {
        Seq::empty()
    } else {
        link_refs(links, k - 1) + links[k - 1].map_values(|l: DiagramLink| l.section_ref@)
    }
}

/// Whether `links` may have come from scanning the answer: only an inline
/// SVG, with a section registry to ask, has links; with a registry that
/// answers by its specification, they are the SVG's links as
/// `svg_links_spec` gives them.
pub open spec fn links_allowed<S: SectionIndex + ?Sized>(
    answer: Option<Result<Resolved, String>>,
    sections: Option<&S>,
    links: Seq<DiagramLink>,
) -> bool {
    &&& links.len() > 0 ==> sections is Some && match answer {
        Some(Ok(res)) => res.asset is Inline && res.asset->Inline_0 is Svg,
        _ => false,
    }
    &&& match (sections, answer) {
        (Some(s), Some(Ok(res))) => match res.asset {
            Asset::Inline(DiagramContent::Svg(svg)) => s.finds_by_spec() ==> links.map_values(
                |l: DiagramLink| link_view(l),
            ) == svg_links_spec(a_tags_from(svg@, 0), |h: Seq<char>| s.section_for(h)),
            _ => true,
        },
        _ => true,
    }
}

/// Strings as sequences.
pub open spec fn strings_view(v: Seq<String>) -> Seq<Seq<char>> {
    v.map_values(|s: String| s@)
}

/// Append the message `diagram {block}: {msg}`.
fn push_attributed(out: &mut String, block: u32, msg: &str)
    ensures
        final(out)@ == old(out)@ + attributed(block, msg@),
{
    let ghost o = old(out)@;
    push_str(out, "diagram ");
    push_decimal(out, block as usize);
    push_str(out, ": ");
    push_str(out, msg);
    assert(out@ =~= o + attributed(block, msg@));
}

/// The markup of each diagram, in page order, for backend `B`. With ids
/// written, every id an earlier diagram took is warned about first; then
/// each resolved diagram's provider warnings follow, attributed to its
/// fence. The section refs of the links found in resolved inline SVGs are
/// appended to `refs`, in page order.
pub fn render_diagrams<B: RenderBackend>(
    requests: &[DiagramRequest],
    answers: &[Option<Result<Resolved, String>>],
    sections: Option<&dyn SectionIndex>,
    warnings: &mut Vec<String>,
    refs: &mut Vec<String>,
) -> (r: Vec<String>)
    requires
        answers@.len() == requests@.len(),
    ensures
        r@.len() == requests@.len(),
        exists|links: Seq<Seq<DiagramLink>>|
            {
                &&& links.len() == requests@.len()
                &&& forall|k: int|
                    0 <= k < requests@.len() ==> #[trigger] r@[k]@ == diagram_markup::<B>(
                        requests@[k],
                        page_ids::<B>(requests@)[k],
                        answers@[k],
                        links[k],
                    ) && links_allowed(answers@[k], sections, links[k])
                &&& strings_view(final(refs)@) == strings_view(old(refs)@) + link_refs(links, links.len() as int)
            },
        strings_view(final(warnings)@) == strings_view(old(warnings)@) + (if B::diagram_ids_spec() {
            duplicate_id_warnings(
                diagram_ids_spec(explicit_ids(requests@)),
                requests@.map_values(|q: DiagramRequest| q.block),
                requests@.len() as int,
            )
        } else {
            Seq::empty()
        }) + provider_warnings(requests@, answers@, requests@.len() as int),
{
    let ghost w0 = strings_view(warnings@);
    let ghost refs0 = strings_view(refs@);
    let mut explicit: Vec<Option<String>> = Vec::new();
    let mut blocks: Vec<u32> = Vec::new();
    let mut i: usize = 0;
    while i < requests.len()
        invariant
            i <= requests@.len(),
            explicit@.len() == i,
            blocks@.len() == i,
            forall|k: int| 0 <= k < i ==> #[trigger] explicit@[k] == requests@[k].id,
            forall|k: int| 0 <= k < i ==> #[trigger] blocks@[k] == requests@[k].block,
        decreases requests.len() - i,
    {
        explicit.push(requests[i].id.clone());
        blocks.push(requests[i].block);
        i = i + 1;
    }
    let ids_on = B::diagram_ids();
    let ids: Vec<String> = if ids_on {
        resolve_ids(explicit.as_slice(), blocks.as_slice(), warnings)
    } else {
        Vec::new()
    };
    proof {
        assert(explicit@.map_values(|o: Option<String>| match o {
            Some(s) => Some(s@),
            None => None::<Seq<char>>,
        }) =~= explicit_ids(requests@));
        assert(blocks@ =~= requests@.map_values(|q: DiagramRequest| q.block));
    }
    let ghost w1 = strings_view(warnings@);
    let ghost dup = if B::diagram_ids_spec() {
        duplicate_id_warnings(
            diagram_ids_spec(explicit_ids(requests@)),
            requests@.map_values(|q: DiagramRequest| q.block),
            requests@.len() as int,
        )
    } else {
        Seq::empty()
    };
    assert(w1 == w0 + dup);
    let ghost mut links: Seq<Seq<DiagramLink>> = Seq::empty();
    let mut out: Vec<String> = Vec::new();
    let mut k: usize = 0;
    while k < requests.len()
        invariant
            k <= requests@.len(),
            answers@.len() == requests@.len(),
            ids_on == B::diagram_ids_spec(),
            ids_on ==> strings_view(ids@) == diagram_ids_spec(explicit_ids(requests@)),
            out@.len() == k,
            links.len() == k,
            forall|j: int|
                0 <= j < k ==> #[trigger] out@[j]@ == diagram_markup::<B>(
                    requests@[j],
                    page_ids::<B>(requests@)[j],
                    answers@[j],
                    links[j],
                ),
            forall|j: int| 0 <= j < k ==> #[trigger] links_allowed(answers@[j], sections, links[j]),
            strings_view(refs@) == refs0 + link_refs(links, k as int),
            strings_view(warnings@) == w1 + provider_warnings(requests@, answers@, k as int),
        decreases requests.len() - k,
    {
        let request = &requests[k];
        let id: Option<&str> = if ids_on {
            assert(strings_view(ids@).len() == requests@.len());
            Some(ids[k].as_str())
        } else {
            None
        };
        proof {
            if ids_on {
                assert(strings_view(ids@)[k as int] == ids@[k as int]@);
            }
        }
        assert(match id {
            Some(s) => Some(s@),
            None => None::<Seq<char>>,
        } == page_ids::<B>(requests@)[k as int]);
        let mut markup = String::new();
        let ghost mut found: Seq<DiagramLink> = Seq::empty();
        let ghost refs_before = strings_view(refs@);
        let ghost warn_before = strings_view(warnings@);
        match &answers[k] {
            Some(Ok(resolved)) => {
                let found_links: Vec<DiagramLink> = match (&resolved.asset, sections) {
                    (Asset::Inline(DiagramContent::Svg(svg)), Some(index)) => scan_svg_links(svg.as_str(), index),
                    _ => Vec::new(),
                };
                let mut j: usize = 0;
                while j < found_links.len()
                    invariant
                        j <= found_links@.len(),
                        strings_view(refs@) == refs_before + found_links@.take(j as int).map_values(
                            |l: DiagramLink| l.section_ref@,
                        ),
                    decreases found_links.len() - j,
                {
                    let ghost rb = refs@;
                    let r1 = found_links[j].section_ref.clone();
                    assert(r1@ == found_links@[j as int].section_ref@);
                    refs.push(r1);
                    proof {
                        assert(refs@ == rb.push(r1));
                        assert(strings_view(refs@) =~= strings_view(rb).push(r1@));
                        assert(found_links@.take(j + 1) =~= found_links@.take(j as int).push(found_links@[j as int]));
                        assert(strings_view(refs@) =~= refs_before + found_links@.take(j + 1).map_values(
                            |l: DiagramLink| l.section_ref@,
                        ));
                    }
                    j = j + 1;
                }
                assert(found_links@.take(found_links@.len() as int) =~= found_links@);
                B::diagram(
                    &DiagramView { id, asset: &resolved.asset, size: resolved.size, links: found_links.as_slice() },
                    &mut markup,
                );
                let mut w: usize = 0;
                while w < resolved.warnings.len()
                    invariant
                        w <= resolved.warnings@.len(),
                        strings_view(warnings@) == warn_before + resolved.warnings@.take(w as int).map_values(
                            |x: String| attributed(request.block, x@),
                        ),
                    decreases resolved.warnings.len() - w,
                {
                    let mut msg = String::new();
                    push_attributed(&mut msg, request.block, resolved.warnings[w].as_str());
                    let ghost wb = warnings@;
                    let ghost mv = msg@;
                    warnings.push(msg);
                    proof {
                        assert(warnings@ == wb.push(msg));
                        assert(strings_view(warnings@) =~= strings_view(wb).push(mv));
                        assert(resolved.warnings@.take(w + 1) =~= resolved.warnings@.take(w as int).push(
                            resolved.warnings@[w as int],
                        ));
                        assert(strings_view(warnings@) =~= warn_before + resolved.warnings@.take(w + 1).map_values(
                            |x: String| attributed(request.block, x@),
                        ));
                    }
                    w = w + 1;
                }
                assert(resolved.warnings@.take(resolved.warnings@.len() as int) =~= resolved.warnings@);
                proof {
                    found = found_links@;
                }
            },
            Some(Err(message)) => {
                let mut msg = String::new();
                push_attributed(&mut msg, request.block, message.as_str());
                B::diagram_error(id, msg.as_str(), &mut markup);
                assert(refs_before + Seq::<Seq<char>>::empty() =~= refs_before);
                assert(warn_before + Seq::<Seq<char>>::empty() =~= warn_before);
            },
            None => {
                B::diagram_source(request.language.as_str(), request.source.as_str(), &mut markup);
                assert(refs_before + Seq::<Seq<char>>::empty() =~= refs_before);
                assert(warn_before + Seq::<Seq<char>>::empty() =~= warn_before);
            },
        }
        assert(markup@ =~= Seq::<char>::empty() + diagram_markup::<B>(
            requests@[k as int],
            page_ids::<B>(requests@)[k as int],
            answers@[k as int],
            found,
        ));
        let ghost before_out = out@;
        let ghost mk = markup@;
        out.push(markup);
        assert(out@[k as int]@ == mk);
        assert(links_allowed(answers@[k as int], sections, found));
        assert(mk == diagram_markup::<B>(requests@[k as int], page_ids::<B>(requests@)[k as int], answers@[k as int], found));
        proof {
            let l2 = links.push(found);
            assert(link_refs(l2, k + 1) == link_refs(l2, k as int) + found.map_values(|l: DiagramLink| l.section_ref@));
            assert(link_refs(l2, k as int) == link_refs(links, k as int)) by {
                lemma_link_refs_prefix(links, l2, k as int);
            }
            assert forall|j: int| 0 <= j < k + 1 implies #[trigger] out@[j]@ == diagram_markup::<B>(
                requests@[j],
                page_ids::<B>(requests@)[j],
                answers@[j],
                l2[j],
            ) && links_allowed(answers@[j], sections, l2[j]) by {
                if j < k {
                    assert(out@[j] == before_out[j]);
                    assert(l2[j] == links[j]);
                    assert(before_out[j]@ == diagram_markup::<B>(
                        requests@[j],
                        page_ids::<B>(requests@)[j],
                        answers@[j],
                        links[j],
                    ));
                } else {
                    assert(l2[j] == found);
                }
            }
            links = l2;
        }
        k = k + 1;
    }
    out
}

/// `link_refs` reads only the first `k` link lists.
proof fn lemma_link_refs_prefix(a: Seq<Seq<DiagramLink>>, b: Seq<Seq<DiagramLink>>, k: int)
    requires
        0 <= k <= a.len(),
        k <= b.len(),
        forall|j: int| 0 <= j < k ==> a[j] == b[j],
    ensures
        link_refs(a, k) == link_refs(b, k),
    decreases k,
{
    if k > 0 {
        lemma_link_refs_prefix(a, b, k - 1);
    }
}


/// Each diagram's markup under its fence's code block index, a later fence
/// under the same index replacing an earlier one.
pub fn diagram_fills(requests: &[DiagramRequest], markups: &[String]) -> (r: Fills)
    requires
        markups@.len() == requests@.len(),
    ensures
        r@ == block_fills(requests@, strings_view(markups@), requests@.len() as int),
        r.content_len() <= total_bytes(strings_view(markups@), markups@.len() as int),
{
    let mut fills = Fills::new();
    let mut k: usize = 0;
    while k < requests.len()
        invariant
            k <= requests@.len(),
            markups@.len() == requests@.len(),
            fills@ == block_fills(requests@, strings_view(markups@), k as int),
            fills.content_len() <= total_bytes(strings_view(markups@), k as int),
        decreases requests.len() - k,
    {
        let m = markups[k].clone();
        assert(m@ == strings_view(markups@)[k as int]);
        fills.set(requests[k].block, m);
        k = k + 1;
    }
    fills
}

/// The UTF-8 size of the first `k` texts together.
pub open spec fn total_bytes(texts: Seq<Seq<char>>, k: int) -> nat
    decreases k,
{
    if k <= 0 {
        0
    } else {
        total_bytes(texts, k - 1) + byte_len(texts[k - 1])
    }
}

/// The fills the first `k` diagrams leave, keyed by code block index.
pub open spec fn block_fills(requests: Seq<DiagramRequest>, markups: Seq<Seq<char>>, k: int) -> Map<u32, Seq<char>>
    decreases k,
{
    if k <= 0 {
        Map::empty()
    } else {
        block_fills(requests, markups, k - 1).insert(requests[k - 1].block, markups[k - 1])
    }
}

/// Finish a walked page whose diagram holes wait for `answers` (one per
/// request, `None` where nobody answered): every diagram is rendered as
/// `render_diagrams` says and written at its hole through the backend, the
/// rest of `output` copied unchanged; warnings and section refs grow as
/// `render_diagrams` says.
pub fn finish_diagrams<B: RenderBackend>(
    output: String,
    holes: Holes<Source>,
    requests: &[DiagramRequest],
    answers: &[Option<Result<Resolved, String>>],
    sections: Option<&dyn SectionIndex>,
    warnings: &mut Vec<String>,
    refs: &mut Vec<String>,
) -> (r: String)
    requires
        answers@.len() == requests@.len(),
        offsets_fit(holes.offsets(), output@.len()),
    ensures
        exists|texts: Seq<Seq<char>>, links: Seq<Seq<DiagramLink>>, fills: Map<(Source, HoleKey), Seq<char>>|
            #![trigger assembled(output@, holes.offsets(), texts), link_refs(links, links.len() as int), fills.dom()]
            {
                &&& links.len() == requests@.len()
                &&& forall|k: int| 0 <= k < requests@.len() ==> #[trigger] links_allowed(answers@[k], sections, links[k])
                &&& strings_view(final(refs)@) == strings_view(old(refs)@) + link_refs(links, links.len() as int)
                &&& texts.len() == holes.offsets().len()
                &&& r@ == assembled(output@, holes.offsets(), texts)
                &&& fills == diagram_hole_fills::<B>(requests@, answers@, links) || (fills == Map::<
                    (Source, HoleKey),
                    Seq<char>,
                >::empty() && total_bytes(
                    diagram_markups::<B>(requests@, answers@, links),
                    requests@.len() as int,
                ) > usize::MAX)
                &&& forall|i: int|
                    0 <= i < texts.len() ==> #[trigger] texts[i] == fill_text::<Source, B>(fills, holes.keys()[i])
            },
        strings_view(final(warnings)@) == strings_view(old(warnings)@) + (if B::diagram_ids_spec() {
            duplicate_id_warnings(
                diagram_ids_spec(explicit_ids(requests@)),
                requests@.map_values(|q: DiagramRequest| q.block),
                requests@.len() as int,
            )
        } else {
            Seq::empty()
        }) + provider_warnings(requests@, answers@, requests@.len() as int),
{
    let markups = render_diagrams::<B>(requests, answers, sections, warnings, refs);
    proof {
        let links = choose|links: Seq<Seq<DiagramLink>>|
            {
                &&& links.len() == requests@.len()
                &&& forall|k: int|
                    0 <= k < requests@.len() ==> #[trigger] markups@[k]@ == diagram_markup::<B>(
                        requests@[k],
                        page_ids::<B>(requests@)[k],
                        answers@[k],
                        links[k],
                    ) && links_allowed(answers@[k], sections, links[k])
                &&& strings_view(refs@) == strings_view(old(refs)@) + link_refs(links, links.len() as int)
            };
        assert forall|k: int| 0 <= k < requests@.len() implies #[trigger] links_allowed(
            answers@[k],
            sections,
            links[k],
        ) by {
            assert(markups@[k]@ == markups@[k]@);
        }
        assert(strings_view(markups@) =~= diagram_markups::<B>(requests@, answers@, links));
    }
    let fills = diagram_fills(requests, markups.as_slice());
    let mut global: GlobalFills<Source> = GlobalFills::new();
    merge_checked(&mut global, Source::Diagram, fills);
    assert(Map::<(Source, HoleKey), Seq<char>>::empty().union_prefer_right(under(Source::Diagram, fills@))
        =~= under(Source::Diagram, fills@));
    holes.assemble_through::<B>(output, &global)
}

/// The markup of every diagram, given the links found in each.
pub open spec fn diagram_markups<B: RenderBackend>(
    requests: Seq<DiagramRequest>,
    answers: Seq<Option<Result<Resolved, String>>>,
    links: Seq<Seq<DiagramLink>>,
) -> Seq<Seq<char>> {
    Seq::new(requests.len(), |k: int| diagram_markup::<B>(requests[k], page_ids::<B>(requests)[k], answers[k], links[k]))
}

/// The fills of the diagram holes: each diagram's markup under its fence's
/// code block index, in the diagram namespace.
pub open spec fn diagram_hole_fills<B: RenderBackend>(
    requests: Seq<DiagramRequest>,
    answers: Seq<Option<Result<Resolved, String>>>,
    links: Seq<Seq<DiagramLink>>,
) -> Map<(Source, HoleKey), Seq<char>> {
    under(Source::Diagram, block_fills(requests, diagram_markups::<B>(requests, answers, links), requests.len() as int))
}
} // verus!
