//! Display text for wikilinks, given how their target resolved.

use vstd::prelude::*;
use crate::config::{SectionIndex, SectionMatch, TitleResolver};
use crate::directive::args::{find_same, first_where, lemma_first_where};
use crate::link::last_slash_before;
use crate::text::{chars_of, string_of, string_of_range};

verus! {

/// How a wikilink target resolved.
pub enum WikilinkResolution {
    /// To a page of a site section.
    Resolved { href: String, section_ref: String, section_name: String, subpath: String },
    /// A fragment of the same page (`#heading`).
    Fragment,
    /// Not at all: the link renders as broken.
    Broken,
}

/// `u` without one leading `#`, dashes turned into spaces.
pub open spec fn fragment_text_spec(u: Seq<char>) -> Seq<char> {
    let f = if u.len() > 0 && u[0] == '#' {
        u.drop_first()
    } else {
        u
    };
    f.map_values(|c: char| if c == '-' {
        ' '
    } else {
        c
    })
}

/// The page path a title is looked up under: `href` without one leading `/`
/// and without its fragment.
pub open spec fn title_path_spec(href: Seq<char>) -> Seq<char> {
    let p = if href.len() > 0 && href[0] == '/' {
        href.drop_first()
    } else {
        href
    };
    p.take(first_where(p, 0, |c: char| c == '#'))
}

/// The last `/`-separated segment of `s`.
pub open spec fn last_segment_spec(s: Seq<char>) -> Seq<char> {
    s.subrange(last_slash_before(s, s.len() as int) + 1, s.len() as int)
}

/// The display text of a resolved link without a title: the last segment of
/// the subpath, else the section's name, else the href.
pub open spec fn resolved_fallback_spec(href: Seq<char>, subpath: Seq<char>, section_name: Seq<char>) -> Seq<char> {
    if subpath.len() > 0 {
        last_segment_spec(subpath)
    } else if section_name.len() > 0 {
        section_name
    } else {
        href
    }
}

/// The display text of a wikilink, given a title looked up for it (if any).
pub open spec fn display_text_spec(resolution: WikilinkResolution, dest_url: Seq<char>, title: Option<Seq<char>>) -> Seq<
    char,
> {
    match resolution {
        WikilinkResolution::Broken => dest_url,
        WikilinkResolution::Fragment => fragment_text_spec(dest_url),
        WikilinkResolution::Resolved { href, subpath, section_name, .. } => match title {
            Some(t) => t,
            None => resolved_fallback_spec(href@, subpath@, section_name@),
        },
    }
}

/// The page path a title is looked up under (see `title_path_spec`).
pub fn title_path(href: &str) -> (r: String)
    ensures
        r@ == title_path_spec(href@),
{
    let v = chars_of(href);
    let start: usize = if v.len() > 0 && v[0] == '/' {
        1
    } else {
        0
    };
    let p = string_of_range(v.as_slice(), start, v.len());
    let pv = chars_of(p.as_str());
    let h = find_same(pv.as_slice(), 0, '#');
    proof {
        lemma_first_where(pv@, 0, |c: char| c == '#');
    }
    assert(v@.subrange(1, v@.len() as int) =~= v@.drop_first());
    assert(v@.subrange(0, v@.len() as int) =~= v@);
    string_of_range(pv.as_slice(), 0, h)
}

/// The display text of a wikilink, given the title found for it: the raw
/// target when broken, the fragment with dashes as spaces for a fragment
/// link, and for a resolved link the title, else its fallback.
pub fn display_text_with_title(resolution: &WikilinkResolution, dest_url: &str, title: Option<String>) -> (r: String)
    ensures
        r@ == display_text_spec(
            *resolution,
            dest_url@,
            match title {
                Some(t) => Some(t@),
                None => None,
            },
        ),
{
    match resolution {
        WikilinkResolution::Broken => string_of(chars_of(dest_url).as_slice()),
        WikilinkResolution::Fragment => {
            let v = chars_of(dest_url);
            let start: usize = if v.len() > 0 && v[0] == '#' {
                1
            } else {
                0
            };
            let ghost f = v@.subrange(start as int, v@.len() as int);
            assert(v@.subrange(1, v@.len() as int) =~= v@.drop_first());
            assert(v@.subrange(0, v@.len() as int) =~= v@);
            let mut out: Vec<char> = Vec::new();
            let mut i: usize = start;
            while i < v.len()
                invariant
                    start <= i <= v@.len(),
                    f == v@.subrange(start as int, v@.len() as int),
                    out@ == f.take(i - start).map_values(|c: char| if c == '-' {
                        ' '
                    } else {
                        c
                    }),
                decreases v.len() - i,
            {
                let c = v[i];
                out.push(if c == '-' {
                    ' '
                } else {
                    c
                });
                assert(f.take(i + 1 - start) =~= f.take(i - start).push(c));
                i = i + 1;
            }
            assert(f.take(v@.len() - start) =~= f);
            string_of(out.as_slice())
        },
        WikilinkResolution::Resolved { href, subpath, section_name, .. } => {
            match title {
                Some(t) => t,
                None => {
                    if !subpath.as_str().is_empty() {
                        let sv = chars_of(subpath.as_str());
                        let mut k: usize = sv.len();
                        while k > 0 && sv[k - 1] != '/'
                            invariant
                                k <= sv@.len(),
                                last_slash_before(sv@, sv@.len() as int) == last_slash_before(sv@, k as int),
                            decreases k,
                        {
                            k = k - 1;
                        }
                        string_of_range(sv.as_slice(), k, sv.len())
                    } else if !section_name.as_str().is_empty() {
                        string_of(chars_of(section_name.as_str()).as_slice())
                    } else {
                        string_of(chars_of(href.as_str()).as_slice())
                    }
                },
            }
        },
    }
}

/// The display text of a wikilink: for a resolved link, the title the
/// resolver finds for its page (its href without a leading `/` and without
/// its fragment) first. For a resolver that answers by its specification
/// that answer is the title; for any other the text is stated for whatever
/// it answered.
pub fn display_text(title_resolver: Option<&dyn TitleResolver>, resolution: &WikilinkResolution, dest_url: &str) -> (r:
    String)
    ensures
        title_resolver is None ==> r@ == display_text_spec(*resolution, dest_url@, None),
        exists|title: Option<Seq<char>>| r@ == display_text_spec(*resolution, dest_url@, title),
        title_resolver matches Some(t) ==> (t.resolves_by_spec() ==> r@ == display_text_spec(
            *resolution,
            dest_url@,
            match *resolution {
                WikilinkResolution::Resolved { href, .. } => t.title_for(title_path_spec(href@)),
                _ => None,
            },
        )),
{
    let title = match (resolution, title_resolver) {
        (WikilinkResolution::Resolved { href, .. }, Some(resolver)) => {
            let path = title_path(href.as_str());
            resolver.resolve_title(path.as_str())
        },
        _ => None,
    };
    let ghost t = match &title {
        Some(t) => Some(t@),
        None => None,
    };
    let r = display_text_with_title(resolution, dest_url, title);
    assert(r@ == display_text_spec(*resolution, dest_url@, t));
    r
}

/// The resolution of a wikilink given the registry's answer (`None`: the
/// target did not resolve).
pub fn resolution_from(answer: Option<(String, SectionMatch)>) -> (r: WikilinkResolution)
    ensures
        match answer {
            None => r is Broken,
            Some((href, m)) => r == (WikilinkResolution::Resolved {
                href,
                section_ref: m.section_ref,
                section_name: m.section_name,
                subpath: m.path,
            }),
        },
{
    match answer {
        None => WikilinkResolution::Broken,
        Some((href, m)) => WikilinkResolution::Resolved {
            href,
            section_ref: m.section_ref,
            section_name: m.section_name,
            subpath: m.path,
        },
    }
}

/// Resolve a wikilink target. A fragment (`#heading`) stays on the page;
/// any other target needs a section registry, and without one, or when the
/// registry does not know it, the link is broken. `base_path` is handed to
/// the registry for targets relative to the current section.
pub fn resolve(sections: Option<&dyn SectionIndex>, base_path: Option<&str>, dest_url: &str) -> (r:
    WikilinkResolution)
    ensures
        (dest_url@.len() > 0 && dest_url@[0] == '#') ==> r is Fragment,
        !(dest_url@.len() > 0 && dest_url@[0] == '#') ==> !(r is Fragment),
        !(dest_url@.len() > 0 && dest_url@[0] == '#') && sections is None ==> r is Broken,
        match sections {
            Some(s) => (s.finds_by_spec() && !(dest_url@.len() > 0 && dest_url@[0] == '#')) ==> match s.refpath_for(
                dest_url@,
                match base_path {
                    Some(b) => Some(b@),
                    None => None,
                },
            ) {
                None => r is Broken,
                Some((h, t)) => r matches WikilinkResolution::Resolved { href, section_ref, section_name, subpath }
                    && href@ == h && section_ref@ == t.0 && section_name@ == t.1 && subpath@ == t.2,
            },
            None => true,
        },
{
    let v = chars_of(dest_url);
    if v.len() > 0 && v[0] == '#' {
        return WikilinkResolution::Fragment;
    }
    match sections {
        None => WikilinkResolution::Broken,
        Some(index) => resolution_from(index.resolve_refpath(dest_url, base_path)),
    }
}

} // verus!
