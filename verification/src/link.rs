//! Path helpers for plain markdown links, and the attributes a link to a
//! site section carries.

use vstd::prelude::*;
use crate::text::{chars_of, matches_at, push_char, push_str, starts_with_at, string_of, string_of_range};
use crate::util::{escape_into, escape_spec};
use crate::config::{SectionIndex, SectionMatch};

verus! {

/// The section attributes of a link: `data-section-ref`, and
/// `data-section-path` when the path is not empty.
pub open spec fn section_attrs_spec(section_ref: Seq<char>, section_path: Seq<char>) -> Seq<char> {
    " data-section-ref=\""@ + escape_spec(section_ref) + "\""@ + if section_path.len() > 0 {
        " data-section-path=\""@ + escape_spec(section_path) + "\""@
    } else {
        Seq::empty()
    }
}

/// Append the section attributes of a link, values escaped.
pub fn write_section_attrs(section_ref: &str, section_path: &str, out: &mut String)
    ensures
        final(out)@ == old(out)@ + section_attrs_spec(section_ref@, section_path@),
{
    let ghost o = old(out)@;
    push_str(out, " data-section-ref=\"");
    escape_into(section_ref, out);
    push_char(out, '"');
    if !section_path.is_empty() {
        push_str(out, " data-section-path=\"");
        escape_into(section_path, out);
        push_char(out, '"');
    }
    proof {
        reveal_strlit("\"");
    }
    assert(out@ =~= o + section_attrs_spec(section_ref@, section_path@));
}

/// `s` without its trailing slashes.
pub open spec fn trim_trailing_slashes(s: Seq<char>) -> Seq<char>
    decreases s.len(),
{
    if s.len() > 0 && s.last() == '/' {
        trim_trailing_slashes(s.drop_last())
    } else {
        s
    }
}

/// The index of the last `/` before `k`, or -1.
pub open spec fn last_slash_before(s: Seq<char>, k: int) -> int
    decreases k,
{
    if k <= 0 {
        -1
    } else if s[k - 1] == '/' {
        k - 1
    } else {
        last_slash_before(s, k - 1)
    }
}

/// The directory a page's relative links resolve against: a directory page
/// resolves against its own path; a leaf page against its containing
/// directory, which is `/` for a page at the root.
pub open spec fn link_base_spec(base: Seq<char>, is_dir: bool) -> Seq<char> {
    if is_dir {
        base
    } else {
        let t = trim_trailing_slashes(base);
        let k = last_slash_before(t, t.len() as int);
        if k > 0 {
            t.subrange(0, k)
        } else {
            "/"@
        }
    }
}

/// The base path for resolving a page's relative links (see
/// `link_base_spec`); `None` when the page has no base path.
pub fn link_base(base_path: Option<&str>, is_dir: bool) -> (r: Option<String>)
    ensures
        match base_path {
            None => r is None,
            Some(b) => r matches Some(s) && s@ == link_base_spec(b@, is_dir),
        },
{
    let base = match base_path {
        None => {
            return None;
        },
        Some(b) => b,
    };
    if is_dir {
        return Some(string_of(chars_of(base).as_slice()));
    }
    let v = chars_of(base);
    let mut end: usize = v.len();
    assert(v@.take(end as int) =~= v@);
    while end > 0 && v[end - 1] == '/'
        invariant
            end <= v@.len(),
            trim_trailing_slashes(v@) == trim_trailing_slashes(v@.take(end as int)),
        decreases end,
    {
        assert(v@.take(end as int).drop_last() =~= v@.take(end - 1));
        end = end - 1;
    }
    assert(trim_trailing_slashes(v@.take(end as int)) == v@.take(end as int));
    let ghost t = v@.take(end as int);
    let mut k: usize = end;
    while k > 0 && v[k - 1] != '/'
        invariant
            k <= end <= v@.len(),
            t == v@.take(end as int),
            last_slash_before(t, t.len() as int) == last_slash_before(t, k as int),
        decreases k,
    {
        k = k - 1;
    }
    if k > 1 {
        assert(last_slash_before(t, t.len() as int) == k - 1);
        assert(t.subrange(0, k - 1) =~= v@.subrange(0, k - 1));
        Some(string_of_range(v.as_slice(), 0, k - 1))
    } else {
        proof {
            reveal_strlit("/");
        }
        Some(string_of(chars_of("/").as_slice()))
    }
}

/// `url` without the origin prefix, when it starts with it.
pub open spec fn strip_origin_spec(prefix: Option<Seq<char>>, url: Seq<char>) -> Seq<char> {
    match prefix {
        Some(p) => if matches_at(url, 0, p) {
            url.subrange(p.len() as int, url.len() as int)
        } else {
            url
        },
        None => url,
    }
}

/// Strip the origin prefix from a link: for a file outside the source
/// directory, relative links name that directory, and the prefix is dropped
/// so the link resolves in URL space.
pub fn strip_origin(origin_prefix: Option<&str>, url: &str) -> (r: String)
    ensures
        r@ == strip_origin_spec(
            match origin_prefix {
                Some(p) => Some(p@),
                None => None,
            },
            url@,
        ),
{
    let v = chars_of(url);
    match origin_prefix {
        Some(p) => {
            let pv = chars_of(p);
            if starts_with_at(v.as_slice(), 0, pv.as_slice()) {
                string_of_range(v.as_slice(), pv.len(), v.len())
            } else {
                string_of(v.as_slice())
            }
        },
        None => string_of(v.as_slice()),
    }
}

/// The section attributes the registry's answer for a link gives: the
/// section's canonical reference and the path within it.
pub fn section_attrs_from(answer: Option<SectionMatch>) -> (r: Option<(String, String)>)
    ensures
        match answer {
            Some(m) => r == Some((m.section_ref, m.path)),
            None => r is None,
        },
{
    match answer {
        Some(m) => Some((m.section_ref, m.path)),
        None => None,
    }
}

/// The (reference, path) an href gets from `section`, the registry's
/// answer for it as (reference, name, path): only an internal href (one
/// starting with `/`) is asked.
pub open spec fn registry_attrs(section: Option<(Seq<char>, Seq<char>, Seq<char>)>, href: Seq<char>) -> Option<
    (Seq<char>, Seq<char>),
> {
    if href.len() > 0 && href[0] == '/' {
        match section {
            Some(t) => Some((t.0, t.2)),
            None => None,
        }
    } else {
        None
    }
}

/// The section attributes a registry gives an href: for an internal href
/// (one starting with `/`) that lands in one of its sections, the section's
/// canonical reference and the path within it; otherwise none.
pub(crate) fn index_attrs<S: SectionIndex + ?Sized>(index: &S, href: &str) -> (r: Option<(String, String)>)
    ensures
        !(href@.len() > 0 && href@[0] == '/') ==> r is None,
        index.finds_by_spec() ==> registry_attrs(index.section_for(href@), href@) == match r {
            Some(p) => Some((p.0@, p.1@)),
            None => None,
        },
{
    let v = chars_of(href);
    if !(v.len() > 0 && v[0] == '/') {
        return None;
    }
    section_attrs_from(index.find(href))
}

/// The section attributes of a link: for an internal href (one starting
/// with `/`) that lands in a section of the registry, the section's
/// canonical reference and the path within it (see `section_attrs_from`);
/// otherwise none. Which section an href lands in is the registry's answer.
pub fn section_ref_attrs(sections: Option<&dyn SectionIndex>, href: &str) -> (r: Option<(String, String)>)
    ensures
        !(href@.len() > 0 && href@[0] == '/') ==> r is None,
        sections is None ==> r is None,
        match sections {
            Some(s) => s.finds_by_spec() ==> registry_attrs(s.section_for(href@), href@) == match r {
                Some(p) => Some((p.0@, p.1@)),
                None => None,
            },
            None => true,
        },
{
    match sections {
        None => None,
        Some(index) => index_attrs(index, href),
    }
}

} // verus!
