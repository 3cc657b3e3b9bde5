//! HTML escaping and heading slugs.

use vstd::prelude::*;

use crate::text::{chars_of, is_space, is_space_spec, lemma_back_ws_bounds, lemma_skip_ws_bounds, push_char, push_str, skip_ws, string_of, trim_seq, trim_vec};

verus! {

/// The replacement for one character when escaping HTML: one of the five
/// entities, or the character itself.
pub open spec fn escape_char_spec(c: char) -> Seq<char> {
    if c == '&' {
        seq!['&', 'a', 'm', 'p', ';']
    } else if c == '<' {
        seq!['&', 'l', 't', ';']
    } else if c == '>' {
        seq!['&', 'g', 't', ';']
    } else if c == '"' {
        seq!['&', 'q', 'u', 'o', 't', ';']
    } else if c == '\'' {
        seq!['&', '#', 'x', '2', '7', ';']
    } else {
        seq![c]
    }
}

/// `s` with each of the five HTML special characters replaced by its entity.
pub open spec fn escape_spec(s: Seq<char>) -> Seq<char>
    decreases s.len(),
{
    if s.len() == 0 {
        Seq::empty()
    } else {
        escape_spec(s.drop_last()) + escape_char_spec(s.last())
    }
}

/// One of the characters that HTML markup is built from.
pub open spec fn is_markup_char(c: char) -> bool {
    c == '<' || c == '>' || c == '"' || c == '\''
}

/// Appends `s` to `out`, escaping the five HTML special characters
/// (`&`, `<`, `>`, `"`, `'`).
pub fn escape_into(s: &str, out: &mut String)
    ensures
        final(out)@ == old(out)@ + escape_spec(s@),
{
    let v = chars_of(s);
    let mut i: usize = 0;
    while i < v.len()
        invariant
            i <= v@.len(),
            v@ == s@,
            out@ == old(out)@ + escape_spec(v@.take(i as int)),
        decreases v.len() - i,
    {
        let c = v[i];
        let ghost before = out@;
        if c == '&' {
            push_str(out, "&amp;");
            proof {
                reveal_strlit("&amp;");
            }
        } else if c == '<' {
            push_str(out, "&lt;");
            proof {
                reveal_strlit("&lt;");
            }
        } else if c == '>' {
            push_str(out, "&gt;");
            proof {
                reveal_strlit("&gt;");
            }
        } else if c == '"' {
            push_str(out, "&quot;");
            proof {
                reveal_strlit("&quot;");
            }
        } else if c == '\'' {
            push_str(out, "&#x27;");
            proof {
                reveal_strlit("&#x27;");
            }
        } else {
            push_char(out, c);
            assert(before.push(c) =~= before + seq![c]);
        }
        assert(out@ == before + escape_char_spec(c));
        assert(v@.take(i + 1).drop_last() =~= v@.take(i as int));
        assert(old(out)@ + escape_spec(v@.take(i as int)) + escape_char_spec(c) =~= old(out)@
            + escape_spec(v@.take(i + 1)));
        i = i + 1;
    }
    assert(v@.take(v@.len() as int) =~= v@);
}

/// Escapes the five HTML special characters (`&`, `<`, `>`, `"`, `'`),
/// returning a new `String`.
pub fn escape_html(s: &str) -> (r: String)
    ensures
        r@ == escape_spec(s@),
{
    let mut result = String::new();
    escape_into(s, &mut result);
    assert(Seq::<char>::empty() + escape_spec(s@) =~= escape_spec(s@));
    result
}

/// Escaping distributes over concatenation.
pub proof fn lemma_escape_concat(a: Seq<char>, b: Seq<char>)
    ensures
        escape_spec(a + b) == escape_spec(a) + escape_spec(b),
    decreases b.len(),
{
    if b.len() == 0 {
        assert(a + b =~= a);
        assert(escape_spec(a) + escape_spec(b) =~= escape_spec(a));
    } else {
        lemma_escape_concat(a, b.drop_last());
        assert((a + b).drop_last() =~= a + b.drop_last());
        assert((a + b).last() == b.last());
        assert(escape_spec(a) + escape_spec(b.drop_last()) + escape_char_spec(b.last())
            =~= escape_spec(a) + (escape_spec(b.drop_last()) + escape_char_spec(b.last())));
    }
}

/// Escaped text holds none of the characters markup is built from, so it can
/// neither open a tag nor leave an attribute value.
pub proof fn lemma_escape_is_inert(s: Seq<char>)
    ensures
        forall|k: int| 0 <= k < escape_spec(s).len() ==> !is_markup_char(#[trigger] escape_spec(s)[k]),
    decreases s.len(),
{
    if s.len() > 0 {
        lemma_escape_is_inert(s.drop_last());
        let p = escape_spec(s.drop_last());
        let e = escape_char_spec(s.last());
        assert forall|k: int| 0 <= k < escape_spec(s).len() implies !is_markup_char(
            #[trigger] escape_spec(s)[k],
        ) by {
            if k < p.len() {
                assert(escape_spec(s)[k] == p[k]);
            } else {
                assert(escape_spec(s)[k] == e[k - p.len()]);
            }
        }
    }
}

/// Text free of the five special characters is left as it is.
pub proof fn lemma_escape_plain_is_identity(s: Seq<char>)
    requires
        forall|k: int| 0 <= k < s.len() ==> !is_markup_char(#[trigger] s[k]) && s[k] != '&',
    ensures
        escape_spec(s) == s,
    decreases s.len(),
{
    if s.len() > 0 {
        lemma_escape_plain_is_identity(s.drop_last());
        assert(s.drop_last() + seq![s.last()] =~= s);
    }
}

/// Whether `c` is alphabetic or numeric in Unicode's sense.
pub uninterp spec fn unicode_alphanumeric(c: char) -> bool;

/// An ASCII letter or digit.
pub open spec fn is_ascii_alnum(c: char) -> bool {
    ('a' <= c && c <= 'z') || ('A' <= c && c <= 'Z') || ('0' <= c && c <= '9')
}

/// Whether `c` is alphanumeric: for ASCII, a letter or a digit, as
/// documented; beyond ASCII, the Unicode property.
pub open spec fn alphanumeric(c: char) -> bool {
    if (c as u32) < 128 {
        is_ascii_alnum(c)
    } else {
        unicode_alphanumeric(c)
    }
}

/// `char::is_alphanumeric`: the `Alphabetic` or `Numeric` Unicode property.
/// Stated here: for an ASCII character the result is exactly "ASCII letter or
/// digit", as the documentation describes, and for any other character it is
/// the named property. Not stated: which non-ASCII characters qualify.
#[verifier::external_body]
pub(crate) fn is_alphanumeric(c: char) -> (r: bool)
    ensures
        (c as u32) < 128 ==> r == is_ascii_alnum(c),
        (c as u32) >= 128 ==> r == unicode_alphanumeric(c),
{
    c.is_alphanumeric()
}

/// The characters of `c`'s Unicode lowercase mapping.
pub uninterp spec fn unicode_lowercase(c: char) -> Seq<char>;

/// `c` lowercased: an ASCII uppercase letter becomes its lowercase letter
/// and any other ASCII character stays, as documented; beyond ASCII, the
/// Unicode mapping.
pub open spec fn lowercase(c: char) -> Seq<char> {
    if 'A' <= c && c <= 'Z' {
        seq![((c as u32) + 32) as char]
    } else if (c as u32) < 128 {
        seq![c]
    } else {
        unicode_lowercase(c)
    }
}

/// `char::to_lowercase`, collected. Stated: an ASCII uppercase letter maps
/// to its lowercase letter and any other ASCII character to itself, as
/// documented; any other character maps to its named Unicode lowercase
/// mapping. Not stated: the mapping of non-ASCII characters.
#[verifier::external_body]
pub(crate) fn to_lowercase(c: char) -> (r: Vec<char>)
    ensures
        ('A' <= c && c <= 'Z') ==> r@ == seq![((c as u32) + 32) as char],
        ((c as u32) < 128 && !('A' <= c && c <= 'Z')) ==> r@ == seq![c],
        (c as u32) >= 128 ==> r@ == unicode_lowercase(c),
{
    c.to_lowercase().collect()
}

/// Slug built from `s[0..i]`, with the flag "the last thing written was a
/// dash (or nothing yet)".
pub open spec fn slug_prefix(s: Seq<char>, i: int) -> (Seq<char>, bool)
    decreases i,
{
    if i <= 0 {
        (Seq::empty(), true)
    } else {
        let (acc, last_dash) = slug_prefix(s, i - 1);
        let c = s[i - 1];
        if alphanumeric(c) {
            (acc + lowercase(c), false)
        } else if !last_dash && (is_space_spec(c) || c == '-' || c == '_') {
            (acc.push('-'), true)
        } else {
            (acc, last_dash)
        }
    }
}

/// Heading slug of `text`: lowercase alphanumerics, runs of spaces, dashes and
/// underscores become one dash, everything else is dropped, and no dash leads
/// or trails.
pub open spec fn slugify_spec(text: Seq<char>) -> Seq<char> {
    let t = trim_seq(text);
    let acc = slug_prefix(t, t.len() as int).0;
    if acc.len() > 0 && acc.last() == '-' {
        acc.drop_last()
    } else {
        acc
    }
}

/// Writes the slug of `text` into `out`, replacing what it held.
pub fn slugify_into(text: &str, out: &mut String)
    ensures
        final(out)@ == slugify_spec(text@),
{
    let t = trim_vec(chars_of(text).as_slice());
    let mut result: Vec<char> = Vec::new();
    let mut last_was_dash = true;
    let mut i: usize = 0;
    while i < t.len()
        invariant
            i <= t@.len(),
            t@ == trim_seq(text@),
            (result@, last_was_dash) == slug_prefix(t@, i as int),
        decreases t.len() - i,
    {
        let c = t[i];
        if is_alphanumeric(c) {
            let lower = to_lowercase(c);
            let mut k: usize = 0;
            let ghost base = result@;
            while k < lower.len()
                invariant
                    k <= lower@.len(),
                    result@ == base + lower@.take(k as int),
                decreases lower.len() - k,
            {
                result.push(lower[k]);
                assert(lower@.take(k + 1) =~= lower@.take(k as int).push(lower@[k as int]));
                k = k + 1;
            }
            assert(lower@.take(lower@.len() as int) =~= lower@);
            last_was_dash = false;
        } else if !last_was_dash && (is_space(c) || c == '-' || c == '_') {
            result.push('-');
            last_was_dash = true;
        }
        i = i + 1;
    }
    if result.len() > 0 && result[result.len() - 1] == '-' {
        result.pop();
    }
    *out = string_of(result.as_slice());
}

/// Convert text to a URL-safe slug (see [`slugify_into`]).
pub fn slugify(text: &str) -> (r: String)
    ensures
        r@ == slugify_spec(text@),
{
    let mut out = String::new();
    slugify_into(text, &mut out);
    out
}


/// Every character of `s` is ASCII.
pub open spec fn all_ascii(s: Seq<char>) -> bool {
    forall|i: int| 0 <= i < s.len() ==> (#[trigger] s[i] as u32) < 128
}

/// A character a slug of ASCII text may hold: a lowercase letter, a digit
/// or a dash.
pub open spec fn slug_char(c: char) -> bool {
    ('a' <= c && c <= 'z') || ('0' <= c && c <= '9') || c == '-'
}

/// No dash follows a dash in `s`.
pub open spec fn no_double_dash(s: Seq<char>) -> bool {
    forall|k: int| 0 <= k < s.len() - 1 ==> !(#[trigger] s[k] == '-' && s[k + 1] == '-')
}

proof fn lemma_slug_prefix_shape(s: Seq<char>, i: int)
    requires
        0 <= i <= s.len(),
        all_ascii(s),
    ensures
        forall|k: int| 0 <= k < slug_prefix(s, i).0.len() ==> slug_char(#[trigger] slug_prefix(s, i).0[k]),
        no_double_dash(slug_prefix(s, i).0),
        slug_prefix(s, i).0.len() > 0 ==> slug_prefix(s, i).0[0] != '-',
        slug_prefix(s, i).1 <==> (slug_prefix(s, i).0.len() == 0 || slug_prefix(s, i).0.last() == '-'),
    decreases i,
{
    if i > 0 {
        lemma_slug_prefix_shape(s, i - 1);
        let acc = slug_prefix(s, i - 1).0;
        let c = s[i - 1];
        assert((c as u32) < 128);
        if alphanumeric(c) {
            let l = lowercase(c);
            let n = acc + l;
            assert(l.len() == 1);
            assert(slug_char(l[0]) && l[0] != '-');
            assert forall|k: int| 0 <= k < n.len() implies slug_char(#[trigger] n[k]) by {
                if k < acc.len() {
                    assert(n[k] == acc[k]);
                } else {
                    assert(n[k] == l[0]);
                }
            }
            assert forall|k: int| 0 <= k < n.len() - 1 implies !(#[trigger] n[k] == '-' && n[k + 1] == '-') by {
                if k + 1 < acc.len() {
                    assert(n[k] == acc[k] && n[k + 1] == acc[k + 1]);
                } else {
                    assert(n[k + 1] == l[0]);
                }
            }
            if acc.len() > 0 {
                assert(n[0] == acc[0]);
            } else {
                assert(n[0] == l[0]);
            }
            assert(n.last() == l[0]);
        } else if !slug_prefix(s, i - 1).1 && (is_space_spec(c) || c == '-' || c == '_') {
            let n = acc.push('-');
            assert forall|k: int| 0 <= k < n.len() implies slug_char(#[trigger] n[k]) by {
                if k < acc.len() {
                    assert(n[k] == acc[k]);
                }
            }
            assert forall|k: int| 0 <= k < n.len() - 1 implies !(#[trigger] n[k] == '-' && n[k + 1] == '-') by {
                if k + 1 < acc.len() {
                    assert(n[k] == acc[k] && n[k + 1] == acc[k + 1]);
                } else {
                    assert(n[k] == acc.last());
                }
            }
            assert(n[0] == acc[0]);
        }
    }
}

/// The slug of ASCII text holds only lowercase letters, digits and single
/// dashes, and neither starts nor ends with a dash.
pub proof fn lemma_ascii_slug_shape(text: Seq<char>)
    requires
        all_ascii(text),
    ensures
        forall|k: int| 0 <= k < slugify_spec(text).len() ==> slug_char(#[trigger] slugify_spec(text)[k]),
        no_double_dash(slugify_spec(text)),
        slugify_spec(text).len() > 0 ==> slugify_spec(text)[0] != '-' && slugify_spec(text).last() != '-',
{
    let t = trim_seq(text);
    let a = skip_ws(text, 0, text.len() as int);
    lemma_skip_ws_bounds(text, 0, text.len() as int);
    lemma_back_ws_bounds(text, a, text.len() as int);
    assert forall|i: int| 0 <= i < t.len() implies (#[trigger] t[i] as u32) < 128 by {
        assert(t[i] == text[a + i]);
    }
    lemma_slug_prefix_shape(t, t.len() as int);
    let acc = slug_prefix(t, t.len() as int).0;
    let g = slugify_spec(text);
    if acc.len() > 0 && acc.last() == '-' {
        assert(g == acc.drop_last());
        assert forall|k: int| 0 <= k < g.len() implies slug_char(#[trigger] g[k]) by {
            assert(g[k] == acc[k]);
        }
        assert forall|k: int| 0 <= k < g.len() - 1 implies !(#[trigger] g[k] == '-' && g[k + 1] == '-') by {
            assert(g[k] == acc[k] && g[k + 1] == acc[k + 1]);
        }
        if g.len() > 0 {
            assert(g[0] == acc[0]);
            assert(g.last() == acc[acc.len() - 2]);
            assert(!(acc[acc.len() - 2] == '-' && acc[acc.len() - 1] == '-'));
        }
    }
}

} // verus!
