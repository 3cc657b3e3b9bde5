//! Directive syntax parsing: `:name`, `::name`, `:::name`.
//!
//! `parse_line` gives byte offsets into the line; `parse_line_chars` gives
//! the same positions as character indices.

use vstd::prelude::*;
use crate::directive::args::{first_where, lemma_first_where, parse_attrs_spec, DirectiveArgs};
use crate::text::{byte_offset, chars_of, is_space, is_space_spec, lemma_utf8_len_concat, lemma_utf8_len_take_le, string_of,
    sub_vec, trim_seq, trim_vec, utf8_len};
use crate::util::alphanumeric;

verus! {

/// Parsed directive from a line.
#[derive(Debug, Clone, PartialEq, Eq)]
pub enum ParsedDirective {
    /// Inline directive: `:name[content]{attrs}`
    Inline { name: String, args: DirectiveArgs },
    /// Leaf directive: `::name[content]{attrs}`
    Leaf { name: String, args: DirectiveArgs },
    /// Container opening: `:::name[content]{attrs}`
    ContainerStart { name: String, args: DirectiveArgs, colon_count: usize },
    /// Container closing: `:::`
    ContainerEnd { colon_count: usize },
}

/// What a directive line holds, with the raw content and attribute text.
pub enum DirectiveShape {
    Inline { name: Seq<char>, content: Seq<char>, attrs: Seq<char> },
    Leaf { name: Seq<char>, content: Seq<char>, attrs: Seq<char> },
    ContainerStart { name: Seq<char>, content: Seq<char>, attrs: Seq<char>, colon_count: nat },
    ContainerEnd { colon_count: nat },
}

/// Whether the parsed directive `d` is the shape `m`, its arguments parsed
/// from the shape's content and attribute text.
pub open spec fn args_from(a: DirectiveArgs, content: Seq<char>, attrs: Seq<char>) -> bool {
    a.content@ == content && a.model() == parse_attrs_spec(attrs) && a.wf()
}

pub open spec fn directive_is(d: ParsedDirective, m: DirectiveShape) -> bool {
    match (d, m) {
        (ParsedDirective::Inline { name, args }, DirectiveShape::Inline { name: n, content, attrs }) =>
            name@ == n && args_from(args, content, attrs),
        (ParsedDirective::Leaf { name, args }, DirectiveShape::Leaf { name: n, content, attrs }) =>
            name@ == n && args_from(args, content, attrs),
        (
            ParsedDirective::ContainerStart { name, args, colon_count },
            DirectiveShape::ContainerStart { name: n, content, attrs, colon_count: c },
        ) => name@ == n && args_from(args, content, attrs) && colon_count == c,
        (ParsedDirective::ContainerEnd { colon_count }, DirectiveShape::ContainerEnd { colon_count: c }) =>
            colon_count == c,
        _ => false,
    }
}

/// Characters allowed in a directive name.
pub open spec fn is_name_char(c: char) -> bool {
    alphanumeric(c) || c == '-' || c == '_'
}

/// A valid directive name: non-empty, alphanumerics, hyphens, underscores.
pub open spec fn valid_name(name: Seq<char>) -> bool {
    name.len() > 0 && forall|i: int| 0 <= i < name.len() ==> is_name_char(#[trigger] name[i])
}

/// Characters that end a directive name.
pub open spec fn is_name_stop(c: char) -> bool {
    c == '[' || c == '{' || is_space_spec(c)
}

/// Index of the bracket closing the one opened at the start of the scan,
/// nesting counted, scanning `s` from `i` at `depth`.
pub open spec fn closing_at(s: Seq<char>, i: int, depth: int, open: char, close: char) -> Option<int>
    decreases s.len() - i,
{
    if i < 0 || i >= s.len() {
        None
    } else if s[i] == open {
        closing_at(s, i + 1, depth + 1, open, close)
    } else if s[i] == close {
        if depth - 1 == 0 {
            Some(i)
        } else {
            closing_at(s, i + 1, depth - 1, open, close)
        }
    } else {
        closing_at(s, i + 1, depth, open, close)
    }
}

/// `(content, consumed)` of a leading `open ... close` group of `s`, nesting
/// counted; `(empty, 0)` when `s` does not start with `open` or the group is
/// not closed.
pub open spec fn delimited(s: Seq<char>, open: char, close: char) -> (Seq<char>, int) {
    if s.len() == 0 || s[0] != open {
        (Seq::empty(), 0)
    } else {
        match closing_at(s, 0, 0, open, close) {
            Some(e) => (s.subrange(1, e), e + 1),
            None => (Seq::empty(), 0),
        }
    }
}

pub proof fn lemma_closing_at(s: Seq<char>, i: int, depth: int, open: char, close: char)
    requires
        0 <= i,
    ensures
        closing_at(s, i, depth, open, close) matches Some(e) ==> i <= e < s.len() && s[e] == close,
    decreases s.len() - i,
{
    if 0 <= i < s.len() {
        if s[i] == open {
            lemma_closing_at(s, i + 1, depth + 1, open, close);
        } else if s[i] == close {
            if depth - 1 != 0 {
                lemma_closing_at(s, i + 1, depth - 1, open, close);
            }
        } else {
            lemma_closing_at(s, i + 1, depth, open, close);
        }
    }
}

/// A leading delimited group of `v[lo..]`: its content and how many
/// characters it spans.
fn parse_delimited(v: &[char], lo: usize, open: char, close: char) -> (r: (Vec<char>, usize))
    requires
        lo <= v@.len(),
    ensures
        (r.0@, r.1 as int) == delimited(v@.subrange(lo as int, v@.len() as int), open, close),
        lo + r.1 <= v@.len(),
{
    let ghost s = v@.subrange(lo as int, v@.len() as int);
    if lo >= v.len() || v[lo] != open {
        return (Vec::new(), 0);
    }
    let mut depth: usize = 0;
    let mut i: usize = lo;
    while i < v.len()
        invariant
            lo <= i <= v@.len(),
            s == v@.subrange(lo as int, v@.len() as int),
            lo < v@.len(),
            v@[lo as int] == open,
            depth <= i - lo,
            i > lo ==> depth >= 1,
            closing_at(s, 0, 0, open, close) == closing_at(s, i - lo, depth as int, open, close),
        decreases v.len() - i,
    {
        let c = v[i];
        assert(s[i - lo] == c);
        if c == open {
            depth = depth + 1;
        } else if c == close {
            if depth == 1 {
                proof {
                    lemma_closing_at(s, 0, 0, open, close);
                }
                let content = sub_vec(v, lo + 1, i);
                assert(content@ =~= s.subrange(1, i - lo));
                return (content, i - lo + 1);
            }
            if depth > 0 {
                depth = depth - 1;
            }
        }
        i = i + 1;
    }
    (Vec::new(), 0)
}

/// Parse content from brackets: `[content]`. Returns the content and the
/// number of characters consumed.
pub fn parse_brackets(s: &str) -> (r: (String, usize))
    ensures
        (r.0@, r.1 as int) == delimited(s@, '[', ']'),
{
    let v = chars_of(s);
    let (c, n) = parse_delimited(v.as_slice(), 0, '[', ']');
    assert(v@.subrange(0, v@.len() as int) =~= v@);
    (string_of(c.as_slice()), n)
}

/// Parse attributes from braces: `{#id .class key="value"}`. Returns the text
/// inside the braces and the number of characters consumed.
pub fn parse_braces(s: &str) -> (r: (String, usize))
    ensures
        (r.0@, r.1 as int) == delimited(s@, '{', '}'),
{
    let v = chars_of(s);
    let (c, n) = parse_delimited(v.as_slice(), 0, '{', '}');
    assert(v@.subrange(0, v@.len() as int) =~= v@);
    (string_of(c.as_slice()), n)
}

/// Check if a name is a valid directive name: alphanumeric characters,
/// hyphens and underscores only, and not empty.
pub fn is_valid_directive_name(name: &str) -> (r: bool)
    ensures
        r == valid_name(name@),
{
    let v = chars_of(name);
    valid_name_chars(v.as_slice())
}

fn valid_name_chars(v: &[char]) -> (r: bool)
    ensures
        r == valid_name(v@),
{
    if v.len() == 0 {
        return false;
    }
    let mut i: usize = 0;
    while i < v.len()
        invariant
            i <= v@.len(),
            forall|k: int| 0 <= k < i ==> is_name_char(#[trigger] v@[k]),
        decreases v.len() - i,
    {
        let c = v[i];
        if !(crate::util::is_alphanumeric(c) || c == '-' || c == '_') {
            return false;
        }
        i = i + 1;
    }
    true
}

/// Index of the first character of `v` at or after `i` that is not `:`.
fn colon_run_end(v: &[char], i: usize) -> (r: usize)
    requires
        i <= v@.len(),
    ensures
        r == first_where(v@, i as int, |c: char| c != ':'),
        i <= r <= v@.len(),
{
    let mut k = i;
    while k < v.len() && v[k] == ':'
        invariant
            i <= k <= v@.len(),
            forall|m: int| i <= m < k ==> v@[m] == ':',
        decreases v.len() - k,
    {
        k = k + 1;
    }
    proof {
        crate::directive::args::lemma_first_where_is(v@, i as int, |c: char| c != ':', k as int);
    }
    k
}

/// Index of the first name stop in `v` at or after `i`, or `v.len()`.
fn name_stop(v: &[char], i: usize) -> (r: usize)
    requires
        i <= v@.len(),
    ensures
        r == first_where(v@, i as int, |c: char| is_name_stop(c)),
        i <= r <= v@.len(),
{
    let mut k = i;
    while k < v.len() && !(v[k] == '[' || v[k] == '{' || is_space(v[k]))
        invariant
            i <= k <= v@.len(),
            forall|m: int| i <= m < k ==> !is_name_stop(#[trigger] v@[m]),
        decreases v.len() - k,
    {
        k = k + 1;
    }
    proof {
        crate::directive::args::lemma_first_where_is(v@, i as int, |c: char| is_name_stop(c), k as int);
    }
    k
}

/// The directive found in `line`, if any, with where it starts and ends.
///
/// The directive starts at the first `:`; its kind is given by how many
/// colons begin it (one: inline, two: leaf, three or more: container). Three
/// or more colons followed by nothing but white space close a container and
/// span the rest of the line. Otherwise a valid name follows the colons,
/// ending at `[`, `{` or white space, then an optional `[content]` and an
/// optional `{attrs}` group.
pub open spec fn parse_line_spec(line: Seq<char>) -> Option<(DirectiveShape, int, int)> {
    let start = first_where(line, 0, |c: char| c == ':');
    if start >= line.len() {
        None
    } else {
        let pos = first_where(line, start, |c: char| c != ':');
        let colon_count = pos - start;
        let after = line.subrange(pos, line.len() as int);
        if colon_count >= 3 && trim_seq(after).len() == 0 {
            Some((DirectiveShape::ContainerEnd { colon_count: colon_count as nat }, start, line.len() as int))
        } else {
            let name_end = first_where(line, pos, |c: char| is_name_stop(c));
            let name = line.subrange(pos, name_end);
            if !valid_name(name) {
                None
            } else {
                let (content, n1) = delimited(line.subrange(name_end, line.len() as int), '[', ']');
                let p1 = name_end + n1;
                let (attrs, n2) = delimited(line.subrange(p1, line.len() as int), '{', '}');
                let end = p1 + n2;
                let shape = if colon_count == 1 {
                    DirectiveShape::Inline { name, content, attrs }
                } else if colon_count == 2 {
                    DirectiveShape::Leaf { name, content, attrs }
                } else {
                    DirectiveShape::ContainerStart { name, content, attrs, colon_count: colon_count as nat }
                };
                Some((shape, start, end))
            }
        }
    }
}

/// Number of colons in the run that starts at `start`.
pub open spec fn colon_run(line: Seq<char>, start: int) -> int {
    first_where(line, start, |c: char| c != ':') - start
}

/// The shape of what `parse_line_spec` finds: a line without a colon holds
/// no directive; a directive starts at the line's first colon and ends after
/// it, within the line. A run of three or more colons with only white space
/// after it closes a container, spanning the rest of the line; otherwise the
/// name after the colons is valid and the number of colons decides the kind:
/// one an inline directive, two a leaf, more a container opener.
pub proof fn lemma_parse_line_law(line: Seq<char>)
    ensures
        !line.contains(':') ==> parse_line_spec(line) is None,
        parse_line_spec(line) matches Some((d, s, e)) ==> {
            &&& 0 <= s < e <= line.len()
            &&& line[s] == ':'
            &&& forall|i: int| 0 <= i < s ==> line[i] != ':'
            &&& match d {
                DirectiveShape::ContainerEnd { colon_count } => colon_count >= 3 && colon_count == colon_run(line, s)
                    && e == line.len() && trim_seq(line.subrange(s + colon_count, line.len() as int)).len() == 0,
                DirectiveShape::Inline { name, .. } => colon_run(line, s) == 1 && valid_name(name),
                DirectiveShape::Leaf { name, .. } => colon_run(line, s) == 2 && valid_name(name),
                DirectiveShape::ContainerStart { name, colon_count, .. } => colon_count >= 3 && colon_count
                    == colon_run(line, s) && valid_name(name),
            }
        },
{
    let is_colon = |c: char| c == ':';
    let not_colon = |c: char| c != ':';
    lemma_first_where(line, 0, is_colon);
    let start = first_where(line, 0, is_colon);
    if !line.contains(':') {
        if start < line.len() {
            assert(line[start] == ':');
        }
    }
    if start < line.len() {
        lemma_first_where(line, start, not_colon);
        let pos = first_where(line, start, not_colon);
        assert(pos > start);
        let after = line.subrange(pos, line.len() as int);
        if !(pos - start >= 3 && trim_seq(after).len() == 0) {
            let stop = |c: char| is_name_stop(c);
            lemma_first_where(line, pos, stop);
            let name_end = first_where(line, pos, stop);
            let name = line.subrange(pos, name_end);
            if valid_name(name) {
                let rest1 = line.subrange(name_end, line.len() as int);
                lemma_closing_at(rest1, 0, 0, '[', ']');
                let (content, n1) = delimited(rest1, '[', ']');
                let p1 = name_end + n1;
                let rest2 = line.subrange(p1, line.len() as int);
                lemma_closing_at(rest2, 0, 0, '{', '}');
                let (attrs, n2) = delimited(rest2, '{', '}');
                assert(0 <= n1 <= rest1.len());
                assert(0 <= n2 <= rest2.len());
            }
        }
    }
}

/// In bytes, as `parse_line` reports it: a directive starts at the byte
/// offset of the line's first colon and ends after it, within the line.
pub proof fn lemma_parse_line_bytes(line: Seq<char>)
    ensures
        parse_line_spec(line) matches Some((d, s, e)) ==> {
            &&& utf8_len(line.take(s)) < utf8_len(line.take(e))
            &&& utf8_len(line.take(e)) <= utf8_len(line)
            &&& line[s] == ':'
            &&& forall|i: int| 0 <= i < s ==> line[i] != ':'
        },
{
    lemma_parse_line_law(line);
    if let Some((d, s, e)) = parse_line_spec(line) {
        let mid = line.subrange(s, e);
        assert(line.take(e) =~= line.take(s) + mid);
        lemma_utf8_len_concat(line.take(s), mid);
        assert(mid.len() > 0);
        assert(utf8_len(mid) == crate::text::utf8_width(mid[0]) + utf8_len(mid.drop_first()));
        lemma_utf8_len_take_le(line, e);
    }
}

/// Parse a line for directive syntax. Returns the directive with its start
/// and end byte offsets, or `None` if the line holds no directive.
pub fn parse_line(line: &str) -> (r: Option<(ParsedDirective, usize, usize)>)
    ensures
        match (r, parse_line_spec(line@)) {
            (Some((d, s, e)), Some((m, ms, me))) => directive_is(d, m) && s == utf8_len(line@.take(ms)) && e
                == utf8_len(line@.take(me)),
            (None, None) => true,
            _ => false,
        },
{
    match parse_line_chars(line) {
        None => None,
        Some((d, s, e)) => {
            let v = chars_of(line);
            let bs = byte_offset(line, v.as_slice(), s);
            let be = byte_offset(line, v.as_slice(), e);
            Some((d, bs, be))
        },
    }
}

/// Parse a line for directive syntax, as `parse_line` does, with the start
/// and end given as character positions.
pub fn parse_line_chars(line: &str) -> (r: Option<(ParsedDirective, usize, usize)>)
    ensures
        match (r, parse_line_spec(line@)) {
            (Some((d, s, e)), Some((m, ms, me))) => directive_is(d, m) && s == ms && e == me,
            (None, None) => true,
            _ => false,
        },
        r matches Some((d, s, e)) ==> s <= e <= line@.len(),
{
    let v = chars_of(line);
    let start = crate::directive::args::find_same(v.as_slice(), 0, ':');
    if start >= v.len() {
        return None;
    }
    proof {
        lemma_first_where(v@, 0, |c: char| c == ':');
    }
    let pos = colon_run_end(v.as_slice(), start);
    let colon_count = pos - start;
    let after = sub_vec(v.as_slice(), pos, v.len());
    if colon_count >= 3 && trim_vec(after.as_slice()).len() == 0 {
        return Some((ParsedDirective::ContainerEnd { colon_count }, start, v.len()));
    }
    let name_end = name_stop(v.as_slice(), pos);
    let name = sub_vec(v.as_slice(), pos, name_end);
    if !valid_name_chars(name.as_slice()) {
        return None;
    }
    let (content, n1) = parse_delimited(v.as_slice(), name_end, '[', ']');
    let p1 = name_end + n1;
    let (attrs, n2) = parse_delimited(v.as_slice(), p1, '{', '}');
    let end = p1 + n2;
    let content_s = string_of(content.as_slice());
    let attrs_s = string_of(attrs.as_slice());
    let args = DirectiveArgs::parse(content_s.as_str(), attrs_s.as_str());
    let name_s = string_of(name.as_slice());
    let d = if colon_count == 1 {
        ParsedDirective::Inline { name: name_s, args }
    } else if colon_count == 2 {
        ParsedDirective::Leaf { name: name_s, args }
    } else {
        ParsedDirective::ContainerStart { name: name_s, args, colon_count }
    };
    Some((d, start, end))
}

/// What `parse_container_line` reads from a whole line.
pub open spec fn container_line_spec(line: Seq<char>) -> Option<DirectiveShape> {
    let t = trim_seq(line);
    if !(t.len() >= 3 && t[0] == ':' && t[1] == ':' && t[2] == ':') {
        None
    } else {
        let cc = first_where(t, 0, |c: char| c != ':');
        let after = trim_seq(t.subrange(cc, t.len() as int));
        if after.len() == 0 {
            Some(DirectiveShape::ContainerEnd { colon_count: cc as nat })
        } else {
            let name_end = first_where(after, 0, |c: char| is_name_stop(c));
            let name = after.subrange(0, name_end);
            if !valid_name(name) {
                None
            } else {
                let (content, n1) = delimited(after.subrange(name_end, after.len() as int), '[', ']');
                let (attrs, n2) = delimited(after.subrange(name_end + n1, after.len() as int), '{', '}');
                Some(DirectiveShape::ContainerStart { name, content, attrs, colon_count: cc as nat })
            }
        }
    }
}

/// Parse a whole line as a container directive (opening or closing).
/// Returns `None` if the line is not one.
pub fn parse_container_line(line: &str) -> (r: Option<ParsedDirective>)
    ensures
        match (r, container_line_spec(line@)) {
            (Some(d), Some(m)) => directive_is(d, m),
            (None, None) => true,
            _ => false,
        },
{
    let t = trim_vec(chars_of(line).as_slice());
    if !(t.len() >= 3 && t[0] == ':' && t[1] == ':' && t[2] == ':') {
        return None;
    }
    let cc = colon_run_end(t.as_slice(), 0);
    let after = trim_vec(sub_vec(t.as_slice(), cc, t.len()).as_slice());
    if after.len() == 0 {
        return Some(ParsedDirective::ContainerEnd { colon_count: cc });
    }
    let name_end = name_stop(after.as_slice(), 0);
    let name = sub_vec(after.as_slice(), 0, name_end);
    if !valid_name_chars(name.as_slice()) {
        return None;
    }
    let (content, n1) = parse_delimited(after.as_slice(), name_end, '[', ']');
    let (attrs, _n2) = parse_delimited(after.as_slice(), name_end + n1, '{', '}');
    let content_s = string_of(content.as_slice());
    let attrs_s = string_of(attrs.as_slice());
    let args = DirectiveArgs::parse(content_s.as_str(), attrs_s.as_str());
    Some(ParsedDirective::ContainerStart { name: string_of(name.as_slice()), args, colon_count: cc })
}

} // verus!
