//! The restricted backend for comment bodies: paragraphs, lists, emphasis
//! and code as on a page; headings demoted, tables flattened, images
//! dropped, alerts as plain blockquotes, raw HTML escaped, and links kept
//! clickable only for `http`, `https` and `mailto`.

use vstd::prelude::*;
use crate::backend::{AlertKind, Alignment, RenderBackend};
use crate::html::{code_block_spec, HtmlBackend};
use crate::backend::{heading_start_spec, link_start_spec, list_start_spec, table_cell_start_spec};
use crate::status::directive::StatusColor;
use crate::tabs::TabInfo;
use crate::diagram::DiagramView;
use crate::status::directive::{ascii_lower, lower};
use crate::text::{chars_of, decimal, matches_at, push_char, push_decimal, push_decimal_u64, push_str, string_of, starts_with_at, trim_seq, trim_vec};
use crate::util::{escape_into, escape_spec};

verus! {

broadcast use crate::text::group_appends;

/// Whether a comment link keeps its `href`: once trimmed and lowered, it
/// starts with `http://`, `https://` or `mailto:`.
pub open spec fn allowed_link_scheme(href: Seq<char>) -> bool {
    let l = trim_seq(href).map_values(|c: char| ascii_lower(c));
    matches_at(l, 0, "http://"@) || matches_at(l, 0, "https://"@) || matches_at(l, 0, "mailto:"@)
}

/// Whether a comment link keeps its `href` (see `allowed_link_scheme`).
pub fn is_allowed_link_scheme(href: &str) -> (r: bool)
    ensures
        r == allowed_link_scheme(href@),
{
    let t = trim_vec(chars_of(href).as_slice());
    let mut l: Vec<char> = Vec::new();
    let mut i: usize = 0;
    while i < t.len()
        invariant
            i <= t@.len(),
            l@ == t@.take(i as int).map_values(|c: char| ascii_lower(c)),
        decreases t.len() - i,
    {
        l.push(lower(t[i]));
        assert(t@.take(i + 1) =~= t@.take(i as int).push(t@[i as int]));
        i = i + 1;
    }
    assert(t@.take(t@.len() as int) =~= t@);
    let http = chars_of("http://");
    let https = chars_of("https://");
    let mailto = chars_of("mailto:");
    starts_with_at(l.as_slice(), 0, http.as_slice()) || starts_with_at(l.as_slice(), 0, https.as_slice())
        || starts_with_at(l.as_slice(), 0, mailto.as_slice())
}

/// The backend comment bodies render through.
pub struct CommentBackend;

impl RenderBackend for CommentBackend {
    fn title_as_metadata() -> (r: bool) {
        false
    }

    fn code_block(lang: Option<&str>, content: &str, out: &mut String) {
        HtmlBackend::code_block(lang, content, out);
    }

    fn blockquote_start(out: &mut String) {
        HtmlBackend::blockquote_start(out);
    }

    fn blockquote_end(out: &mut String) {
        HtmlBackend::blockquote_end(out);
    }

    open spec fn alert_start_text(kind: AlertKind) -> Seq<char> {
        "<blockquote>"@
    }

    fn alert_start(kind: AlertKind, out: &mut String) {
        push_str(out, "<blockquote>");
    }

    open spec fn alert_end_text(kind: AlertKind) -> Seq<char> {
        "</blockquote>"@
    }

    fn alert_end(kind: AlertKind, out: &mut String) {
        push_str(out, "</blockquote>");
    }

    open spec fn image_text(src: Seq<char>, alt: Seq<char>, title: Seq<char>) -> Seq<char> {
        Seq::empty()
    }

    fn image(src: &str, alt: &str, title: &str, out: &mut String) {
    }

    open spec fn heading_start_text(level: u8, id: Seq<char>) -> Seq<char> {
        "<p>"@
    }

    fn heading_start(level: u8, id: &str, out: &mut String) {
        push_str(out, "<p>");
    }

    open spec fn heading_end_text(level: u8) -> Seq<char> {
        "</p>"@
    }

    fn heading_end(level: u8, out: &mut String) {
        push_str(out, "</p>");
    }

    open spec fn table_start_text() -> Seq<char> {
        Seq::empty()
    }

    fn table_start(out: &mut String) {
    }

    open spec fn table_end_text() -> Seq<char> {
        Seq::empty()
    }

    fn table_end(out: &mut String) {
    }

    open spec fn table_head_start_text() -> Seq<char> {
        Seq::empty()
    }

    fn table_head_start(out: &mut String) {
    }

    open spec fn table_head_end_text() -> Seq<char> {
        Seq::empty()
    }

    fn table_head_end(out: &mut String) {
    }

    open spec fn table_row_start_text() -> Seq<char> {
        Seq::empty()
    }

    fn table_row_start(out: &mut String) {
    }

    open spec fn table_row_end_text() -> Seq<char> {
        Seq::empty()
    }

    fn table_row_end(out: &mut String) {
    }

    open spec fn table_cell_start_text(is_head: bool, alignment: Option<Alignment>) -> Seq<char> {
        Seq::empty()
    }

    fn table_cell_start(is_head: bool, alignment: Option<Alignment>, out: &mut String) {
    }

    open spec fn table_cell_end_text(is_head: bool) -> Seq<char> {
        seq![' ']
    }

    fn table_cell_end(is_head: bool, out: &mut String) {
        push_char(out, ' ');
    }

    open spec fn link_start_text(href: Seq<char>, section_ref: Option<(Seq<char>, Seq<char>)>) -> Seq<char> {
        if allowed_link_scheme(href) {
                "<a href=\""@ + escape_spec(href) + "\">"@
            } else {
                "<a>"@
            }
    }

    fn link_start(href: &str, section_ref: Option<(&str, &str)>, out: &mut String) {
        let ghost o = old(out)@;
        if is_allowed_link_scheme(href) {
            push_str(out, "<a href=\"");
            escape_into(href, out);
            push_str(out, "\">");
            assert(out@ =~= o + "<a href=\""@ + escape_spec(href@) + "\">"@);
        } else {
            push_str(out, "<a>");
        }
    }

    open spec fn raw_html_text(html: Seq<char>) -> Seq<char> {
        escape_spec(html)
    }

    fn raw_html(html: &str, out: &mut String) {
        escape_into(html, out);
    }

    /// The URL a link is written with; by default the URL as given.
    fn transform_link(url: &str, base_path: Option<&str>) -> (r: String) {
        string_of(chars_of(url).as_slice())
    }

    /// Writes a hard line break.
    fn hard_break(out: &mut String) {
        push_str(out, "<br>");
    }

    /// Writes a horizontal rule.
    fn horizontal_rule(out: &mut String) {
        push_str(out, "<hr>");
    }

    /// Writes a task-list checkbox.
    fn task_list_marker(checked: bool, out: &mut String) {
        if checked {
            push_str(out, "<input type=\"checkbox\" checked disabled> ");
        } else {
            push_str(out, "<input type=\"checkbox\" disabled> ");
        }
    }

    /// Writes the opening tag for a paragraph.
    fn paragraph_start(out: &mut String) {
        push_str(out, "<p>");
    }

    /// Writes the closing tag for a paragraph.
    fn paragraph_end(out: &mut String) {
        push_str(out, "</p>");
    }

    /// Writes the opening tag for a list.
    fn list_start(ordered: bool, start: Option<u64>, out: &mut String) {
        let ghost o = old(out)@;
        if !ordered {
            push_str(out, "<ul>");
        } else {
            match start {
                Some(n) => {
                    if n == 1 {
                        push_str(out, "<ol>");
                    } else {
                        push_str(out, "<ol start=\"");
                        push_decimal_u64(out, n);
                        push_str(out, "\">");
                        assert(out@ =~= o + list_start_spec(ordered, start));
                    }
                },
                None => {
                    push_str(out, "<ol>");
                },
            }
        }
    }

    /// Writes the closing tag for a list.
    fn list_end(ordered: bool, out: &mut String) {
        if ordered {
            push_str(out, "</ol>");
        } else {
            push_str(out, "</ul>");
        }
    }

    /// Writes the opening tag for a list item.
    fn list_item_start(out: &mut String) {
        push_str(out, "<li>");
    }

    /// Writes the closing tag for a list item.
    fn list_item_end(out: &mut String) {
        push_str(out, "</li>");
    }

    /// Writes the opening tag for a definition list.
    fn definition_list_start(out: &mut String) {
        push_str(out, "<dl>");
    }

    /// Writes the closing tag for a definition list.
    fn definition_list_end(out: &mut String) {
        push_str(out, "</dl>");
    }

    /// Writes the opening tag for a definition title.
    fn definition_title_start(out: &mut String) {
        push_str(out, "<dt>");
    }

    /// Writes the closing tag for a definition title.
    fn definition_title_end(out: &mut String) {
        push_str(out, "</dt>");
    }

    /// Writes the opening tag for a definition detail.
    fn definition_detail_start(out: &mut String) {
        push_str(out, "<dd>");
    }

    /// Writes the closing tag for a definition detail.
    fn definition_detail_end(out: &mut String) {
        push_str(out, "</dd>");
    }

    /// Writes a soft line break.
    fn soft_break(out: &mut String) {
        push_char(out, '\n');
    }

    /// Writes the opening tag for emphasis.
    fn emphasis_start(out: &mut String) {
        push_str(out, "<em>");
    }

    /// Writes the closing tag for emphasis.
    fn emphasis_end(out: &mut String) {
        push_str(out, "</em>");
    }

    /// Writes the opening tag for strong emphasis.
    fn strong_start(out: &mut String) {
        push_str(out, "<strong>");
    }

    /// Writes the closing tag for strong emphasis.
    fn strong_end(out: &mut String) {
        push_str(out, "</strong>");
    }

    /// Writes the opening tag for strikethrough text.
    fn strikethrough_start(out: &mut String) {
        push_str(out, "<s>");
    }

    /// Writes the closing tag for strikethrough text.
    fn strikethrough_end(out: &mut String) {
        push_str(out, "</s>");
    }

    /// Writes the opening tag for superscript.
    fn superscript_start(out: &mut String) {
        push_str(out, "<sup>");
    }

    /// Writes the closing tag for superscript.
    fn superscript_end(out: &mut String) {
        push_str(out, "</sup>");
    }

    /// Writes the opening tag for subscript.
    fn subscript_start(out: &mut String) {
        push_str(out, "<sub>");
    }

    /// Writes the closing tag for subscript.
    fn subscript_end(out: &mut String) {
        push_str(out, "</sub>");
    }

    /// Writes inline code, escaped.
    fn inline_code(code: &str, out: &mut String) {
        let ghost o = old(out)@;
        push_str(out, "<code>");
        escape_into(code, out);
        push_str(out, "</code>");
        assert(out@ =~= o + "<code>"@ + escape_spec(code@) + "</code>"@);
    }

    /// Writes the closing tag for a link.
    fn link_end(out: &mut String) {
        push_str(out, "</a>");
    }

    /// Writes the opening tag for a link whose target did not resolve.
    fn broken_link_start(out: &mut String) {
        push_str(out, "<a href=\"#\" class=\"rw-broken-link\">");
    }

    /// Writes a text node, escaped.
    fn text(text: &str, out: &mut String) {
        escape_into(text, out);
    }

    /// Writes the opening markup of a status badge; by default nothing.
    fn status_open(color: StatusColor, out: &mut String) {
    }

    /// Writes the closing markup of a status badge; by default nothing.
    fn status_close(out: &mut String) {
    }

    /// Writes the opening markup of a tab group with its tab bar; by default
    /// nothing, so tab content renders without chrome.
    fn tabs_open(group_id: usize, tabs: &[TabInfo], out: &mut String) {
    }

    /// Writes the opening markup of a tab panel; by default nothing.
    fn tab_panel_open(group_id: usize, tab: &TabInfo, out: &mut String) {
    }

    /// Writes the closing markup of a tab panel; by default nothing.
    fn tab_panel_close(out: &mut String) {
    }

    /// Writes the closing markup of a tab group; by default nothing.
    fn tabs_close(out: &mut String) {
    }

    fn diagram_ids() -> (r: bool) {
        true
    }

    fn diagram(view: &DiagramView, out: &mut String) {
        HtmlBackend::diagram(view, out);
    }

    fn diagram_error(id: Option<&str>, message: &str, out: &mut String) {
        HtmlBackend::diagram_error(id, message, out);
    }

    fn diagram_source(lang: &str, source: &str, out: &mut String) {
        HtmlBackend::diagram_source(lang, source, out);
    }
}

} // verus!
