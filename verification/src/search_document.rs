//! The search-document backend: plain text for search indexing.

use vstd::prelude::*;
use crate::backend::{AlertKind, Alignment, RenderBackend};
use crate::text::{chars_of, decimal, push_char, push_decimal, push_decimal_u64, push_str, string_of};
use crate::util::{escape_into, escape_spec};
use crate::status::directive::StatusColor;
use crate::tabs::TabInfo;
use crate::diagram::{Asset, DiagramLink, DiagramView, Size};

verus! {

broadcast use crate::text::group_appends;

/// A backend that writes plain text for search indexing: no markup at all,
/// a single space at each content boundary so tokens never merge, and
/// inline wrappers that write nothing while their text flows through.
pub struct SearchDocumentBackend;

impl RenderBackend for SearchDocumentBackend {
    open spec fn title_as_metadata_spec() -> bool {
        true
    }

    fn title_as_metadata() -> (r: bool) {
        true
    }

    open spec fn code_block_text(lang: Option<Seq<char>>, content: Seq<char>) -> Seq<char> {
        content + seq![' ']
    }

    fn code_block(lang: Option<&str>, content: &str, out: &mut String) {
        let ghost o = old(out)@;
        push_str(out, content);
        push_char(out, ' ');
        assert(out@ =~= o + content@ + seq![' ']);
    }

    open spec fn alert_start_text(kind: AlertKind) -> Seq<char> {
        Seq::empty()
    }

    fn alert_start(kind: AlertKind, out: &mut String) {
    }

    open spec fn alert_end_text(kind: AlertKind) -> Seq<char> {
        Seq::empty()
    }

    fn alert_end(kind: AlertKind, out: &mut String) {
    }

    open spec fn image_text(src: Seq<char>, alt: Seq<char>, title: Seq<char>) -> Seq<char> {
        alt
    }

    fn image(src: &str, alt: &str, title: &str, out: &mut String) {
        if !alt.is_empty() {
            push_str(out, alt);
        } else {
            assert(old(out)@ + alt@ =~= old(out)@);
        }
    }

    fn transform_link(url: &str, base_path: Option<&str>) -> (r: String) {
        string_of(chars_of(url).as_slice())
    }

    open spec fn task_list_marker_text(checked: bool) -> Seq<char> {
        Seq::empty()
    }

    fn task_list_marker(checked: bool, out: &mut String) {
    }

    open spec fn heading_start_text(level: u8, id: Seq<char>) -> Seq<char> {
        Seq::empty()
    }

    fn heading_start(level: u8, id: &str, out: &mut String) {
    }

    open spec fn heading_end_text(level: u8) -> Seq<char> {
        seq![' ']
    }

    fn heading_end(level: u8, out: &mut String) {
        push_char(out, ' ');
    }

    open spec fn list_start_text(ordered: bool, start: Option<u64>) -> Seq<char> {
        Seq::empty()
    }

    fn list_start(ordered: bool, start: Option<u64>, out: &mut String) {
    }

    open spec fn list_end_text(ordered: bool) -> Seq<char> {
        Seq::empty()
    }

    fn list_end(ordered: bool, out: &mut String) {
    }

    open spec fn table_cell_start_text(is_head: bool, alignment: Option<Alignment>) -> Seq<char> {
        seq![' ']
    }

    fn table_cell_start(is_head: bool, alignment: Option<Alignment>, out: &mut String) {
        push_char(out, ' ');
    }

    open spec fn table_cell_end_text(is_head: bool) -> Seq<char> {
        Seq::empty()
    }

    fn table_cell_end(is_head: bool, out: &mut String) {
    }

    open spec fn inline_code_text(code: Seq<char>) -> Seq<char> {
        code
    }

    fn inline_code(code: &str, out: &mut String) {
        push_str(out, code);
    }

    open spec fn link_start_text(href: Seq<char>, section_ref: Option<(Seq<char>, Seq<char>)>) -> Seq<char> {
        Seq::empty()
    }

    fn link_start(href: &str, section_ref: Option<(&str, &str)>, out: &mut String) {
    }

    open spec fn text_text(text: Seq<char>) -> Seq<char> {
        text
    }

    fn text(text: &str, out: &mut String) {
        push_str(out, text);
    }

    open spec fn raw_html_text(html: Seq<char>) -> Seq<char> {
        Seq::empty()
    }

    fn raw_html(html: &str, out: &mut String) {
    }

    open spec fn hard_break_text() -> Seq<char> {
        seq![' ']
    }

    fn hard_break(out: &mut String) {
        push_char(out, ' ');
    }

    open spec fn horizontal_rule_text() -> Seq<char> {
        seq![' ']
    }

    fn horizontal_rule(out: &mut String) {
        push_char(out, ' ');
    }

    open spec fn paragraph_end_text() -> Seq<char> {
        seq![' ']
    }

    fn paragraph_end(out: &mut String) {
        push_char(out, ' ');
    }

    open spec fn list_item_start_text() -> Seq<char> {
        seq![' ']
    }

    fn list_item_start(out: &mut String) {
        push_char(out, ' ');
    }

    open spec fn definition_title_start_text() -> Seq<char> {
        seq![' ']
    }

    fn definition_title_start(out: &mut String) {
        push_char(out, ' ');
    }

    open spec fn definition_detail_start_text() -> Seq<char> {
        seq![' ']
    }

    fn definition_detail_start(out: &mut String) {
        push_char(out, ' ');
    }

    open spec fn table_row_end_text() -> Seq<char> {
        seq![' ']
    }

    fn table_row_end(out: &mut String) {
        push_char(out, ' ');
    }

    open spec fn soft_break_text() -> Seq<char> {
        seq![' ']
    }

    fn soft_break(out: &mut String) {
        push_char(out, ' ');
    }

    open spec fn blockquote_start_text() -> Seq<char> {
        Seq::empty()
    }

    fn blockquote_start(out: &mut String) {
    }

    open spec fn blockquote_end_text() -> Seq<char> {
        Seq::empty()
    }

    fn blockquote_end(out: &mut String) {
    }

    open spec fn paragraph_start_text() -> Seq<char> {
        Seq::empty()
    }

    fn paragraph_start(out: &mut String) {
    }

    open spec fn list_item_end_text() -> Seq<char> {
        Seq::empty()
    }

    fn list_item_end(out: &mut String) {
    }

    open spec fn definition_list_start_text() -> Seq<char> {
        Seq::empty()
    }

    fn definition_list_start(out: &mut String) {
    }

    open spec fn definition_list_end_text() -> Seq<char> {
        Seq::empty()
    }

    fn definition_list_end(out: &mut String) {
    }

    open spec fn definition_title_end_text() -> Seq<char> {
        Seq::empty()
    }

    fn definition_title_end(out: &mut String) {
    }

    open spec fn definition_detail_end_text() -> Seq<char> {
        Seq::empty()
    }

    fn definition_detail_end(out: &mut String) {
    }

    open spec fn table_start_text() -> Seq<char> {
        Seq::empty()
    }

    fn table_start(out: &mut String) {
    }

    open spec fn table_end_text() -> Seq<char> {
        Seq::empty()
    }

    fn table_end(out: &mut String) {
    }

    open spec fn table_head_start_text() -> Seq<char> {
        Seq::empty()
    }

    fn table_head_start(out: &mut String) {
    }

    open spec fn table_head_end_text() -> Seq<char> {
        Seq::empty()
    }

    fn table_head_end(out: &mut String) {
    }

    open spec fn table_row_start_text() -> Seq<char> {
        Seq::empty()
    }

    fn table_row_start(out: &mut String) {
    }

    open spec fn emphasis_start_text() -> Seq<char> {
        Seq::empty()
    }

    fn emphasis_start(out: &mut String) {
    }

    open spec fn emphasis_end_text() -> Seq<char> {
        Seq::empty()
    }

    fn emphasis_end(out: &mut String) {
    }

    open spec fn strong_start_text() -> Seq<char> {
        Seq::empty()
    }

    fn strong_start(out: &mut String) {
    }

    open spec fn strong_end_text() -> Seq<char> {
        Seq::empty()
    }

    fn strong_end(out: &mut String) {
    }

    open spec fn strikethrough_start_text() -> Seq<char> {
        Seq::empty()
    }

    fn strikethrough_start(out: &mut String) {
    }

    open spec fn strikethrough_end_text() -> Seq<char> {
        Seq::empty()
    }

    fn strikethrough_end(out: &mut String) {
    }

    open spec fn superscript_start_text() -> Seq<char> {
        Seq::empty()
    }

    fn superscript_start(out: &mut String) {
    }

    open spec fn superscript_end_text() -> Seq<char> {
        Seq::empty()
    }

    fn superscript_end(out: &mut String) {
    }

    open spec fn subscript_start_text() -> Seq<char> {
        Seq::empty()
    }

    fn subscript_start(out: &mut String) {
    }

    open spec fn subscript_end_text() -> Seq<char> {
        Seq::empty()
    }

    fn subscript_end(out: &mut String) {
    }

    open spec fn link_end_text() -> Seq<char> {
        Seq::empty()
    }

    fn link_end(out: &mut String) {
    }

    open spec fn broken_link_start_text() -> Seq<char> {
        Seq::empty()
    }

    fn broken_link_start(out: &mut String) {
    }

    /// Writes the opening markup of a status badge; by default nothing.
    fn status_open(color: StatusColor, out: &mut String) {
    }

    /// Writes the closing markup of a status badge; by default nothing.
    fn status_close(out: &mut String) {
    }

    /// Writes the opening markup of a tab group with its tab bar; by default
    /// nothing, so tab content renders without chrome.
    fn tabs_open(group_id: usize, tabs: &[TabInfo], out: &mut String) {
    }

    /// Writes the opening markup of a tab panel; by default nothing.
    fn tab_panel_open(group_id: usize, tab: &TabInfo, out: &mut String) {
    }

    /// Writes the closing markup of a tab panel; by default nothing.
    fn tab_panel_close(out: &mut String) {
    }

    /// Writes the closing markup of a tab group; by default nothing.
    fn tabs_close(out: &mut String) {
    }

    open spec fn diagram_ids_spec() -> bool {
        false
    }

    fn diagram_ids() -> (r: bool) {
        false
    }

    open spec fn diagram_text(id: Option<Seq<char>>, asset: Asset, size: Option<Size>, links: Seq<DiagramLink>) -> Seq<
        char,
    > {
        Seq::empty()
    }

    /// A diagram has no text to index.
    fn diagram(view: &DiagramView, out: &mut String) {
    }

    open spec fn diagram_error_text(id: Option<Seq<char>>, message: Seq<char>) -> Seq<char> {
        Seq::empty()
    }

    fn diagram_error(id: Option<&str>, message: &str, out: &mut String) {
    }

    open spec fn diagram_source_text(lang: Seq<char>, source: Seq<char>) -> Seq<char> {
        source + seq![' ']
    }

    /// An unresolved diagram's source is indexed like a code block's.
    fn diagram_source(lang: &str, source: &str, out: &mut String) {
        let ghost o = old(out)@;
        push_str(out, source);
        push_char(out, ' ');
        assert(out@ =~= o + source@ + seq![' ']);
    }
}

/// Text that separates tokens: at least one character, all white space.
pub open spec fn separates(s: Seq<char>) -> bool {
    s.len() > 0 && forall|i: int| 0 <= i < s.len() ==> crate::text::is_space_spec(#[trigger] s[i])
}

/// In a search document a soft line break keeps the words around it apart:
/// writing `a`, a soft break, then `b` gives `a`, then white space, then
/// `b`, so the last word of `a` and the first word of `b` never merge into
/// one token.
pub proof fn lemma_soft_break_keeps_words_apart(a: Seq<char>, b: Seq<char>)
    ensures
        ({
            let out = SearchDocumentBackend::text_text(a) + SearchDocumentBackend::soft_break_text()
                + SearchDocumentBackend::text_text(b);
            &&& out.len() > a.len() + b.len()
            &&& out.take(a.len() as int) == a
            &&& crate::text::is_space_spec(out[a.len() as int])
            &&& out.skip(out.len() - b.len()) == b
            &&& forall|i: int| a.len() <= i < out.len() - b.len() ==> crate::text::is_space_spec(#[trigger] out[i])
        }),
{
    let out = SearchDocumentBackend::text_text(a) + SearchDocumentBackend::soft_break_text()
        + SearchDocumentBackend::text_text(b);
    assert(out.take(a.len() as int) =~= a);
    assert(out.skip(out.len() - b.len()) =~= b);
    assert(out[a.len() as int] == ' ');
}

/// Every content boundary of a search document writes white space, so
/// text on either side of it never merges into one token: a soft or hard
/// line break, the end of a paragraph or a heading, a horizontal rule, the
/// start of a list item, of a definition title or detail, or of a table
/// cell, and the end of a table row. A code block, and a diagram shown as
/// its source, end with white space after their content.
pub proof fn lemma_boundaries_separate(
    level: u8,
    is_head: bool,
    alignment: Option<Alignment>,
    lang: Option<Seq<char>>,
    diagram_lang: Seq<char>,
    source: Seq<char>,
)
    ensures
        separates(SearchDocumentBackend::soft_break_text()),
        separates(SearchDocumentBackend::hard_break_text()),
        separates(SearchDocumentBackend::paragraph_end_text()),
        separates(SearchDocumentBackend::heading_end_text(level)),
        separates(SearchDocumentBackend::horizontal_rule_text()),
        separates(SearchDocumentBackend::list_item_start_text()),
        separates(SearchDocumentBackend::definition_title_start_text()),
        separates(SearchDocumentBackend::definition_detail_start_text()),
        separates(SearchDocumentBackend::table_cell_start_text(is_head, alignment)),
        separates(SearchDocumentBackend::table_row_end_text()),
        SearchDocumentBackend::code_block_text(lang, source).take(source.len() as int) == source,
        separates(SearchDocumentBackend::code_block_text(lang, source).skip(source.len() as int)),
        SearchDocumentBackend::diagram_source_text(diagram_lang, source).take(source.len() as int) == source,
        separates(SearchDocumentBackend::diagram_source_text(diagram_lang, source).skip(source.len() as int)),
{
    let c = SearchDocumentBackend::code_block_text(lang, source);
    assert(c.take(source.len() as int) =~= source);
    assert(c.skip(source.len() as int) =~= seq![' ']);
    let d = SearchDocumentBackend::diagram_source_text(diagram_lang, source);
    assert(d.take(source.len() as int) =~= source);
    assert(d.skip(source.len() as int) =~= seq![' ']);
}

} // verus!
