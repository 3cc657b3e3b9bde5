//! The render backend: the format-specific half of rendering. Every
//! method appends to the output buffer; the defaults write HTML5.

use vstd::prelude::*;
use crate::text::{appends, decimal, push_char, push_decimal, push_decimal_u64, push_str, string_of, chars_of};
use crate::util::{escape_into, escape_spec};
use crate::status::directive::StatusColor;
use crate::tabs::TabInfo;
use crate::html::{alert_class, alert_icon, alert_title, code_block_spec, diagram_spec, image_spec};
use crate::diagram::{diagram_id_attr_spec, Asset, DiagramLink, DiagramView, Size};

verus! {

broadcast use crate::text::group_appends;

/// Kind of a GitHub-style alert blockquote.
#[derive(Debug, Clone, Copy, PartialEq, Eq, Structural)]
pub enum AlertKind {
    Note,
    Tip,
    Important,
    Warning,
    Caution,
}

/// Column alignment of a table cell.
#[derive(Debug, Clone, Copy, PartialEq, Eq, Structural)]
pub enum Alignment {
    /// No alignment given.
    Unset,
    Left,
    Center,
    Right,
}

/// The opening tag of a heading.
pub open spec fn heading_start_spec(level: u8, id: Seq<char>) -> Seq<char> {
    "<h"@ + decimal(level as nat) + " id=\""@ + id + "\">"@
}

/// The opening tag of a list; an ordered list starting anywhere but 1 says
/// where.
pub open spec fn list_start_spec(ordered: bool, start: Option<u64>) -> Seq<char> {
    if !ordered {
        "<ul>"@
    } else {
        match start {
            Some(n) => if n == 1 {
                "<ol>"@
            } else {
                "<ol start=\""@ + decimal(n as nat) + "\">"@
            },
            None => "<ol>"@,
        }
    }
}

/// The style attribute of an aligned cell.
pub open spec fn align_attr(alignment: Option<Alignment>) -> Seq<char> {
    match alignment {
        Some(Alignment::Left) => " style=\"text-align:left\""@,
        Some(Alignment::Center) => " style=\"text-align:center\""@,
        Some(Alignment::Right) => " style=\"text-align:right\""@,
        _ => Seq::empty(),
    }
}

/// The opening tag of a table cell.
pub open spec fn table_cell_start_spec(is_head: bool, alignment: Option<Alignment>) -> Seq<char> {
    "<"@ + (if is_head {
        "th"@
    } else {
        "td"@
    }) + align_attr(alignment) + ">"@
}

/// The opening tag of a link, with the section attributes of a cross-section
/// link.
pub open spec fn link_start_spec(href: Seq<char>, section_ref: Option<(Seq<char>, Seq<char>)>) -> Seq<char> {
    "<a href=\""@ + escape_spec(href) + "\""@ + match section_ref {
        Some(sr) => " data-section-ref=\""@ + escape_spec(sr.0) + "\""@ + if sr.1.len() > 0 {
            " data-section-path=\""@ + escape_spec(sr.1) + "\""@
        } else {
            Seq::empty()
        },
        None => Seq::empty(),
    } + ">"@
}

/// An optional string as a sequence.
pub open spec fn opt_str_view(o: Option<&str>) -> Option<Seq<char>> {
    match o {
        Some(s) => Some(s@),
        None => None,
    }
}

/// An optional pair of strings as sequences.
pub open spec fn opt_pair_view(o: Option<(&str, &str)>) -> Option<(Seq<char>, Seq<char>)> {
    match o {
        Some(p) => Some((p.0@, p.1@)),
        None => None,
    }
}

/// Format-specific rendering operations. The renderer walks the document and
/// hands every piece of output to one of these. Each operation appends
/// exactly the text its `_text` specification names; those default to HTML5,
/// so a backend restates only the ones it writes differently.
pub trait RenderBackend {
    /// Whether the first H1 is taken out as the page title and later
    /// headings move up a level.
    open spec fn title_as_metadata_spec() -> bool {
        false
    }

    /// Whether the first H1 is taken out as the page title and later
    /// headings move up a level.
    fn title_as_metadata() -> (r: bool)
        ensures
            r == Self::title_as_metadata_spec(),
    ;

    /// What `code_block` appends; by default the HTML5 markup.
    open spec fn code_block_text(lang: Option<Seq<char>>, content: Seq<char>) -> Seq<char> {
        code_block_spec(
                lang,
                content,
            )
    }

    /// Writes a fenced code block; `lang` is the fence language, if any.
    fn code_block(lang: Option<&str>, content: &str, out: &mut String)
        ensures
            final(out)@ == old(out)@ + Self::code_block_text(opt_str_view(lang), content@),
    ;

    /// What `blockquote_start` appends; by default the HTML5 markup.
    open spec fn blockquote_start_text() -> Seq<char> {
        "<blockquote>"@
    }

    /// Writes the opening tag for a blockquote.
    fn blockquote_start(out: &mut String)
        ensures
            final(out)@ == old(out)@ + Self::blockquote_start_text(),
    ;

    /// What `blockquote_end` appends; by default the HTML5 markup.
    open spec fn blockquote_end_text() -> Seq<char> {
        "</blockquote>"@
    }

    /// Writes the closing tag for a blockquote.
    fn blockquote_end(out: &mut String)
        ensures
            final(out)@ == old(out)@ + Self::blockquote_end_text(),
    ;

    /// What `alert_start` appends; by default the HTML5 markup.
    open spec fn alert_start_text(kind: AlertKind) -> Seq<char> {
        "<div class=\"alert alert-"@ + alert_class(kind) + "\"><div class=\"alert-title\">"@
                + alert_icon(kind) + alert_title(kind) + "</div><div class=\"alert-content\">"@
    }

    /// Writes the opening markup for a GitHub-style alert.
    fn alert_start(kind: AlertKind, out: &mut String)
        ensures
            final(out)@ == old(out)@ + Self::alert_start_text(kind),
    ;

    /// What `alert_end` appends; by default the HTML5 markup.
    open spec fn alert_end_text(kind: AlertKind) -> Seq<char> {
        "</div></div>"@
    }

    /// Writes the closing markup for a GitHub-style alert.
    fn alert_end(kind: AlertKind, out: &mut String)
        ensures
            final(out)@ == old(out)@ + Self::alert_end_text(kind),
    ;

    /// What `image` appends; by default the HTML5 markup.
    open spec fn image_text(src: Seq<char>, alt: Seq<char>, title: Seq<char>) -> Seq<char> {
        image_spec(src, alt, title)
    }

    /// Writes an image; `title` is empty when there is none.
    fn image(src: &str, alt: &str, title: &str, out: &mut String)
        ensures
            final(out)@ == old(out)@ + Self::image_text(src@, alt@, title@),
    ;

    /// The URL a link is written with; by default the URL as given.
    open spec fn transform_link_text(url: Seq<char>, base_path: Option<Seq<char>>) -> Seq<char> {
        url
    }

    /// The URL a link is written with; by default the URL as given.
    fn transform_link(url: &str, base_path: Option<&str>) -> (r: String)
        ensures
            r@ == Self::transform_link_text(url@, opt_str_view(base_path)),
    ;

    /// What `hard_break` appends; by default the HTML5 markup.
    open spec fn hard_break_text() -> Seq<char> {
        "<br>"@
    }

    /// Writes a hard line break.
    fn hard_break(out: &mut String)
        ensures
            final(out)@ == old(out)@ + Self::hard_break_text(),
    ;

    /// What `horizontal_rule` appends; by default the HTML5 markup.
    open spec fn horizontal_rule_text() -> Seq<char> {
        "<hr>"@
    }

    /// Writes a horizontal rule.
    fn horizontal_rule(out: &mut String)
        ensures
            final(out)@ == old(out)@ + Self::horizontal_rule_text(),
    ;

    /// What `task_list_marker` appends; by default the HTML5 markup.
    open spec fn task_list_marker_text(checked: bool) -> Seq<char> {
        if checked {
                "<input type=\"checkbox\" checked disabled> "@
            } else {
                "<input type=\"checkbox\" disabled> "@
            }
    }

    /// Writes a task-list checkbox.
    fn task_list_marker(checked: bool, out: &mut String)
        ensures
            final(out)@ == old(out)@ + Self::task_list_marker_text(checked),
    ;

    /// What `paragraph_start` appends; by default the HTML5 markup.
    open spec fn paragraph_start_text() -> Seq<char> {
        "<p>"@
    }

    /// Writes the opening tag for a paragraph.
    fn paragraph_start(out: &mut String)
        ensures
            final(out)@ == old(out)@ + Self::paragraph_start_text(),
    ;

    /// What `paragraph_end` appends; by default the HTML5 markup.
    open spec fn paragraph_end_text() -> Seq<char> {
        "</p>"@
    }

    /// Writes the closing tag for a paragraph.
    fn paragraph_end(out: &mut String)
        ensures
            final(out)@ == old(out)@ + Self::paragraph_end_text(),
    ;

    /// What `heading_start` appends; by default the HTML5 markup.
    open spec fn heading_start_text(level: u8, id: Seq<char>) -> Seq<char> {
        heading_start_spec(level, id)
    }

    /// Writes a heading's opening tag with its id, once the id is known.
    fn heading_start(level: u8, id: &str, out: &mut String)
        ensures
            final(out)@ == old(out)@ + Self::heading_start_text(level, id@),
    ;

    /// What `heading_end` appends; by default the HTML5 markup.
    open spec fn heading_end_text(level: u8) -> Seq<char> {
        "</h"@ + decimal(level as nat) + ">"@
    }

    /// Writes a heading's closing tag.
    fn heading_end(level: u8, out: &mut String)
        ensures
            final(out)@ == old(out)@ + Self::heading_end_text(level),
    ;

    /// What `list_start` appends; by default the HTML5 markup.
    open spec fn list_start_text(ordered: bool, start: Option<u64>) -> Seq<char> {
        list_start_spec(ordered, start)
    }

    /// Writes the opening tag for a list.
    fn list_start(ordered: bool, start: Option<u64>, out: &mut String)
        ensures
            final(out)@ == old(out)@ + Self::list_start_text(ordered, start),
    ;

    /// What `list_end` appends; by default the HTML5 markup.
    open spec fn list_end_text(ordered: bool) -> Seq<char> {
        if ordered {
                "</ol>"@
            } else {
                "</ul>"@
            }
    }

    /// Writes the closing tag for a list.
    fn list_end(ordered: bool, out: &mut String)
        ensures
            final(out)@ == old(out)@ + Self::list_end_text(ordered),
    ;

    /// What `list_item_start` appends; by default the HTML5 markup.
    open spec fn list_item_start_text() -> Seq<char> {
        "<li>"@
    }

    /// Writes the opening tag for a list item.
    fn list_item_start(out: &mut String)
        ensures
            final(out)@ == old(out)@ + Self::list_item_start_text(),
    ;

    /// What `list_item_end` appends; by default the HTML5 markup.
    open spec fn list_item_end_text() -> Seq<char> {
        "</li>"@
    }

    /// Writes the closing tag for a list item.
    fn list_item_end(out: &mut String)
        ensures
            final(out)@ == old(out)@ + Self::list_item_end_text(),
    ;

    /// What `definition_list_start` appends; by default the HTML5 markup.
    open spec fn definition_list_start_text() -> Seq<char> {
        "<dl>"@
    }

    /// Writes the opening tag for a definition list.
    fn definition_list_start(out: &mut String)
        ensures
            final(out)@ == old(out)@ + Self::definition_list_start_text(),
    ;

    /// What `definition_list_end` appends; by default the HTML5 markup.
    open spec fn definition_list_end_text() -> Seq<char> {
        "</dl>"@
    }

    /// Writes the closing tag for a definition list.
    fn definition_list_end(out: &mut String)
        ensures
            final(out)@ == old(out)@ + Self::definition_list_end_text(),
    ;

    /// What `definition_title_start` appends; by default the HTML5 markup.
    open spec fn definition_title_start_text() -> Seq<char> {
        "<dt>"@
    }

    /// Writes the opening tag for a definition title.
    fn definition_title_start(out: &mut String)
        ensures
            final(out)@ == old(out)@ + Self::definition_title_start_text(),
    ;

    /// What `definition_title_end` appends; by default the HTML5 markup.
    open spec fn definition_title_end_text() -> Seq<char> {
        "</dt>"@
    }

    /// Writes the closing tag for a definition title.
    fn definition_title_end(out: &mut String)
        ensures
            final(out)@ == old(out)@ + Self::definition_title_end_text(),
    ;

    /// What `definition_detail_start` appends; by default the HTML5 markup.
    open spec fn definition_detail_start_text() -> Seq<char> {
        "<dd>"@
    }

    /// Writes the opening tag for a definition detail.
    fn definition_detail_start(out: &mut String)
        ensures
            final(out)@ == old(out)@ + Self::definition_detail_start_text(),
    ;

    /// What `definition_detail_end` appends; by default the HTML5 markup.
    open spec fn definition_detail_end_text() -> Seq<char> {
        "</dd>"@
    }

    /// Writes the closing tag for a definition detail.
    fn definition_detail_end(out: &mut String)
        ensures
            final(out)@ == old(out)@ + Self::definition_detail_end_text(),
    ;

    /// What `table_start` appends; by default the HTML5 markup.
    open spec fn table_start_text() -> Seq<char> {
        "<table>"@
    }

    /// Writes the opening tag for a table.
    fn table_start(out: &mut String)
        ensures
            final(out)@ == old(out)@ + Self::table_start_text(),
    ;

    /// What `table_end` appends; by default the HTML5 markup.
    open spec fn table_end_text() -> Seq<char> {
        "</tbody></table>"@
    }

    /// Writes the closing tags for a table, `</tbody>` included.
    fn table_end(out: &mut String)
        ensures
            final(out)@ == old(out)@ + Self::table_end_text(),
    ;

    /// What `table_head_start` appends; by default the HTML5 markup.
    open spec fn table_head_start_text() -> Seq<char> {
        "<thead><tr>"@
    }

    /// Writes the opening tags of the header row.
    fn table_head_start(out: &mut String)
        ensures
            final(out)@ == old(out)@ + Self::table_head_start_text(),
    ;

    /// What `table_head_end` appends; by default the HTML5 markup.
    open spec fn table_head_end_text() -> Seq<char> {
        "</tr></thead><tbody>"@
    }

    /// Writes the closing tags of the header, starting the body.
    fn table_head_end(out: &mut String)
        ensures
            final(out)@ == old(out)@ + Self::table_head_end_text(),
    ;

    /// What `table_row_start` appends; by default the HTML5 markup.
    open spec fn table_row_start_text() -> Seq<char> {
        "<tr>"@
    }

    /// Writes the opening tag for a table row.
    fn table_row_start(out: &mut String)
        ensures
            final(out)@ == old(out)@ + Self::table_row_start_text(),
    ;

    /// What `table_row_end` appends; by default the HTML5 markup.
    open spec fn table_row_end_text() -> Seq<char> {
        "</tr>"@
    }

    /// Writes the closing tag for a table row.
    fn table_row_end(out: &mut String)
        ensures
            final(out)@ == old(out)@ + Self::table_row_end_text(),
    ;

    /// What `table_cell_start` appends; by default the HTML5 markup.
    open spec fn table_cell_start_text(is_head: bool, alignment: Option<Alignment>) -> Seq<char> {
        table_cell_start_spec(is_head, alignment)
    }

    /// Writes the opening tag for a table cell, with its alignment.
    fn table_cell_start(is_head: bool, alignment: Option<Alignment>, out: &mut String)
        ensures
            final(out)@ == old(out)@ + Self::table_cell_start_text(is_head, alignment),
    ;

    /// What `table_cell_end` appends; by default the HTML5 markup.
    open spec fn table_cell_end_text(is_head: bool) -> Seq<char> {
        if is_head {
                "</th>"@
            } else {
                "</td>"@
            }
    }

    /// Writes the closing tag for a table cell.
    fn table_cell_end(is_head: bool, out: &mut String)
        ensures
            final(out)@ == old(out)@ + Self::table_cell_end_text(is_head),
    ;

    /// What `soft_break` appends; by default the HTML5 markup.
    open spec fn soft_break_text() -> Seq<char> {
        seq!['\n']
    }

    /// Writes a soft line break.
    fn soft_break(out: &mut String)
        ensures
            final(out)@ == old(out)@ + Self::soft_break_text(),
    ;

    /// What `emphasis_start` appends; by default the HTML5 markup.
    open spec fn emphasis_start_text() -> Seq<char> {
        "<em>"@
    }

    /// Writes the opening tag for emphasis.
    fn emphasis_start(out: &mut String)
        ensures
            final(out)@ == old(out)@ + Self::emphasis_start_text(),
    ;

    /// What `emphasis_end` appends; by default the HTML5 markup.
    open spec fn emphasis_end_text() -> Seq<char> {
        "</em>"@
    }

    /// Writes the closing tag for emphasis.
    fn emphasis_end(out: &mut String)
        ensures
            final(out)@ == old(out)@ + Self::emphasis_end_text(),
    ;

    /// What `strong_start` appends; by default the HTML5 markup.
    open spec fn strong_start_text() -> Seq<char> {
        "<strong>"@
    }

    /// Writes the opening tag for strong emphasis.
    fn strong_start(out: &mut String)
        ensures
            final(out)@ == old(out)@ + Self::strong_start_text(),
    ;

    /// What `strong_end` appends; by default the HTML5 markup.
    open spec fn strong_end_text() -> Seq<char> {
        "</strong>"@
    }

    /// Writes the closing tag for strong emphasis.
    fn strong_end(out: &mut String)
        ensures
            final(out)@ == old(out)@ + Self::strong_end_text(),
    ;

    /// What `strikethrough_start` appends; by default the HTML5 markup.
    open spec fn strikethrough_start_text() -> Seq<char> {
        "<s>"@
    }

    /// Writes the opening tag for strikethrough text.
    fn strikethrough_start(out: &mut String)
        ensures
            final(out)@ == old(out)@ + Self::strikethrough_start_text(),
    ;

    /// What `strikethrough_end` appends; by default the HTML5 markup.
    open spec fn strikethrough_end_text() -> Seq<char> {
        "</s>"@
    }

    /// Writes the closing tag for strikethrough text.
    fn strikethrough_end(out: &mut String)
        ensures
            final(out)@ == old(out)@ + Self::strikethrough_end_text(),
    ;

    /// What `superscript_start` appends; by default the HTML5 markup.
    open spec fn superscript_start_text() -> Seq<char> {
        "<sup>"@
    }

    /// Writes the opening tag for superscript.
    fn superscript_start(out: &mut String)
        ensures
            final(out)@ == old(out)@ + Self::superscript_start_text(),
    ;

    /// What `superscript_end` appends; by default the HTML5 markup.
    open spec fn superscript_end_text() -> Seq<char> {
        "</sup>"@
    }

    /// Writes the closing tag for superscript.
    fn superscript_end(out: &mut String)
        ensures
            final(out)@ == old(out)@ + Self::superscript_end_text(),
    ;

    /// What `subscript_start` appends; by default the HTML5 markup.
    open spec fn subscript_start_text() -> Seq<char> {
        "<sub>"@
    }

    /// Writes the opening tag for subscript.
    fn subscript_start(out: &mut String)
        ensures
            final(out)@ == old(out)@ + Self::subscript_start_text(),
    ;

    /// What `subscript_end` appends; by default the HTML5 markup.
    open spec fn subscript_end_text() -> Seq<char> {
        "</sub>"@
    }

    /// Writes the closing tag for subscript.
    fn subscript_end(out: &mut String)
        ensures
            final(out)@ == old(out)@ + Self::subscript_end_text(),
    ;

    /// What `inline_code` appends; by default the HTML5 markup.
    open spec fn inline_code_text(code: Seq<char>) -> Seq<char> {
        "<code>"@ + escape_spec(code) + "</code>"@
    }

    /// Writes inline code, escaped.
    fn inline_code(code: &str, out: &mut String)
        ensures
            final(out)@ == old(out)@ + Self::inline_code_text(code@),
    ;

    /// What `link_start` appends; by default the HTML5 markup.
    open spec fn link_start_text(href: Seq<char>, section_ref: Option<(Seq<char>, Seq<char>)>) -> Seq<char> {
        link_start_spec(
                href,
                section_ref,
            )
    }

    /// Writes the opening tag for a link; a cross-section link carries its
    /// section reference and, when not empty, the path within the section.
    fn link_start(href: &str, section_ref: Option<(&str, &str)>, out: &mut String)
        ensures
            final(out)@ == old(out)@ + Self::link_start_text(href@, opt_pair_view(section_ref)),
    ;

    /// What `link_end` appends; by default the HTML5 markup.
    open spec fn link_end_text() -> Seq<char> {
        "</a>"@
    }

    /// Writes the closing tag for a link.
    fn link_end(out: &mut String)
        ensures
            final(out)@ == old(out)@ + Self::link_end_text(),
    ;

    /// What `broken_link_start` appends; by default the HTML5 markup.
    open spec fn broken_link_start_text() -> Seq<char> {
        "<a href=\"#\" class=\"rw-broken-link\">"@
    }

    /// Writes the opening tag for a link whose target did not resolve.
    fn broken_link_start(out: &mut String)
        ensures
            final(out)@ == old(out)@ + Self::broken_link_start_text(),
    ;

    /// What `text` appends; by default the HTML5 markup.
    open spec fn text_text(text: Seq<char>) -> Seq<char> {
        escape_spec(text)
    }

    /// Writes a text node, escaped.
    fn text(text: &str, out: &mut String)
        ensures
            final(out)@ == old(out)@ + Self::text_text(text@),
    ;

    /// What `status_open` appends; by default nothing.
    open spec fn status_open_text(color: StatusColor) -> Seq<char> {
        Seq::empty()
    }

    /// Writes the opening markup of a status badge; by default nothing.
    fn status_open(color: StatusColor, out: &mut String)
        ensures
            final(out)@ == old(out)@ + Self::status_open_text(color),
    ;

    /// What `status_close` appends; by default nothing.
    open spec fn status_close_text() -> Seq<char> {
        Seq::empty()
    }

    /// Writes the closing markup of a status badge; by default nothing.
    fn status_close(out: &mut String)
        ensures
            final(out)@ == old(out)@ + Self::status_close_text(),
    ;

    /// What `tabs_open` appends; by default nothing.
    open spec fn tabs_open_text(group_id: usize, tabs: Seq<TabInfo>) -> Seq<char> {
        Seq::empty()
    }

    /// Writes the opening markup of a tab group with its tab bar; by default
    /// nothing, so tab content renders without chrome.
    fn tabs_open(group_id: usize, tabs: &[TabInfo], out: &mut String)
        ensures
            final(out)@ == old(out)@ + Self::tabs_open_text(group_id, tabs@),
    ;

    /// What `tab_panel_open` appends; by default nothing.
    open spec fn tab_panel_open_text(group_id: usize, tab: TabInfo) -> Seq<char> {
        Seq::empty()
    }

    /// Writes the opening markup of a tab panel; by default nothing.
    fn tab_panel_open(group_id: usize, tab: &TabInfo, out: &mut String)
        ensures
            final(out)@ == old(out)@ + Self::tab_panel_open_text(group_id, *tab),
    ;

    /// What `tab_panel_close` appends; by default nothing.
    open spec fn tab_panel_close_text() -> Seq<char> {
        Seq::empty()
    }

    /// Writes the closing markup of a tab panel; by default nothing.
    fn tab_panel_close(out: &mut String)
        ensures
            final(out)@ == old(out)@ + Self::tab_panel_close_text(),
    ;

    /// What `tabs_close` appends; by default nothing.
    open spec fn tabs_close_text() -> Seq<char> {
        Seq::empty()
    }

    /// Writes the closing markup of a tab group; by default nothing.
    fn tabs_close(out: &mut String)
        ensures
            final(out)@ == old(out)@ + Self::tabs_close_text(),
    ;

    /// What `raw_html` appends; by default the HTML5 markup.
    open spec fn raw_html_text(html: Seq<char>) -> Seq<char> {
        html
    }

    /// Writes raw HTML unchanged.
    fn raw_html(html: &str, out: &mut String)
        ensures
            final(out)@ == old(out)@ + Self::raw_html_text(html@),
    ;

    /// Whether this backend writes diagram ids, so duplicates matter.
    open spec fn diagram_ids_spec() -> bool {
        true
    }

    /// Whether this backend writes diagram ids.
    fn diagram_ids() -> (r: bool)
        ensures
            r == Self::diagram_ids_spec(),
    ;

    /// What `diagram` appends; by default the HTML5 figure.
    open spec fn diagram_text(id: Option<Seq<char>>, asset: Asset, size: Option<Size>, links: Seq<DiagramLink>) -> Seq<
        char,
    > {
        diagram_spec(id, asset, size, links)
    }

    /// Writes a resolved diagram: its id (when ids are written), its asset,
    /// its size and the section links found in an inline SVG.
    fn diagram(view: &DiagramView, out: &mut String)
        ensures
            final(out)@ == old(out)@ + Self::diagram_text(opt_str_view(view.id), *view.asset, view.size, view.links@),
    ;

    /// What `diagram_error` appends; by default an HTML5 error figure.
    open spec fn diagram_error_text(id: Option<Seq<char>>, message: Seq<char>) -> Seq<char> {
        "<figure class=\"diagram diagram-error\""@ + diagram_id_attr_spec(id) + "><pre>Diagram rendering failed: "@
            + escape_spec(message) + "</pre></figure>"@
    }

    /// Writes a diagram that failed to render, with its message.
    fn diagram_error(id: Option<&str>, message: &str, out: &mut String)
        ensures
            final(out)@ == old(out)@ + Self::diagram_error_text(opt_str_view(id), message@),
    ;

    /// What `diagram_source` appends; by default the source as a code block.
    open spec fn diagram_source_text(lang: Seq<char>, source: Seq<char>) -> Seq<char> {
        code_block_spec(Some(lang), source)
    }

    /// Writes a diagram fence nobody resolved: its source.
    fn diagram_source(lang: &str, source: &str, out: &mut String)
        ensures
            final(out)@ == old(out)@ + Self::diagram_source_text(lang@, source@),
    ;
}

} // verus!
