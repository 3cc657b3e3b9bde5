//! The HTML5 backend: semantic markup with relative link resolution.

use vstd::prelude::*;
use base64::prelude::{BASE64_STANDARD, Engine};
use crate::backend::{opt_str_view, heading_start_spec, link_start_spec, list_start_spec, table_cell_start_spec, AlertKind, Alignment, RenderBackend};
use crate::diagram::DiagramLink;
use crate::diagram::{diagram_id_attr_spec, splice_link_attrs, splice_spec, write_diagram_id_attr, Asset, DiagramContent, DiagramView, Size};
use crate::directive::args::{append_chars, find_same, first_where, lemma_first_where, lemma_first_where_is};
use crate::directive::context::pieces_from;
use crate::status::directive::{color_name, StatusColor};
use crate::tabs::TabInfo;
use crate::text::{chars_of, decimal, find_at, lemma_find_from, matches_at, push_char, push_decimal, push_decimal_u64, push_str, starts_with_at, str_starts_with, string_of, sub_vec};
use crate::util::{escape_into, escape_spec};

verus! {

broadcast use crate::text::group_appends;

/// Icon shown in an alert's title.
pub const SVG_INFO: &'static str = "<svg class=\"alert-icon\" viewBox=\"0 0 16 16\" width=\"16\" height=\"16\" aria-hidden=\"true\"><path d=\"M0 8a8 8 0 1 1 16 0A8 8 0 0 1 0 8Zm8-6.5a6.5 6.5 0 1 0 0 13 6.5 6.5 0 0 0 0-13ZM6.5 7.75A.75.75 0 0 1 7.25 7h1a.75.75 0 0 1 .75.75v2.75h.25a.75.75 0 0 1 0 1.5h-2a.75.75 0 0 1 0-1.5h.25v-2h-.25a.75.75 0 0 1-.75-.75ZM8 6a1 1 0 1 1 0-2 1 1 0 0 1 0 2Z\"></path></svg>";

/// Icon shown in an alert's title.
pub const SVG_LIGHTBULB: &'static str = "<svg class=\"alert-icon\" viewBox=\"0 0 16 16\" width=\"16\" height=\"16\" aria-hidden=\"true\"><path d=\"M8 1.5c-2.363 0-4 1.69-4 3.75 0 .984.424 1.625.984 2.304l.214.253c.223.264.47.556.673.848.284.411.537.896.621 1.49a.75.75 0 0 1-1.484.211c-.04-.282-.163-.547-.37-.847a8.456 8.456 0 0 0-.542-.68c-.084-.1-.173-.205-.268-.32C3.201 7.75 2.5 6.766 2.5 5.25 2.5 2.31 4.863 0 8 0s5.5 2.31 5.5 5.25c0 1.516-.701 2.5-1.328 3.259-.095.115-.184.22-.268.319-.207.245-.383.453-.541.681-.208.3-.33.565-.37.847a.751.751 0 0 1-1.485-.212c.084-.593.337-1.078.621-1.489.203-.292.45-.584.673-.848.075-.088.147-.173.213-.253.561-.679.985-1.32.985-2.304 0-2.06-1.637-3.75-4-3.75ZM5.75 12h4.5a.75.75 0 0 1 0 1.5h-4.5a.75.75 0 0 1 0-1.5ZM6 15.25a.75.75 0 0 1 .75-.75h2.5a.75.75 0 0 1 0 1.5h-2.5a.75.75 0 0 1-.75-.75Z\"></path></svg>";

/// Icon shown in an alert's title.
pub const SVG_REPORT: &'static str = "<svg class=\"alert-icon\" viewBox=\"0 0 16 16\" width=\"16\" height=\"16\" aria-hidden=\"true\"><path d=\"M0 1.75C0 .784.784 0 1.75 0h12.5C15.216 0 16 .784 16 1.75v9.5A1.75 1.75 0 0 1 14.25 13H8.06l-2.573 2.573A1.458 1.458 0 0 1 3 14.543V13H1.75A1.75 1.75 0 0 1 0 11.25Zm1.75-.25a.25.25 0 0 0-.25.25v9.5c0 .138.112.25.25.25h2a.75.75 0 0 1 .75.75v2.19l2.72-2.72a.749.749 0 0 1 .53-.22h6.5a.25.25 0 0 0 .25-.25v-9.5a.25.25 0 0 0-.25-.25Zm7 2.25v2.5a.75.75 0 0 1-1.5 0v-2.5a.75.75 0 0 1 1.5 0ZM9 9a1 1 0 1 1-2 0 1 1 0 0 1 2 0Z\"></path></svg>";

/// Icon shown in an alert's title.
pub const SVG_ALERT: &'static str = "<svg class=\"alert-icon\" viewBox=\"0 0 16 16\" width=\"16\" height=\"16\" aria-hidden=\"true\"><path d=\"M6.457 1.047c.659-1.234 2.427-1.234 3.086 0l6.082 11.378A1.75 1.75 0 0 1 14.082 15H1.918a1.75 1.75 0 0 1-1.543-2.575Zm1.763.707a.25.25 0 0 0-.44 0L1.698 13.132a.25.25 0 0 0 .22.368h12.164a.25.25 0 0 0 .22-.368Zm.53 3.996v2.5a.75.75 0 0 1-1.5 0v-2.5a.75.75 0 0 1 1.5 0ZM9 11a1 1 0 1 1-2 0 1 1 0 0 1 2 0Z\"></path></svg>";

/// Icon shown in an alert's title.
pub const SVG_STOP: &'static str = "<svg class=\"alert-icon\" viewBox=\"0 0 16 16\" width=\"16\" height=\"16\" aria-hidden=\"true\"><path d=\"M4.47.22A.749.749 0 0 1 5 0h6c.199 0 .389.079.53.22l4.25 4.25c.141.14.22.331.22.53v6a.749.749 0 0 1-.22.53l-4.25 4.25A.749.749 0 0 1 11 16H5a.749.749 0 0 1-.53-.22L.22 11.53A.749.749 0 0 1 0 11V5c0-.199.079-.389.22-.53Zm.84 1.28L1.5 5.31v5.38l3.81 3.81h5.38l3.81-3.81V5.31L10.69 1.5ZM8 4a.75.75 0 0 1 .75.75v3.5a.75.75 0 0 1-1.5 0v-3.5A.75.75 0 0 1 8 4Zm0 8a1 1 0 1 1 0-2 1 1 0 0 1 0 2Z\"></path></svg>";

/// The character of the standard base64 alphabet for the six-bit value
/// `v`: `A`-`Z`, `a`-`z`, `0`-`9`, `+`, `/`.
pub open spec fn base64_char(v: int) -> char {
    if v < 26 {
        (('A' as int) + v) as char
    } else if v < 52 {
        (('a' as int) + v - 26) as char
    } else if v < 62 {
        (('0' as int) + v - 52) as char
    } else if v == 62 {
        '+'
    } else {
        '/'
    }
}

/// The standard base64 encoding of `bytes`, with padding: each group of
/// three bytes becomes four characters of six bits each; a last group of
/// one or two bytes is padded with `=` to four.
pub open spec fn base64_standard(bytes: Seq<u8>) -> Seq<char>
    decreases bytes.len(),
{
    if bytes.len() == 0 {
        Seq::empty()
    } else if bytes.len() == 1 {
        let a = bytes[0] as int;
        seq![base64_char(a / 4), base64_char((a % 4) * 16), '=', '=']
    } else if bytes.len() == 2 {
        let a = bytes[0] as int;
        let b = bytes[1] as int;
        seq![base64_char(a / 4), base64_char((a % 4) * 16 + b / 16), base64_char((b % 16) * 4), '=']
    } else {
        let a = bytes[0] as int;
        let b = bytes[1] as int;
        let c = bytes[2] as int;
        seq![base64_char(a / 4), base64_char((a % 4) * 16 + b / 16), base64_char((b % 16) * 4 + c / 64), base64_char(c % 64)]
            + base64_standard(bytes.skip(3))
    }
}

/// Appends the standard, padded base64 encoding of `bytes` to `out`
/// (`base64::Engine::encode_string` on `BASE64_STANDARD`). Claimed: what is
/// appended is `base64_standard(bytes)`, four characters for every started
/// group of three bytes.
#[verifier::external_body]
fn encode_base64_into(bytes: &[u8], out: &mut String)
    ensures
        final(out)@ == old(out)@ + base64_standard(bytes@),
        final(out)@.len() == old(out)@.len() + 4 * ((bytes@.len() + 2) / 3),
{
    BASE64_STANDARD.encode_string(bytes, out);
}

/// The width and height attributes of a sized diagram, or nothing.
pub open spec fn size_attrs_spec(size: Option<Size>) -> Seq<char> {
    match size {
        Some(s) => " width=\""@ + decimal(s.width as nat) + "\" height=\""@ + decimal(s.height as nat) + "\""@,
        None => Seq::empty(),
    }
}

/// The markup inside a diagram figure.
pub open spec fn diagram_body_spec(asset: Asset, size: Option<Size>, links: Seq<DiagramLink>) -> Seq<char> {
    match asset {
        Asset::Inline(DiagramContent::Svg(svg)) => "<rw-diagram>"@ + splice_spec(svg@, links) + "</rw-diagram>"@,
        Asset::Inline(DiagramContent::Png(bytes)) => "<img src=\"data:image/png;base64,"@ + base64_standard(bytes@)
            + "\""@ + size_attrs_spec(size) + " alt=\"diagram\">"@,
        Asset::Reference(name) => "<img src=\""@ + escape_spec(name@) + "\""@ + size_attrs_spec(size)
            + " alt=\"diagram\">"@,
    }
}

/// A diagram figure.
pub open spec fn diagram_spec(id: Option<Seq<char>>, asset: Asset, size: Option<Size>, links: Seq<DiagramLink>) -> Seq<char> {
    "<figure class=\"diagram\""@ + diagram_id_attr_spec(id) + ">"@ + diagram_body_spec(asset, size, links) + "</figure>"@
}

/// Writes the width and height attributes of a sized diagram.
fn write_size_attrs(size: Option<Size>, out: &mut String)
    ensures
        final(out)@ == old(out)@ + size_attrs_spec(size),
{
    let ghost o = old(out)@;
    match size {
        Some(s) => {
            push_str(out, " width=\"");
            push_decimal(out, s.width as usize);
            push_str(out, "\" height=\"");
            push_decimal(out, s.height as usize);
            push_char(out, '"');
            proof {
                reveal_strlit("\"");
            }
            assert(out@ =~= o + size_attrs_spec(size));
        },
        None => {
            assert(out@ =~= o + size_attrs_spec(size));
        },
    }
}

/// The HTML5 backend.
pub struct HtmlBackend;

pub open spec fn alert_class(kind: AlertKind) -> Seq<char> {
    match kind {
        AlertKind::Note => "note"@,
        AlertKind::Tip => "tip"@,
        AlertKind::Important => "important"@,
        AlertKind::Warning => "warning"@,
        AlertKind::Caution => "caution"@,
    }
}

pub open spec fn alert_icon(kind: AlertKind) -> Seq<char> {
    match kind {
        AlertKind::Note => SVG_INFO@,
        AlertKind::Tip => SVG_LIGHTBULB@,
        AlertKind::Important => SVG_REPORT@,
        AlertKind::Warning => SVG_ALERT@,
        AlertKind::Caution => SVG_STOP@,
    }
}

pub open spec fn alert_title(kind: AlertKind) -> Seq<char> {
    match kind {
        AlertKind::Note => "Note"@,
        AlertKind::Tip => "Tip"@,
        AlertKind::Important => "Important"@,
        AlertKind::Warning => "Warning"@,
        AlertKind::Caution => "Caution"@,
    }
}

/// The opening markup of a code block.
pub open spec fn code_block_spec(lang: Option<Seq<char>>, content: Seq<char>) -> Seq<char> {
    match lang {
        Some(l) => "<pre><code class=\"language-"@ + escape_spec(l) + "\">"@ + escape_spec(content) + "</code></pre>"@,
        None => "<pre><code>"@ + escape_spec(content) + "</code></pre>"@,
    }
}

/// An image element; the title attribute only when the title is not empty.
pub open spec fn image_spec(src: Seq<char>, alt: Seq<char>, title: Seq<char>) -> Seq<char> {
    "<img src=\""@ + escape_spec(src) + "\""@ + (if title.len() > 0 {
        " title=\""@ + escape_spec(title) + "\""@
    } else {
        Seq::empty()
    }) + " alt=\""@ + escape_spec(alt) + "\">"@
}

/// A tab button of a tab bar.
pub open spec fn tab_button_spec(group_id: nat, tab: TabInfo) -> Seq<char> {
    "<button role=\"tab\" id=\"tab-"@ + decimal(group_id) + "-"@ + decimal(tab.id as nat) + "\" aria-controls=\"panel-"@
        + decimal(group_id) + "-"@ + decimal(tab.id as nat) + "\" aria-selected=\""@ + (if tab.is_first {
        "true"@
    } else {
        "false"@
    }) + "\" tabindex=\""@ + (if tab.is_first {
        "0"@
    } else {
        "-1"@
    }) + "\">"@ + escape_spec(tab.label@) + "</button>"@
}

pub open spec fn tab_buttons_spec(group_id: nat, tabs: Seq<TabInfo>, k: int) -> Seq<char>
    decreases k,
{
    if k <= 0 {
        Seq::empty()
    } else {
        tab_buttons_spec(group_id, tabs, k - 1) + tab_button_spec(group_id, tabs[k - 1])
    }
}

/// A tab panel's opening tag; a panel that is not the first is hidden.
pub open spec fn tab_panel_open_spec(group_id: nat, tab: TabInfo) -> Seq<char> {
    "<div role=\"tabpanel\" id=\"panel-"@ + decimal(group_id) + "-"@ + decimal(tab.id as nat) + "\" aria-labelledby=\"tab-"@
        + decimal(group_id) + "-"@ + decimal(tab.id as nat) + "\""@ + (if tab.is_first {
        Seq::empty()
    } else {
        " hidden"@
    }) + ">"@
}

/// Append the tab bar button of `tab` in group `group_id`.
fn push_tab_button(group_id: usize, tab: &TabInfo, out: &mut String)
    ensures
        final(out)@ == old(out)@ + tab_button_spec(group_id as nat, *tab),
{
    let ghost before = old(out)@;
    push_str(out, "<button role=\"tab\" id=\"tab-");
    push_decimal(out, group_id);
    push_str(out, "-");
    push_decimal(out, tab.id);
    push_str(out, "\" aria-controls=\"panel-");
    push_decimal(out, group_id);
    push_str(out, "-");
    push_decimal(out, tab.id);
    push_str(out, "\" aria-selected=\"");
    if tab.is_first {
        push_str(out, "true");
    } else {
        push_str(out, "false");
    }
    push_str(out, "\" tabindex=\"");
    if tab.is_first {
        push_str(out, "0");
    } else {
        push_str(out, "-1");
    }
    push_str(out, "\">");
    escape_into(tab.label.as_str(), out);
    push_str(out, "</button>");
    assert(out@ =~= before + tab_button_spec(group_id as nat, *tab));
}

impl RenderBackend for HtmlBackend {
    fn title_as_metadata() -> (r: bool) {
        false
    }

    /// A code block, with a `language-` class when a language is given;
    /// the language and the content are escaped.
    fn code_block(lang: Option<&str>, content: &str, out: &mut String) {
        let ghost o = old(out)@;
        match lang {
            Some(l) => {
                push_str(out, "<pre><code class=\"language-");
                escape_into(l, out);
                push_str(out, "\">");
                escape_into(content, out);
                push_str(out, "</code></pre>");
            },
            None => {
                push_str(out, "<pre><code>");
                escape_into(content, out);
                push_str(out, "</code></pre>");
            },
        }
        assert(out@ =~= o + code_block_spec(
            match lang {
                Some(l) => Some(l@),
                None => None,
            },
            content@,
        ));
    }

    fn blockquote_start(out: &mut String) {
        push_str(out, "<blockquote>");
    }

    fn blockquote_end(out: &mut String) {
        push_str(out, "</blockquote>");
    }

    /// Opening markup of an alert: its class, icon and title.
    fn alert_start(kind: AlertKind, out: &mut String) {
        let (class, icon, title) = match kind {
            AlertKind::Note => ("note", SVG_INFO, "Note"),
            AlertKind::Tip => ("tip", SVG_LIGHTBULB, "Tip"),
            AlertKind::Important => ("important", SVG_REPORT, "Important"),
            AlertKind::Warning => ("warning", SVG_ALERT, "Warning"),
            AlertKind::Caution => ("caution", SVG_STOP, "Caution"),
        };
        push_str(out, "<div class=\"alert alert-");
        push_str(out, class);
        push_str(out, "\"><div class=\"alert-title\">");
        push_str(out, icon);
        push_str(out, title);
        push_str(out, "</div><div class=\"alert-content\">");
    }

    /// Closing markup of an alert.
    fn alert_end(kind: AlertKind, out: &mut String) {
        push_str(out, "</div></div>");
    }

    /// An image; `title` is empty when there is none.
    fn image(src: &str, alt: &str, title: &str, out: &mut String) {
        let ghost o = old(out)@;
        push_str(out, "<img src=\"");
        escape_into(src, out);
        push_char(out, '"');
        let ghost mid = out@;
        if !title.is_empty() {
            push_str(out, " title=\"");
            escape_into(title, out);
            push_char(out, '"');
        }
        push_str(out, " alt=\"");
        escape_into(alt, out);
        push_str(out, "\">");
        proof {
            reveal_strlit("\"");
        }
        assert(out@ =~= o + image_spec(src@, alt@, title@));
    }

    open spec fn table_start_text() -> Seq<char> {
        "<div class=\"table-wrap\" role=\"group\" tabindex=\"0\" aria-label=\"Table\"><table>"@
    }

    fn table_start(out: &mut String) {
        push_str(out, "<div class=\"table-wrap\" role=\"group\" tabindex=\"0\" aria-label=\"Table\"><table>");
    }

    open spec fn table_end_text() -> Seq<char> {
        "</tbody></table></div>"@
    }

    fn table_end(out: &mut String) {
        push_str(out, "</tbody></table></div>");
    }

    open spec fn transform_link_text(url: Seq<char>, base_path: Option<Seq<char>>) -> Seq<char> {
        match base_path {
                Some(b) => resolve_link_spec(url, b),
                None => url,
            }
    }

    /// A link URL as written out: with a base path, a relative `.md` link is
    /// resolved against it (see `resolve_link`); without one, unchanged.
    fn transform_link(url: &str, base_path: Option<&str>) -> (r: String) {
        match base_path {
            Some(base) => resolve_link(url, base),
            None => string_of(chars_of(url).as_slice()),
        }
    }

    open spec fn status_open_text(color: StatusColor) -> Seq<char> {
        "<span class=\"status status-"@ + color_name(color) + "\">"@
    }

    /// Opening tag of a status badge.
    fn status_open(color: StatusColor, out: &mut String) {
        push_str(out, "<span class=\"status status-");
        push_str(out, color.as_str());
        push_str(out, "\">");
    }

    open spec fn status_close_text() -> Seq<char> {
        "</span>"@
    }

    /// Closing tag of a status badge.
    fn status_close(out: &mut String) {
        push_str(out, "</span>");
    }

    open spec fn tabs_open_text(group_id: usize, tabs: Seq<TabInfo>) -> Seq<char> {
        "<div class=\"tabs\" id=\"tabs-"@ + decimal(group_id as nat) + "\">"@
                + "<div class=\"tabs-buttons\" role=\"tablist\">"@ + tab_buttons_spec(group_id as nat, tabs, tabs.len() as int)
                + "</div>"@
    }

    /// The tab bar of a group: the tabs container opener and a button per tab.
    fn tabs_open(group_id: usize, tabs: &[TabInfo], out: &mut String) {
        let ghost o = old(out)@;
        push_str(out, "<div class=\"tabs\" id=\"tabs-");
        push_decimal(out, group_id);
        push_str(out, "\">");
        push_str(out, "<div class=\"tabs-buttons\" role=\"tablist\">");
        let ghost head = out@;
        let mut k: usize = 0;
        while k < tabs.len()
            invariant
                k <= tabs@.len(),
                out@ == head + tab_buttons_spec(group_id as nat, tabs@, k as int),
            decreases tabs.len() - k,
        {
            let ghost before = out@;
            push_tab_button(group_id, &tabs[k], out);
            assert(out@ =~= head + tab_buttons_spec(group_id as nat, tabs@, k + 1));
            k = k + 1;
        }
        push_str(out, "</div>");
    }

    open spec fn tab_panel_open_text(group_id: usize, tab: TabInfo) -> Seq<char> {
        tab_panel_open_spec(group_id as nat, tab)
    }

    /// The opening tag of a tab panel.
    fn tab_panel_open(group_id: usize, tab: &TabInfo, out: &mut String) {
        let ghost o = old(out)@;
        push_str(out, "<div role=\"tabpanel\" id=\"panel-");
        push_decimal(out, group_id);
        push_str(out, "-");
        push_decimal(out, tab.id);
        push_str(out, "\" aria-labelledby=\"tab-");
        push_decimal(out, group_id);
        push_str(out, "-");
        push_decimal(out, tab.id);
        push_str(out, "\"");
        if !tab.is_first {
            push_str(out, " hidden");
        }
        push_str(out, ">");
        assert(out@ =~= o + tab_panel_open_spec(group_id as nat, *tab));
    }

    open spec fn tab_panel_close_text() -> Seq<char> {
        "</div>"@
    }

    fn tab_panel_close(out: &mut String) {
        push_str(out, "</div>");
    }

    open spec fn tabs_close_text() -> Seq<char> {
        "</div>"@
    }

    fn tabs_close(out: &mut String) {
        push_str(out, "</div>");
    }

    /// Writes a hard line break.
    fn hard_break(out: &mut String) {
        push_str(out, "<br>");
    }

    /// Writes a horizontal rule.
    fn horizontal_rule(out: &mut String) {
        push_str(out, "<hr>");
    }

    /// Writes a task-list checkbox.
    fn task_list_marker(checked: bool, out: &mut String) {
        if checked {
            push_str(out, "<input type=\"checkbox\" checked disabled> ");
        } else {
            push_str(out, "<input type=\"checkbox\" disabled> ");
        }
    }

    /// Writes the opening tag for a paragraph.
    fn paragraph_start(out: &mut String) {
        push_str(out, "<p>");
    }

    /// Writes the closing tag for a paragraph.
    fn paragraph_end(out: &mut String) {
        push_str(out, "</p>");
    }

    /// Writes a heading's opening tag with its id, once the id is known.
    fn heading_start(level: u8, id: &str, out: &mut String) {
        let ghost o = old(out)@;
        push_str(out, "<h");
        push_decimal(out, level as usize);
        push_str(out, " id=\"");
        push_str(out, id);
        push_str(out, "\">");
        assert(out@ =~= o + heading_start_spec(level, id@));
    }

    /// Writes a heading's closing tag.
    fn heading_end(level: u8, out: &mut String) {
        let ghost o = old(out)@;
        push_str(out, "</h");
        push_decimal(out, level as usize);
        push_str(out, ">");
        assert(out@ =~= o + "</h"@ + decimal(level as nat) + ">"@);
    }

    /// Writes the opening tag for a list.
    fn list_start(ordered: bool, start: Option<u64>, out: &mut String) {
        let ghost o = old(out)@;
        if !ordered {
            push_str(out, "<ul>");
        } else {
            match start {
                Some(n) => {
                    if n == 1 {
                        push_str(out, "<ol>");
                    } else {
                        push_str(out, "<ol start=\"");
                        push_decimal_u64(out, n);
                        push_str(out, "\">");
                        assert(out@ =~= o + list_start_spec(ordered, start));
                    }
                },
                None => {
                    push_str(out, "<ol>");
                },
            }
        }
    }

    /// Writes the closing tag for a list.
    fn list_end(ordered: bool, out: &mut String) {
        if ordered {
            push_str(out, "</ol>");
        } else {
            push_str(out, "</ul>");
        }
    }

    /// Writes the opening tag for a list item.
    fn list_item_start(out: &mut String) {
        push_str(out, "<li>");
    }

    /// Writes the closing tag for a list item.
    fn list_item_end(out: &mut String) {
        push_str(out, "</li>");
    }

    /// Writes the opening tag for a definition list.
    fn definition_list_start(out: &mut String) {
        push_str(out, "<dl>");
    }

    /// Writes the closing tag for a definition list.
    fn definition_list_end(out: &mut String) {
        push_str(out, "</dl>");
    }

    /// Writes the opening tag for a definition title.
    fn definition_title_start(out: &mut String) {
        push_str(out, "<dt>");
    }

    /// Writes the closing tag for a definition title.
    fn definition_title_end(out: &mut String) {
        push_str(out, "</dt>");
    }

    /// Writes the opening tag for a definition detail.
    fn definition_detail_start(out: &mut String) {
        push_str(out, "<dd>");
    }

    /// Writes the closing tag for a definition detail.
    fn definition_detail_end(out: &mut String) {
        push_str(out, "</dd>");
    }

    /// Writes the opening tags of the header row.
    fn table_head_start(out: &mut String) {
        push_str(out, "<thead><tr>");
    }

    /// Writes the closing tags of the header, starting the body.
    fn table_head_end(out: &mut String) {
        push_str(out, "</tr></thead><tbody>");
    }

    /// Writes the opening tag for a table row.
    fn table_row_start(out: &mut String) {
        push_str(out, "<tr>");
    }

    /// Writes the closing tag for a table row.
    fn table_row_end(out: &mut String) {
        push_str(out, "</tr>");
    }

    /// Writes the opening tag for a table cell, with its alignment.
    fn table_cell_start(is_head: bool, alignment: Option<Alignment>, out: &mut String) {
        let ghost o = old(out)@;
        push_str(out, "<");
        if is_head {
            push_str(out, "th");
        } else {
            push_str(out, "td");
        }
        match alignment {
            Some(Alignment::Left) => push_str(out, " style=\"text-align:left\""),
            Some(Alignment::Center) => push_str(out, " style=\"text-align:center\""),
            Some(Alignment::Right) => push_str(out, " style=\"text-align:right\""),
            _ => {},
        }
        push_str(out, ">");
        assert(out@ =~= o + table_cell_start_spec(is_head, alignment));
    }

    /// Writes the closing tag for a table cell.
    fn table_cell_end(is_head: bool, out: &mut String) {
        if is_head {
            push_str(out, "</th>");
        } else {
            push_str(out, "</td>");
        }
    }

    /// Writes a soft line break.
    fn soft_break(out: &mut String) {
        push_char(out, '\n');
    }

    /// Writes the opening tag for emphasis.
    fn emphasis_start(out: &mut String) {
        push_str(out, "<em>");
    }

    /// Writes the closing tag for emphasis.
    fn emphasis_end(out: &mut String) {
        push_str(out, "</em>");
    }

    /// Writes the opening tag for strong emphasis.
    fn strong_start(out: &mut String) {
        push_str(out, "<strong>");
    }

    /// Writes the closing tag for strong emphasis.
    fn strong_end(out: &mut String) {
        push_str(out, "</strong>");
    }

    /// Writes the opening tag for strikethrough text.
    fn strikethrough_start(out: &mut String) {
        push_str(out, "<s>");
    }

    /// Writes the closing tag for strikethrough text.
    fn strikethrough_end(out: &mut String) {
        push_str(out, "</s>");
    }

    /// Writes the opening tag for superscript.
    fn superscript_start(out: &mut String) {
        push_str(out, "<sup>");
    }

    /// Writes the closing tag for superscript.
    fn superscript_end(out: &mut String) {
        push_str(out, "</sup>");
    }

    /// Writes the opening tag for subscript.
    fn subscript_start(out: &mut String) {
        push_str(out, "<sub>");
    }

    /// Writes the closing tag for subscript.
    fn subscript_end(out: &mut String) {
        push_str(out, "</sub>");
    }

    /// Writes inline code, escaped.
    fn inline_code(code: &str, out: &mut String) {
        let ghost o = old(out)@;
        push_str(out, "<code>");
        escape_into(code, out);
        push_str(out, "</code>");
        assert(out@ =~= o + "<code>"@ + escape_spec(code@) + "</code>"@);
    }

    /// Writes the opening tag for a link; a cross-section link carries its
    /// section reference and, when not empty, the path within the section.
    fn link_start(href: &str, section_ref: Option<(&str, &str)>, out: &mut String) {
        let ghost o = old(out)@;
        push_str(out, "<a href=\"");
        escape_into(href, out);
        push_char(out, '"');
        match section_ref {
            Some((ref_string, section_path)) => {
                push_str(out, " data-section-ref=\"");
                escape_into(ref_string, out);
                push_char(out, '"');
                if !section_path.is_empty() {
                    push_str(out, " data-section-path=\"");
                    escape_into(section_path, out);
                    push_char(out, '"');
                }
            },
            None => {},
        }
        push_char(out, '>');
        proof {
            reveal_strlit("\"");
            reveal_strlit(">");
        }
        assert(out@ =~= o + link_start_spec(
            href@,
            match section_ref {
                Some(sr) => Some((sr.0@, sr.1@)),
                None => None,
            },
        ));
    }

    /// Writes the closing tag for a link.
    fn link_end(out: &mut String) {
        push_str(out, "</a>");
    }

    /// Writes the opening tag for a link whose target did not resolve.
    fn broken_link_start(out: &mut String) {
        push_str(out, "<a href=\"#\" class=\"rw-broken-link\">");
    }

    /// Writes a text node, escaped.
    fn text(text: &str, out: &mut String) {
        escape_into(text, out);
    }

    /// Writes raw HTML unchanged.
    fn raw_html(html: &str, out: &mut String) {
        push_str(out, html);
    }

    fn diagram_ids() -> (r: bool) {
        true
    }

    /// A rendered diagram as a figure: an inline SVG inside `<rw-diagram>`
    /// with its section links spliced in, inline PNG bytes as a data URI, or
    /// an image pointing at the written file.
    fn diagram(view: &DiagramView, out: &mut String) {
        let ghost o = old(out)@;
        push_str(out, "<figure class=\"diagram\"");
        write_diagram_id_attr(view.id, out);
        push_char(out, '>');
        let ghost head = out@;
        match view.asset {
            Asset::Inline(DiagramContent::Svg(svg)) => {
                push_str(out, "<rw-diagram>");
                splice_link_attrs(svg.as_str(), view.links, out);
                push_str(out, "</rw-diagram>");
            },
            Asset::Inline(DiagramContent::Png(bytes)) => {
                push_str(out, "<img src=\"data:image/png;base64,");
                encode_base64_into(bytes.as_slice(), out);
                push_char(out, '"');
                write_size_attrs(view.size, out);
                push_str(out, " alt=\"diagram\">");
            },
            Asset::Reference(name) => {
                push_str(out, "<img src=\"");
                escape_into(name.as_str(), out);
                push_char(out, '"');
                write_size_attrs(view.size, out);
                push_str(out, " alt=\"diagram\">");
            },
        }
        push_str(out, "</figure>");
        proof {
            reveal_strlit("\"");
            reveal_strlit(">");
        }
        assert(out@ =~= o + diagram_spec(
            opt_str_view(view.id),
            *view.asset,
            view.size,
            view.links@,
        ));
    }

    /// A diagram that failed to render: a figure with the escaped message.
    fn diagram_error(id: Option<&str>, message: &str, out: &mut String) {
        push_str(out, "<figure class=\"diagram diagram-error\"");
        write_diagram_id_attr(id, out);
        push_str(out, "><pre>Diagram rendering failed: ");
        escape_into(message, out);
        push_str(out, "</pre></figure>");
    }

    /// A diagram fence that could not be resolved: its source as a code block.
    fn diagram_source(lang: &str, source: &str, out: &mut String) {
        <HtmlBackend as RenderBackend>::code_block(Some(lang), source, out);
    }

}



/// The non-empty pieces among the first `k`.
pub open spec fn nonempty_pieces(ps: Seq<Seq<char>>, k: int) -> Seq<Seq<char>>
    decreases k,
{
    if k <= 0 {
        Seq::empty()
    } else if ps[k - 1].len() == 0 {
        nonempty_pieces(ps, k - 1)
    } else {
        nonempty_pieces(ps, k - 1).push(ps[k - 1])
    }
}

/// The segment stack after walking the first `k` relative pieces from `st`:
/// empty pieces and `.` are skipped, `..` drops the last segment (none left:
/// nothing happens), anything else is pushed.
pub open spec fn climb(st: Seq<Seq<char>>, ps: Seq<Seq<char>>, k: int) -> Seq<Seq<char>>
    decreases k,
{
    if k <= 0 {
        st
    } else {
        let s = climb(st, ps, k - 1);
        let p = ps[k - 1];
        if p.len() == 0 || p == seq!['.'] {
            s
        } else if p == seq!['.', '.'] {
            if s.len() == 0 {
                s
            } else {
                s.drop_last()
            }
        } else {
            s.push(p)
        }
    }
}

/// The first `k` segments joined with `/`.
pub open spec fn join_slash(segs: Seq<Seq<char>>, k: int) -> Seq<char>
    decreases k,
{
    if k <= 0 {
        Seq::empty()
    } else if k == 1 {
        segs[0]
    } else {
        join_slash(segs, k - 1) + seq!['/'] + segs[k - 1]
    }
}

/// `relative` resolved against the directory `base`, without a leading `/`.
pub open spec fn resolve_relative_spec(relative: Seq<char>, base: Seq<char>) -> Seq<char> {
    let bp = pieces_from(base, 0);
    let rp = pieces_from(relative, 0);
    let st = climb(nonempty_pieces(bp, bp.len() as int), rp, rp.len() as int);
    join_slash(st, st.len() as int)
}

pub open spec fn ends_with(s: Seq<char>, p: Seq<char>) -> bool {
    p.len() <= s.len() && s.subrange(s.len() - p.len(), s.len() as int) == p
}

pub open spec fn occurs_in(s: Seq<char>, p: Seq<char>) -> bool {
    exists|i: int| #[trigger] matches_at(s, i, p)
}

/// Links left as written: external, protocol-relative, mail, phone and
/// same-page fragment links.
pub open spec fn is_foreign_link(url: Seq<char>) -> bool {
    matches_at(url, 0, "http://"@) || matches_at(url, 0, "https://"@) || matches_at(url, 0, "//"@)
        || matches_at(url, 0, "mailto:"@) || matches_at(url, 0, "tel:"@) || matches_at(url, 0, "#"@)
}

/// The number of leading `/` in `s` from `i` on.
pub open spec fn leading_slashes(s: Seq<char>) -> int {
    first_where(s, 0, |c: char| c != '/')
}

/// `s` without a trailing `p`, when it has one.
pub open spec fn strip_suffix_spec(s: Seq<char>, p: Seq<char>) -> Seq<char> {
    if ends_with(s, p) {
        s.subrange(0, s.len() - p.len())
    } else {
        s
    }
}

/// Where a markdown link points once resolved against the page's base path.
/// Foreign links and links to anything but a `.md` file are unchanged. The
/// path before a `#` is made site-absolute (leading slashes dropped, or
/// resolved against `base`), loses its `.md` and then a trailing `/index`,
/// and gets one leading `/`; the fragment is kept.
pub open spec fn resolve_link_spec(url: Seq<char>, base: Seq<char>) -> Seq<char> {
    if is_foreign_link(url) {
        url
    } else if !ends_with(url, ".md"@) && !occurs_in(url, ".md#"@) {
        url
    } else {
        let h = first_where(url, 0, |c: char| c == '#');
        let path = url.subrange(0, h);
        let fragment = url.subrange(h, url.len() as int);
        let resolved = if path.len() > 0 && path[0] == '/' {
            path.subrange(leading_slashes(path), path.len() as int)
        } else {
            resolve_relative_spec(path, base)
        };
        let clean = strip_suffix_spec(strip_suffix_spec(resolved, ".md"@), "/index"@);
        seq!['/'] + clean + fragment
    }
}


/// The pieces of `v` split at `/`, empty ones included.
fn split_slash(v: &[char]) -> (r: Vec<Vec<char>>)
    ensures
        r@.map_values(|p: Vec<char>| p@) == pieces_from(v@, 0),
{
    let mut out: Vec<Vec<char>> = Vec::new();
    let mut start: usize = 0;
    loop
        invariant_except_break
            out@.map_values(|p: Vec<char>| p@) + pieces_from(v@, start as int) == pieces_from(v@, 0),
        invariant
            start <= v@.len(),
        ensures
            out@.map_values(|p: Vec<char>| p@) == pieces_from(v@, 0),
        decreases v@.len() - start,
    {
        let e = find_same(v, start, '/');
        proof {
            lemma_first_where(v@, start as int, |c: char| c == '/');
        }
        let piece = sub_vec(v, start, e);
        let ghost before = out@.map_values(|p: Vec<char>| p@);
        let ghost rest = if e >= v@.len() {
            Seq::<Seq<char>>::empty()
        } else {
            pieces_from(v@, e + 1)
        };
        assert(pieces_from(v@, start as int) =~= seq![piece@] + rest);
        out.push(piece);
        assert(out@.map_values(|p: Vec<char>| p@) =~= before.push(piece@));
        if e >= v.len() {
            assert(out@.map_values(|p: Vec<char>| p@) =~= before + pieces_from(v@, start as int));
            break;
        }
        assert(out@.map_values(|p: Vec<char>| p@) + pieces_from(v@, e + 1) =~= before + pieces_from(v@, start as int));
        start = e + 1;
    }
    out
}

/// Whether `v` ends with `p`.
fn ends_with_chars(v: &[char], p: &[char]) -> (r: bool)
    ensures
        r == ends_with(v@, p@),
{
    if p.len() > v.len() {
        false
    } else {
        starts_with_at(v, v.len() - p.len(), p)
    }
}

/// `v` without a trailing `p`, when it has one.
fn strip_suffix_chars(v: Vec<char>, p: &[char]) -> (r: Vec<char>)
    ensures
        r@ == strip_suffix_spec(v@, p@),
{
    if ends_with_chars(v.as_slice(), p) {
        sub_vec(v.as_slice(), 0, v.len() - p.len())
    } else {
        v
    }
}

/// `relative` resolved against the directory `base`, as characters.
fn resolve_relative_chars(relative: &[char], base: &[char]) -> (r: Vec<char>)
    ensures
        r@ == resolve_relative_spec(relative@, base@),
{
    let bp = split_slash(base);
    let ghost bps = bp@.map_values(|p: Vec<char>| p@);
    let mut st: Vec<Vec<char>> = Vec::new();
    let mut k: usize = 0;
    while k < bp.len()
        invariant
            k <= bp@.len(),
            bps == bp@.map_values(|p: Vec<char>| p@),
            st@.map_values(|p: Vec<char>| p@) == nonempty_pieces(bps, k as int),
        decreases bp.len() - k,
    {
        let ghost before = st@.map_values(|p: Vec<char>| p@);
        let piece = &bp[k];
        if piece.len() > 0 {
            st.push(sub_vec(piece.as_slice(), 0, piece.len()));
            assert(piece@.subrange(0, piece@.len() as int) =~= piece@);
            assert(st@.map_values(|p: Vec<char>| p@) =~= before.push(bps[k as int]));
        }
        k = k + 1;
    }
    let rp = split_slash(relative);
    let ghost rps = rp@.map_values(|p: Vec<char>| p@);
    let ghost st0 = st@.map_values(|p: Vec<char>| p@);
    let mut j: usize = 0;
    while j < rp.len()
        invariant
            j <= rp@.len(),
            rps == rp@.map_values(|p: Vec<char>| p@),
            st@.map_values(|p: Vec<char>| p@) == climb(st0, rps, j as int),
        decreases rp.len() - j,
    {
        let ghost before = st@.map_values(|p: Vec<char>| p@);
        let piece = &rp[j];
        let is_dot = piece.len() == 1 && piece[0] == '.';
        let is_dotdot = piece.len() == 2 && piece[0] == '.' && piece[1] == '.';
        assert(is_dot == (piece@ == seq!['.'])) by {
            if piece@ == seq!['.'] {
                assert(piece@[0] == '.');
            }
            if is_dot {
                assert(piece@ =~= seq!['.']);
            }
        }
        assert(is_dotdot == (piece@ == seq!['.', '.'])) by {
            if piece@ == seq!['.', '.'] {
                assert(piece@[0] == '.' && piece@[1] == '.');
            }
            if is_dotdot {
                assert(piece@ =~= seq!['.', '.']);
            }
        }
        assert(rps[j as int] == piece@);
        if piece.len() == 0 || is_dot {
        } else if is_dotdot {
            if st.len() > 0 {
                st.pop();
                assert(st@.map_values(|p: Vec<char>| p@) =~= before.drop_last());
            }
        } else {
            st.push(sub_vec(piece.as_slice(), 0, piece.len()));
            assert(piece@.subrange(0, piece@.len() as int) =~= piece@);
            assert(st@.map_values(|p: Vec<char>| p@) =~= before.push(piece@));
        }
        j = j + 1;
    }
    let ghost fin = st@.map_values(|p: Vec<char>| p@);
    let mut out: Vec<char> = Vec::new();
    let mut m: usize = 0;
    while m < st.len()
        invariant
            m <= st@.len(),
            fin == st@.map_values(|p: Vec<char>| p@),
            out@ == join_slash(fin, m as int),
        decreases st.len() - m,
    {
        if m > 0 {
            out.push('/');
        }
        append_chars(&mut out, st[m].as_slice());
        assert(fin[m as int] == st@[m as int]@);
        assert(out@ =~= join_slash(fin, m + 1));
        m = m + 1;
    }
    out
}

/// Resolve a relative path against a base path taken as a directory: `.`
/// and empty segments are skipped, `..` drops a segment (never above the
/// root), and the result is joined with `/`, without a leading slash.
pub fn resolve_relative_path(relative: &str, base: &str) -> (r: String)
    ensures
        r@ == resolve_relative_spec(relative@, base@),
{
    let rv = chars_of(relative);
    let bv = chars_of(base);
    let out = resolve_relative_chars(rv.as_slice(), bv.as_slice());
    string_of(out.as_slice())
}

/// Resolve a markdown link against a base URL path, for client-side
/// navigation: `./guide.md` under `/domains/billing` becomes
/// `/domains/billing/guide`.
pub fn resolve_link(url: &str, base_path: &str) -> (r: String)
    ensures
        r@ == resolve_link_spec(url@, base_path@),
{
    let v = chars_of(url);
    let foreign = str_starts_with(url, "http://") || str_starts_with(url, "https://") || str_starts_with(url, "//")
        || str_starts_with(url, "mailto:") || str_starts_with(url, "tel:") || str_starts_with(url, "#");
    if foreign {
        return string_of(v.as_slice());
    }
    let md = chars_of(".md");
    let md_hash = chars_of(".md#");
    let found = find_at(v.as_slice(), 0, md_hash.as_slice());
    proof {
        lemma_find_from(v@, 0, v@.len() + 1 as int, md_hash@);
    }
    let has_md_hash = found.is_some();
    assert(has_md_hash == occurs_in(v@, ".md#"@)) by {
        if has_md_hash {
            let k = found.unwrap();
            assert(matches_at(v@, k as int, md_hash@));
        }
        if occurs_in(v@, ".md#"@) {
            let i = choose|i: int| #[trigger] matches_at(v@, i, ".md#"@);
            assert(matches_at(v@, i, md_hash@));
        }
    }
    if !ends_with_chars(v.as_slice(), md.as_slice()) && !has_md_hash {
        return string_of(v.as_slice());
    }
    let h = find_same(v.as_slice(), 0, '#');
    proof {
        lemma_first_where(v@, 0, |c: char| c == '#');
    }
    let path = sub_vec(v.as_slice(), 0, h);
    let fragment = sub_vec(v.as_slice(), h, v.len());
    let resolved = if path.len() > 0 && path[0] == '/' {
        let mut i: usize = 0;
        while i < path.len() && path[i] == '/'
            invariant
                i <= path@.len(),
                forall|m: int| 0 <= m < i ==> #[trigger] path@[m] == '/',
            decreases path.len() - i,
        {
            i = i + 1;
        }
        proof {
            lemma_first_where_is(path@, 0, |c: char| c != '/', i as int);
        }
        sub_vec(path.as_slice(), i, path.len())
    } else {
        let bv = chars_of(base_path);
        resolve_relative_chars(path.as_slice(), bv.as_slice())
    };
    let index = chars_of("/index");
    let clean = strip_suffix_chars(strip_suffix_chars(resolved, md.as_slice()), index.as_slice());
    let mut out: Vec<char> = Vec::new();
    out.push('/');
    append_chars(&mut out, clean.as_slice());
    append_chars(&mut out, fragment.as_slice());
    assert(out@ =~= seq!['/'] + clean@ + fragment@);
    string_of(out.as_slice())
}


/// A segment a relative link can add: not empty, `.` or `..`.
pub open spec fn plain_piece(p: Seq<char>) -> bool {
    p.len() > 0 && p != seq!['.'] && p != seq!['.', '.']
}

/// The walk keeps a leading part of where it started and adds plain pieces.
proof fn lemma_climb_shape(st0: Seq<Seq<char>>, ps: Seq<Seq<char>>, k: int) -> (r: (int, Seq<Seq<char>>))
    requires
        0 <= k <= ps.len(),
    ensures
        0 <= r.0 <= st0.len(),
        forall|m: int| 0 <= m < r.1.len() ==> plain_piece(#[trigger] r.1[m]),
        climb(st0, ps, k) == st0.take(r.0) + r.1,
    decreases k,
{
    if k == 0 {
        assert(st0.take(st0.len() as int) + Seq::<Seq<char>>::empty() =~= st0);
        (st0.len() as int, Seq::empty())
    } else {
        let (j, extra) = lemma_climb_shape(st0, ps, k - 1);
        let s = climb(st0, ps, k - 1);
        let p = ps[k - 1];
        if p.len() == 0 || p == seq!['.'] {
            (j, extra)
        } else if p == seq!['.', '.'] {
            if s.len() == 0 {
                (j, extra)
            } else if extra.len() > 0 {
                assert(s.drop_last() =~= st0.take(j) + extra.drop_last());
                assert forall|m: int| 0 <= m < extra.drop_last().len() implies plain_piece(
                    #[trigger] extra.drop_last()[m],
                ) by {
                    assert(extra.drop_last()[m] == extra[m]);
                }
                (j, extra.drop_last())
            } else {
                assert(s.drop_last() =~= st0.take(j - 1) + extra);
                (j - 1, extra)
            }
        } else {
            assert(s.push(p) =~= st0.take(j) + extra.push(p));
            assert forall|m: int| 0 <= m < extra.push(p).len() implies plain_piece(#[trigger] extra.push(p)[m]) by {
                if m < extra.len() {
                    assert(extra.push(p)[m] == extra[m]);
                }
            }
            (j, extra.push(p))
        }
    }
}

/// Resolving a relative link never climbs above the site root: the result
/// is a leading part of the base directory's segments followed by plain
/// segments of the link, joined with `/`.
pub proof fn lemma_relative_link_stays_under_root(relative: Seq<char>, base: Seq<char>)
    ensures
        ({
            let bp = pieces_from(base, 0);
            let b = nonempty_pieces(bp, bp.len() as int);
            exists|j: int, extra: Seq<Seq<char>>|
                0 <= j <= b.len() && (forall|m: int| 0 <= m < extra.len() ==> plain_piece(#[trigger] extra[m]))
                    && resolve_relative_spec(relative, base) == join_slash(
                    b.take(j) + extra,
                    (b.take(j) + extra).len() as int,
                )
        }),
{
    let bp = pieces_from(base, 0);
    let b = nonempty_pieces(bp, bp.len() as int);
    let rp = pieces_from(relative, 0);
    let (j, extra) = lemma_climb_shape(b, rp, rp.len() as int);
    assert(0 <= j <= b.len());
    assert(forall|m: int| 0 <= m < extra.len() ==> plain_piece(#[trigger] extra[m]));
}

} // verus!
