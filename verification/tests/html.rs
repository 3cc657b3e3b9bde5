use rw_renderer::backend::{AlertKind, RenderBackend};
use rw_renderer::diagram::{Asset, DiagramContent, DiagramLink, DiagramView, Size};
use rw_renderer::html::{resolve_link, resolve_relative_path, HtmlBackend};
use rw_renderer::status::StatusColor;
use rw_renderer::tabs::TabInfo;

#[test]
fn test_code_block_with_language() {
    let mut out = String::new();
    HtmlBackend::code_block(Some("rust"), "fn main() {}", &mut out);
    assert_eq!(out, r#"<pre><code class="language-rust">fn main() {}</code></pre>"#);
}

#[test]
fn test_code_block_without_language() {
    let mut out = String::new();
    HtmlBackend::code_block(None, "plain code", &mut out);
    assert_eq!(out, "<pre><code>plain code</code></pre>");
}

#[test]
fn test_blockquote() {
    let mut out = String::new();
    HtmlBackend::blockquote_start(&mut out);
    out.push_str("content");
    HtmlBackend::blockquote_end(&mut out);
    assert_eq!(out, "<blockquote>content</blockquote>");
}

#[test]
fn test_image() {
    let mut out = String::new();
    HtmlBackend::image("image.png", "Alt text", "", &mut out);
    assert_eq!(out, r#"<img src="image.png" alt="Alt text">"#);
}

#[test]
fn test_image_with_title() {
    let mut out = String::new();
    HtmlBackend::image("image.png", "Alt text", "Image title", &mut out);
    assert_eq!(out, r#"<img src="image.png" title="Image title" alt="Alt text">"#);
}

#[test]
fn test_resolve_link_relative() {
    assert_eq!(
        resolve_link("adr-101/index.md", "/domains/billing/systems/payment-gateway/adr"),
        "/domains/billing/systems/payment-gateway/adr/adr-101"
    );
}

#[test]
fn test_resolve_link_parent() {
    assert_eq!(resolve_link("../other.md", "/domains/billing/guide"), "/domains/billing/other");
}

#[test]
fn test_resolve_link_current_dir() {
    assert_eq!(resolve_link("./sibling.md", "/domains/billing/guide"), "/domains/billing/guide/sibling");
}

#[test]
fn test_resolve_link_external_unchanged() {
    assert_eq!(resolve_link("https://example.com", "/base/path"), "https://example.com");
    assert_eq!(resolve_link("mailto:test@example.com", "/base/path"), "mailto:test@example.com");
}

#[test]
fn test_resolve_link_fragment_only() {
    assert_eq!(resolve_link("#section", "/base/path"), "#section");
}

#[test]
fn test_resolve_link_with_fragment() {
    assert_eq!(resolve_link("./page.md#section", "/base/path"), "/base/path/page#section");
}

#[test]
fn test_resolve_link_non_md_unchanged() {
    assert_eq!(resolve_link("./image.png", "/base/path"), "./image.png");
}

#[test]
fn test_resolve_link_absolute() {
    assert_eq!(resolve_link("/absolute/path.md", "/base/path"), "/absolute/path");
}

#[test]
fn test_resolve_link_traversal_clamped() {
    assert_eq!(resolve_link("../../../etc/passwd.md", "/a/b"), "/etc/passwd");
}

#[test]
fn test_transform_link_with_base_path() {
    let result = HtmlBackend::transform_link("./page.md", Some("/base/path"));
    assert_eq!(result, "/base/path/page");
}

#[test]
fn test_transform_link_without_base_path() {
    let result = HtmlBackend::transform_link("./page.md", None);
    assert_eq!(result, "./page.md");
}

#[test]
fn test_alert_note() {
    let mut out = String::new();
    HtmlBackend::alert_start(AlertKind::Note, &mut out);
    out.push_str("<p>content</p>");
    HtmlBackend::alert_end(AlertKind::Note, &mut out);
    assert!(out.contains(r#"class="alert alert-note""#));
    assert!(out.contains(r#"<svg class="alert-icon""#));
    assert!(out.contains("Note"));
    assert!(out.contains("<p>content</p>"));
}

#[test]
fn test_alert_tip() {
    let mut out = String::new();
    HtmlBackend::alert_start(AlertKind::Tip, &mut out);
    HtmlBackend::alert_end(AlertKind::Tip, &mut out);
    assert!(out.contains(r#"class="alert alert-tip""#));
    assert!(out.contains(r#"<svg class="alert-icon""#));
    assert!(out.contains("Tip"));
}

#[test]
fn test_alert_important() {
    let mut out = String::new();
    HtmlBackend::alert_start(AlertKind::Important, &mut out);
    HtmlBackend::alert_end(AlertKind::Important, &mut out);
    assert!(out.contains(r#"class="alert alert-important""#));
    assert!(out.contains(r#"<svg class="alert-icon""#));
    assert!(out.contains("Important"));
}

#[test]
fn test_alert_warning() {
    let mut out = String::new();
    HtmlBackend::alert_start(AlertKind::Warning, &mut out);
    HtmlBackend::alert_end(AlertKind::Warning, &mut out);
    assert!(out.contains(r#"class="alert alert-warning""#));
    assert!(out.contains(r#"<svg class="alert-icon""#));
    assert!(out.contains("Warning"));
}

#[test]
fn test_alert_caution() {
    let mut out = String::new();
    HtmlBackend::alert_start(AlertKind::Caution, &mut out);
    HtmlBackend::alert_end(AlertKind::Caution, &mut out);
    assert!(out.contains(r#"class="alert alert-caution""#));
    assert!(out.contains(r#"<svg class="alert-icon""#));
    assert!(out.contains("Caution"));
}

#[test]
fn status_open_emits_colored_span() {
    let mut out = String::new();
    HtmlBackend::status_open(StatusColor::Green, &mut out);
    assert_eq!(out, r#"<span class="status status-green">"#);
}

#[test]
fn status_open_renders_grey() {
    let mut out = String::new();
    HtmlBackend::status_open(StatusColor::Grey, &mut out);
    assert_eq!(out, r#"<span class="status status-grey">"#);
}

#[test]
fn status_close_emits_span_close() {
    let mut out = String::new();
    HtmlBackend::status_close(&mut out);
    assert_eq!(out, "</span>");
}

#[test]
fn tabs_open_matches_legacy_bar_markup() {
    let tabs = [
        TabInfo { id: 0, label: "macOS".to_owned(), is_first: true },
        TabInfo { id: 1, label: "Linux".to_owned(), is_first: false },
    ];
    let mut out = String::new();
    HtmlBackend::tabs_open(0, &tabs, &mut out);
    assert_eq!(
        out,
        r#"<div class="tabs" id="tabs-0"><div class="tabs-buttons" role="tablist"><button role="tab" id="tab-0-0" aria-controls="panel-0-0" aria-selected="true" tabindex="0">macOS</button><button role="tab" id="tab-0-1" aria-controls="panel-0-1" aria-selected="false" tabindex="-1">Linux</button></div>"#
    );
}

#[test]
fn tab_panel_open_hidden_for_non_first() {
    let mut out = String::new();
    HtmlBackend::tab_panel_open(0, &TabInfo { id: 1, label: "L".to_owned(), is_first: false }, &mut out);
    assert_eq!(out, r#"<div role="tabpanel" id="panel-0-1" aria-labelledby="tab-0-1" hidden>"#);
}

#[test]
fn tab_panel_open_not_hidden_for_first() {
    let mut out = String::new();
    HtmlBackend::tab_panel_open(0, &TabInfo { id: 0, label: "L".to_owned(), is_first: true }, &mut out);
    assert_eq!(out, r#"<div role="tabpanel" id="panel-0-0" aria-labelledby="tab-0-0">"#);
}

#[test]
fn tab_panel_close_emits_div_close() {
    let mut out = String::new();
    HtmlBackend::tab_panel_close(&mut out);
    assert_eq!(out, "</div>");
}

#[test]
fn tabs_close_emits_div_close() {
    let mut out = String::new();
    HtmlBackend::tabs_close(&mut out);
    assert_eq!(out, "</div>");
}

#[test]
fn tabs_open_escapes_label() {
    let tabs = [TabInfo { id: 0, label: "a < b & c".to_owned(), is_first: true }];
    let mut out = String::new();
    HtmlBackend::tabs_open(0, &tabs, &mut out);
    assert!(out.contains("a &lt; b &amp; c"), "got: {out}");
}

fn render(view: &DiagramView<'_>) -> String {
    let mut out = String::new();
    HtmlBackend::diagram(view, &mut out);
    out
}

fn svg(id: Option<&str>, source: &str, links: &[DiagramLink]) -> String {
    render(&DiagramView { id, asset: &Asset::Inline(DiagramContent::Svg(source.to_owned())), size: None, links })
}

fn png(id: Option<&str>, bytes: &[u8], size: Option<Size>) -> String {
    render(&DiagramView { id, asset: &Asset::Inline(DiagramContent::Png(bytes.to_vec())), size, links: &[] })
}

fn reference(id: Option<&str>, name: &str, size: Option<Size>) -> String {
    render(&DiagramView { id, asset: &Asset::Reference(name.to_owned()), size, links: &[] })
}

#[test]
fn an_inline_svg_is_wrapped_in_rw_diagram() {
    assert_eq!(
        svg(None, "<svg><g/></svg>", &[]),
        r#"<figure class="diagram"><rw-diagram><svg><g/></svg></rw-diagram></figure>"#
    );
}

#[test]
fn an_inline_svg_carries_its_diagram_id() {
    assert_eq!(
        svg(Some("diagram-2"), "<svg/>", &[]),
        r#"<figure class="diagram" data-diagram-id="diagram-2"><rw-diagram><svg/></rw-diagram></figure>"#
    );
}

#[test]
fn a_diagram_id_is_attribute_escaped() {
    assert_eq!(
        svg(Some(r#"a"b"#), "<svg/>", &[]),
        r#"<figure class="diagram" data-diagram-id="a&quot;b"><rw-diagram><svg/></rw-diagram></figure>"#
    );
}

#[test]
fn resolved_links_are_spliced_into_the_svg() {
    let links = [DiagramLink {
        href: "/domains/billing/api".to_owned(),
        section_ref: "domain:default/billing".to_owned(),
        section_path: "api".to_owned(),
    }];
    assert_eq!(
        svg(None, r#"<svg><a href="/domains/billing/api">x</a></svg>"#, &links),
        r#"<figure class="diagram"><rw-diagram><svg><a href="/domains/billing/api" data-section-ref="domain:default/billing" data-section-path="api">x</a></svg></rw-diagram></figure>"#
    );
}

#[test]
fn an_svg_with_no_resolved_links_is_untouched() {
    assert_eq!(
        svg(None, r#"<svg><a href="/x">x</a></svg>"#, &[]),
        r#"<figure class="diagram"><rw-diagram><svg><a href="/x">x</a></svg></rw-diagram></figure>"#
    );
}

#[test]
fn inline_png_bytes_become_a_sized_data_uri() {
    assert_eq!(
        png(Some("d1"), b"PNG", Some(Size { width: 200, height: 100 })),
        r#"<figure class="diagram" data-diagram-id="d1"><img src="data:image/png;base64,UE5H" width="200" height="100" alt="diagram"></figure>"#
    );
}

#[test]
fn an_unsized_png_renders_without_dimension_attributes() {
    assert_eq!(
        png(None, b"PNG", None),
        r#"<figure class="diagram"><img src="data:image/png;base64,UE5H" alt="diagram"></figure>"#
    );
}

#[test]
fn a_reference_points_at_the_written_name() {
    assert_eq!(
        reference(Some("d1"), "diagram_abc123.png", Some(Size { width: 640, height: 480 })),
        r#"<figure class="diagram" data-diagram-id="d1"><img src="diagram_abc123.png" width="640" height="480" alt="diagram"></figure>"#
    );
}

#[test]
fn an_unsized_reference_renders_without_dimension_attributes() {
    assert_eq!(
        reference(None, "diagram_abc123.png", None),
        r#"<figure class="diagram"><img src="diagram_abc123.png" alt="diagram"></figure>"#
    );
}

#[test]
fn a_reference_name_is_attribute_escaped() {
    assert_eq!(
        reference(None, r#"a"b.png"#, None),
        r#"<figure class="diagram"><img src="a&quot;b.png" alt="diagram"></figure>"#
    );
}

#[test]
fn an_error_figure_carries_the_escaped_message() {
    let mut out = String::new();
    HtmlBackend::diagram_error(Some("d1"), "syntax error at <line 3>", &mut out);
    assert_eq!(
        out,
        r#"<figure class="diagram diagram-error" data-diagram-id="d1"><pre>Diagram rendering failed: syntax error at &lt;line 3&gt;</pre></figure>"#
    );
}

#[test]
fn an_error_figure_without_an_id_omits_the_attribute() {
    let mut out = String::new();
    HtmlBackend::diagram_error(None, "boom", &mut out);
    assert_eq!(out, r#"<figure class="diagram diagram-error"><pre>Diagram rendering failed: boom</pre></figure>"#);
}

#[test]
fn an_unresolved_fence_renders_as_a_code_block() {
    let mut out = String::new();
    HtmlBackend::diagram_source("plantuml", "@startuml\n@enduml", &mut out);
    assert_eq!(out, "<pre><code class=\"language-plantuml\">@startuml\n@enduml</code></pre>");
}

#[test]
fn html_backend_keeps_the_first_heading() {
    assert!(!HtmlBackend::title_as_metadata());
}

#[test]
fn html_table_is_wrapped_for_scrolling() {
    let mut out = String::new();
    HtmlBackend::table_start(&mut out);
    HtmlBackend::table_end(&mut out);
    assert_eq!(
        out,
        r#"<div class="table-wrap" role="group" tabindex="0" aria-label="Table"><table></tbody></table></div>"#
    );
}

#[test]
fn resolve_link_strips_index_and_keeps_unknown_schemes_relative() {
    assert_eq!(resolve_link("guide/index.md", "/docs"), "/docs/guide");
    assert_eq!(resolve_link("//cdn.example/x.md", "/docs"), "//cdn.example/x.md");
    assert_eq!(resolve_link("tel:123.md", "/docs"), "tel:123.md");
    assert_eq!(resolve_link("a.md#x.md#y", "/docs"), "/docs/a#x.md#y");
    assert_eq!(resolve_link("/a/index.md#top", "/docs"), "/a#top");
    assert_eq!(resolve_link("notes.md.txt", "/docs"), "notes.md.txt");
}

#[test]
fn resolve_relative_path_treats_the_base_as_a_directory() {
    assert_eq!(resolve_relative_path("a/./b//c", "/x/y/"), "x/y/a/b/c");
    assert_eq!(resolve_relative_path("../../..", "/x"), "");
    assert_eq!(resolve_relative_path("z", ""), "z");
}
