use rw_renderer::backend::{Alignment, RenderBackend};
use rw_renderer::html::HtmlBackend;
use rw_renderer::search_document::SearchDocumentBackend;

#[test]
fn html_defaults_write_semantic_tags() {
    let mut out = String::new();
    HtmlBackend::paragraph_start(&mut out);
    HtmlBackend::emphasis_start(&mut out);
    HtmlBackend::text("a<b", &mut out);
    HtmlBackend::emphasis_end(&mut out);
    HtmlBackend::hard_break(&mut out);
    HtmlBackend::inline_code("x&y", &mut out);
    HtmlBackend::paragraph_end(&mut out);
    HtmlBackend::horizontal_rule(&mut out);
    HtmlBackend::soft_break(&mut out);
    HtmlBackend::raw_html("<raw>", &mut out);
    assert_eq!(out, "<p><em>a&lt;b</em><br><code>x&amp;y</code></p><hr>\n<raw>");
}

#[test]
fn html_headings_and_lists() {
    let mut out = String::new();
    HtmlBackend::heading_start(3, "intro", &mut out);
    HtmlBackend::heading_end(3, &mut out);
    HtmlBackend::list_start(true, Some(1), &mut out);
    HtmlBackend::list_start(true, None, &mut out);
    HtmlBackend::list_start(true, Some(7), &mut out);
    HtmlBackend::list_start(false, Some(7), &mut out);
    HtmlBackend::list_item_start(&mut out);
    HtmlBackend::task_list_marker(true, &mut out);
    HtmlBackend::task_list_marker(false, &mut out);
    HtmlBackend::list_item_end(&mut out);
    HtmlBackend::list_end(true, &mut out);
    HtmlBackend::list_end(false, &mut out);
    assert_eq!(
        out,
        r#"<h3 id="intro"></h3><ol><ol><ol start="7"><ul><li><input type="checkbox" checked disabled> <input type="checkbox" disabled> </li></ol></ul>"#
    );
}

#[test]
fn html_table_cells_carry_their_alignment() {
    let mut out = String::new();
    HtmlBackend::table_head_start(&mut out);
    HtmlBackend::table_cell_start(true, Some(Alignment::Center), &mut out);
    HtmlBackend::table_cell_end(true, &mut out);
    HtmlBackend::table_head_end(&mut out);
    HtmlBackend::table_row_start(&mut out);
    HtmlBackend::table_cell_start(false, Some(Alignment::Unset), &mut out);
    HtmlBackend::table_cell_end(false, &mut out);
    HtmlBackend::table_cell_start(false, Some(Alignment::Right), &mut out);
    HtmlBackend::table_cell_start(false, None, &mut out);
    HtmlBackend::table_row_end(&mut out);
    assert_eq!(
        out,
        r#"<thead><tr><th style="text-align:center"></th></tr></thead><tbody><tr><td></td><td style="text-align:right"><td></tr>"#
    );
}

#[test]
fn html_links_carry_section_attributes() {
    let mut out = String::new();
    HtmlBackend::link_start("/a?b&c", Some(("domain:default/x", "p/q")), &mut out);
    HtmlBackend::link_end(&mut out);
    HtmlBackend::link_start("/y", Some(("r", "")), &mut out);
    HtmlBackend::link_start("/z", None, &mut out);
    HtmlBackend::broken_link_start(&mut out);
    assert_eq!(
        out,
        "<a href=\"/a?b&amp;c\" data-section-ref=\"domain:default/x\" data-section-path=\"p/q\"></a><a href=\"/y\" data-section-ref=\"r\"><a href=\"/z\"><a href=\"#\" class=\"rw-broken-link\">"
    );
}

#[test]
fn html_definition_lists_and_inline_wrappers() {
    let mut out = String::new();
    HtmlBackend::definition_list_start(&mut out);
    HtmlBackend::definition_title_start(&mut out);
    HtmlBackend::definition_title_end(&mut out);
    HtmlBackend::definition_detail_start(&mut out);
    HtmlBackend::definition_detail_end(&mut out);
    HtmlBackend::definition_list_end(&mut out);
    HtmlBackend::strong_start(&mut out);
    HtmlBackend::strong_end(&mut out);
    HtmlBackend::strikethrough_start(&mut out);
    HtmlBackend::strikethrough_end(&mut out);
    HtmlBackend::superscript_start(&mut out);
    HtmlBackend::superscript_end(&mut out);
    HtmlBackend::subscript_start(&mut out);
    HtmlBackend::subscript_end(&mut out);
    assert_eq!(out, "<dl><dt></dt><dd></dd></dl><strong></strong><s></s><sup></sup><sub></sub>");
}

#[test]
fn search_document_writes_text_and_boundaries_only() {
    let mut out = String::new();
    SearchDocumentBackend::heading_start(2, "x", &mut out);
    SearchDocumentBackend::text("Title", &mut out);
    SearchDocumentBackend::heading_end(2, &mut out);
    SearchDocumentBackend::paragraph_start(&mut out);
    SearchDocumentBackend::strong_start(&mut out);
    SearchDocumentBackend::text("a<b", &mut out);
    SearchDocumentBackend::strong_end(&mut out);
    SearchDocumentBackend::inline_code("c", &mut out);
    SearchDocumentBackend::raw_html("<b>dropped</b>", &mut out);
    SearchDocumentBackend::link_start("/x", None, &mut out);
    SearchDocumentBackend::paragraph_end(&mut out);
    SearchDocumentBackend::code_block(Some("rust"), "fn f()", &mut out);
    SearchDocumentBackend::image("i.png", "alt text", "t", &mut out);
    SearchDocumentBackend::table_cell_start(true, Some(Alignment::Left), &mut out);
    SearchDocumentBackend::list_item_start(&mut out);
    assert_eq!(out, "Title a<bc fn f() alt text  ");
    assert!(SearchDocumentBackend::title_as_metadata());
    assert_eq!(SearchDocumentBackend::transform_link("./x.md", Some("/base")), "./x.md");
}

use rw_renderer::table::TableState;

#[test]
fn table_test_table_state() {
    let mut state = TableState::default();
    state.start(vec![Alignment::Left, Alignment::Center, Alignment::Right]);

    state.start_head();
    assert!(state.is_in_head());
    assert_eq!(state.current_alignment(), Some(Alignment::Left));

    state.next_cell();
    assert_eq!(state.current_alignment(), Some(Alignment::Center));

    state.next_cell();
    assert_eq!(state.current_alignment(), Some(Alignment::Right));

    state.end_head();
    assert!(!state.is_in_head());
}

#[test]
fn state_test_table_state() {
    let mut state = TableState::default();
    state.start(vec![Alignment::Left, Alignment::Center, Alignment::Right]);

    state.start_head();
    assert!(state.is_in_head());
    assert_eq!(state.current_alignment(), Some(Alignment::Left));

    state.next_cell();
    assert_eq!(state.current_alignment(), Some(Alignment::Center));

    state.next_cell();
    assert_eq!(state.current_alignment(), Some(Alignment::Right));

    state.end_head();
    assert!(!state.is_in_head());
}

#[test]
fn a_cell_past_the_last_column_has_no_alignment() {
    let mut state = TableState::default();
    state.start(vec![Alignment::Unset]);
    state.start_row();
    assert_eq!(state.current_alignment(), Some(Alignment::Unset));
    state.next_cell();
    assert_eq!(state.current_alignment(), None);
    state.start_row();
    assert_eq!(state.current_alignment(), Some(Alignment::Unset));
}
