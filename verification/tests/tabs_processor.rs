use rw_renderer::code_block::{CodeBlockProcessor, FenceAttrs, ProcessResult};
use rw_renderer::tabs::preprocessor::{TabMetadata, TabsGroup};
use rw_renderer::tabs::processor::{parse_data_id, parse_tab_panels, TabsProcessor};

fn create_test_groups() -> Vec<TabsGroup> {
    vec![TabsGroup {
        id: 0,
        tabs: vec![
            TabMetadata { id: 0, label: "macOS".to_string(), line: 2 },
            TabMetadata { id: 1, label: "Linux".to_string(), line: 5 },
        ],
    }]
}

#[test]
fn test_parse_data_id() {
    assert_eq!(parse_data_id(r#"<rw-tabs data-id="0">"#), Some(0));
    assert_eq!(parse_data_id(r#"<rw-tabs data-id="42">"#), Some(42));
    assert_eq!(parse_data_id(r#"<rw-tabs>"#), None);
    assert_eq!(parse_data_id(r#"<rw-tabs data-id="abc">"#), None);
}

#[test]
fn test_parse_tab_panels() {
    let content =
        r#"<rw-tab data-id="0">Content A</rw-tab><rw-tab data-id="1">Content B</rw-tab>"#;
    let panels = parse_tab_panels(content);

    assert_eq!(panels.len(), 2);
    assert_eq!(panels[0], (0, "Content A".to_string()));
    assert_eq!(panels[1], (1, "Content B".to_string()));
}

#[test]
fn test_transform_tabs() {
    let mut processor = TabsProcessor::new(create_test_groups());

    let input = r#"<rw-tab data-id="0"><p>Install with Homebrew.</p></rw-tab><rw-tab data-id="1"><p>Install with apt.</p></rw-tab>"#;
    let output = processor.transform_tabs(0, input);

    // Check container
    assert!(output.contains(r#"<div class="tabs" id="tabs-0">"#));
    assert!(output.ends_with("</div>"));

    // Check tab buttons
    assert!(output.contains(r#"<div class="tabs-buttons" role="tablist">"#));
    assert!(output.contains(r#"<button role="tab" id="tab-0-0" aria-controls="panel-0-0" aria-selected="true" tabindex="0">macOS</button>"#));
    assert!(output.contains(r#"<button role="tab" id="tab-0-1" aria-controls="panel-0-1" aria-selected="false" tabindex="-1">Linux</button>"#));

    // Check panels
    assert!(output.contains(
        r#"<div role="tabpanel" id="panel-0-0" aria-labelledby="tab-0-0"><p>Install with Homebrew.</p></div>"#
    ));
    assert!(output.contains(
        r#"<div role="tabpanel" id="panel-0-1" aria-labelledby="tab-0-1" hidden><p>Install with apt.</p></div>"#
    ));
}

#[test]
fn test_post_process() {
    let groups = create_test_groups();
    let mut processor = TabsProcessor::new(groups);

    let mut html = r#"<p>Before</p><rw-tabs data-id="0"><rw-tab data-id="0">A</rw-tab><rw-tab data-id="1">B</rw-tab></rw-tabs><p>After</p>"#.to_string();
    processor.post_process(&mut html);

    assert!(html.contains("<p>Before</p>"));
    assert!(html.contains("<p>After</p>"));
    assert!(html.contains(r#"<div class="tabs" id="tabs-0">"#));
    assert!(!html.contains("<rw-tabs"));
    assert!(!html.contains("<rw-tab"));
}

#[test]
fn processor_test_multiple_tab_groups() {
    let groups = vec![
        TabsGroup {
            id: 0,
            tabs: vec![TabMetadata {
                id: 0,
                label: "A".to_string(),
                line: 1,
            }],
        },
        TabsGroup {
            id: 1,
            tabs: vec![TabMetadata {
                id: 1,
                label: "B".to_string(),
                line: 5,
            }],
        },
    ];
    let mut processor = TabsProcessor::new(groups);

    let mut html = r#"<rw-tabs data-id="0"><rw-tab data-id="0">Content A</rw-tab></rw-tabs><rw-tabs data-id="1"><rw-tab data-id="1">Content B</rw-tab></rw-tabs>"#.to_string();
    processor.post_process(&mut html);

    assert!(html.contains(r#"id="tabs-0""#));
    assert!(html.contains(r#"id="tabs-1""#));
}

#[test]
fn test_missing_group_warning() {
    let mut processor = TabsProcessor::new(vec![]);

    let mut html =
        r#"<rw-tabs data-id="99"><rw-tab data-id="0">Content</rw-tab></rw-tabs>"#.to_string();
    processor.post_process(&mut html);

    assert!(processor.warnings().iter().any(|w| w.contains("99")));
}

#[test]
fn test_html_escaping_in_labels() {
    let groups = vec![TabsGroup {
        id: 0,
        tabs: vec![TabMetadata {
            id: 0,
            label: "<script>".to_string(),
            line: 1,
        }],
    }];
    let mut processor = TabsProcessor::new(groups);

    let input = r#"<rw-tab data-id="0">Content</rw-tab>"#;
    let output = processor.transform_tabs(0, input);

    assert!(output.contains("&lt;script&gt;"));
    assert!(!output.contains("<script>"));
}

#[test]
fn test_process_returns_passthrough() {
    let mut processor = TabsProcessor::new(vec![]);
    let result = processor.process("rust", &FenceAttrs::default(), "fn main() {}", 0);
    assert_eq!(result, ProcessResult::PassThrough);
}

#[test]
fn test_content_with_html_inside_tabs() {
    let groups = vec![TabsGroup {
        id: 0,
        tabs: vec![TabMetadata {
            id: 0,
            label: "Code".to_string(),
            line: 1,
        }],
    }];
    let mut processor = TabsProcessor::new(groups);

    let mut html = r#"<rw-tabs data-id="0"><rw-tab data-id="0"><pre><code class="language-rust">fn main() {}</code></pre></rw-tab></rw-tabs>"#.to_string();
    processor.post_process(&mut html);

    assert!(html.contains(r#"<pre><code class="language-rust">fn main() {}</code></pre>"#));
}

#[test]
fn test_no_warnings_for_valid_input() {
    let groups = create_test_groups();
    let mut processor = TabsProcessor::new(groups);

    let mut html = r#"<rw-tabs data-id="0"><rw-tab data-id="0">A</rw-tab><rw-tab data-id="1">B</rw-tab></rw-tabs>"#.to_string();
    processor.post_process(&mut html);

    assert!(processor.warnings().is_empty());
}

#[test]
fn parse_data_id_rejects_an_unclosed_value() {
    assert_eq!(parse_data_id(r#"<rw-tabs data-id="7"#), None);
    assert_eq!(parse_data_id(r#"<rw-tabs data-id="">"#), None);
}

#[test]
fn parse_tab_panels_skips_panels_without_an_id() {
    let panels = parse_tab_panels(r#"<rw-tab>x</rw-tab><rw-tab data-id="3">y</rw-tab>"#);
    assert_eq!(panels, vec![(3, "y".to_string())]);
}
