use rw_renderer::tabs::preprocessor::{parse_directive, strip_quotes, Directive, TabsPreprocessor};

#[test]
fn test_parse_directive_tabs() {
    assert_eq!(parse_directive("::: tabs"), Some(Directive::Tabs));
    assert_eq!(parse_directive(":::tabs"), Some(Directive::Tabs));
    assert_eq!(parse_directive("::: tabs "), Some(Directive::Tabs));
}

#[test]
fn test_parse_directive_tab() {
    assert_eq!(
        parse_directive("::: tab macOS"),
        Some(Directive::Tab("macOS".to_string()))
    );
    assert_eq!(
        parse_directive("::: tab Linux"),
        Some(Directive::Tab("Linux".to_string()))
    );
    assert_eq!(
        parse_directive("::: tab"),
        Some(Directive::Tab("Tab".to_string()))
    );
    assert_eq!(
        parse_directive("::: tab  "),
        Some(Directive::Tab("Tab".to_string()))
    );
}

#[test]
fn test_parse_directive_tab_with_quotes() {
    // Double quotes
    assert_eq!(
        parse_directive(r#"::: tab "macOS и Linux""#),
        Some(Directive::Tab("macOS и Linux".to_string()))
    );
    // Single quotes
    assert_eq!(
        parse_directive("::: tab 'Windows'"),
        Some(Directive::Tab("Windows".to_string()))
    );
    // No quotes
    assert_eq!(
        parse_directive("::: tab Plain Label"),
        Some(Directive::Tab("Plain Label".to_string()))
    );
}

#[test]
fn test_strip_quotes() {
    assert_eq!(strip_quotes(r#""quoted""#), "quoted");
    assert_eq!(strip_quotes("'single'"), "single");
    assert_eq!(strip_quotes("no quotes"), "no quotes");
    assert_eq!(strip_quotes(r#""mismatched'"#), r#""mismatched'"#);
    assert_eq!(strip_quotes(r#""""#), ""); // Empty quoted string
    assert_eq!(strip_quotes(""), ""); // Empty string
}

#[test]
fn test_parse_directive_close() {
    assert_eq!(parse_directive(":::"), Some(Directive::Close));
    assert_eq!(parse_directive("::: "), Some(Directive::Close));
}

#[test]
fn test_parse_directive_unknown() {
    assert_eq!(parse_directive("::: note"), None);
    assert_eq!(parse_directive("::: warning"), None);
    assert_eq!(parse_directive("```rust"), None);
    assert_eq!(parse_directive("regular text"), None);
}

#[test]
fn test_simple_tabs() {
    let mut pp = TabsPreprocessor::new();
    // Use implicit tab closing: ::: tab B implicitly closes ::: tab A
    // Final ::: closes the last tab AND the container
    let output = pp.process(
        r#"::: tabs
::: tab macOS
Install with Homebrew.
::: tab Linux
Install with apt.
:::"#,
    );

    assert!(output.contains(r#"<rw-tabs data-id="0">"#));
    assert!(output.contains(r#"<rw-tab data-id="0">"#));
    assert!(output.contains(r#"<rw-tab data-id="1">"#));
    assert!(output.contains("</rw-tab>"));
    assert!(output.contains("</rw-tabs>"));
    assert!(output.contains("Install with Homebrew."));
    assert!(output.contains("Install with apt."));

    let groups = pp.into_groups();
    assert_eq!(groups.len(), 1);
    assert_eq!(groups[0].id, 0);
    assert_eq!(groups[0].tabs.len(), 2);
    assert_eq!(groups[0].tabs[0].label, "macOS");
    assert_eq!(groups[0].tabs[1].label, "Linux");
}

#[test]
fn test_tabs_with_code_block() {
    let mut pp = TabsPreprocessor::new();
    // Single ::: closes both the tab and the container
    let output = pp.process(
        r#"::: tabs
::: tab Example

```python
::: not a directive
print("hello")
```

:::"#,
    );

    // Code block content should not be transformed
    assert!(output.contains("::: not a directive"));
    assert!(output.contains(r#"<rw-tabs data-id="0">"#));
}

#[test]
fn test_nested_tabs_warning() {
    let mut pp = TabsPreprocessor::new();
    // ::: inside tab closes everything, so nested ::: tabs becomes orphan
    let output = pp.process(
        r#"::: tabs
::: tab First
::: tabs
:::"#,
    );

    assert!(pp.warnings().iter().any(|w| w.contains("nested")));
    // Inner ::: tabs should pass through as literal
    assert!(output.contains("::: tabs"));
}

#[test]
fn test_tab_outside_tabs_warning() {
    let mut pp = TabsPreprocessor::new();
    let output = pp.process("::: tab Orphan\nContent\n:::");

    assert!(pp.warnings().iter().any(|w| w.contains("outside")));
    // Should pass through as literal
    assert!(output.contains("::: tab Orphan"));
}

#[test]
fn test_empty_tabs_warning() {
    let mut pp = TabsPreprocessor::new();
    let _output = pp.process("::: tabs\n:::");

    assert!(pp.warnings().iter().any(|w| w.contains("no tabs")));
    let groups = pp.into_groups();
    assert!(groups.is_empty());
}

#[test]
fn test_unclosed_tabs_warning() {
    let mut pp = TabsPreprocessor::new();
    let _output = pp.process("::: tabs\n::: tab Test\nContent");

    assert!(pp.warnings().iter().any(|w| w.contains("unclosed")));
}

#[test]
fn test_stray_close_warning() {
    let mut pp = TabsPreprocessor::new();
    let output = pp.process(":::");

    assert!(pp.warnings().iter().any(|w| w.contains("stray")));
    // Should pass through
    assert!(output.trim() == ":::");
}

#[test]
fn preprocessor_test_multiple_tab_groups() {
    let mut pp = TabsPreprocessor::new();
    // Single ::: closes both tab and container
    let output = pp.process(
        r#"::: tabs
::: tab A
Content A
:::

Some text between.

::: tabs
::: tab B
Content B
:::"#,
    );

    assert!(output.contains(r#"<rw-tabs data-id="0">"#));
    assert!(output.contains(r#"<rw-tabs data-id="1">"#));

    let groups = pp.into_groups();
    assert_eq!(groups.len(), 2);
    assert_eq!(groups[0].id, 0);
    assert_eq!(groups[1].id, 1);
}

#[test]
fn test_tab_without_label() {
    let mut pp = TabsPreprocessor::new();
    // Single ::: closes both tab and container
    let _output = pp.process(
        r#"::: tabs
::: tab
Content
:::"#,
    );

    let groups = pp.into_groups();
    assert_eq!(groups[0].tabs[0].label, "Tab");
}

#[test]
fn test_preserves_line_endings() {
    let mut pp = TabsPreprocessor::new();
    let input = "Line 1\nLine 2\n";
    let output = pp.process(input);

    assert_eq!(output, input);
}

#[test]
fn test_preserves_content_inside_tabs() {
    let mut pp = TabsPreprocessor::new();
    // Single ::: closes both tab and container
    let output = pp.process(
        r#"::: tabs
::: tab Test

# Heading

- List item
- Another item

```rust
fn main() {}
```

:::"#,
    );

    assert!(output.contains("# Heading"));
    assert!(output.contains("- List item"));
    assert!(output.contains("fn main() {}"));
}

#[test]
fn test_tilde_fence_skip() {
    let mut pp = TabsPreprocessor::new();
    let output = pp.process(
        r#"~~~
::: tabs
~~~"#,
    );

    // Should not parse ::: tabs inside fence
    assert!(!output.contains("<rw-tabs"));
    assert!(output.contains("::: tabs"));
}

#[test]
fn test_default() {
    let pp = TabsPreprocessor::default();
    assert!(pp.warnings().is_empty());
    assert!(pp.into_groups().is_empty());
}

#[test]
fn tab_metadata_records_the_line_of_each_tab() {
    let mut pp = TabsPreprocessor::new();
    let _ = pp.process("intro\n::: tabs\n::: tab A\na\n::: tab B\nb\n:::\n");
    let groups = pp.into_groups();
    assert_eq!(groups.len(), 1);
    assert_eq!(groups[0].tabs.len(), 2);
    assert_eq!(groups[0].tabs[0].id, 0);
    assert_eq!(groups[0].tabs[1].id, 1);
    assert_eq!(groups[0].tabs[0].line, 3);
    assert_eq!(groups[0].tabs[1].line, 5);
}
