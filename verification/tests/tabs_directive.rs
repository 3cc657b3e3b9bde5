use rw_renderer::directive::context::NoReader;
use rw_renderer::directive::{ContainerDirective, DirectiveArgs, DirectiveContext, DirectiveOutput, Fills, Part};
use rw_renderer::tabs::directive::TabsDirective;

fn open(tabs: &mut TabsDirective, name: &str, label: &str) -> DirectiveOutput {
    let reader = NoReader;
    let ctx = DirectiveContext::new(None, ".", 1, &reader);
    tabs.start_named(name, DirectiveArgs::parse(label, ""), &ctx)
}

fn html(out: DirectiveOutput) -> String {
    match out {
        DirectiveOutput::Html(h) => h,
        other => panic!("expected Html, got {other:?}"),
    }
}

#[test]
fn tabs_directive_group_with_two_tabs() {
    let mut tabs = TabsDirective::new();
    assert_eq!(tabs.name(), "tabs");
    assert!(tabs.matches("tabs"));
    assert!(tabs.matches("tab"));
    assert!(!tabs.matches("tabbed"));

    let group = open(&mut tabs, "tabs", "");
    assert_eq!(group, DirectiveOutput::Deferred(vec![Part::Hole(0)]));

    let first = html(open(&mut tabs, "tab", "A"));
    assert_eq!(first, r#"<div role="tabpanel" id="panel-0-0" aria-labelledby="tab-0-0">"#);
    assert_eq!(tabs.end(1), Some("</div>".to_owned()));

    let second = html(open(&mut tabs, "tab", "\"B\""));
    assert_eq!(second, r#"<div role="tabpanel" id="panel-0-1" aria-labelledby="tab-0-1" hidden>"#);
    assert_eq!(tabs.end(1), Some("</div>".to_owned()));

    assert_eq!(tabs.end(1), Some("</div>".to_owned()));
    assert!(tabs.warnings().is_empty());

    let mut fills = Fills::new();
    tabs.fills(&mut fills);
    let bar = fills.get(0).expect("the group's bar fills its hole");
    let expected = [
        r#"<div class="tabs" id="tabs-0">"#,
        r#"<div class="tabs-buttons" role="tablist">"#,
        r#"<button role="tab" id="tab-0-0" aria-controls="panel-0-0" aria-selected="true" tabindex="0">A</button>"#,
        r#"<button role="tab" id="tab-0-1" aria-controls="panel-0-1" aria-selected="false" tabindex="-1">B</button>"#,
        "</div>",
    ]
    .join("");
    assert_eq!(bar, expected);
}

#[test]
fn tabs_directive_label_defaults_and_is_escaped() {
    let mut tabs = TabsDirective::new();
    open(&mut tabs, "tabs", "");
    open(&mut tabs, "tab", "");
    tabs.end(1);
    open(&mut tabs, "tab", "'a<b'");
    tabs.end(1);
    tabs.end(1);
    let mut fills = Fills::new();
    tabs.fills(&mut fills);
    let bar = fills.get(0).unwrap();
    assert!(bar.contains(r#"tabindex="0">Tab</button>"#), "got: {bar}");
    assert!(bar.contains(r#"tabindex="-1">a&lt;b</button>"#), "got: {bar}");
}

#[test]
fn tabs_directive_lone_tab_renders_unwrapped_and_warns() {
    let mut tabs = TabsDirective::new();
    let out = html(open(&mut tabs, "tab", "Alone"));
    assert_eq!(out, "");
    assert_eq!(tabs.end(1), None);
    assert_eq!(tabs.warnings().len(), 1);
    assert!(tabs.warnings()[0].contains("outside a `::::tabs` group"));
}

#[test]
fn tabs_directive_empty_group_warns_and_keeps_its_bar() {
    let mut tabs = TabsDirective::new();
    open(&mut tabs, "tabs", "");
    assert_eq!(tabs.end(1), Some("</div>".to_owned()));
    assert_eq!(tabs.warnings().len(), 1);
    assert!(tabs.warnings()[0].contains("has no `:::tab` items"));
    let mut fills = Fills::new();
    tabs.fills(&mut fills);
    assert_eq!(
        fills.get(0),
        Some(r#"<div class="tabs" id="tabs-0"><div class="tabs-buttons" role="tablist"></div>"#)
    );
}

#[test]
fn tabs_directive_nested_groups_keep_both_bar_holes() {
    let mut tabs = TabsDirective::new();
    assert_eq!(open(&mut tabs, "tabs", ""), DirectiveOutput::Deferred(vec![Part::Hole(0)]));
    html(open(&mut tabs, "tab", "Outer"));
    assert_eq!(open(&mut tabs, "tabs", ""), DirectiveOutput::Deferred(vec![Part::Hole(1)]));
    let inner = html(open(&mut tabs, "tab", "Inner"));
    assert_eq!(inner, r#"<div role="tabpanel" id="panel-1-1" aria-labelledby="tab-1-1">"#);
    tabs.end(1);
    tabs.end(1);
    tabs.end(1);
    tabs.end(1);
    assert_eq!(tabs.end(1), None);
    let mut fills = Fills::new();
    tabs.fills(&mut fills);
    assert!(fills.get(0).unwrap().contains(">Outer</button>"));
    assert!(fills.get(1).unwrap().contains(">Inner</button>"));
    assert!(tabs.warnings().is_empty());
}

#[test]
fn tabs_directive_bare_start_opens_a_group() {
    let mut tabs = TabsDirective::new();
    let reader = NoReader;
    let ctx = DirectiveContext::new(None, ".", 1, &reader);
    let out = tabs.start(DirectiveArgs::parse("", ""), &ctx);
    assert_eq!(out, DirectiveOutput::Deferred(vec![Part::Hole(0)]));
}
