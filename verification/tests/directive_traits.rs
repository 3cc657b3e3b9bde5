use rw_renderer::directive::context::NoReader;
use rw_renderer::directive::{
    ContainerDirective, DirectiveArgs, DirectiveContext, DirectiveOutput, InlineDirective, LeafDirective, Marker,
    Part, Replacements,
};

struct TestNote;

impl ContainerDirective for TestNote {
    fn name(&self) -> &str {
        "note"
    }

    fn matches(&self, name: &str) -> bool {
        name == self.name()
    }

    fn start(&mut self, args: DirectiveArgs, _ctx: &DirectiveContext) -> DirectiveOutput {
        let title = if args.content().is_empty() { "Note" } else { args.content() };
        DirectiveOutput::html(format!(r#"<div class="note" data-title="{title}">"#))
    }

    fn end(&mut self, _line: usize) -> Option<String> {
        Some("</div>".to_owned())
    }

    fn warnings(&self) -> &[String] {
        &[]
    }

    fn start_named(&mut self, _name: &str, args: DirectiveArgs, ctx: &DirectiveContext) -> DirectiveOutput {
        self.start(args, ctx)
    }
}

struct TestDetails {
    stack: Vec<usize>,
}

impl TestDetails {
    fn new() -> Self {
        Self { stack: Vec::new() }
    }}

impl ContainerDirective for TestDetails {
    fn name(&self) -> &str {
        "details"
    }

    fn matches(&self, name: &str) -> bool {
        name == self.name()
    }

    fn start(&mut self, args: DirectiveArgs, ctx: &DirectiveContext) -> DirectiveOutput {
        self.stack.push(ctx.line());
        let summary = if args.content().is_empty() { "Details" } else { args.content() };
        DirectiveOutput::html(format!("<details><summary>{summary}</summary><div class=\"details-body\">"))
    }

    fn end(&mut self, _line: usize) -> Option<String> {
        self.stack.pop().expect("end() called without matching start()");
        Some("</div></details>".to_owned())
    }

    fn warnings(&self) -> &[String] {
        &[]
    }

    fn start_named(&mut self, _name: &str, args: DirectiveArgs, ctx: &DirectiveContext) -> DirectiveOutput {
        self.start(args, ctx)
    }
}

#[test]
fn container_test_container_start() {
    let mut note = TestNote;
    let reader = NoReader;
    let ctx = DirectiveContext::new(None, ".", 1, &reader);

    let args = DirectiveArgs::parse("Important", "");
    let output = note.start(args, &ctx);

    assert!(matches!(output, DirectiveOutput::Html(s) if s.contains("Important")));
}

#[test]
fn container_test_container_end() {
    let mut note = TestNote;
    let output = note.end(10);
    assert_eq!(output, Some("</div>".to_owned()));
}

#[test]
fn test_container_with_stack() {
    let mut details = TestDetails::new();
    let reader = NoReader;
    let ctx = DirectiveContext::new(None, ".", 5, &reader);

    let args = DirectiveArgs::parse("Click to expand", "");
    let start_output = details.start(args, &ctx);
    assert!(matches!(start_output, DirectiveOutput::Html(s) if s.contains("Click to expand")));

    let end_output = details.end(10);
    assert_eq!(end_output, Some("</div></details>".to_owned()));
}

#[test]
fn container_test_default_warnings() {
    let note = TestNote;
    assert!(note.warnings().is_empty());
}

#[test]
fn container_defaults_match_own_name_and_open_a_scope() {
    let mut note = TestNote;
    assert!(note.matches("note"));
    assert!(!note.matches("notes"));
    assert!(note.opened_scope());
    let reader = NoReader;
    let ctx = DirectiveContext::new(None, ".", 1, &reader);
    let out = note.start_named("note", DirectiveArgs::parse("", ""), &ctx);
    assert_eq!(out, DirectiveOutput::Html(r#"<div class="note" data-title="Note">"#.to_owned()));
}

struct TestKbd;

impl InlineDirective for TestKbd {
    fn name(&self) -> &str {
        "kbd"
    }

    fn process(&mut self, args: DirectiveArgs, _ctx: &DirectiveContext) -> DirectiveOutput {
        DirectiveOutput::html(format!("<kbd>{}</kbd>", args.content()))
    }
}

#[test]
fn inline_test_inline_directive() {
    let mut kbd = TestKbd;
    let reader = NoReader;
    let ctx = DirectiveContext::new(None, ".", 1, &reader);

    let args = DirectiveArgs::parse("Ctrl+C", "");
    let output = kbd.process(args, &ctx);

    assert_eq!(output, DirectiveOutput::Html("<kbd>Ctrl+C</kbd>".to_owned()));
}

#[test]
fn test_inline_directive_name() {
    let kbd = TestKbd;
    assert_eq!(kbd.name(), "kbd");
}

#[test]
fn test_default_post_process() {
    let mut kbd = TestKbd;
    let mut replacements = Replacements::new();
    kbd.post_process(&mut replacements);
    assert!(replacements.is_empty());}

struct TestYoutube;

impl LeafDirective for TestYoutube {
    fn name(&self) -> &str {
        "youtube"
    }

    fn process(&mut self, args: DirectiveArgs, _ctx: &DirectiveContext) -> DirectiveOutput {
        DirectiveOutput::html(format!(r#"<iframe src="https://www.youtube.com/embed/{}"></iframe>"#, args.content()))
    }

    fn warnings(&self) -> &[String] {
        &[]
    }
}

#[test]
fn leaf_test_leaf_directive() {
    let mut youtube = TestYoutube;
    let reader = NoReader;
    let ctx = DirectiveContext::new(None, ".", 1, &reader);

    let args = DirectiveArgs::parse("dQw4w9WgXcQ", "");
    let output = youtube.process(args, &ctx);

    assert!(matches!(output, DirectiveOutput::Html(s) if s.contains("dQw4w9WgXcQ")));
}

#[test]
fn leaf_test_default_warnings() {
    let youtube = TestYoutube;
    assert!(youtube.warnings().is_empty());
}

#[test]
fn test_new_has_no_attrs() {
    let marker = Marker::new("status");
    assert_eq!(marker.name, "status");
    assert_eq!(marker.attr("color"), None);
}

#[test]
fn test_attr_returns_first_of_duplicate_keys() {
    let marker = Marker::new("status").with_attr("color", "green").with_attr("color", "red");
    assert_eq!(marker.attr("color"), Some("green"));
}

#[test]
fn test_html() {
    let output = DirectiveOutput::html("<p>test</p>");
    assert_eq!(output, DirectiveOutput::Html("<p>test</p>".to_owned()));
}

#[test]
fn test_skip() {
    let output = DirectiveOutput::Skip;
    assert_eq!(output, DirectiveOutput::Skip);
}

#[test]
fn test_html_from_string() {
    let s = String::from("<div>content</div>");
    let output = DirectiveOutput::html(s);
    assert!(matches!(output, DirectiveOutput::Html(_)));
}

#[test]
fn deferred_output_keeps_its_parts() {
    let output = DirectiveOutput::deferred(vec![Part::Hole(0), Part::Html("<p>body</p>".to_owned())]);
    assert_eq!(output, DirectiveOutput::Deferred(vec![Part::Hole(0), Part::Html("<p>body</p>".to_owned())]));
}
