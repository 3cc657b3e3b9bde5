use rw_renderer::directive::fills::GlobalKey;
use rw_renderer::directive::fills::Source;
use rw_renderer::directive::processor::{BlockDispatch, ContainerOutcome};
use rw_renderer::directive::{
    ContainerDirective, DirectiveArgs, DirectiveContext, DirectiveOutput, DirectiveProcessor, DirectiveProcessorConfig,
    Fills, InlineDirective, LeafDirective, Part,
};

struct TestKbd;

impl InlineDirective for TestKbd {
    fn name(&self) -> &str {
        "kbd"
    }

    fn process(&mut self, args: DirectiveArgs, _ctx: &DirectiveContext) -> DirectiveOutput {
        DirectiveOutput::html(format!("<kbd>{}</kbd>", args.content()))
    }
}

struct TestYoutube;

impl LeafDirective for TestYoutube {
    fn name(&self) -> &str {
        "youtube"
    }

    fn process(&mut self, args: DirectiveArgs, _ctx: &DirectiveContext) -> DirectiveOutput {
        DirectiveOutput::html(format!(r#"<iframe src="https://www.youtube.com/embed/{}"></iframe>"#, args.content()))
    }

    fn warnings(&self) -> &[String] {
        &[]
    }
}

struct TestNote;

impl ContainerDirective for TestNote {
    fn name(&self) -> &str {
        "note"
    }

    fn matches(&self, name: &str) -> bool {
        name == self.name()
    }

    fn start(&mut self, args: DirectiveArgs, _ctx: &DirectiveContext) -> DirectiveOutput {
        let title = if args.content().is_empty() { "Note".to_owned() } else { args.content().to_owned() };
        DirectiveOutput::html(format!(r#"<div class="note" data-title="{title}">"#))
    }

    fn end(&mut self, _line: usize) -> Option<String> {
        Some("</div>".to_owned())
    }

    fn warnings(&self) -> &[String] {
        &[]
    }

    fn start_named(&mut self, _name: &str, args: DirectiveArgs, ctx: &DirectiveContext) -> DirectiveOutput {
        self.start(args, ctx)
    }
}

#[test]
fn test_config_builder() {
    let config = DirectiveProcessorConfig::new().with_base_dir("/docs").with_source_path("/docs/guide.md");

    assert_eq!(config.base_dir, "/docs");
    assert_eq!(config.source_path, Some("/docs/guide.md".to_owned()));
}

#[test]
fn dispatch_container_start_and_end() {
    let mut processor = DirectiveProcessor::new().with_container(TestNote);

    let (outcome, dispatch) = processor.dispatch_container_start("note", DirectiveArgs::parse("Important", ""));
    assert!(matches!(outcome, ContainerOutcome::Handled(0)));
    match dispatch {
        BlockDispatch::Html(html) => {
            assert!(html.contains(r#"<div class="note" data-title="Important">"#));
        }
        other => panic!("expected Html, got {other:?}"),
    }

    match processor.container_end(0) {
        BlockDispatch::Html(html) => assert_eq!(html, "</div>"),
        other => panic!("expected Html, got {other:?}"),
    }
}

#[test]
fn dispatch_container_unregistered_opener_is_literal() {
    let mut processor = DirectiveProcessor::new();

    let (outcome, dispatch) = processor.dispatch_container_start("foo", DirectiveArgs::parse("x", ".c"));
    assert!(matches!(outcome, ContainerOutcome::Literal));
    match dispatch {
        BlockDispatch::PassThrough(s) => assert_eq!(s, ":::foo[x]{.c}"),
        other => panic!("expected PassThrough, got {other:?}"),
    }
}

#[test]
fn dispatch_leaf_html_and_unregistered() {
    let mut processor = DirectiveProcessor::new().with_leaf(TestYoutube);

    match processor.dispatch_leaf("youtube", DirectiveArgs::parse("abc", "")) {
        BlockDispatch::Html(html) => assert!(html.contains("abc")),
        other => panic!("expected Html, got {other:?}"),
    }

    match processor.dispatch_leaf("missing", DirectiveArgs::parse("y", "")) {
        BlockDispatch::PassThrough(s) => assert_eq!(s, "::missing[y]"),
        other => panic!("expected PassThrough, got {other:?}"),
    }
}

struct SkipContainer;

impl ContainerDirective for SkipContainer {
    fn name(&self) -> &str {
        "skipme"
    }

    fn matches(&self, name: &str) -> bool {
        name == self.name()
    }

    fn start(&mut self, _a: DirectiveArgs, _c: &DirectiveContext) -> DirectiveOutput {
        DirectiveOutput::Skip
    }

    fn end(&mut self, _line: usize) -> Option<String> {
        Some("SHOULD-NOT-APPEAR".to_owned())
    }

    fn warnings(&self) -> &[String] {
        &[]
    }

    fn start_named(&mut self, _name: &str, args: DirectiveArgs, ctx: &DirectiveContext) -> DirectiveOutput {
        self.start(args, ctx)
    }
}

#[test]
fn dispatch_container_skip_is_literal() {
    let mut processor = DirectiveProcessor::new().with_container(SkipContainer);

    let (outcome, dispatch) = processor.dispatch_container_start("skipme", DirectiveArgs::default());
    assert!(matches!(outcome, ContainerOutcome::Literal));
    match dispatch {
        BlockDispatch::PassThrough(s) => assert_eq!(s, ":::skipme"),
        other => panic!("expected PassThrough, got {other:?}"),
    }
}

#[test]
fn dispatch_inline_expands_a_registered_name() {
    let mut processor = DirectiveProcessor::new().with_inline(TestKbd);
    let out = processor.dispatch_inline_named("kbd", DirectiveArgs::parse("Ctrl+C", ""));
    assert_eq!(out, DirectiveOutput::Html("<kbd>Ctrl+C</kbd>".to_owned()));
}

#[test]
fn a_second_handler_under_one_name_warns() {
    let processor = DirectiveProcessor::new().with_inline(TestKbd).with_inline(TestKbd);
    let warnings = processor.warnings();
    assert_eq!(warnings.len(), 1);
    assert!(warnings[0].contains("':kbd'"), "{warnings:?}");
    let processor = DirectiveProcessor::new().with_leaf(TestYoutube).with_container(TestNote);
    assert!(processor.warnings().is_empty());
}

struct DeferringLeaf;

impl LeafDirective for DeferringLeaf {
    fn name(&self) -> &str {
        "later"
    }

    fn process(&mut self, _args: DirectiveArgs, _ctx: &DirectiveContext) -> DirectiveOutput {
        DirectiveOutput::deferred(vec![Part::Hole(3)])
    }

    fn fills(&mut self, fills: &mut Fills) {
        fills.set(3, "<later/>".to_owned());
    }

    fn warnings(&self) -> &[String] {
        &[]
    }
}

#[test]
fn deferred_leaf_output_is_keyed_by_its_handler() {
    let mut processor = DirectiveProcessor::new().with_leaf(TestYoutube).with_leaf(DeferringLeaf);
    match processor.dispatch_leaf("later", DirectiveArgs::default()) {
        BlockDispatch::Deferred { parts, source } => {
            assert_eq!(parts, vec![Part::Hole(3)]);
            assert_eq!(source, Source::Leaf(1));
        }
        other => panic!("expected Deferred, got {other:?}"),
    }
    let fills = processor.collect_fills();
    assert_eq!(fills.get(GlobalKey(Source::Leaf(1), 3)), Some("<later/>"));
    assert_eq!(fills.get(GlobalKey(Source::Leaf(0), 3)), None);
}

#[test]
fn config_defaults_to_the_current_directory() {
    let config = DirectiveProcessorConfig::default();
    assert_eq!(config.base_dir, ".");
    assert_eq!(config.source_path, None);
    assert!(config.read_file.is_none());
}

#[test]
fn duplicate_registrations_warn_with_the_exact_message() {
    let processor = DirectiveProcessor::new().with_leaf(TestYoutube).with_leaf(TestYoutube);
    assert_eq!(
        processor.warnings(),
        vec!["leaf directive '::youtube' is registered more than once; only the first handler will be dispatched".to_owned()]
    );
    let processor = DirectiveProcessor::new().with_container(TestNote).with_container(TestNote);
    assert_eq!(
        processor.warnings(),
        vec!["container directive ':::note' is registered more than once; only the first handler will be dispatched".to_owned()]
    );
}

#[test]
fn dispatch_goes_to_the_first_handler_under_a_name() {
    let mut processor = DirectiveProcessor::new().with_leaf(DeferringLeaf).with_leaf(DeferringLeaf);
    match processor.dispatch_leaf("later", DirectiveArgs::default()) {
        BlockDispatch::Deferred { source, .. } => assert_eq!(source, Source::Leaf(0)),
        other => panic!("expected Deferred, got {other:?}"),
    }
}

struct WarningLeaf {
    warnings: Vec<String>,
}

impl LeafDirective for WarningLeaf {
    fn name(&self) -> &str {
        "wl"
    }

    fn process(&mut self, _args: DirectiveArgs, _ctx: &DirectiveContext) -> DirectiveOutput {
        DirectiveOutput::Skip
    }

    fn warnings(&self) -> &[String] {
        &self.warnings
    }
}

struct WarningBox {
    warnings: Vec<String>,
}

impl ContainerDirective for WarningBox {
    fn name(&self) -> &str {
        "wb"
    }

    fn matches(&self, name: &str) -> bool {
        name == "wb" || name == "box"
    }

    fn start(&mut self, _a: DirectiveArgs, _c: &DirectiveContext) -> DirectiveOutput {
        DirectiveOutput::html("<div>".to_owned())
    }

    fn end(&mut self, _line: usize) -> Option<String> {
        Some("</div>".to_owned())
    }

    fn warnings(&self) -> &[String] {
        &self.warnings
    }

    fn start_named(&mut self, _name: &str, args: DirectiveArgs, ctx: &DirectiveContext) -> DirectiveOutput {
        self.start(args, ctx)
    }
}

#[test]
fn warnings_are_own_then_leaf_then_container_handlers() {
    let processor = DirectiveProcessor::new()
        .with_inline(TestKbd)
        .with_inline(TestKbd)
        .with_container(WarningBox { warnings: vec!["c1".to_owned(), "c2".to_owned()] })
        .with_leaf(WarningLeaf { warnings: vec!["l1".to_owned()] });
    let warnings = processor.warnings();
    assert_eq!(warnings.len(), 4);
    assert!(warnings[0].contains("':kbd'"));
    assert_eq!(&warnings[1..], &["l1".to_owned(), "c1".to_owned(), "c2".to_owned()]);
}

#[test]
fn container_start_goes_to_the_first_handler_that_answers() {
    let mut processor = DirectiveProcessor::new()
        .with_container(TestNote)
        .with_container(WarningBox { warnings: Vec::new() });
    let (outcome, dispatch) = processor.dispatch_container_start("box", DirectiveArgs::default());
    assert!(matches!(outcome, ContainerOutcome::Handled(1)));
    assert!(matches!(dispatch, BlockDispatch::Html(ref h) if h == "<div>"));
    let (outcome, _) = processor.dispatch_container_start("note", DirectiveArgs::default());
    assert!(matches!(outcome, ContainerOutcome::Handled(0)));
}
